//! The front end. For now it scans a source to its end and lists the tokens,
//! marking where a new line begins; it emits no bytecode yet.

use vstd::prelude::*;
use crate::scanner::{lemma_next_token, next_token, token_stream, Scanner};
use crate::token::{Token, TokenType};

verus! {

/// One entry of a token listing.
#[derive(Debug, Clone, Copy, PartialEq, Eq, Structural)]
pub struct ListedToken {
    pub token: Token,
    /// Whether the token's line differs from that of the token before it.
    /// A listing shows the line number only where this holds.
    pub new_line: bool,
}

/// The listing of a token sequence: each token, and whether it is the first
/// of the sequence or on another line than its predecessor.
pub open spec fn listing(tokens: Seq<Token>) -> Seq<ListedToken> {
    Seq::new(
        tokens.len(),
        |i: int|
            ListedToken {
                token: tokens[i],
                new_line: i == 0 || tokens[i].line != tokens[i - 1].line,
            },
    )
}

/// Scans `source` to its end and returns the listing of its tokens, the
/// closing `Eof` included.
pub fn compile(source: &[u8]) -> (lines: Vec<ListedToken>)
    requires
        source@.len() < usize::MAX,
    ensures
        lines@ == listing(token_stream(source@, 0)),
{
    let mut lines: Vec<ListedToken> = Vec::new();
    let mut line: Option<usize> = None;
    let mut scanner = Scanner::new(source);
    let ghost mut tokens: Seq<Token> = Seq::empty();
    loop
        invariant_except_break
            tokens + token_stream(source@, scanner.position()) == token_stream(source@, 0),
        invariant
            scanner.wf(),
            scanner.source() == source@,
            0 <= scanner.position() <= source@.len() < usize::MAX,
            lines@ == listing(tokens),
            line == (if tokens.len() == 0 {
                None
            } else {
                Some(tokens.last().line)
            }),
        ensures
            lines@ == listing(token_stream(source@, 0)),
        decreases source@.len() - scanner.position(),
    {
        let ghost before = scanner.position();
        let token = scanner.get_token();
        proof {
            lemma_next_token(source@, before);
            assert(token_stream(source@, before) == if token.ttype == TokenType::Eof {
                seq![token]
            } else {
                seq![token] + token_stream(source@, scanner.position())
            });
        }
        let new_line = match line {
            Some(previous) => token.line != previous,
            None => true,
        };
        line = Some(token.line);
        lines.push(ListedToken { token, new_line });
        proof {
            assert(listing(tokens.push(token)) == listing(tokens).push(
                ListedToken { token, new_line },
            ));
            if token.ttype != TokenType::Eof {
                assert(tokens.push(token) + token_stream(source@, scanner.position()) == tokens
                    + (seq![token] + token_stream(source@, scanner.position())));
            } else {
                assert(tokens.push(token) == tokens + seq![token]);
            }
            tokens = tokens.push(token);
        }
        if token.ttype == TokenType::Eof {
            assert(tokens == token_stream(source@, 0));
            break ;
        }
    }
    lines
}

} // verus!
