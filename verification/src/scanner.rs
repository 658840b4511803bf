//! The scanner: a single pass over the source bytes that hands out one token
//! per call and never copies the text.
//!
//! A source ends at its first NUL byte, or at its last byte where it holds
//! none. What the scanner returns is stated by `next_token`, a function of the
//! source and of the offset where scanning resumes.

use vstd::prelude::*;
use vstd::string::is_ascii_spec_bytes;
use crate::token::{Lexeme, ScanError, Token, TokenType};

verus! {

/// The byte at offset `i`; past the last byte a source reads as NUL.
pub open spec fn byte_at(src: Seq<u8>, i: int) -> u8 {
    if 0 <= i < src.len() {
        src[i]
    } else {
        0
    }
}

/// A decimal digit.
#[verifier::allow_in_spec]
pub fn is_digit(c: u8) -> bool
    returns
        ('0' as u8 <= c && c <= '9' as u8),
{
    '0' as u8 <= c && c <= '9' as u8
}

/// A letter or an underscore: what an identifier may start with.
#[verifier::allow_in_spec]
pub fn is_alpha(c: u8) -> bool
    returns
        (('a' as u8 <= c && c <= 'z' as u8) || ('A' as u8 <= c && c <= 'Z' as u8) || c == '_' as u8),
{
    ('a' as u8 <= c && c <= 'z' as u8) || ('A' as u8 <= c && c <= 'Z' as u8) || c == '_' as u8
}

/// Whitespace between tokens.
pub open spec fn is_blank(c: u8) -> bool {
    c == ' ' as u8 || c == '\r' as u8 || c == '\t' as u8 || c == '\n' as u8
}

/// The line of the byte at offset `pos`: one more than the number of
/// newlines before it.
pub open spec fn line_at(src: Seq<u8>, pos: int) -> int
    decreases pos,
{
    if pos <= 0 {
        1
    } else if byte_at(src, pos - 1) == '\n' as u8 {
        line_at(src, pos - 1) + 1
    } else {
        line_at(src, pos - 1)
    }
}

/// The kinds of byte runs that make up the longer tokens.
pub enum Class {
    /// Decimal digits.
    Digit,
    /// Letters, digits and underscores.
    Word,
    /// Everything up to the closing quote of a string literal.
    StringBody,
}

/// Whether byte `c` belongs to a run of the given class. NUL belongs to none.
pub open spec fn in_class(class: Class, c: u8) -> bool {
    match class {
        Class::Digit => is_digit(c),
        Class::Word => is_alpha(c) || is_digit(c),
        Class::StringBody => c != '"' as u8 && c != 0,
    }
}

/// Where the run of `class` bytes that starts at `pos` ends: the offset of
/// the first byte at or after `pos` that is not in the class.
pub open spec fn run_end(src: Seq<u8>, pos: int, class: Class) -> int
    decreases src.len() - pos,
{
    if 0 <= pos < src.len() && in_class(class, src[pos]) {
        run_end(src, pos + 1, class)
    } else {
        pos
    }
}

/// Where the next token starts: the first offset at or after `pos` that is
/// neither whitespace nor inside a line comment. A comment runs from `//` to
/// the end of its line; `in_comment` says whether `pos` lies inside one.
pub open spec fn skip_noise(src: Seq<u8>, pos: int, in_comment: bool) -> int
    decreases src.len() - pos,
{
    let c = byte_at(src, pos);
    if c == 0 {
        pos
    } else if in_comment {
        skip_noise(src, pos + 1, c != '\n' as u8)
    } else if is_blank(c) {
        skip_noise(src, pos + 1, false)
    } else if c == '/' as u8 && byte_at(src, pos + 1) == '/' as u8 {
        skip_noise(src, pos + 1, true)
    } else {
        pos
    }
}

/// The token that a single byte makes on its own, whatever follows it.
pub open spec fn punctuation(c: u8) -> Option<TokenType> {
    if c == '(' as u8 {
        Some(TokenType::LeftParen)
    } else if c == ')' as u8 {
        Some(TokenType::RightParen)
    } else if c == '{' as u8 {
        Some(TokenType::LeftBrace)
    } else if c == '}' as u8 {
        Some(TokenType::RightBrace)
    } else if c == ',' as u8 {
        Some(TokenType::Comma)
    } else if c == '.' as u8 {
        Some(TokenType::Dot)
    } else if c == '-' as u8 {
        Some(TokenType::Minus)
    } else if c == '+' as u8 {
        Some(TokenType::Plus)
    } else if c == ';' as u8 {
        Some(TokenType::Semicolon)
    } else if c == '?' as u8 {
        Some(TokenType::QuestionMark)
    } else if c == '/' as u8 {
        Some(TokenType::Slash)
    } else if c == '*' as u8 {
        Some(TokenType::Star)
    } else {
        None
    }
}

/// The operators that a following `=` extends: the token of the byte alone
/// and the token of the byte with `=`.
pub open spec fn comparison(c: u8) -> Option<(TokenType, TokenType)> {
    if c == '!' as u8 {
        Some((TokenType::Bang, TokenType::BangEqual))
    } else if c == '=' as u8 {
        Some((TokenType::Equal, TokenType::EqualEqual))
    } else if c == '>' as u8 {
        Some((TokenType::Greater, TokenType::GreaterEqual))
    } else if c == '<' as u8 {
        Some((TokenType::Less, TokenType::LessEqual))
    } else {
        None
    }
}

/// Whether the bytes of `lexeme` spell `word`.
pub open spec fn spells(lexeme: Seq<u8>, word: Seq<char>) -> bool {
    &&& lexeme.len() == word.len()
    &&& forall|i: int| 0 <= i < word.len() ==> lexeme[i] == #[trigger] word[i] as u8
}

/// The kind of a word: one of the sixteen reserved words, or an identifier.
pub open spec fn keyword(lexeme: Seq<u8>) -> TokenType {
    if spells(lexeme, "and"@) {
        TokenType::And
    } else if spells(lexeme, "class"@) {
        TokenType::Class
    } else if spells(lexeme, "else"@) {
        TokenType::Else
    } else if spells(lexeme, "false"@) {
        TokenType::False
    } else if spells(lexeme, "for"@) {
        TokenType::For
    } else if spells(lexeme, "fun"@) {
        TokenType::Fun
    } else if spells(lexeme, "if"@) {
        TokenType::If
    } else if spells(lexeme, "nil"@) {
        TokenType::Nil
    } else if spells(lexeme, "or"@) {
        TokenType::Or
    } else if spells(lexeme, "print"@) {
        TokenType::Print
    } else if spells(lexeme, "return"@) {
        TokenType::Return
    } else if spells(lexeme, "super"@) {
        TokenType::Super
    } else if spells(lexeme, "this"@) {
        TokenType::This
    } else if spells(lexeme, "true"@) {
        TokenType::True
    } else if spells(lexeme, "var"@) {
        TokenType::Var
    } else if spells(lexeme, "while"@) {
        TokenType::While
    } else {
        TokenType::Identifier
    }
}

/// Whether `lexeme` is `start` bytes followed by exactly the bytes of `rest`.
pub open spec fn ends_with(lexeme: Seq<u8>, start: int, rest: Seq<char>) -> bool {
    &&& lexeme.len() == start + rest.len()
    &&& forall|i: int| 0 <= i < rest.len() ==> lexeme[start + i] == #[trigger] rest[i] as u8
}

/// Where the number that starts at `start` ends: after its digits, and after
/// a fraction where a dot and at least one digit follow them.
pub open spec fn number_end(src: Seq<u8>, start: int) -> int {
    let whole = run_end(src, start, Class::Digit);
    if byte_at(src, whole) == '.' as u8 && is_digit(byte_at(src, whole + 1)) {
        run_end(src, whole + 1, Class::Digit)
    } else {
        whole
    }
}

/// The kind of the token that starts at `start`, and the offset where it
/// ends. `start` is where `skip_noise` stopped.
pub open spec fn classify(src: Seq<u8>, start: int) -> (TokenType, int) {
    let c = byte_at(src, start);
    if c == 0 {
        (TokenType::Eof, start)
    } else if let Some(kind) = punctuation(c) {
        (kind, start + 1)
    } else if let Some((alone, extended)) = comparison(c) {
        if byte_at(src, start + 1) == '=' as u8 {
            (extended, start + 2)
        } else {
            (alone, start + 1)
        }
    } else if c == '"' as u8 {
        let close = run_end(src, start + 1, Class::StringBody);
        if byte_at(src, close) == '"' as u8 {
            (TokenType::String, close + 1)
        } else {
            (TokenType::Error, close)
        }
    } else if is_digit(c) {
        (TokenType::Number, number_end(src, start))
    } else if is_alpha(c) {
        let end = run_end(src, start, Class::Word);
        (keyword(src.subrange(start, end)), end)
    } else {
        (TokenType::Error, start + 1)
    }
}

/// Why no token could be formed at `start`, where `classify` says `Error`.
pub open spec fn diagnosis(src: Seq<u8>, start: int) -> ScanError {
    if byte_at(src, start) == '"' as u8 {
        ScanError::UnterminatedString
    } else {
        ScanError::UnexpectedCharacter
    }
}

/// The token of kind `kind` that spans `start..end`. Its line is the line on
/// which it ends.
pub open spec fn token_of(src: Seq<u8>, start: int, kind: TokenType, end: int) -> Token {
    Token {
        ttype: kind,
        lexeme: if kind == TokenType::Error {
            Lexeme::Message(diagnosis(src, start))
        } else {
            Lexeme::Source { start: start as usize, length: (end - start) as usize }
        },
        line: line_at(src, end) as usize,
    }
}

/// The token that a scanner at offset `pos` returns, and the offset at which
/// it then stands.
pub open spec fn next_token(src: Seq<u8>, pos: int) -> (Token, int) {
    let start = skip_noise(src, pos, false);
    let (kind, end) = classify(src, start);
    (token_of(src, start, kind, end), end)
}

/// A line number never exceeds the number of bytes before it by more than one.
pub proof fn lemma_line_bounds(src: Seq<u8>, pos: int)
    ensures
        1 <= line_at(src, pos),
        0 <= pos ==> line_at(src, pos) <= pos + 1,
        pos <= 0 ==> line_at(src, pos) == 1,
    decreases pos,
{
    if pos > 0 {
        lemma_line_bounds(src, pos - 1);
    }
}

/// A run ends inside the source, on a byte that is not of its class, and
/// holds only bytes of its class.
pub proof fn lemma_run_end(src: Seq<u8>, pos: int, class: Class)
    requires
        0 <= pos <= src.len(),
    ensures
        pos <= run_end(src, pos, class) <= src.len(),
        !in_class(class, byte_at(src, run_end(src, pos, class))),
        forall|i: int| pos <= i < run_end(src, pos, class) ==> in_class(class, #[trigger] src[i]),
    decreases src.len() - pos,
{
    if pos < src.len() && in_class(class, src[pos]) {
        lemma_run_end(src, pos + 1, class);
    }
}

/// Skipping noise stops inside the source, on a byte that starts a token
/// or ends the source.
pub proof fn lemma_skip_noise(src: Seq<u8>, pos: int, in_comment: bool)
    requires
        0 <= pos <= src.len(),
    ensures
        pos <= skip_noise(src, pos, in_comment) <= src.len(),
        !is_blank(byte_at(src, skip_noise(src, pos, in_comment))),
        skip_noise(src, skip_noise(src, pos, in_comment), false) == skip_noise(
            src,
            pos,
            in_comment,
        ),
    decreases src.len() - pos,
{
    let c = byte_at(src, pos);
    if c == 0 {
    } else if in_comment {
        lemma_skip_noise(src, pos + 1, c != '\n' as u8);
    } else if is_blank(c) {
        lemma_skip_noise(src, pos + 1, false);
    } else if c == '/' as u8 && byte_at(src, pos + 1) == '/' as u8 {
        lemma_skip_noise(src, pos + 1, true);
    }
}


/// What every token has: the scanner moves forward and stays inside the
/// source, moves at all unless it returns `Eof`, and returns a well-formed
/// token that lies inside the source and carries the line on which the
/// scanner then stands.
pub proof fn lemma_next_token(src: Seq<u8>, pos: int)
    requires
        0 <= pos <= src.len() < usize::MAX,
    ensures
        pos <= next_token(src, pos).1 <= src.len(),
        next_token(src, pos).0.ttype != TokenType::Eof ==> pos < next_token(src, pos).1,
        next_token(src, pos).0.wf(),
        next_token(src, pos).0.fits(src.len()),
        next_token(src, pos).0.line == line_at(src, next_token(src, pos).1),
        next_token(src, pos).0.lexeme matches Lexeme::Source { start, length } ==> pos <= start
            && start + length == next_token(src, pos).1,
{
    let start = skip_noise(src, pos, false);
    lemma_skip_noise(src, pos, false);
    lemma_run_end(src, start, Class::Digit);
    lemma_run_end(src, start, Class::Word);
    let whole = run_end(src, start, Class::Digit);
    if whole + 1 <= src.len() {
        lemma_run_end(src, whole + 1, Class::Digit);
    }
    if start + 1 <= src.len() {
        lemma_run_end(src, start + 1, Class::StringBody);
    }
    let end = classify(src, start).1;
    lemma_line_bounds(src, end);
    lemma_keyword_is_word(src.subrange(start, run_end(src, start, Class::Word)));
}

/// Once the scanner has returned `Eof`, it returns the same token again
/// and stays where it is.
pub proof fn lemma_eof_repeats(src: Seq<u8>, pos: int)
    requires
        0 <= pos <= src.len(),
        next_token(src, pos).0.ttype == TokenType::Eof,
    ensures
        next_token(src, next_token(src, pos).1) == next_token(src, pos),
{
    let start = skip_noise(src, pos, false);
    lemma_skip_noise(src, pos, false);
    lemma_run_end(src, start, Class::Digit);
    lemma_run_end(src, start, Class::Word);
    lemma_keyword_is_word(src.subrange(start, run_end(src, start, Class::Word)));
}

/// A word is a reserved word or an identifier, never another kind.
pub proof fn lemma_keyword_is_word(lexeme: Seq<u8>)
    ensures
        keyword(lexeme) != TokenType::Eof,
        keyword(lexeme) != TokenType::Error,
        keyword(lexeme) != TokenType::Number,
        keyword(lexeme) != TokenType::String,
{
}

/// All the tokens of a source from offset `pos` on, up to and including the
/// first `Eof`.
pub open spec fn token_stream(src: Seq<u8>, pos: int) -> Seq<Token>
    decreases src.len() - pos,
    when 0 <= pos <= src.len() < usize::MAX
    via token_stream_decreases
{
    let (token, next) = next_token(src, pos);
    if token.ttype == TokenType::Eof {
        seq![token]
    } else {
        seq![token] + token_stream(src, next)
    }
}

#[via_fn]
proof fn token_stream_decreases(src: Seq<u8>, pos: int) {
    lemma_next_token(src, pos);
}

/// A token stream is finite and not empty, its last token is `Eof` and no
/// other is, and each of its tokens is well formed and lies inside the
/// source.
pub proof fn lemma_token_stream(src: Seq<u8>, pos: int)
    requires
        0 <= pos <= src.len() < usize::MAX,
    ensures
        token_stream(src, pos).len() >= 1,
        token_stream(src, pos).last().ttype == TokenType::Eof,
        forall|i: int|
            0 <= i < token_stream(src, pos).len() - 1 ==> (#[trigger] token_stream(
                src,
                pos,
            )[i]).ttype != TokenType::Eof,
        forall|i: int|
            0 <= i < token_stream(src, pos).len() ==> (#[trigger] token_stream(src, pos)[i]).wf()
                && token_stream(src, pos)[i].fits(src.len()),
    decreases src.len() - pos,
{
    lemma_next_token(src, pos);
    let (token, next) = next_token(src, pos);
    if token.ttype != TokenType::Eof {
        lemma_token_stream(src, next);
    }
}

/// A word is spelled by a lexeme exactly where its first letter and the
/// rest are.
proof fn lemma_split_first(lexeme: Seq<u8>, word: Seq<char>, rest: Seq<char>)
    requires
        1 <= word.len(),
        rest == word.subrange(1, word.len() as int),
    ensures
        spells(lexeme, word) <==> lexeme[0] == word[0] as u8 && ends_with(lexeme, 1, rest),
{
    if spells(lexeme, word) {
        assert forall|i: int| 0 <= i < rest.len() implies lexeme[1 + i] == #[trigger] rest[i] as u8 by {
            assert(rest[i] == word[1 + i]);
        }
    }
    if lexeme[0] == word[0] as u8 && ends_with(lexeme, 1, rest) {
        assert forall|i: int| 0 <= i < word.len() implies lexeme[i] == #[trigger] word[i] as u8 by {
            if i >= 1 {
                assert(rest[i - 1] == word[i]);
            }
        }
    }
}

/// A word is spelled by a lexeme exactly where its first two letters and
/// the rest are.
proof fn lemma_split_second(lexeme: Seq<u8>, word: Seq<char>, rest: Seq<char>)
    requires
        2 <= word.len(),
        rest == word.subrange(2, word.len() as int),
    ensures
        spells(lexeme, word) <==> lexeme[0] == word[0] as u8 && lexeme[1] == word[1] as u8
            && ends_with(lexeme, 2, rest),
{
    if spells(lexeme, word) {
        assert forall|i: int| 0 <= i < rest.len() implies lexeme[2 + i] == #[trigger] rest[i] as u8 by {
            assert(rest[i] == word[2 + i]);
        }
    }
    if lexeme[0] == word[0] as u8 && lexeme[1] == word[1] as u8 && ends_with(lexeme, 2, rest) {
        assert forall|i: int| 0 <= i < word.len() implies lexeme[i] == #[trigger] word[i] as u8 by {
            if i >= 2 {
                assert(rest[i - 2] == word[i]);
            }
        }
    }
}

/// The scanner's dispatch on the first letters of a word finds the reserved
/// words, and nothing else.
proof fn lemma_dispatch(lexeme: Seq<u8>, kind: TokenType)
    requires
        lexeme.len() >= 1,
        kind == dispatch(lexeme),
    ensures
        kind == keyword(lexeme),
{
    reveal_strlit("nd");
    reveal_strlit("lass");
    reveal_strlit("lse");
    reveal_strlit("r");
    reveal_strlit("n");
    reveal_strlit("f");
    reveal_strlit("il");
    reveal_strlit("rint");
    reveal_strlit("eturn");
    reveal_strlit("uper");
    reveal_strlit("is");
    reveal_strlit("ue");
    reveal_strlit("ar");
    reveal_strlit("hile");
    reveal_strlit("and");
    reveal_strlit("class");
    reveal_strlit("else");
    reveal_strlit("false");
    reveal_strlit("for");
    reveal_strlit("fun");
    reveal_strlit("if");
    reveal_strlit("nil");
    reveal_strlit("or");
    reveal_strlit("print");
    reveal_strlit("return");
    reveal_strlit("super");
    reveal_strlit("this");
    reveal_strlit("true");
    reveal_strlit("var");
    reveal_strlit("while");
    assert("nd"@ =~= "and"@.subrange(1, 3));
    assert("lass"@ =~= "class"@.subrange(1, 5));
    assert("lse"@ =~= "else"@.subrange(1, 4));
    assert("lse"@ =~= "false"@.subrange(2, 5));
    assert("r"@ =~= "for"@.subrange(2, 3));
    assert("n"@ =~= "fun"@.subrange(2, 3));
    assert("f"@ =~= "if"@.subrange(1, 2));
    assert("il"@ =~= "nil"@.subrange(1, 3));
    assert("r"@ =~= "or"@.subrange(1, 2));
    assert("rint"@ =~= "print"@.subrange(1, 5));
    assert("eturn"@ =~= "return"@.subrange(1, 6));
    assert("uper"@ =~= "super"@.subrange(1, 5));
    assert("is"@ =~= "this"@.subrange(2, 4));
    assert("ue"@ =~= "true"@.subrange(2, 4));
    assert("ar"@ =~= "var"@.subrange(1, 3));
    assert("hile"@ =~= "while"@.subrange(1, 5));
    lemma_split_first(lexeme, "and"@, "nd"@);
    lemma_split_first(lexeme, "class"@, "lass"@);
    lemma_split_first(lexeme, "else"@, "lse"@);
    lemma_split_second(lexeme, "false"@, "lse"@);
    lemma_split_second(lexeme, "for"@, "r"@);
    lemma_split_second(lexeme, "fun"@, "n"@);
    lemma_split_first(lexeme, "if"@, "f"@);
    lemma_split_first(lexeme, "nil"@, "il"@);
    lemma_split_first(lexeme, "or"@, "r"@);
    lemma_split_first(lexeme, "print"@, "rint"@);
    lemma_split_first(lexeme, "return"@, "eturn"@);
    lemma_split_first(lexeme, "super"@, "uper"@);
    lemma_split_second(lexeme, "this"@, "is"@);
    lemma_split_second(lexeme, "true"@, "ue"@);
    lemma_split_first(lexeme, "var"@, "ar"@);
    lemma_split_first(lexeme, "while"@, "hile"@);
}

/// What the dispatch computes: a choice by the first byte, and for `f` and
/// `t` by the second, then one comparison of the remaining bytes.
spec fn dispatch(lexeme: Seq<u8>) -> TokenType {
    let first = lexeme[0];
    let second = lexeme[1];
    if first == 'a' as u8 {
        suffix(lexeme, 1, "nd"@, TokenType::And)
    } else if first == 'c' as u8 {
        suffix(lexeme, 1, "lass"@, TokenType::Class)
    } else if first == 'e' as u8 {
        suffix(lexeme, 1, "lse"@, TokenType::Else)
    } else if first == 'f' as u8 {
        if lexeme.len() > 1 {
            if second == 'a' as u8 {
                suffix(lexeme, 2, "lse"@, TokenType::False)
            } else if second == 'o' as u8 {
                suffix(lexeme, 2, "r"@, TokenType::For)
            } else if second == 'u' as u8 {
                suffix(lexeme, 2, "n"@, TokenType::Fun)
            } else {
                TokenType::Identifier
            }
        } else {
            TokenType::Identifier
        }
    } else if first == 'i' as u8 {
        suffix(lexeme, 1, "f"@, TokenType::If)
    } else if first == 'n' as u8 {
        suffix(lexeme, 1, "il"@, TokenType::Nil)
    } else if first == 'o' as u8 {
        suffix(lexeme, 1, "r"@, TokenType::Or)
    } else if first == 'p' as u8 {
        suffix(lexeme, 1, "rint"@, TokenType::Print)
    } else if first == 'r' as u8 {
        suffix(lexeme, 1, "eturn"@, TokenType::Return)
    } else if first == 's' as u8 {
        suffix(lexeme, 1, "uper"@, TokenType::Super)
    } else if first == 't' as u8 {
        if lexeme.len() > 1 {
            if second == 'h' as u8 {
                suffix(lexeme, 2, "is"@, TokenType::This)
            } else if second == 'r' as u8 {
                suffix(lexeme, 2, "ue"@, TokenType::True)
            } else {
                TokenType::Identifier
            }
        } else {
            TokenType::Identifier
        }
    } else if first == 'v' as u8 {
        suffix(lexeme, 1, "ar"@, TokenType::Var)
    } else if first == 'w' as u8 {
        suffix(lexeme, 1, "hile"@, TokenType::While)
    } else {
        TokenType::Identifier
    }
}

spec fn suffix(lexeme: Seq<u8>, start: int, rest: Seq<char>, ttype: TokenType) -> TokenType {
    if ends_with(lexeme, start, rest) {
        ttype
    } else {
        TokenType::Identifier
    }
}


/// A scanner over a borrowed source. It stands at an offset of the source
/// and counts the lines that it has passed.
pub struct Scanner<'a> {
    source: &'a [u8],
    start: usize,
    current: usize,
    line: usize,
}

impl<'a> Scanner<'a> {
    /// The source that the scanner reads.
    pub closed spec fn source(&self) -> Seq<u8> {
        self.source@
    }

    /// The offset at which the scanner stands.
    pub closed spec fn position(&self) -> int {
        self.current as int
    }

    /// The scanner stands inside its source, and its line counter is the
    /// line of the offset at which it stands.
    pub closed spec fn wf(&self) -> bool {
        &&& self.in_bounds()
        &&& self.line == line_at(self.source@, self.current as int)
    }

    spec fn in_bounds(&self) -> bool {
        self.start <= self.current <= self.source@.len() < usize::MAX
    }

    /// The bytes of the token being scanned.
    spec fn lexeme(&self) -> Seq<u8> {
        self.source@.subrange(self.start as int, self.current as int)
    }

    /// A scanner at the start of `source`, on line 1.
    pub fn new(source: &'a [u8]) -> (scanner: Scanner<'a>)
        requires
            source@.len() < usize::MAX,
        ensures
            scanner.wf(),
            scanner.source() == source@,
            scanner.position() == 0,
    {
        Scanner { source, start: 0, current: 0, line: 1 }
    }

    fn peek(&self) -> (c: u8)
        ensures
            c == byte_at(self.source@, self.current as int),
    {
        if self.current < self.source.len() {
            self.source[self.current]
        } else {
            0
        }
    }

    fn peek_at(&self, offset: usize) -> (c: u8)
        requires
            self.current <= self.source@.len(),
        ensures
            c == byte_at(self.source@, self.current + offset),
    {
        if offset < self.source.len() - self.current {
            self.source[self.current + offset]
        } else {
            0
        }
    }

    fn advance(&mut self) -> (c: u8)
        requires
            old(self).in_bounds(),
            old(self).current < old(self).source@.len(),
        ensures
            final(self).in_bounds(),
            final(self).source == old(self).source,
            final(self).start == old(self).start,
            final(self).line == old(self).line,
            final(self).current == old(self).current + 1,
            c == old(self).source@[old(self).current as int],
    {
        let c = self.peek();
        self.current = self.current + 1;
        c
    }

    fn is_end(&self) -> (end: bool)
        ensures
            end == (byte_at(self.source@, self.current as int) == 0),
    {
        self.peek() == 0
    }

    /// Skips what separates tokens, then scans and returns the next token.
    /// At the end of the source it returns `Eof`, and does so again on
    /// every later call.
    pub fn get_token(&mut self) -> (token: Token)
        requires
            old(self).wf(),
        ensures
            final(self).wf(),
            final(self).source() == old(self).source(),
            token == next_token(old(self).source(), old(self).position()).0,
            final(self).position() == next_token(old(self).source(), old(self).position()).1,
    {
        self.skip_noise();
        self.start = self.current;

        if self.is_end() {
            return self.make_token(TokenType::Eof);
        }
        let c = self.advance();
        assert(self.wf()) by {
            assert(c != '\n' as u8);
        }
        if c == '(' as u8 {
            self.make_token(TokenType::LeftParen)
        } else if c == ')' as u8 {
            self.make_token(TokenType::RightParen)
        } else if c == '{' as u8 {
            self.make_token(TokenType::LeftBrace)
        } else if c == '}' as u8 {
            self.make_token(TokenType::RightBrace)
        } else if c == ',' as u8 {
            self.make_token(TokenType::Comma)
        } else if c == '.' as u8 {
            self.make_token(TokenType::Dot)
        } else if c == '-' as u8 {
            self.make_token(TokenType::Minus)
        } else if c == '+' as u8 {
            self.make_token(TokenType::Plus)
        } else if c == ';' as u8 {
            self.make_token(TokenType::Semicolon)
        } else if c == '?' as u8 {
            self.make_token(TokenType::QuestionMark)
        } else if c == '/' as u8 {
            self.make_token(TokenType::Slash)
        } else if c == '*' as u8 {
            self.make_token(TokenType::Star)
        } else if c == '!' as u8 {
            if self.peek() == '=' as u8 {
                self.advance();
                self.make_token(TokenType::BangEqual)
            } else {
                self.make_token(TokenType::Bang)
            }
        } else if c == '=' as u8 {
            if self.peek() == '=' as u8 {
                self.advance();
                self.make_token(TokenType::EqualEqual)
            } else {
                self.make_token(TokenType::Equal)
            }
        } else if c == '>' as u8 {
            if self.peek() == '=' as u8 {
                self.advance();
                self.make_token(TokenType::GreaterEqual)
            } else {
                self.make_token(TokenType::Greater)
            }
        } else if c == '<' as u8 {
            if self.peek() == '=' as u8 {
                self.advance();
                self.make_token(TokenType::LessEqual)
            } else {
                self.make_token(TokenType::Less)
            }
        } else if c == '"' as u8 {
            self.string()
        } else if is_digit(c) {
            self.number()
        } else if is_alpha(c) {
            self.identifier()
        } else {
            self.error_token(ScanError::UnexpectedCharacter)
        }
    }

    /// Moves past whitespace and line comments, counting the newlines.
    fn skip_noise(&mut self)
        requires
            old(self).wf(),
        ensures
            final(self).wf(),
            final(self).source == old(self).source,
            final(self).current == skip_noise(old(self).source@, old(self).current as int, false),
            !is_blank(byte_at(final(self).source@, final(self).current as int)),
    {
        let ghost src = self.source@;
        let ghost goal = skip_noise(src, self.current as int, false);
        loop
            invariant
                self.wf(),
                self.source == old(self).source,
                src == self.source@,
                skip_noise(src, self.current as int, false) == goal,
            ensures
                self.wf(),
                self.source == old(self).source,
                self.current == goal,
                !is_blank(byte_at(src, self.current as int)),
            decreases self.source@.len() - self.current,
        {
            let c = self.peek();
            if c == ' ' as u8 || c == '\r' as u8 || c == '\t' as u8 {
                self.advance();
            } else if c == '\n' as u8 {
                proof {
                    lemma_line_bounds(src, self.current as int);
                }
                self.line += 1;
                self.advance();
            } else if c == '/' as u8 {
                if self.peek_at(1) != '/' as u8 {
                    break ;
                }
                let ghost opening = self.current;
                while self.peek() != '\n' as u8 && !self.is_end()
                    invariant
                        self.wf(),
                        self.source == old(self).source,
                        src == self.source@,
                        opening <= self.current,
                        skip_noise(src, self.current as int, true) == goal,
                    decreases self.source@.len() - self.current,
                {
                    self.advance();
                }
                assert(self.current != opening);
            } else {
                break ;
            }
        }
    }

    /// Scans the rest of a string literal, whose opening quote has been read.
    fn string(&mut self) -> (token: Token)
        requires
            old(self).wf(),
            old(self).start + 1 == old(self).current,
        ensures
            final(self).wf(),
            final(self).source == old(self).source,
            final(self).start == old(self).start,
            ({
                let close = run_end(old(self).source@, old(self).current as int, Class::StringBody);
                if byte_at(old(self).source@, close) == '"' as u8 {
                    &&& final(self).current == close + 1
                    &&& token == token_of(
                        old(self).source@,
                        old(self).start as int,
                        TokenType::String,
                        close + 1,
                    )
                } else {
                    &&& final(self).current == close
                    &&& token == Token {
                        ttype: TokenType::Error,
                        lexeme: Lexeme::Message(ScanError::UnterminatedString),
                        line: line_at(old(self).source@, close) as usize,
                    }
                }
            }),
    {
        let ghost src = self.source@;
        let ghost close = run_end(src, self.current as int, Class::StringBody);
        while self.peek() != '"' as u8 && !self.is_end()
            invariant
                self.wf(),
                self.source == old(self).source,
                self.start == old(self).start,
                src == self.source@,
                run_end(src, self.current as int, Class::StringBody) == close,
            decreases self.source@.len() - self.current,
        {
            proof {
                lemma_line_bounds(src, self.current as int);
            }
            if self.advance() == '\n' as u8 {
                self.line += 1;
            }
        }

        if self.peek() == '"' as u8 {
            self.advance();
            self.make_token(TokenType::String)
        } else {
            self.error_token(ScanError::UnterminatedString)
        }
    }

    /// Scans the rest of a number, whose first digit has been read.
    fn number(&mut self) -> (token: Token)
        requires
            old(self).wf(),
            old(self).start + 1 == old(self).current,
            is_digit(old(self).source@[old(self).start as int]),
        ensures
            final(self).wf(),
            final(self).source == old(self).source,
            final(self).current == number_end(old(self).source@, old(self).start as int),
            token == token_of(
                old(self).source@,
                old(self).start as int,
                TokenType::Number,
                number_end(old(self).source@, old(self).start as int),
            ),
    {
        let ghost src = self.source@;
        let ghost whole = run_end(src, self.start as int, Class::Digit);
        while is_digit(self.peek())
            invariant
                self.wf(),
                self.source == old(self).source,
                self.start == old(self).start,
                src == self.source@,
                run_end(src, self.current as int, Class::Digit) == whole,
            decreases self.source@.len() - self.current,
        {
            self.advance();
        }

        if self.peek() == '.' as u8 && is_digit(self.peek_at(1)) {
            self.advance();
            let ghost end = run_end(src, self.current as int, Class::Digit);
            while is_digit(self.peek())
                invariant
                    self.wf(),
                    self.source == old(self).source,
                    self.start == old(self).start,
                    src == self.source@,
                    run_end(src, self.current as int, Class::Digit) == end,
                decreases self.source@.len() - self.current,
            {
                self.advance();
            }
        }
        self.make_token(TokenType::Number)
    }

    /// Scans the rest of a word, whose first byte has been read, and tells
    /// the reserved words from identifiers by the word's first letters and
    /// an exact comparison of the rest.
    fn identifier(&mut self) -> (token: Token)
        requires
            old(self).wf(),
            old(self).start + 1 == old(self).current,
            is_alpha(old(self).source@[old(self).start as int]),
        ensures
            final(self).wf(),
            final(self).source == old(self).source,
            final(self).current == run_end(
                old(self).source@,
                old(self).start as int,
                Class::Word,
            ),
            token == token_of(
                old(self).source@,
                old(self).start as int,
                keyword(
                    old(self).source@.subrange(
                        old(self).start as int,
                        run_end(old(self).source@, old(self).start as int, Class::Word),
                    ),
                ),
                run_end(old(self).source@, old(self).start as int, Class::Word),
            ),
    {
        let ghost src = self.source@;
        let ghost end = run_end(src, self.start as int, Class::Word);
        while is_alpha(self.peek()) || is_digit(self.peek())
            invariant
                self.wf(),
                self.source == old(self).source,
                self.start == old(self).start,
                src == self.source@,
                run_end(src, self.current as int, Class::Word) == end,
            decreases self.source@.len() - self.current,
        {
            self.advance();
        }

        proof {
            reveal_strlit("nd");
            reveal_strlit("lass");
            reveal_strlit("lse");
            reveal_strlit("r");
            reveal_strlit("n");
            reveal_strlit("f");
            reveal_strlit("il");
            reveal_strlit("rint");
            reveal_strlit("eturn");
            reveal_strlit("uper");
            reveal_strlit("is");
            reveal_strlit("ue");
            reveal_strlit("ar");
            reveal_strlit("hile");
        }
        let first = self.source[self.start];
        let identifier_type = if first == 'a' as u8 {
            self.check_keyword(1, 2, "nd", TokenType::And)
        } else if first == 'c' as u8 {
            self.check_keyword(1, 4, "lass", TokenType::Class)
        } else if first == 'e' as u8 {
            self.check_keyword(1, 3, "lse", TokenType::Else)
        } else if first == 'f' as u8 {
            if self.current - self.start > 1 {
                let second = self.source[self.start + 1];
                if second == 'a' as u8 {
                    self.check_keyword(2, 3, "lse", TokenType::False)
                } else if second == 'o' as u8 {
                    self.check_keyword(2, 1, "r", TokenType::For)
                } else if second == 'u' as u8 {
                    self.check_keyword(2, 1, "n", TokenType::Fun)
                } else {
                    TokenType::Identifier
                }
            } else {
                TokenType::Identifier
            }
        } else if first == 'i' as u8 {
            self.check_keyword(1, 1, "f", TokenType::If)
        } else if first == 'n' as u8 {
            self.check_keyword(1, 2, "il", TokenType::Nil)
        } else if first == 'o' as u8 {
            self.check_keyword(1, 1, "r", TokenType::Or)
        } else if first == 'p' as u8 {
            self.check_keyword(1, 4, "rint", TokenType::Print)
        } else if first == 'r' as u8 {
            self.check_keyword(1, 5, "eturn", TokenType::Return)
        } else if first == 's' as u8 {
            self.check_keyword(1, 4, "uper", TokenType::Super)
        } else if first == 't' as u8 {
            if self.current - self.start > 1 {
                let second = self.source[self.start + 1];
                if second == 'h' as u8 {
                    self.check_keyword(2, 2, "is", TokenType::This)
                } else if second == 'r' as u8 {
                    self.check_keyword(2, 2, "ue", TokenType::True)
                } else {
                    TokenType::Identifier
                }
            } else {
                TokenType::Identifier
            }
        } else if first == 'v' as u8 {
            self.check_keyword(1, 2, "ar", TokenType::Var)
        } else if first == 'w' as u8 {
            self.check_keyword(1, 4, "hile", TokenType::While)
        } else {
            TokenType::Identifier
        };

        proof {
            lemma_dispatch(self.lexeme(), identifier_type);
        }
        self.make_token(identifier_type)
    }

    /// `ttype` where the token being scanned is `start + length` bytes long
    /// and ends in the bytes of `rest`; `Identifier` otherwise.
    fn check_keyword(&self, start: usize, length: usize, rest: &str, ttype: TokenType) -> (kind:
        TokenType)
        requires
            self.in_bounds(),
            rest.is_ascii(),
            rest@.len() == length,
            start + length <= usize::MAX,
        ensures
            kind == if ends_with(self.lexeme(), start as int, rest@) {
                ttype
            } else {
                TokenType::Identifier
            },
    {
        if self.current - self.start != start + length {
            return TokenType::Identifier;
        }
        let bytes = rest.as_bytes();
        proof {
            is_ascii_spec_bytes(rest);
        }
        let mut i: usize = 0;
        while i < length
            invariant
                self.in_bounds(),
                self.current - self.start == start + length,
                i <= length,
                bytes@.len() == length,
                rest@.len() == length,
                forall|j: int| 0 <= j < length ==> bytes@[j] == #[trigger] rest@[j] as u8,
                forall|j: int| 0 <= j < i ==> self.lexeme()[start + j] == #[trigger] rest@[j] as u8,
            decreases length - i,
        {
            if self.source[self.start + start + i] != bytes[i] {
                assert(self.lexeme()[start + i] != rest@[i as int] as u8);
                return TokenType::Identifier;
            }
            i += 1;
        }
        ttype
    }

    fn make_token(&self, ttype: TokenType) -> (token: Token)
        requires
            self.in_bounds(),
        ensures
            token == (Token {
                ttype,
                lexeme: Lexeme::Source {
                    start: self.start,
                    length: (self.current - self.start) as usize,
                },
                line: self.line,
            }),
    {
        Token {
            ttype,
            lexeme: Lexeme::Source { start: self.start, length: self.current - self.start },
            line: self.line,
        }
    }

    fn error_token(&self, error: ScanError) -> (token: Token)
        ensures
            token == (Token {
                ttype: TokenType::Error,
                lexeme: Lexeme::Message(error),
                line: self.line,
            }),
    {
        Token { ttype: TokenType::Error, lexeme: Lexeme::Message(error), line: self.line }
    }
}

} // verus!
