use lox_bvm::compiler::compile;
use lox_bvm::scanner::{is_alpha, is_digit, Scanner};
use lox_bvm::token::{Lexeme, ScanError, Token, TokenType};

fn scan(source: &[u8]) -> Vec<Token> {
    let mut scanner = Scanner::new(source);
    let mut tokens = Vec::new();
    loop {
        let token = scanner.get_token();
        tokens.push(token);
        if token.ttype == TokenType::Eof {
            return tokens;
        }
        assert!(tokens.len() <= source.len() + 1);
    }
}

fn kinds(source: &[u8]) -> Vec<TokenType> {
    scan(source).iter().map(|token| token.ttype).collect()
}

fn text<'a>(source: &'a [u8], token: &Token) -> &'a [u8] {
    token.text(source)
}

#[test]
fn punctuation_pairs_are_scanned_as_one_token() {
    let tokens = scan(b"!= == <= >=");
    let expected = vec![
        TokenType::BangEqual,
        TokenType::EqualEqual,
        TokenType::LessEqual,
        TokenType::GreaterEqual,
        TokenType::Eof,
    ];
    assert_eq!(tokens.iter().map(|t| t.ttype).collect::<Vec<_>>(), expected);
    for token in &tokens {
        assert_eq!(token.line, 1);
    }
    assert_eq!(tokens[0].lexeme, Lexeme::Source { start: 0, length: 2 });
    assert_eq!(tokens[1].lexeme, Lexeme::Source { start: 3, length: 2 });
    assert_eq!(tokens[2].lexeme, Lexeme::Source { start: 6, length: 2 });
    assert_eq!(tokens[3].lexeme, Lexeme::Source { start: 9, length: 2 });
    assert_eq!(tokens[4].lexeme, Lexeme::Source { start: 11, length: 0 });
}

#[test]
fn operators_without_equal_sign_stand_alone() {
    assert_eq!(
        kinds(b"! = < > !x =="),
        vec![
            TokenType::Bang,
            TokenType::Equal,
            TokenType::Less,
            TokenType::Greater,
            TokenType::Bang,
            TokenType::Identifier,
            TokenType::EqualEqual,
            TokenType::Eof,
        ]
    );
}

#[test]
fn single_byte_tokens() {
    assert_eq!(
        kinds(b"(){},.-+;?/*"),
        vec![
            TokenType::LeftParen,
            TokenType::RightParen,
            TokenType::LeftBrace,
            TokenType::RightBrace,
            TokenType::Comma,
            TokenType::Dot,
            TokenType::Minus,
            TokenType::Plus,
            TokenType::Semicolon,
            TokenType::QuestionMark,
            TokenType::Slash,
            TokenType::Star,
            TokenType::Eof,
        ]
    );
}

#[test]
fn forest_is_an_identifier() {
    let source = b"forest";
    let tokens = scan(source);
    assert_eq!(tokens.len(), 2);
    assert_eq!(tokens[0].ttype, TokenType::Identifier);
    assert_eq!(text(source, &tokens[0]), b"forest");
    assert_eq!(tokens[1].ttype, TokenType::Eof);
}

#[test]
fn for_is_a_keyword() {
    assert_eq!(kinds(b"for"), vec![TokenType::For, TokenType::Eof]);
}

#[test]
fn fork_is_an_identifier() {
    assert_eq!(kinds(b"fork"), vec![TokenType::Identifier, TokenType::Eof]);
}

#[test]
fn every_reserved_word_has_its_kind() {
    let source = b"and class else false for fun if nil or print return super this true var while";
    assert_eq!(
        kinds(source),
        vec![
            TokenType::And,
            TokenType::Class,
            TokenType::Else,
            TokenType::False,
            TokenType::For,
            TokenType::Fun,
            TokenType::If,
            TokenType::Nil,
            TokenType::Or,
            TokenType::Print,
            TokenType::Return,
            TokenType::Super,
            TokenType::This,
            TokenType::True,
            TokenType::Var,
            TokenType::While,
            TokenType::Eof,
        ]
    );
}

#[test]
fn near_misses_of_reserved_words_are_identifiers() {
    let source = b"an andy clas classy f fa fo fu fals falsey t th tr thi truer i iff _if If v o orr";
    let tokens = kinds(source);
    assert_eq!(tokens.len(), 23);
    for kind in &tokens[..22] {
        assert_eq!(*kind, TokenType::Identifier);
    }
    assert_eq!(tokens[22], TokenType::Eof);
}

#[test]
fn identifiers_may_hold_digits_and_underscores() {
    let source = b"_a1 b_2c";
    let tokens = scan(source);
    assert_eq!(tokens.len(), 3);
    assert_eq!(text(source, &tokens[0]), b"_a1");
    assert_eq!(text(source, &tokens[1]), b"b_2c");
    assert_eq!(tokens[0].ttype, TokenType::Identifier);
    assert_eq!(tokens[1].ttype, TokenType::Identifier);
}

#[test]
fn unterminated_string_is_an_error_and_then_eof() {
    let source = b"\"abc";
    let mut scanner = Scanner::new(source);
    let token = scanner.get_token();
    assert_eq!(token.ttype, TokenType::Error);
    assert_eq!(token.lexeme, Lexeme::Message(ScanError::UnterminatedString));
    assert_eq!(text(source, &token), b"Unterminated string.");
    assert_eq!(token.line, 1);
    for _ in 0..3 {
        let next = scanner.get_token();
        assert_eq!(next.ttype, TokenType::Eof);
        assert_eq!(next.lexeme, Lexeme::Source { start: 4, length: 0 });
    }
}

#[test]
fn string_literal_keeps_its_quotes() {
    let source = b"\"abc\" x";
    let tokens = scan(source);
    assert_eq!(tokens[0].ttype, TokenType::String);
    assert_eq!(text(source, &tokens[0]), b"\"abc\"");
    assert_eq!(tokens[1].ttype, TokenType::Identifier);
    assert_eq!(tokens[2].ttype, TokenType::Eof);
}

#[test]
fn string_literal_spans_lines() {
    let source = b"\"a\nb\nc\" d";
    let tokens = scan(source);
    assert_eq!(tokens[0].ttype, TokenType::String);
    assert_eq!(tokens[0].line, 3);
    assert_eq!(tokens[0].lexeme, Lexeme::Source { start: 0, length: 7 });
    assert_eq!(tokens[1].line, 3);
}

#[test]
fn empty_string_literal() {
    let source = b"\"\"";
    let tokens = scan(source);
    assert_eq!(tokens[0].ttype, TokenType::String);
    assert_eq!(tokens[0].lexeme, Lexeme::Source { start: 0, length: 2 });
}

#[test]
fn unexpected_character_is_an_error_token() {
    let source = b"a @ b";
    let tokens = scan(source);
    assert_eq!(tokens[1].ttype, TokenType::Error);
    assert_eq!(tokens[1].lexeme, Lexeme::Message(ScanError::UnexpectedCharacter));
    assert_eq!(text(source, &tokens[1]), b"Unexpected character.");
    assert_eq!(tokens[2].ttype, TokenType::Identifier);
    assert_eq!(tokens[2].lexeme, Lexeme::Source { start: 4, length: 1 });
}

#[test]
fn bytes_above_ascii_are_unexpected() {
    assert_eq!(
        kinds(&[0xc3, 0xa9]),
        vec![TokenType::Error, TokenType::Error, TokenType::Eof]
    );
}

#[test]
fn numbers_with_and_without_fraction() {
    let source = b"123 4.5 6. .7 8.9.0";
    let tokens = scan(source);
    let shown: Vec<(TokenType, &[u8])> =
        tokens.iter().map(|t| (t.ttype, text(source, t))).collect();
    assert_eq!(
        shown,
        vec![
            (TokenType::Number, &b"123"[..]),
            (TokenType::Number, &b"4.5"[..]),
            (TokenType::Number, &b"6"[..]),
            (TokenType::Dot, &b"."[..]),
            (TokenType::Dot, &b"."[..]),
            (TokenType::Number, &b"7"[..]),
            (TokenType::Number, &b"8.9"[..]),
            (TokenType::Dot, &b"."[..]),
            (TokenType::Number, &b"0"[..]),
            (TokenType::Eof, &b""[..]),
        ]
    );
}

#[test]
fn comments_run_to_the_end_of_the_line() {
    let source = b"a // b c\n// d\n\te // f";
    let tokens = scan(source);
    assert_eq!(tokens.len(), 3);
    assert_eq!(text(source, &tokens[0]), b"a");
    assert_eq!(tokens[0].line, 1);
    assert_eq!(text(source, &tokens[1]), b"e");
    assert_eq!(tokens[1].line, 3);
    assert_eq!(tokens[2].ttype, TokenType::Eof);
    assert_eq!(tokens[2].line, 3);
}

#[test]
fn a_single_slash_is_a_token() {
    assert_eq!(
        kinds(b"a / b /"),
        vec![
            TokenType::Identifier,
            TokenType::Slash,
            TokenType::Identifier,
            TokenType::Slash,
            TokenType::Eof,
        ]
    );
}

#[test]
fn newlines_advance_the_line_counter() {
    let tokens = scan(b"a\nb\r\n\nc");
    assert_eq!(tokens[0].line, 1);
    assert_eq!(tokens[1].line, 2);
    assert_eq!(tokens[2].line, 4);
    assert_eq!(tokens[3].line, 4);
}

#[test]
fn empty_source_is_eof_on_line_one() {
    let tokens = scan(b"");
    assert_eq!(
        tokens,
        vec![Token {
            ttype: TokenType::Eof,
            lexeme: Lexeme::Source { start: 0, length: 0 },
            line: 1
        }]
    );
}

#[test]
fn a_nul_byte_ends_the_source() {
    let source = b"12\0 34";
    let mut scanner = Scanner::new(source);
    assert_eq!(scanner.get_token().ttype, TokenType::Number);
    let eof = scanner.get_token();
    assert_eq!(eof.ttype, TokenType::Eof);
    assert_eq!(eof.lexeme, Lexeme::Source { start: 2, length: 0 });
    assert_eq!(scanner.get_token(), eof);
}

#[test]
fn eof_repeats() {
    let mut scanner = Scanner::new(b"x  ");
    assert_eq!(scanner.get_token().ttype, TokenType::Identifier);
    let first = scanner.get_token();
    let second = scanner.get_token();
    assert_eq!(first.ttype, TokenType::Eof);
    assert_eq!(first, second);
}

#[test]
fn byte_classes() {
    assert!(is_digit(b'0') && is_digit(b'9') && !is_digit(b'a') && !is_digit(b'/'));
    assert!(is_alpha(b'a') && is_alpha(b'Z') && is_alpha(b'_'));
    assert!(!is_alpha(b'1') && !is_alpha(b'[') && !is_alpha(b'`') && !is_alpha(0));
}

#[test]
fn error_messages() {
    assert_eq!(ScanError::UnexpectedCharacter.message(), "Unexpected character.");
    assert_eq!(ScanError::UnterminatedString.message(), "Unterminated string.");
}

#[test]
fn compile_lists_every_token_and_marks_new_lines() {
    let listing = compile(b"var a\n= 1;\n");
    let shown: Vec<(TokenType, usize, bool)> =
        listing.iter().map(|l| (l.token.ttype, l.token.line, l.new_line)).collect();
    assert_eq!(
        shown,
        vec![
            (TokenType::Var, 1, true),
            (TokenType::Identifier, 1, false),
            (TokenType::Equal, 2, true),
            (TokenType::Number, 2, false),
            (TokenType::Semicolon, 2, false),
            (TokenType::Eof, 3, true),
        ]
    );
}

#[test]
fn compile_of_an_empty_source_lists_eof() {
    let listing = compile(b"");
    assert_eq!(listing.len(), 1);
    assert_eq!(listing[0].token.ttype, TokenType::Eof);
    assert!(listing[0].new_line);
}
