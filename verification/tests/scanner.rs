use rlox::scanner::{is_alpha, is_digit};
use rlox::{Precedence, Scanner, Token, TokenType};

fn scan_all(code: &str) -> Vec<(TokenType, Vec<u8>, usize)> {
    let mut scanner = Scanner::new();
    let mut tokens = scanner.scan(code);
    let mut found = Vec::new();
    loop {
        let token = tokens.next();
        found.push((token.token_type, token.code.to_vec(), token.line));
        if token.token_type == TokenType::Eof {
            return found;
        }
    }
}

fn kinds(code: &str) -> Vec<TokenType> {
    scan_all(code).into_iter().map(|token| token.0).collect()
}

#[test]
fn token_new_keeps_its_parts() {
    let token = Token::new(b"(", 3, TokenType::LeftParen);
    assert_eq!(token.code, b"(");
    assert_eq!(token.line, 3);
    assert_eq!(token.token_type, TokenType::LeftParen);
}

#[test]
fn empty_source_is_one_eof() {
    assert_eq!(scan_all(""), vec![(TokenType::Eof, Vec::new(), 1)]);
}

#[test]
fn eof_is_returned_again_and_again() {
    let mut scanner = Scanner::new();
    let mut tokens = scanner.scan("1");
    assert_eq!(tokens.next().token_type, TokenType::Number);
    assert_eq!(tokens.next().token_type, TokenType::Eof);
    assert_eq!(tokens.next().token_type, TokenType::Eof);
}

#[test]
fn punctuation_and_operators() {
    assert_eq!(
        kinds("(){},.-+;/*"),
        vec![
            TokenType::LeftParen,
            TokenType::RightParen,
            TokenType::LeftBrace,
            TokenType::RightBrace,
            TokenType::Comma,
            TokenType::Dot,
            TokenType::Minus,
            TokenType::Plus,
            TokenType::Semicolon,
            TokenType::Slash,
            TokenType::Star,
            TokenType::Eof,
        ]
    );
}

#[test]
fn one_or_two_character_operators() {
    assert_eq!(
        kinds("! != = == < <= > >="),
        vec![
            TokenType::Bang,
            TokenType::BangEqual,
            TokenType::Equal,
            TokenType::EqualEqual,
            TokenType::Less,
            TokenType::LessEqual,
            TokenType::Greater,
            TokenType::GreaterEqual,
            TokenType::Eof,
        ]
    );
    assert_eq!(
        scan_all(">")[0],
        (TokenType::Greater, b">".to_vec(), 1)
    );
    assert_eq!(
        scan_all(">=")[0],
        (TokenType::GreaterEqual, b">=".to_vec(), 1)
    );
}

#[test]
fn only_one_further_character_is_probed() {
    assert_eq!(
        kinds("==="),
        vec![TokenType::EqualEqual, TokenType::Equal, TokenType::Eof]
    );
}

#[test]
fn keywords_are_matched_exactly() {
    assert_eq!(
        kinds("and class else false for fun if nil or print return super this true var while"),
        vec![
            TokenType::And,
            TokenType::Class,
            TokenType::Else,
            TokenType::False,
            TokenType::For,
            TokenType::Fun,
            TokenType::If,
            TokenType::Nil,
            TokenType::Or,
            TokenType::Print,
            TokenType::Return,
            TokenType::Super,
            TokenType::This,
            TokenType::True,
            TokenType::Var,
            TokenType::While,
            TokenType::Eof,
        ]
    );
}

#[test]
fn near_keywords_are_identifiers() {
    assert_eq!(
        kinds("an andy And f fo foo fals falsey t tr thi nil_ _nil classes If"),
        vec![
            TokenType::Identifier,
            TokenType::Identifier,
            TokenType::Identifier,
            TokenType::Identifier,
            TokenType::Identifier,
            TokenType::Identifier,
            TokenType::Identifier,
            TokenType::Identifier,
            TokenType::Identifier,
            TokenType::Identifier,
            TokenType::Identifier,
            TokenType::Identifier,
            TokenType::Identifier,
            TokenType::Identifier,
            TokenType::Identifier,
            TokenType::Eof,
        ]
    );
}

#[test]
fn identifier_spans_letters_digits_and_underscores() {
    assert_eq!(
        scan_all("  ab_1c+")[0],
        (TokenType::Identifier, b"ab_1c".to_vec(), 1)
    );
}

#[test]
fn number_with_fraction() {
    assert_eq!(
        scan_all("123.4"),
        vec![
            (TokenType::Number, b"123.4".to_vec(), 1),
            (TokenType::Eof, Vec::new(), 1)
        ]
    );
}

#[test]
fn trailing_dot_is_left_for_its_own_token() {
    assert_eq!(
        scan_all("12."),
        vec![
            (TokenType::Number, b"12".to_vec(), 1),
            (TokenType::Dot, b".".to_vec(), 1),
            (TokenType::Eof, Vec::new(), 1)
        ]
    );
    assert_eq!(
        kinds("1.2.3"),
        vec![
            TokenType::Number,
            TokenType::Dot,
            TokenType::Number,
            TokenType::Eof
        ]
    );
}

#[test]
fn string_spans_both_quotes() {
    assert_eq!(
        scan_all("\"hi there\" 1"),
        vec![
            (TokenType::String, b"\"hi there\"".to_vec(), 1),
            (TokenType::Number, b"1".to_vec(), 1),
            (TokenType::Eof, Vec::new(), 1)
        ]
    );
}

#[test]
fn string_may_hold_newlines_and_other_bytes() {
    assert_eq!(
        scan_all("\"a\nb\u{e9}\" x"),
        vec![
            (TokenType::String, "\"a\nb\u{e9}\"".as_bytes().to_vec(), 2),
            (TokenType::Identifier, b"x".to_vec(), 2),
            (TokenType::Eof, Vec::new(), 2)
        ]
    );
}

#[test]
fn unterminated_string_is_an_error_token() {
    assert_eq!(
        scan_all("1 \"abc\n"),
        vec![
            (TokenType::Number, b"1".to_vec(), 1),
            (TokenType::Error, b"Unterminated string.".to_vec(), 2),
            (TokenType::Eof, Vec::new(), 2)
        ]
    );
}

#[test]
fn unexpected_character_is_an_error_token() {
    assert_eq!(
        scan_all("1 @ 2"),
        vec![
            (TokenType::Number, b"1".to_vec(), 1),
            (TokenType::Error, b"Unexpected character.".to_vec(), 1),
            (TokenType::Number, b"2".to_vec(), 1),
            (TokenType::Eof, Vec::new(), 1)
        ]
    );
}

#[test]
fn whitespace_and_newlines_are_skipped_and_lines_counted() {
    assert_eq!(
        scan_all(" \t\r\n1\n\n  2"),
        vec![
            (TokenType::Number, b"1".to_vec(), 2),
            (TokenType::Number, b"2".to_vec(), 4),
            (TokenType::Eof, Vec::new(), 4)
        ]
    );
}

#[test]
fn comment_runs_to_the_end_of_the_line() {
    assert_eq!(
        scan_all("1 // two 2\n3 / 4 // end"),
        vec![
            (TokenType::Number, b"1".to_vec(), 1),
            (TokenType::Number, b"3".to_vec(), 2),
            (TokenType::Slash, b"/".to_vec(), 2),
            (TokenType::Number, b"4".to_vec(), 2),
            (TokenType::Eof, Vec::new(), 2)
        ]
    );
}

#[test]
fn digits_and_letters_are_classified() {
    for byte in 0..=255u8 {
        assert_eq!(is_digit(byte), byte.is_ascii_digit());
        assert_eq!(is_alpha(byte), byte.is_ascii_alphabetic() || byte == b'_');
    }
}

#[test]
fn precedence_of_tokens_and_the_ladder() {
    assert_eq!(TokenType::Plus.precedence(), Precedence::Term);
    assert_eq!(TokenType::Minus.precedence(), Precedence::Term);
    assert_eq!(TokenType::Star.precedence(), Precedence::Factor);
    assert_eq!(TokenType::Slash.precedence(), Precedence::Factor);
    assert_eq!(TokenType::EqualEqual.precedence(), Precedence::Equality);
    assert_eq!(TokenType::BangEqual.precedence(), Precedence::Equality);
    assert_eq!(TokenType::Less.precedence(), Precedence::Comparison);
    assert_eq!(TokenType::LessEqual.precedence(), Precedence::Comparison);
    assert_eq!(TokenType::Greater.precedence(), Precedence::Comparison);
    assert_eq!(TokenType::GreaterEqual.precedence(), Precedence::Comparison);
    assert_eq!(TokenType::Bang.precedence(), Precedence::Lowest);
    assert_eq!(TokenType::Eof.precedence(), Precedence::Lowest);
    assert_eq!(TokenType::RightParen.precedence(), Precedence::Lowest);

    let ladder = [
        Precedence::Lowest,
        Precedence::Assignment,
        Precedence::Or,
        Precedence::And,
        Precedence::Equality,
        Precedence::Comparison,
        Precedence::Term,
        Precedence::Factor,
        Precedence::Unary,
        Precedence::Call,
        Precedence::Primary,
    ];
    for (level, precedence) in ladder.iter().enumerate() {
        assert_eq!(precedence.rank() as usize, level);
        let next = if level + 1 < ladder.len() { ladder[level + 1] } else { Precedence::Primary };
        assert_eq!(precedence.higher(), next);
    }
    assert!(Precedence::Term < Precedence::Factor);
}

#[test]
fn ordinary_sources_can_be_scanned() {
    assert!(Scanner::can_scan(""));
    assert!(Scanner::can_scan("1 + 2"));
}
