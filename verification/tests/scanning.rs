use loxvm::scanner::{Scanner, Token, TokenType};

fn with_sentinel(text: &str) -> Vec<u8> {
    let mut bytes: Vec<u8> = text.as_bytes().to_vec();
    bytes.push(0);
    bytes
}

fn lexeme<'a>(source: &'a [u8], token: &Token) -> &'a [u8] {
    &source[token.start..token.start + token.length]
}

#[test]
fn integer_numeral_is_one_number_token() {
    let source = with_sentinel("42");
    let mut scanner = Scanner::new(&source);
    let token = scanner.scan_token();
    assert_eq!(token.token_type, TokenType::Number);
    assert_eq!(lexeme(&source, &token), b"42");
    assert_eq!(token.line, 1);
    let next = scanner.scan_token();
    assert_eq!(next.token_type, TokenType::Eof);
    assert_eq!("42".parse::<f64>().unwrap(), 42.0);
}

#[test]
fn fractional_numeral_is_one_number_token() {
    let source = with_sentinel("123.45 ");
    let mut scanner = Scanner::new(&source);
    let token = scanner.scan_token();
    assert_eq!(token.token_type, TokenType::Number);
    assert_eq!(lexeme(&source, &token), b"123.45");
    assert_eq!("123.45".parse::<f64>().unwrap(), 123.45);
}

#[test]
fn second_decimal_point_is_never_accepted() {
    let source = with_sentinel("1.2.3");
    let mut scanner = Scanner::new(&source);
    let token = scanner.scan_token();
    assert_eq!(token.token_type, TokenType::Number);
    assert_eq!(lexeme(&source, &token), b"1.2");
    let dot = scanner.scan_token();
    assert_eq!(dot.token_type, TokenType::Error);
}

#[test]
fn dot_without_following_digit_stays_outside_the_numeral() {
    let source = with_sentinel("7.x");
    let mut scanner = Scanner::new(&source);
    let token = scanner.scan_token();
    assert_eq!(token.token_type, TokenType::Number);
    assert_eq!(lexeme(&source, &token), b"7");
}

#[test]
fn single_character_tokens_map_directly() {
    let source = with_sentinel("+-*/()");
    let mut scanner = Scanner::new(&source);
    let kinds = [
        TokenType::Plus,
        TokenType::Minus,
        TokenType::Star,
        TokenType::Slash,
        TokenType::OpenParen,
        TokenType::CloseParen,
        TokenType::Eof,
    ];
    for expected in kinds {
        let token = scanner.scan_token();
        assert_eq!(token.token_type, expected);
    }
}

#[test]
fn identifier_run_is_one_token() {
    let source = with_sentinel("foo_Bar baz");
    let mut scanner = Scanner::new(&source);
    let token = scanner.scan_token();
    assert_eq!(token.token_type, TokenType::Identifier);
    assert_eq!(lexeme(&source, &token), b"foo_Bar");
    let second = scanner.scan_token();
    assert_eq!(lexeme(&source, &second), b"baz");
}

#[test]
fn digits_do_not_continue_an_identifier() {
    let source = with_sentinel("ab1");
    let mut scanner = Scanner::new(&source);
    let token = scanner.scan_token();
    assert_eq!(token.token_type, TokenType::Identifier);
    assert_eq!(lexeme(&source, &token), b"ab");
    let number = scanner.scan_token();
    assert_eq!(number.token_type, TokenType::Number);
    assert_eq!(lexeme(&source, &number), b"1");
}

#[test]
fn string_literal_is_scanned_to_its_closing_quote() {
    let source = with_sentinel("\"hello\" 1");
    let mut scanner = Scanner::new(&source);
    let token = scanner.scan_token();
    assert_eq!(token.token_type, TokenType::String);
    assert_eq!(lexeme(&source, &token), b"\"hello\"");
}

#[test]
fn unterminated_string_is_an_error_token() {
    let source = with_sentinel("\"hello");
    let mut scanner = Scanner::new(&source);
    let token = scanner.scan_token();
    assert_eq!(token.token_type, TokenType::Error);
}

#[test]
fn unclassified_byte_is_an_error_token() {
    let source = with_sentinel("~");
    let mut scanner = Scanner::new(&source);
    let token = scanner.scan_token();
    assert_eq!(token.token_type, TokenType::Error);
    assert_eq!(lexeme(&source, &token), b"~");
}

#[test]
fn newlines_advance_the_line_counter() {
    let source = with_sentinel("1\n+\n 2");
    let mut scanner = Scanner::new(&source);
    assert_eq!(scanner.scan_token().line, 1);
    assert_eq!(scanner.scan_token().line, 2);
    assert_eq!(scanner.scan_token().line, 3);
}

#[test]
fn scanning_past_the_end_keeps_yielding_eof() {
    let source = with_sentinel("");
    let mut scanner = Scanner::new(&source);
    assert_eq!(scanner.scan_token().token_type, TokenType::Eof);
    assert_eq!(scanner.scan_token().token_type, TokenType::Eof);
}

#[test]
fn source_without_sentinel_still_ends_in_eof() {
    let source: Vec<u8> = b"5".to_vec();
    let mut scanner = Scanner::new(&source);
    let token = scanner.scan_token();
    assert_eq!(token.token_type, TokenType::Number);
    assert_eq!(scanner.scan_token().token_type, TokenType::Eof);
}
