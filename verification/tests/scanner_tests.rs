use lox_vm::scanner::Scanner;
use lox_vm::token::{Token, TokenType};

fn scan_all(source: &str) -> (Scanner, Vec<Token>) {
    let text = String::from(source);
    let mut s = Scanner::new(&text);
    let mut tokens = Vec::new();
    loop {
        let t = s.scan_token();
        let done = t.token_type == TokenType::Eof;
        tokens.push(t);
        if done {
            break;
        }
    }
    (s, tokens)
}

#[test]
fn number_plus_number_scans_in_order() {
    let (s, tokens) = scan_all("1 + 2.5");
    assert_eq!(tokens.len(), 4);
    assert_eq!(tokens[0].token_type, TokenType::NumberLiteral);
    assert_eq!(s.token_text(&tokens[0]), "1");
    assert_eq!(tokens[1].token_type, TokenType::Plus);
    assert_eq!(s.token_text(&tokens[1]), "+");
    assert_eq!(tokens[2].token_type, TokenType::NumberLiteral);
    assert_eq!(s.token_text(&tokens[2]), "2.5");
    assert_eq!(tokens[3].token_type, TokenType::Eof);
    for t in &tokens {
        assert_eq!(t.line, 1);
    }
}

#[test]
fn eof_repeats_forever() {
    let text = String::from("  ");
    let mut s = Scanner::new(&text);
    for _ in 0..3 {
        let t = s.scan_token();
        assert_eq!(t.token_type, TokenType::Eof);
        assert_eq!(t.length, 0);
    }
}

#[test]
fn keywords_and_identifiers_are_told_apart() {
    let (s, tokens) = scan_all("and class else false for fun if nil or print return super this true var while andy f fur");
    let expected = [
        TokenType::And,
        TokenType::Class,
        TokenType::Else,
        TokenType::False,
        TokenType::For,
        TokenType::Fun,
        TokenType::If,
        TokenType::Nil,
        TokenType::Or,
        TokenType::Print,
        TokenType::Return,
        TokenType::Super,
        TokenType::This,
        TokenType::True,
        TokenType::Var,
        TokenType::While,
        TokenType::Identifier,
        TokenType::Identifier,
        TokenType::Identifier,
    ];
    assert_eq!(tokens.len(), expected.len() + 1);
    for (t, e) in tokens.iter().zip(expected.iter()) {
        assert_eq!(t.token_type, *e);
    }
    assert_eq!(s.token_text(&tokens[16]), "andy");
    assert_eq!(s.token_text(&tokens[17]), "f");
    assert_eq!(s.token_text(&tokens[18]), "fur");
}

#[test]
fn one_and_two_character_operators() {
    let (_, tokens) = scan_all("(){};,.-+/*! != = == < <= > >=");
    let expected = [
        TokenType::LeftParen,
        TokenType::RightParen,
        TokenType::LeftBrace,
        TokenType::RightBrace,
        TokenType::Semicolon,
        TokenType::Comma,
        TokenType::Dot,
        TokenType::Minus,
        TokenType::Plus,
        TokenType::Slash,
        TokenType::Star,
        TokenType::Bang,
        TokenType::BangEqual,
        TokenType::Equal,
        TokenType::EqualEqual,
        TokenType::Less,
        TokenType::LessEqual,
        TokenType::Greater,
        TokenType::GreaterEqual,
    ];
    assert_eq!(tokens.len(), expected.len() + 1);
    for (t, e) in tokens.iter().zip(expected.iter()) {
        assert_eq!(t.token_type, *e);
    }
}

#[test]
fn string_literal_spans_lines_and_keeps_quotes() {
    let (s, tokens) = scan_all("\"hi\nthere\"");
    assert_eq!(tokens[0].token_type, TokenType::StringLiteral);
    assert_eq!(s.token_text(&tokens[0]), "\"hi\nthere\"");
    assert_eq!(tokens[0].line, 2);
    assert_eq!(tokens[1].token_type, TokenType::Eof);
}

#[test]
fn unterminated_string_is_a_recoverable_error() {
    let (_, tokens) = scan_all("\"open");
    assert_eq!(tokens[0].token_type, TokenType::Error);
    assert_eq!(tokens[0].message, "Unterminated string.");
    assert_eq!(tokens[0].line, 1);
    // scanning goes on and reaches the end of the source
    assert_eq!(tokens[1].token_type, TokenType::Eof);
}

#[test]
fn unexpected_character_is_a_recoverable_error() {
    let (s, tokens) = scan_all("@ 1");
    assert_eq!(tokens[0].token_type, TokenType::Error);
    assert_eq!(tokens[0].message, "Unexpected character.");
    assert_eq!(s.token_text(&tokens[0]), "@");
    assert_eq!(tokens[1].token_type, TokenType::NumberLiteral);
    assert_eq!(tokens[2].token_type, TokenType::Eof);
}

#[test]
fn comments_and_whitespace_are_skipped_and_lines_counted() {
    let (s, tokens) = scan_all("// a comment\n 1\n\t2 // trailing\n3");
    assert_eq!(tokens[0].token_type, TokenType::NumberLiteral);
    assert_eq!(tokens[0].line, 2);
    assert_eq!(tokens[1].token_type, TokenType::NumberLiteral);
    assert_eq!(tokens[1].line, 3);
    assert_eq!(tokens[2].token_type, TokenType::NumberLiteral);
    assert_eq!(tokens[2].line, 4);
    assert_eq!(s.token_text(&tokens[2]), "3");
    assert_eq!(tokens[3].token_type, TokenType::Eof);
}

#[test]
fn a_lone_slash_is_a_slash_token() {
    let (_, tokens) = scan_all("1 / 2");
    assert_eq!(tokens[1].token_type, TokenType::Slash);
}

#[test]
fn number_dot_without_digit_stops_before_the_dot() {
    let (s, tokens) = scan_all("7.x");
    assert_eq!(tokens[0].token_type, TokenType::NumberLiteral);
    assert_eq!(s.token_text(&tokens[0]), "7");
    assert_eq!(tokens[1].token_type, TokenType::Dot);
    assert_eq!(tokens[2].token_type, TokenType::Identifier);
    assert_eq!(s.token_text(&tokens[2]), "x");
}

#[test]
fn token_new_builds_a_plain_token() {
    let t = Token::new(TokenType::Plus, 4, 1, 2);
    assert_eq!(t.token_type, TokenType::Plus);
    assert_eq!(t.start, 4);
    assert_eq!(t.length, 1);
    assert_eq!(t.line, 2);
    assert_eq!(t.message, "");
}
