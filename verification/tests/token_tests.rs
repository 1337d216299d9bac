use lox_scanner::lox::Lox;
use lox_scanner::token_type::{Literal, Token, TokenType};

#[test]
fn keyword_table_is_total_and_collision_free() {
    let table = [
        ("and", TokenType::AND),
        ("class", TokenType::CLASS),
        ("else", TokenType::ELSE),
        ("false", TokenType::FALSE),
        ("for", TokenType::FOR),
        ("fun", TokenType::FUN),
        ("if", TokenType::IF),
        ("nil", TokenType::NIL),
        ("or", TokenType::OR),
        ("print", TokenType::PRINT),
        ("return", TokenType::RETURN),
        ("super", TokenType::SUPER),
        ("this", TokenType::THIS),
        ("true", TokenType::TRUE),
        ("var", TokenType::VAR),
        ("while", TokenType::WHILE),
    ];
    for (text, kind) in table.iter() {
        assert_eq!(TokenType::keyword(text), Some(*kind));
    }
    // No two keywords collapse to the same kind.
    for (i, (_, a)) in table.iter().enumerate() {
        for (j, (_, b)) in table.iter().enumerate() {
            if i != j {
                assert_ne!(a, b);
            }
        }
    }
}

#[test]
fn non_keywords_are_not_in_the_table() {
    for text in ["", "And", "vars", "classy", "x", "WHILE", "_", "foo"] {
        assert_eq!(TokenType::keyword(text), None);
    }
}

#[test]
fn match_with_eq_combines_the_four_operators() {
    assert_eq!(TokenType::BANG.match_with_eq(), TokenType::BANG_EQUAL);
    assert_eq!(TokenType::EQUAL.match_with_eq(), TokenType::EQUAL_EQUAL);
    assert_eq!(TokenType::LESS.match_with_eq(), TokenType::LESS_EQUAL);
    assert_eq!(TokenType::GREATER.match_with_eq(), TokenType::GREATER_EQUAL);
}

#[test]
fn combinable_with_eq_is_exactly_the_four() {
    assert!(TokenType::BANG.is_combinable_with_eq());
    assert!(TokenType::EQUAL.is_combinable_with_eq());
    assert!(TokenType::LESS.is_combinable_with_eq());
    assert!(TokenType::GREATER.is_combinable_with_eq());
    assert!(!TokenType::SLASH.is_combinable_with_eq());
    assert!(!TokenType::PLUS.is_combinable_with_eq());
    assert!(!TokenType::EOF.is_combinable_with_eq());
}

#[test]
fn combinable_with_div_is_only_slash() {
    assert!(TokenType::SLASH.is_combinable_with_div());
    assert!(!TokenType::BANG.is_combinable_with_div());
    assert!(!TokenType::STAR.is_combinable_with_div());
}

#[test]
fn token_new_keeps_its_parts() {
    let t = Token::new(TokenType::NUMBER, "42", Some(Literal::Num("42".to_string())), 7);
    assert_eq!(t._type, TokenType::NUMBER);
    assert_eq!(t.lexeme, "42");
    assert_eq!(t.line, 7);
    match &t.literal {
        Some(Literal::Num(s)) => assert_eq!(s, "42"),
        other => panic!("expected a number payload, got {:?}", other),
    }
}

#[test]
fn literal_inner_returns_the_payload_text() {
    assert_eq!(Literal::Str("abc".to_string()).inner(), "abc");
    assert_eq!(Literal::Num("12.5".to_string()).inner(), "12.5");
}

#[test]
fn lox_sink_records_reports_in_order() {
    let mut lox = Lox::new();
    assert!(!lox.had_error);
    assert!(lox.reports.is_empty());
    lox.error(3, "something odd");
    lox.error(5, "worse");
    assert!(lox.had_error);
    assert_eq!(lox.reports.len(), 2);
    assert_eq!(lox.reports[0].line, 3);
    assert_eq!(lox.reports[0].message, "something odd");
    assert_eq!(lox.reports[1].line, 5);
    assert_eq!(lox.reports[1].message, "worse");
}
