use lox_scanner::diagnostic::{Diagnostic, LexErrorKind};
use lox_scanner::scanner::scan;
use lox_scanner::scanner::Scanner;
use lox_scanner::token_type::{Literal, Token, TokenType};

fn kinds(tokens: &[Token]) -> Vec<TokenType> {
    tokens.iter().map(|t| t._type).collect()
}

fn num_payload(t: &Token) -> String {
    match &t.literal {
        Some(Literal::Num(s)) => s.clone(),
        other => panic!("expected a number payload, got {:?}", other),
    }
}

fn str_payload(t: &Token) -> String {
    match &t.literal {
        Some(Literal::Str(s)) => s.clone(),
        other => panic!("expected a string payload, got {:?}", other),
    }
}

#[test]
fn scans_addition() {
    let (tokens, diagnostics) = scan("1+2");
    assert_eq!(
        kinds(&tokens),
        vec![TokenType::NUMBER, TokenType::PLUS, TokenType::NUMBER, TokenType::EOF]
    );
    assert_eq!(tokens[0].lexeme, "1");
    assert_eq!(num_payload(&tokens[0]), "1");
    assert_eq!(tokens[1].lexeme, "+");
    assert_eq!(tokens[2].lexeme, "2");
    assert_eq!(num_payload(&tokens[2]), "2");
    assert!(diagnostics.is_empty());
}

#[test]
fn lookahead_consumes_equal() {
    let (tokens, diagnostics) = scan("!=");
    assert_eq!(kinds(&tokens), vec![TokenType::BANG_EQUAL, TokenType::EOF]);
    assert_eq!(tokens[0].lexeme, "!=");
    assert!(diagnostics.is_empty());
}

#[test]
fn lookahead_does_not_over_consume() {
    let (tokens, diagnostics) = scan("!");
    assert_eq!(kinds(&tokens), vec![TokenType::BANG, TokenType::EOF]);
    assert_eq!(tokens[0].lexeme, "!");
    assert!(diagnostics.is_empty());
}

#[test]
fn comment_is_elided_and_line_counted() {
    let (tokens, diagnostics) = scan("// c\n123");
    assert_eq!(kinds(&tokens), vec![TokenType::NUMBER, TokenType::EOF]);
    assert_eq!(tokens[0].lexeme, "123");
    assert_eq!(tokens[0].line, 2);
    assert!(diagnostics.is_empty());
}

#[test]
fn string_literal_payload_is_unquoted() {
    let (tokens, diagnostics) = scan("\"abc\"");
    assert_eq!(kinds(&tokens), vec![TokenType::STRING, TokenType::EOF]);
    assert_eq!(tokens[0].lexeme, "\"abc\"");
    assert_eq!(str_payload(&tokens[0]), "abc");
    assert!(diagnostics.is_empty());
}

#[test]
fn scans_declaration_statement() {
    let (tokens, diagnostics) = scan("var x = 12.5;");
    assert_eq!(
        kinds(&tokens),
        vec![
            TokenType::VAR,
            TokenType::IDENTIFIER,
            TokenType::EQUAL,
            TokenType::NUMBER,
            TokenType::SEMICOLON,
            TokenType::EOF,
        ]
    );
    assert_eq!(tokens[1].lexeme, "x");
    assert_eq!(tokens[3].lexeme, "12.5");
    assert_eq!(num_payload(&tokens[3]), "12.5");
    assert!(diagnostics.is_empty());
}

#[test]
fn trailing_dot_is_not_part_of_number() {
    let (tokens, diagnostics) = scan("1.");
    assert_eq!(kinds(&tokens), vec![TokenType::NUMBER, TokenType::DOT, TokenType::EOF]);
    assert_eq!(tokens[0].lexeme, "1");
    assert_eq!(tokens[1].lexeme, ".");
    assert!(diagnostics.is_empty());
}

#[test]
fn line_numbers_span_one_to_newlines_plus_one() {
    // Three newline characters: line numbers run from 1 to 4.
    let (tokens, diagnostics) = scan("a\nb\n\nc");
    assert_eq!(
        kinds(&tokens),
        vec![TokenType::IDENTIFIER, TokenType::IDENTIFIER, TokenType::IDENTIFIER, TokenType::EOF]
    );
    assert_eq!(tokens[0].line, 1);
    assert_eq!(tokens[1].line, 2);
    assert_eq!(tokens[2].line, 4);
    assert_eq!(tokens[3].line, 4);
    assert!(diagnostics.is_empty());
}

#[test]
fn unknown_character_is_reported_and_scan_ends() {
    let (tokens, diagnostics) = scan("@");
    assert_eq!(kinds(&tokens), vec![TokenType::EOF]);
    assert_eq!(diagnostics.len(), 1);
    assert_eq!(diagnostics[0].line, 1);
    assert_eq!(diagnostics[0].kind, LexErrorKind::UnknownCharacter('@'));
    assert_eq!(diagnostics[0].message(), "Unexpected character.");
}

#[test]
fn empty_input_yields_only_eof() {
    let (tokens, diagnostics) = scan("");
    assert_eq!(kinds(&tokens), vec![TokenType::EOF]);
    assert_eq!(tokens[0].lexeme, "");
    assert_eq!(tokens[0].line, 1);
    assert!(tokens[0].literal.is_none());
    assert!(diagnostics.is_empty());
}

#[test]
fn every_scan_ends_in_exactly_one_eof() {
    for source in ["", "1+2", "@#$", "\"open", "var x = 1;\n// done", "((((("] {
        let (tokens, _) = scan(source);
        assert!(!tokens.is_empty());
        assert_eq!(tokens.last().unwrap()._type, TokenType::EOF);
        let eof_count = tokens.iter().filter(|t| t._type == TokenType::EOF).count();
        assert_eq!(eof_count, 1);
    }
}

#[test]
fn unterminated_string_is_reported_and_recovered() {
    let (tokens, diagnostics) = scan("\"ab");
    assert_eq!(kinds(&tokens), vec![TokenType::EOF]);
    assert_eq!(diagnostics.len(), 1);
    assert_eq!(diagnostics[0].line, 1);
    assert_eq!(diagnostics[0].kind, LexErrorKind::UnterminatedString);
    assert_eq!(diagnostics[0].message(), "Unterminated string.");
}

#[test]
fn string_with_embedded_newline_counts_lines() {
    let (tokens, diagnostics) = scan("\"a\nb\" x");
    assert_eq!(kinds(&tokens), vec![TokenType::STRING, TokenType::IDENTIFIER, TokenType::EOF]);
    assert_eq!(str_payload(&tokens[0]), "a\nb");
    assert_eq!(tokens[0].line, 2);
    assert_eq!(tokens[1].line, 2);
    assert!(diagnostics.is_empty());
}

#[test]
fn comment_at_end_of_input_yields_only_eof() {
    let (tokens, diagnostics) = scan("// nothing here");
    assert_eq!(kinds(&tokens), vec![TokenType::EOF]);
    assert!(diagnostics.is_empty());
}

#[test]
fn slash_alone_is_a_token() {
    let (tokens, diagnostics) = scan("6/3");
    assert_eq!(
        kinds(&tokens),
        vec![TokenType::NUMBER, TokenType::SLASH, TokenType::NUMBER, TokenType::EOF]
    );
    assert!(diagnostics.is_empty());
}

#[test]
fn two_character_operators() {
    let (tokens, _) = scan("== <= >= < > =");
    assert_eq!(
        kinds(&tokens),
        vec![
            TokenType::EQUAL_EQUAL,
            TokenType::LESS_EQUAL,
            TokenType::GREATER_EQUAL,
            TokenType::LESS,
            TokenType::GREATER,
            TokenType::EQUAL,
            TokenType::EOF,
        ]
    );
}

#[test]
fn all_punctuation_kinds() {
    let (tokens, diagnostics) = scan("(){},.-+;*");
    assert_eq!(
        kinds(&tokens),
        vec![
            TokenType::LEFT_PAREN,
            TokenType::RIGHT_PAREN,
            TokenType::LEFT_BRACE,
            TokenType::RIGHT_BRACE,
            TokenType::COMMA,
            TokenType::DOT,
            TokenType::MINUS,
            TokenType::PLUS,
            TokenType::SEMICOLON,
            TokenType::STAR,
            TokenType::EOF,
        ]
    );
    assert!(diagnostics.is_empty());
}

#[test]
fn number_dot_number_splits_on_second_dot() {
    let (tokens, _) = scan("1.5.3");
    assert_eq!(
        kinds(&tokens),
        vec![TokenType::NUMBER, TokenType::DOT, TokenType::NUMBER, TokenType::EOF]
    );
    assert_eq!(tokens[0].lexeme, "1.5");
    assert_eq!(tokens[2].lexeme, "3");
}

#[test]
fn identifier_with_keyword_prefix_stays_identifier() {
    let (tokens, _) = scan("vars _x or2");
    assert_eq!(
        kinds(&tokens),
        vec![TokenType::IDENTIFIER, TokenType::IDENTIFIER, TokenType::IDENTIFIER, TokenType::EOF]
    );
    assert_eq!(tokens[0].lexeme, "vars");
    assert_eq!(tokens[1].lexeme, "_x");
    assert_eq!(tokens[2].lexeme, "or2");
}

#[test]
fn scan_recovers_after_bad_character() {
    let (tokens, diagnostics) = scan("@1");
    assert_eq!(kinds(&tokens), vec![TokenType::NUMBER, TokenType::EOF]);
    assert_eq!(tokens[0].lexeme, "1");
    assert_eq!(diagnostics.len(), 1);
    assert_eq!(diagnostics[0].kind, LexErrorKind::UnknownCharacter('@'));
}

#[test]
fn scanner_instance_matches_scan() {
    let mut scanner = Scanner::new("print 1;");
    let tokens: &Vec<Token> = scanner.scan_tokens();
    assert_eq!(
        kinds(tokens),
        vec![TokenType::PRINT, TokenType::NUMBER, TokenType::SEMICOLON, TokenType::EOF]
    );
}

#[test]
fn space_tab_and_carriage_return_are_ignored() {
    let (tokens, diagnostics) = scan(" \t\r1 \t+\r 2 ");
    assert_eq!(
        kinds(&tokens),
        vec![TokenType::NUMBER, TokenType::PLUS, TokenType::NUMBER, TokenType::EOF]
    );
    assert_eq!(tokens[0].line, 1);
    assert!(diagnostics.is_empty());
}

#[test]
fn non_ascii_character_is_an_unknown_character() {
    let (tokens, diagnostics) = scan("\u{e9}");
    assert_eq!(kinds(&tokens), vec![TokenType::EOF]);
    assert_eq!(diagnostics.len(), 1);
    assert_eq!(diagnostics[0].kind, LexErrorKind::UnknownCharacter('\u{e9}'));
}

#[test]
fn diagnostics_carry_their_lines() {
    let (tokens, diagnostics) = scan("@\n@");
    assert_eq!(kinds(&tokens), vec![TokenType::EOF]);
    let lines: Vec<usize> = diagnostics.iter().map(|d: &Diagnostic| d.line).collect();
    assert_eq!(lines, vec![1, 2]);
}
