use venti::errors::VentiError;
use venti::lexer::Lexer;
use venti::lexer::lex;
use venti::token::Token;

#[test]
fn lexes_declaration_tokens() {
    let toks = lex("venti x = 1 + 2 * 3;").unwrap();
    assert_eq!(
        toks,
        vec![
            Token::Venti,
            Token::Identifier("x".to_string()),
            Token::Equals,
            Token::NumberLiteral("1".to_string()),
            Token::Plus,
            Token::NumberLiteral("2".to_string()),
            Token::Star,
            Token::NumberLiteral("3".to_string()),
            Token::Semicolon,
        ]
    );
}

#[test]
fn keyword_wins_over_identifier() {
    let toks = lex("venti ventix printventi print").unwrap();
    assert_eq!(
        toks,
        vec![
            Token::Venti,
            Token::Identifier("ventix".to_string()),
            Token::Print,
            Token::Identifier("print".to_string()),
        ]
    );
}

#[test]
fn lexes_reserved_keywords_and_booleans() {
    let toks = lex("if_venti else_venti for_venti while_venti int float bool true false async await").unwrap();
    assert_eq!(
        toks,
        vec![
            Token::If,
            Token::Else,
            Token::For,
            Token::While,
            Token::Int,
            Token::Float,
            Token::Bool,
            Token::BooleanLiteral(true),
            Token::BooleanLiteral(false),
            Token::Async,
            Token::Await,
        ]
    );
}

#[test]
fn string_literal_keeps_inner_text() {
    let toks = lex("\"hi\"").unwrap();
    assert_eq!(toks, vec![Token::StringLiteral("hi".to_string())]);
}

#[test]
fn longest_match_splits_number_then_word() {
    let toks = lex("123abc").unwrap();
    assert_eq!(
        toks,
        vec![
            Token::NumberLiteral("123".to_string()),
            Token::Identifier("abc".to_string()),
        ]
    );
}

#[test]
fn empty_and_whitespace_only_inputs_lex_to_nothing() {
    assert_eq!(lex("").unwrap(), vec![]);
    assert_eq!(lex(" \t\n\u{0C}").unwrap(), vec![]);
}

#[test]
fn all_delimiters_and_operators() {
    let toks = lex("+-*/(){}[],;=").unwrap();
    assert_eq!(
        toks,
        vec![
            Token::Plus,
            Token::Minus,
            Token::Star,
            Token::Slash,
            Token::LParen,
            Token::RParen,
            Token::LBrace,
            Token::RBrace,
            Token::LBracket,
            Token::RBracket,
            Token::Comma,
            Token::Semicolon,
            Token::Equals,
        ]
    );
}

#[test]
fn unterminated_string_error_carries_the_offending_slice() {
    let err = lex("venti s = \"oops").unwrap_err();
    match err {
        VentiError::SyntaxError(msg) => {
            assert_eq!(msg, "Unterminated string literal: \"oops");
        }
        other => panic!("expected a syntax error, got {:?}", other),
    }
}

#[test]
fn unexpected_character_error_carries_the_offending_slice() {
    let err = lex("venti x = $;").unwrap_err();
    match err {
        VentiError::SyntaxError(msg) => assert_eq!(msg, "Unexpected character: $"),
        other => panic!("expected a syntax error, got {:?}", other),
    }
}

#[test]
fn token_spans_reconstruct_nonwhitespace_input() {
    // The reconstruction law on a concrete input: concatenating the spans of
    // the tokens gives the input with its whitespace removed.
    let input = "venti x = 1 + 2;\nprintventi \"hi\";";
    let toks = lex(input).unwrap();
    let mut rebuilt = String::new();
    for t in &toks {
        match t {
            Token::Venti => rebuilt.push_str("venti"),
            Token::Identifier(s) => rebuilt.push_str(s),
            Token::StringLiteral(s) => {
                rebuilt.push('"');
                rebuilt.push_str(s);
                rebuilt.push('"');
            }
            Token::NumberLiteral(s) => rebuilt.push_str(s),
            Token::BooleanLiteral(b) => rebuilt.push_str(if *b { "true" } else { "false" }),
            Token::Plus => rebuilt.push('+'),
            Token::Equals => rebuilt.push('='),
            Token::Semicolon => rebuilt.push(';'),
            Token::Print => rebuilt.push_str("printventi"),
            other => panic!("unexpected token {:?}", other),
        }
    }
    let stripped: String = input.chars().filter(|c| !matches!(c, ' ' | '\t' | '\n' | '\u{0C}')).collect();
    assert_eq!(rebuilt, stripped);
}

#[test]
fn next_token_yields_one_token_per_call() {
    let mut lexer = Lexer::new("venti x");
    assert_eq!(lexer.next_token().unwrap().unwrap(), Token::Venti);
    assert_eq!(
        lexer.next_token().unwrap().unwrap(),
        Token::Identifier("x".to_string())
    );
    assert!(lexer.next_token().is_none());
}

#[test]
fn token_text_is_the_source_span() {
    assert_eq!(Token::Venti.text(), "venti");
    assert_eq!(Token::Identifier("abc".to_string()).text(), "abc");
    assert_eq!(Token::StringLiteral("a b".to_string()).text(), "\"a b\"");
    assert_eq!(Token::NumberLiteral("007".to_string()).text(), "007");
    assert_eq!(Token::BooleanLiteral(false).text(), "false");
    assert_eq!(Token::LBrace.text(), "{");
    assert_eq!(Token::While.text(), "while_venti");
}
