use zilang::compiler::hammer::tokenizer::{TokenType, Tokenizer};

fn kinds_and_texts(input: &str) -> Result<Vec<(TokenType, String)>, String> {
    let mut tokenizer = Tokenizer::new();
    tokenizer
        .tokenize(input.to_string())
        .map(|v| v.into_iter().map(|t| (t.token_type, t.string)).collect())
}

#[test]
fn tokenize_a_declaration() {
    let toks = kinds_and_texts("int a;\n").unwrap();
    assert_eq!(
        toks,
        vec![
            (TokenType::Type, "int".to_string()),
            (TokenType::Ident, "a".to_string()),
            (TokenType::Symbol, ";".to_string()),
        ]
    );
}

#[test]
fn tokenize_empty_text_gives_no_token() {
    assert_eq!(kinds_and_texts("").unwrap(), vec![]);
    assert_eq!(kinds_and_texts("  \n ").unwrap(), vec![]);
}

#[test]
fn tokenize_operator_first_fails() {
    assert_eq!(kinds_and_texts("+").unwrap_err(), "FAILED TO TOKENIZE".to_string());
}

#[test]
fn tokenize_number_after_type_fails() {
    assert_eq!(kinds_and_texts("int 5;\n").unwrap_err(), "FAILED TO TOKENIZE".to_string());
}

#[test]
fn tokens_are_primitive_and_not_empty() {
    for (kind, text) in kinds_and_texts("int a;\nchar b;\n").unwrap() {
        assert!(matches!(
            kind,
            TokenType::Ident | TokenType::Number | TokenType::Type | TokenType::Symbol | TokenType::Operator
        ));
        assert!(!text.is_empty());
    }
}
