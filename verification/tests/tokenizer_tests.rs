use lalafell::tokenizer::{tokenize, join_tokens};

#[test]
fn splits_on_spaces() {
    assert_eq!(tokenize("a b"), vec!["a".to_string(), "b".to_string()]);
}

#[test]
fn quoted_span_is_one_token() {
    assert_eq!(
        tokenize("a \"b c\" d"),
        vec!["a".to_string(), "b c".to_string(), "d".to_string()]
    );
}

#[test]
fn empty_input_gives_no_tokens() {
    assert!(tokenize("").is_empty());
}

#[test]
fn unterminated_quote_extends_to_end() {
    assert_eq!(tokenize("a \"b"), vec!["a".to_string(), "b".to_string()]);
}

#[test]
fn unterminated_quote_keeps_spaces_verbatim() {
    assert_eq!(
        tokenize("a \"b c d"),
        vec!["a".to_string(), "b c d".to_string()]
    );
}

#[test]
fn runs_of_spaces_separate_once() {
    assert_eq!(
        tokenize("you    don't       know me"),
        vec![
            "you".to_string(),
            "don't".to_string(),
            "know".to_string(),
            "me".to_string()
        ]
    );
}

#[test]
fn only_spaces_gives_no_tokens() {
    assert!(tokenize("     ").is_empty());
}

#[test]
fn empty_quotes_give_empty_token() {
    assert_eq!(tokenize("\"\""), vec!["".to_string()]);
}

#[test]
fn quoted_spaces_kept() {
    assert_eq!(
        tokenize("\"   \"    a"),
        vec!["   ".to_string(), "a".to_string()]
    );
}

#[test]
fn escaped_quote_is_literal() {
    assert_eq!(tokenize("he\\\"llo"), vec!["he\"llo".to_string()]);
}

#[test]
fn join_then_tokenize_round_trips() {
    let tokens = vec!["ban".to_string(), "spammer".to_string(), "7".to_string()];
    let joined = join_tokens(&tokens);
    assert_eq!(joined, "ban spammer 7");
    assert_eq!(tokenize(&joined), tokens);
}

#[test]
fn join_of_empty_is_empty() {
    let tokens: Vec<String> = Vec::new();
    assert_eq!(join_tokens(&tokens), "");
}

#[test]
fn join_single_token() {
    let tokens = vec!["ping".to_string()];
    assert_eq!(join_tokens(&tokens), "ping");
    assert_eq!(tokenize(&join_tokens(&tokens)), tokens);
}
