use lib::lexer::{get_identifiers, is_whitespace, tokenize, tokenize_delimiters, tokenize_keywords, Token, TokensList};

fn pairs(l: &TokensList) -> Vec<(String, String)> {
    l.0.iter().map(|t| (t.token_type.clone(), t.value.clone())).collect()
}

fn p(t: &str, v: &str) -> (String, String) {
    (t.to_string(), v.to_string())
}

#[test]
fn token_new_and_default() {
    let t = Token::new("IDENTIFIER".to_string(), "x".to_string());
    assert_eq!(t.token_type, "IDENTIFIER");
    assert_eq!(t.value, "x");
    let d = Token::default();
    assert!(d.token_type.is_empty() && d.value.is_empty());
    assert!(TokensList::default().0.is_empty());
}

#[test]
fn identifiers_table() {
    let k = get_identifiers();
    assert_eq!(k.len(), 14);
    assert_eq!(k[0], ("let", "KEYWORD_DECLARATION"));
    assert_eq!(k[5], ("else if", "KEYWORD_ELSEIF"));
    assert_eq!(k[13], ("error", "KEYWORD_ERROR"));
}

#[test]
fn tokenizes_sample_program() {
    let tokens = tokenize("let age = 19; let name = 'karan'; function add() {}".to_string());
    assert_eq!(pairs(&tokens), vec![
        p("KEYWORD_DECLARATION", "let"),
        p("IDENTIFIER", "age"),
        p("ASSIGNMENT", "="),
        p("SEMICOLON", ";"),
        p("KEYWORD_DECLARATION", "let"),
        p("IDENTIFIER", "name"),
        p("ASSIGNMENT", "="),
        p("SINGLE_QUOTE", "'"),
        p("IDENTIFIER", "karan"),
        p("SINGLE_QUOTE", "'"),
        p("SEMICOLON", ";"),
        p("KEYWORD_FUNCTION", "function"),
        p("IDENTIFIER", "add"),
        p("LPAREN", "("),
        p("RPAREN", ")"),
        p("LBRACE", "{"),
        p("RBRACE", "}"),
    ]);
}

#[test]
fn words_with_digits_and_keywords() {
    let tokens = tokenize("x1 else if console.log(error)".to_string());
    assert_eq!(pairs(&tokens), vec![
        p("IDENTIFIER", "x1"),
        p("KEYWORD_ELSE", "else"),
        p("KEYWORD_IF", "if"),
        p("KEYWORD_CONSOLE", "console"),
        p("DOT", "."),
        p("KEYWORD_LOG", "log"),
        p("LPAREN", "("),
        p("KEYWORD_ERROR", "error"),
        p("RPAREN", ")"),
    ]);
}

#[test]
fn underscores_continue_words() {
    let tokens = tokenize("my_var = x; _b c_".to_string());
    assert_eq!(pairs(&tokens), vec![
        p("IDENTIFIER", "my_var"),
        p("ASSIGNMENT", "="),
        p("IDENTIFIER", "x"),
        p("SEMICOLON", ";"),
        p("IDENTIFIER", "_b"),
        p("IDENTIFIER", "c_"),
    ]);
}

#[test]
fn space_joined_texts_lex_separately() {
    for (a, b) in [("let x=", "1;"), ("a_", "_b"), ("if(", "else"), ("", "z"), ("q", "")] {
        let joined = pairs(&tokenize(format!("{} {}", a, b)));
        let mut parts = pairs(&tokenize(a.to_string()));
        parts.extend(pairs(&tokenize(b.to_string())));
        assert_eq!(joined, parts);
    }
}

#[test]
fn whitespace_matches_std() {
    for u in 0u32..=0x10FFFF {
        if let Some(c) = char::from_u32(u) {
            assert_eq!(is_whitespace(c), c.is_whitespace(), "U+{:04X}", u);
        }
    }
}

#[test]
fn digits_and_unknown_characters_make_no_tokens() {
    assert!(tokenize("123 + - * \" ` #".to_string()).0.is_empty());
    assert!(tokenize(String::new()).0.is_empty());
}

#[test]
fn every_delimiter() {
    let mut tokens = TokensList::default();
    for c in "'=(){}[]<>\\/.:;!?".chars() {
        tokenize_delimiters(c, &mut tokens);
    }
    let kinds: Vec<String> = tokens.0.iter().map(|t| t.token_type.clone()).collect();
    assert_eq!(kinds, vec![
        "SINGLE_QUOTE", "ASSIGNMENT", "LPAREN", "RPAREN", "LBRACE", "RBRACE", "LSQUARE",
        "RSQUARE", "LANGLE", "RANGLE", "BACKSLASH", "FORWARDSLASH", "DOT", "COLON", "SEMICOLON",
        "EXCLAMATION", "TERNARY",
    ]);
    tokenize_delimiters('x', &mut tokens);
    assert_eq!(tokens.0.len(), 17);
}

#[test]
fn tokenize_keywords_appends() {
    let mut tokens = TokensList(vec![Token::new("A".to_string(), "b".to_string())]);
    tokenize_keywords("while".to_string(), &mut tokens);
    assert_eq!(pairs(&tokens), vec![p("A", "b"), p("KEYWORD_WHILELOOP", "while")]);
}

#[test]
fn unicode_classes() {
    let tokens = tokenize("café\u{2003}naïve".to_string());
    assert_eq!(pairs(&tokens), vec![p("IDENTIFIER", "café"), p("IDENTIFIER", "naïve")]);
}

#[test]
fn unicode_word_characters() {
    // U+00A0 is whitespace, the Arabic-Indic digit three continues a word
    let tokens = tokenize("x\u{0663}\u{00A0}\u{00E9}t\u{00E9}".to_string());
    assert_eq!(pairs(&tokens), vec![p("IDENTIFIER", "x\u{0663}"), p("IDENTIFIER", "\u{00E9}t\u{00E9}")]);
}
