use fsic_syntax::lexer::{tokenize, Token, TokenKind};

fn kinds_and_lens(text: &str) -> Vec<(TokenKind, u32)> {
    tokenize(text).into_iter().map(|t| (t.kind, t.len)).collect()
}

fn total(tokens: &[Token]) -> usize {
    tokens.iter().map(|t| t.len as usize).sum()
}

#[test]
fn tokenize_covers_keywords_identifiers_and_numbers() {
    assert_eq!(
        kinds_and_lens("let main = 42"),
        vec![
            (TokenKind::Let, 3),
            (TokenKind::Whitespace, 1),
            (TokenKind::Ident, 4),
            (TokenKind::Whitespace, 1),
            (TokenKind::Eq, 1),
            (TokenKind::Whitespace, 1),
            (TokenKind::Number, 2),
        ]
    );
}

#[test]
fn tokenize_empty_text_has_no_tokens() {
    assert!(tokenize("").is_empty());
}

#[test]
fn tokenize_takes_the_longest_word() {
    assert_eq!(kinds_and_lens("letx"), vec![(TokenKind::Ident, 4)]);
    assert_eq!(kinds_and_lens("let1"), vec![(TokenKind::Ident, 4)]);
    assert_eq!(kinds_and_lens("modules"), vec![(TokenKind::Ident, 7)]);
    assert_eq!(kinds_and_lens("_let"), vec![(TokenKind::Ident, 4)]);
    assert_eq!(kinds_and_lens("let"), vec![(TokenKind::Let, 3)]);
    assert_eq!(kinds_and_lens("module"), vec![(TokenKind::Module, 6)]);
    assert_eq!(kinds_and_lens("Let"), vec![(TokenKind::Ident, 3)]);
}

#[test]
fn tokenize_number_stops_before_letters() {
    assert_eq!(
        kinds_and_lens("12ab"),
        vec![(TokenKind::Number, 2), (TokenKind::Ident, 2)]
    );
}

#[test]
fn tokenize_each_space_is_a_token() {
    assert_eq!(
        kinds_and_lens("  "),
        vec![(TokenKind::Whitespace, 1), (TokenKind::Whitespace, 1)]
    );
}

#[test]
fn tokenize_newlines() {
    assert_eq!(kinds_and_lens("\n"), vec![(TokenKind::Newline, 1)]);
    assert_eq!(kinds_and_lens("\r\n"), vec![(TokenKind::Newline, 2)]);
    assert_eq!(
        kinds_and_lens("\n\n"),
        vec![(TokenKind::Newline, 1), (TokenKind::Newline, 1)]
    );
}

#[test]
fn tokenize_lone_carriage_return_is_unknown() {
    assert_eq!(
        kinds_and_lens("\rx"),
        vec![(TokenKind::Unknown, 1), (TokenKind::Ident, 1)]
    );
    assert_eq!(kinds_and_lens("\r"), vec![(TokenKind::Unknown, 1)]);
}

#[test]
fn tokenize_parens_and_eq() {
    assert_eq!(
        kinds_and_lens("(=)"),
        vec![
            (TokenKind::OpenParen, 1),
            (TokenKind::Eq, 1),
            (TokenKind::CloseParen, 1),
        ]
    );
}

#[test]
fn tokenize_unknown_is_one_character_at_a_time() {
    assert_eq!(
        kinds_and_lens("$#"),
        vec![(TokenKind::Unknown, 1), (TokenKind::Unknown, 1)]
    );
    // Two bytes, three bytes and four bytes of UTF-8.
    assert_eq!(kinds_and_lens("\u{e9}"), vec![(TokenKind::Unknown, 2)]);
    assert_eq!(kinds_and_lens("\u{20ac}"), vec![(TokenKind::Unknown, 3)]);
    assert_eq!(kinds_and_lens("\u{1f600}"), vec![(TokenKind::Unknown, 4)]);
    assert_eq!(
        kinds_and_lens("a\u{e9}b"),
        vec![
            (TokenKind::Ident, 1),
            (TokenKind::Unknown, 2),
            (TokenKind::Ident, 1),
        ]
    );
}

#[test]
fn tokenize_tab_is_unknown() {
    assert_eq!(kinds_and_lens("\t"), vec![(TokenKind::Unknown, 1)]);
}

#[test]
fn tokenize_never_yields_the_end_category() {
    for text in ["", "let", "let x = 1\nmodule M =\n  let y", "\u{1f600}$"] {
        assert!(tokenize(text).iter().all(|t| t.kind != TokenKind::Eof));
    }
}

#[test]
fn tokenize_lengths_sum_to_the_length_of_the_text() {
    for text in [
        "",
        "let",
        "let main\nmodule It =\n  let main\n  let main\nlet main",
        "\u{e9}\u{20ac} \r\n\r 12ab ((==))",
        "$$$ === 123abc_",
    ] {
        let tokens = tokenize(text);
        assert_eq!(total(&tokens), text.len());
        assert!(tokens.iter().all(|t| t.len >= 1));
    }
}

#[test]
fn tokenize_is_a_function_of_the_text_alone() {
    let text = "module A =\n  let b = 1";
    assert_eq!(kinds_and_lens(text), kinds_and_lens(text));
}
