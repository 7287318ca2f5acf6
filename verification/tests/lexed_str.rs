use fsic_syntax::{LexedStr, SyntaxKind};

const WALKTHROUGH: &str = "let main\nmodule It =\n  let main\n  let main\nlet main";

#[test]
fn empty_text_has_an_empty_table() {
    let lexed = LexedStr::new("");
    assert_eq!(lexed.len(), 0);
    assert!(lexed.is_empty());
    assert_eq!(lexed.as_str(), "");
    assert_eq!(lexed.text_start(0), 0);
    assert_eq!(lexed.errors().len(), 0);
}

#[test]
fn table_resolves_kinds_and_records_offsets() {
    let lexed = LexedStr::new("let x = 12");
    assert_eq!(lexed.len(), 7);
    assert!(!lexed.is_empty());
    assert_eq!(lexed.as_str(), "let x = 12");
    let kinds: Vec<SyntaxKind> = (0..lexed.len()).map(|i| lexed.kind(i)).collect();
    assert_eq!(
        kinds,
        vec![
            SyntaxKind::LET_KW,
            SyntaxKind::WHITESPACE,
            SyntaxKind::IDENT,
            SyntaxKind::WHITESPACE,
            SyntaxKind::EQ,
            SyntaxKind::WHITESPACE,
            SyntaxKind::INT_NUMBER,
        ]
    );
    let starts: Vec<usize> = (0..=lexed.len()).map(|i| lexed.text_start(i)).collect();
    assert_eq!(starts, vec![0, 3, 4, 5, 6, 7, 8, 10]);
}

#[test]
fn table_gives_the_text_of_every_token() {
    let lexed = LexedStr::new("module It =\n  let a");
    let texts: Vec<&str> = (0..lexed.len()).map(|i| lexed.text(i)).collect();
    assert_eq!(
        texts,
        vec!["module", " ", "It", " ", "=", "\n", " ", " ", "let", " ", "a"]
    );
    assert_eq!(lexed.text_len(0), 6);
    assert_eq!(lexed.text_len(2), 2);
    assert_eq!(lexed.text_range(2), 7..9);
    assert_eq!(lexed.text_range(10), 18..19);
    assert_eq!(lexed.range_text(0..3), "module It");
    assert_eq!(lexed.range_text(8..11), "let a");
    assert_eq!(lexed.range_text(0..lexed.len()), "module It =\n  let a");
}

#[test]
fn table_offsets_never_decrease_and_end_at_the_length() {
    for text in ["", "let", WALKTHROUGH, "\u{e9} $ \r\n(1)"] {
        let lexed = LexedStr::new(text);
        let mut last = 0;
        for i in 0..=lexed.len() {
            let start = lexed.text_start(i);
            assert!(last <= start);
            last = start;
        }
        assert_eq!(last, text.len());
    }
}

#[test]
fn table_texts_in_a_row_are_the_source_text() {
    for text in ["let", WALKTHROUGH, "\u{e9}\u{1f600} $ \r\n\r(1) x_1"] {
        let lexed = LexedStr::new(text);
        let mut joined = String::new();
        for i in 0..lexed.len() {
            joined.push_str(lexed.text(i));
        }
        assert_eq!(joined, text);
    }
}

#[test]
fn table_resolves_every_category() {
    let lexed = LexedStr::new("let module = x \n(1)$");
    let kinds: Vec<SyntaxKind> = (0..lexed.len()).map(|i| lexed.kind(i)).collect();
    assert_eq!(
        kinds,
        vec![
            SyntaxKind::LET_KW,
            SyntaxKind::WHITESPACE,
            SyntaxKind::MODULE_KW,
            SyntaxKind::WHITESPACE,
            SyntaxKind::EQ,
            SyntaxKind::WHITESPACE,
            SyntaxKind::IDENT,
            SyntaxKind::WHITESPACE,
            SyntaxKind::NEWLINE,
            SyntaxKind::L_PAREN,
            SyntaxKind::INT_NUMBER,
            SyntaxKind::R_PAREN,
            SyntaxKind::ERROR,
        ]
    );
}

#[test]
fn unknown_characters_keep_their_whole_text() {
    let lexed = LexedStr::new("a\u{20ac}b");
    assert_eq!(lexed.len(), 3);
    assert_eq!(lexed.kind(1), SyntaxKind::ERROR);
    assert_eq!(lexed.text(1), "\u{20ac}");
    assert_eq!(lexed.text_range(1), 1..4);
}

#[test]
fn the_token_grammar_reports_no_lexical_errors() {
    let lexed = LexedStr::new("let $ = \u{e9}");
    for i in 0..lexed.len() {
        assert_eq!(lexed.error(i), None);
    }
    assert!(lexed.errors().is_empty());
}
