use fsic_syntax::input::Token;
use fsic_syntax::{Input, LexedStr, SyntaxKind};

fn tokens_of(input: &Input) -> Vec<(SyntaxKind, u32)> {
    (0..input.len()).map(|i| (input.token(i).kind, input.token(i).col)).collect()
}

#[test]
fn input_starts_empty() {
    let input = Input::default();
    assert_eq!(input.len(), 0);
    assert_eq!(input.token(0), Token { kind: SyntaxKind::EOF, col: 0 });
}

#[test]
fn input_push_appends() {
    let mut input = Input::default();
    input.push(SyntaxKind::LET_KW, 0);
    input.push(SyntaxKind::IDENT, 4);
    assert_eq!(input.len(), 2);
    assert_eq!(input.token(0), Token { kind: SyntaxKind::LET_KW, col: 0 });
    assert_eq!(input.token(1), Token { kind: SyntaxKind::IDENT, col: 4 });
}

#[test]
fn input_token_past_the_end_is_end_of_input_at_column_0() {
    let mut input = Input::default();
    input.push(SyntaxKind::IDENT, 7);
    assert_eq!(input.token(1), Token { kind: SyntaxKind::EOF, col: 0 });
    assert_eq!(input.token(1000), Token { kind: SyntaxKind::EOF, col: 0 });
    assert_eq!(input.token(usize::MAX), Token { kind: SyntaxKind::EOF, col: 0 });
}

#[test]
fn to_input_drops_trivia_and_tags_columns() {
    let lexed = LexedStr::new("let main\nmodule It =\n  let main\n  let main\nlet main");
    let input = lexed.to_input();
    assert_eq!(
        tokens_of(&input),
        vec![
            (SyntaxKind::LET_KW, 0),
            (SyntaxKind::IDENT, 4),
            (SyntaxKind::MODULE_KW, 0),
            (SyntaxKind::IDENT, 7),
            (SyntaxKind::EQ, 10),
            (SyntaxKind::LET_KW, 2),
            (SyntaxKind::IDENT, 6),
            (SyntaxKind::LET_KW, 2),
            (SyntaxKind::IDENT, 6),
            (SyntaxKind::LET_KW, 0),
            (SyntaxKind::IDENT, 4),
        ]
    );
}

#[test]
fn to_input_of_empty_or_blank_text_is_empty() {
    assert_eq!(LexedStr::new("").to_input().len(), 0);
    assert_eq!(LexedStr::new("  \n \n").to_input().len(), 0);
}

#[test]
fn to_input_counts_columns_in_bytes() {
    // The unknown character takes two bytes, so `x` starts at column 3.
    let lexed = LexedStr::new("\u{e9} x");
    assert_eq!(
        tokens_of(&lexed.to_input()),
        vec![(SyntaxKind::ERROR, 0), (SyntaxKind::IDENT, 3)]
    );
}

#[test]
fn to_input_resets_the_column_after_either_newline() {
    let lexed = LexedStr::new("a\r\n b\n  c");
    assert_eq!(
        tokens_of(&lexed.to_input()),
        vec![
            (SyntaxKind::IDENT, 0),
            (SyntaxKind::IDENT, 1),
            (SyntaxKind::IDENT, 2),
        ]
    );
}
