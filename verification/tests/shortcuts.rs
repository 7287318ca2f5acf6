use fsic_syntax::{LexedStr, Output, StrStep, SyntaxKind, TopEntryPoint};

const WALKTHROUGH: &str = "let main\nmodule It =\n  let main\n  let main\nlet main";

fn parse(lexed: &LexedStr<'_>) -> Output {
    TopEntryPoint::SourceFile.parse(&lexed.to_input())
}

fn texts(steps: &[StrStep<'_>]) -> String {
    let mut joined = String::new();
    for step in steps {
        if let StrStep::Token { text, .. } = step {
            joined.push_str(text);
        }
    }
    joined
}

fn enter(kind: SyntaxKind) -> StrStep<'static> {
    StrStep::Enter { kind }
}

fn tok(kind: SyntaxKind, text: &'static str) -> StrStep<'static> {
    StrStep::Token { kind, text }
}

/// Checks that the steps open one root first, stay inside it, and close it last.
fn assert_one_tree(steps: &[StrStep<'_>]) {
    assert!(matches!(steps.first(), Some(StrStep::Enter { .. })));
    let mut depth: i64 = 0;
    for (i, step) in steps.iter().enumerate() {
        assert!(depth > 0 || i == 0);
        match step {
            StrStep::Enter { .. } => depth += 1,
            StrStep::Exit => depth -= 1,
            StrStep::Token { .. } | StrStep::Error { .. } => (),
        }
    }
    assert_eq!(depth, 0);
}

#[test]
fn trivia_goes_back_between_the_steps() {
    let lexed = LexedStr::new("let a\n");
    let output = parse(&lexed);
    let (steps, eof) = lexed.intersperse_trivia(&output);
    assert!(eof);
    assert_eq!(
        steps,
        vec![
            enter(SyntaxKind::MODULE),
            enter(SyntaxKind::LET_DECL),
            tok(SyntaxKind::LET_KW, "let"),
            tok(SyntaxKind::WHITESPACE, " "),
            enter(SyntaxKind::NAME),
            tok(SyntaxKind::IDENT, "a"),
            StrStep::Exit,
            StrStep::Exit,
            tok(SyntaxKind::NEWLINE, "\n"),
            StrStep::Exit,
        ]
    );
}

#[test]
fn trivia_between_items_belongs_to_the_enclosing_node() {
    let lexed = LexedStr::new("let a\nlet b");
    let output = parse(&lexed);
    let (steps, eof) = lexed.intersperse_trivia(&output);
    assert!(eof);
    assert_eq!(
        steps,
        vec![
            enter(SyntaxKind::MODULE),
            enter(SyntaxKind::LET_DECL),
            tok(SyntaxKind::LET_KW, "let"),
            tok(SyntaxKind::WHITESPACE, " "),
            enter(SyntaxKind::NAME),
            tok(SyntaxKind::IDENT, "a"),
            StrStep::Exit,
            StrStep::Exit,
            tok(SyntaxKind::NEWLINE, "\n"),
            enter(SyntaxKind::LET_DECL),
            tok(SyntaxKind::LET_KW, "let"),
            tok(SyntaxKind::WHITESPACE, " "),
            enter(SyntaxKind::NAME),
            tok(SyntaxKind::IDENT, "b"),
            StrStep::Exit,
            StrStep::Exit,
            StrStep::Exit,
        ]
    );
}

#[test]
fn the_root_opens_before_leading_trivia() {
    let lexed = LexedStr::new("\n let a");
    let output = parse(&lexed);
    let (steps, eof) = lexed.intersperse_trivia(&output);
    assert!(eof);
    assert_eq!(
        &steps[..4],
        &[
            enter(SyntaxKind::MODULE),
            tok(SyntaxKind::NEWLINE, "\n"),
            tok(SyntaxKind::WHITESPACE, " "),
            enter(SyntaxKind::LET_DECL),
        ]
    );
}

#[test]
fn empty_text_merges_into_an_empty_root() {
    let lexed = LexedStr::new("");
    let output = parse(&lexed);
    let (steps, eof) = lexed.intersperse_trivia(&output);
    assert!(eof);
    assert_eq!(steps, vec![enter(SyntaxKind::MODULE), StrStep::Exit]);
}

#[test]
fn blank_text_keeps_its_trivia_inside_the_root() {
    let lexed = LexedStr::new(" \n");
    let output = parse(&lexed);
    let (steps, eof) = lexed.intersperse_trivia(&output);
    assert!(eof);
    assert_eq!(
        steps,
        vec![
            enter(SyntaxKind::MODULE),
            tok(SyntaxKind::WHITESPACE, " "),
            tok(SyntaxKind::NEWLINE, "\n"),
            StrStep::Exit,
        ]
    );
}

#[test]
fn diagnostics_carry_the_offset_of_the_next_token() {
    let lexed = LexedStr::new("module");
    let output = parse(&lexed);
    let (steps, eof) = lexed.intersperse_trivia(&output);
    assert!(eof);
    assert_eq!(
        steps,
        vec![
            enter(SyntaxKind::MODULE),
            enter(SyntaxKind::MODULE),
            tok(SyntaxKind::MODULE_KW, "module"),
            StrStep::Error { msg: "expected a name", pos: 6 },
            StrStep::Error { msg: "expected EQ", pos: 6 },
            StrStep::Error { msg: "module should contain at least one item", pos: 6 },
            StrStep::Exit,
            StrStep::Exit,
        ]
    );
}

#[test]
fn a_diagnostic_before_trivia_points_at_the_trivia() {
    let lexed = LexedStr::new("let \n= x");
    let output = parse(&lexed);
    let (steps, _) = lexed.intersperse_trivia(&output);
    assert!(steps.contains(&StrStep::Error { msg: "expected a name", pos: 3 }));
}

#[test]
fn the_texts_of_the_steps_are_the_source_text() {
    for text in [
        "",
        "let",
        "let a\n",
        WALKTHROUGH,
        "module M =\n  let a\n\n\n  let b =\n",
        "$\n\u{e9}\n)\n",
        "module\n",
        "\n\n  \n",
    ] {
        let lexed = LexedStr::new(text);
        let output = parse(&lexed);
        let (steps, eof) = lexed.intersperse_trivia(&output);
        assert!(eof, "{:?}", text);
        assert_eq!(texts(&steps), text);
        assert_one_tree(&steps);
    }
}

#[test]
fn what_the_parse_does_not_reach_is_left_out() {
    // The top level stands at column 1, so the second binding is not reached.
    let text = " let a\nlet b";
    let lexed = LexedStr::new(text);
    let output = parse(&lexed);
    let (steps, eof) = lexed.intersperse_trivia(&output);
    assert!(!eof);
    assert_eq!(texts(&steps), " let a\n");
    assert!(text.starts_with(&texts(&steps)));
    assert_one_tree(&steps);
}

#[test]
fn every_table_token_reached_comes_out_once() {
    let lexed = LexedStr::new(WALKTHROUGH);
    let output = parse(&lexed);
    let (steps, eof) = lexed.intersperse_trivia(&output);
    assert!(eof);
    let tokens: Vec<(SyntaxKind, &str)> = steps
        .iter()
        .filter_map(|s| match s {
            StrStep::Token { kind, text } => Some((*kind, *text)),
            _ => None,
        })
        .collect();
    let table: Vec<(SyntaxKind, &str)> =
        (0..lexed.len()).map(|i| (lexed.kind(i), lexed.text(i))).collect();
    assert_eq!(tokens, table);
}
