use fsic_syntax::event::Event;
use fsic_syntax::grammar::{apply, item, module_contents, name, source_file, Rule};
use fsic_syntax::parser::Parser;
use fsic_syntax::{Input, LexedStr, Output, Step, SyntaxKind, TopEntryPoint};

fn input_of(tokens: &[(SyntaxKind, u32)]) -> Input {
    let mut input = Input::default();
    for &(kind, col) in tokens {
        input.push(kind, col);
    }
    input
}

fn steps_of(output: &Output) -> Vec<Step> {
    (0..output.len()).map(|i| output.step(i).clone()).collect()
}

fn parse(text: &str) -> Vec<Step> {
    let lexed = LexedStr::new(text);
    let input = lexed.to_input();
    steps_of(&TopEntryPoint::SourceFile.parse(&input))
}

fn enter(kind: SyntaxKind) -> Step {
    Step::Enter { kind }
}

fn tok(kind: SyntaxKind) -> Step {
    Step::Token { kind, n_input_tokens: 1 }
}

fn err(msg: &str) -> Step {
    Step::Error { msg: msg.to_string() }
}

fn let_main() -> Vec<Step> {
    vec![
        enter(SyntaxKind::LET_DECL),
        tok(SyntaxKind::LET_KW),
        enter(SyntaxKind::NAME),
        tok(SyntaxKind::IDENT),
        Step::Exit,
        Step::Exit,
    ]
}

/// Checks that the steps open one root first, stay inside it, and close it last.
fn assert_one_tree(steps: &[Step]) {
    assert!(!steps.is_empty());
    assert!(matches!(steps[0], Step::Enter { .. }));
    let mut depth: i64 = 0;
    for (i, step) in steps.iter().enumerate() {
        assert!(depth > 0 || i == 0);
        match step {
            Step::Enter { .. } => depth += 1,
            Step::Exit => depth -= 1,
            Step::Token { .. } | Step::Error { .. } => (),
        }
        assert!(depth >= 0);
    }
    assert_eq!(depth, 0);
}

#[test]
fn offside_rule_delimits_the_nested_module() {
    let steps = parse("let main\nmodule It =\n  let main\n  let main\nlet main");
    let mut expected = vec![enter(SyntaxKind::MODULE)];
    expected.extend(let_main());
    expected.extend(vec![
        enter(SyntaxKind::MODULE),
        tok(SyntaxKind::MODULE_KW),
        enter(SyntaxKind::NAME),
        tok(SyntaxKind::IDENT),
        Step::Exit,
        tok(SyntaxKind::EQ),
    ]);
    expected.extend(let_main());
    expected.extend(let_main());
    expected.push(Step::Exit);
    expected.extend(let_main());
    expected.push(Step::Exit);
    assert_eq!(steps, expected);
}

#[test]
fn empty_input_yields_an_empty_root() {
    assert_eq!(parse(""), vec![enter(SyntaxKind::MODULE), Step::Exit]);
    assert_eq!(parse("  \n\n "), vec![enter(SyntaxKind::MODULE), Step::Exit]);
}

#[test]
fn a_binding_may_have_an_equals_sign() {
    assert_eq!(
        parse("let a ="),
        vec![
            enter(SyntaxKind::MODULE),
            enter(SyntaxKind::LET_DECL),
            tok(SyntaxKind::LET_KW),
            enter(SyntaxKind::NAME),
            tok(SyntaxKind::IDENT),
            Step::Exit,
            tok(SyntaxKind::EQ),
            Step::Exit,
            Step::Exit,
        ]
    );
}

#[test]
fn a_binding_without_a_name_is_reported_and_closed() {
    assert_eq!(
        parse("let"),
        vec![
            enter(SyntaxKind::MODULE),
            enter(SyntaxKind::LET_DECL),
            tok(SyntaxKind::LET_KW),
            err("expected a name"),
            Step::Exit,
            Step::Exit,
        ]
    );
}

#[test]
fn a_truncated_module_is_reported_and_closed() {
    assert_eq!(
        parse("module"),
        vec![
            enter(SyntaxKind::MODULE),
            enter(SyntaxKind::MODULE),
            tok(SyntaxKind::MODULE_KW),
            err("expected a name"),
            err("expected EQ"),
            err("module should contain at least one item"),
            Step::Exit,
            Step::Exit,
        ]
    );
}

#[test]
fn an_under_indented_body_is_reported_and_the_module_closed() {
    let mut expected = vec![
        enter(SyntaxKind::MODULE),
        enter(SyntaxKind::MODULE),
        tok(SyntaxKind::MODULE_KW),
        enter(SyntaxKind::NAME),
        tok(SyntaxKind::IDENT),
        Step::Exit,
        tok(SyntaxKind::EQ),
        err("module should contain at least one item"),
        Step::Exit,
    ];
    expected.extend(let_main());
    expected.push(Step::Exit);
    assert_eq!(parse("module M =\nlet main"), expected);
}

#[test]
fn modules_nest_by_indentation() {
    let steps = parse("module A =\n  module B =\n    let main\n  let main\nlet main");
    let module_head = vec![
        enter(SyntaxKind::MODULE),
        tok(SyntaxKind::MODULE_KW),
        enter(SyntaxKind::NAME),
        tok(SyntaxKind::IDENT),
        Step::Exit,
        tok(SyntaxKind::EQ),
    ];
    let mut expected = vec![enter(SyntaxKind::MODULE)];
    expected.extend(module_head.clone());
    expected.extend(module_head);
    expected.extend(let_main());
    expected.push(Step::Exit);
    expected.extend(let_main());
    expected.push(Step::Exit);
    expected.extend(let_main());
    expected.push(Step::Exit);
    assert_eq!(steps, expected);
}

#[test]
fn an_unrecognized_token_yields_one_diagnostic_and_is_skipped() {
    assert_eq!(
        parse("=\nlet main"),
        {
            let mut expected = vec![
                enter(SyntaxKind::MODULE),
                err("expected item"),
                tok(SyntaxKind::EQ),
            ];
            expected.extend(let_main());
            expected.push(Step::Exit);
            expected
        }
    );
}

#[test]
fn garbage_is_skipped_token_by_token() {
    assert_eq!(
        parse("1\n$\n)"),
        vec![
            enter(SyntaxKind::MODULE),
            err("expected item"),
            tok(SyntaxKind::INT_NUMBER),
            err("expected item"),
            tok(SyntaxKind::ERROR),
            err("expected item"),
            tok(SyntaxKind::R_PAREN),
            Step::Exit,
        ]
    );
}

#[test]
fn the_top_level_ends_at_the_first_token_off_its_column() {
    // The first token sets the column of the top level to 1.
    let mut expected = vec![enter(SyntaxKind::MODULE)];
    expected.extend(let_main());
    expected.push(Step::Exit);
    assert_eq!(parse(" let a\nlet b"), expected);
}

#[test]
fn item_recovers_by_exactly_one_token() {
    let input = input_of(&[(SyntaxKind::IDENT, 0), (SyntaxKind::IDENT, 0)]);
    let mut p = Parser::new(&input);
    item(&mut p);
    assert!(p.at(SyntaxKind::IDENT));
    let events = p.finish();
    assert_eq!(
        events,
        vec![
            Event::Error { msg: "expected item".to_string() },
            Event::Token { kind: SyntaxKind::IDENT, n_raw_tokens: 1 },
        ]
    );
}

#[test]
fn item_at_the_end_of_the_input_only_reports() {
    let input = Input::default();
    let mut p = Parser::new(&input);
    item(&mut p);
    assert_eq!(p.finish(), vec![Event::Error { msg: "expected item".to_string() }]);
}

#[test]
fn apply_runs_the_rule() {
    let input = input_of(&[(SyntaxKind::LET_KW, 0), (SyntaxKind::IDENT, 4)]);
    let mut p = Parser::new(&input);
    apply(Rule::Item, &mut p);
    assert!(p.at(SyntaxKind::EOF));
    assert_eq!(
        p.finish(),
        vec![
            Event::Start { kind: SyntaxKind::LET_DECL, forward_parent: None },
            Event::Token { kind: SyntaxKind::LET_KW, n_raw_tokens: 1 },
            Event::Start { kind: SyntaxKind::NAME, forward_parent: None },
            Event::Token { kind: SyntaxKind::IDENT, n_raw_tokens: 1 },
            Event::Finish,
            Event::Finish,
        ]
    );
}

#[test]
fn name_wraps_an_identifier() {
    let input = input_of(&[(SyntaxKind::IDENT, 3)]);
    let mut p = Parser::new(&input);
    name(&mut p);
    assert_eq!(
        p.finish(),
        vec![
            Event::Start { kind: SyntaxKind::NAME, forward_parent: None },
            Event::Token { kind: SyntaxKind::IDENT, n_raw_tokens: 1 },
            Event::Finish,
        ]
    );
}

#[test]
fn many_same_stops_at_another_column_and_at_the_end() {
    let input = input_of(&[
        (SyntaxKind::IDENT, 2),
        (SyntaxKind::IDENT, 2),
        (SyntaxKind::IDENT, 0),
    ]);
    let mut p = Parser::new(&input);
    p.new_indent_block();
    p.many_same(Rule::Item);
    p.drop_indent_block();
    // Two tokens at column 2 were taken as items; the third stands elsewhere.
    assert!(p.at(SyntaxKind::IDENT));
    assert_eq!(p.current().col, 0);
    assert_eq!(p.finish().len(), 4);
}

#[test]
fn module_contents_leaves_the_block_stack_as_it_was() {
    let input = input_of(&[(SyntaxKind::LET_KW, 4), (SyntaxKind::IDENT, 8)]);
    let mut p = Parser::new(&input);
    module_contents(&mut p);
    assert_eq!(p.get_current_indent_block(), (0, 0));
    assert!(p.at(SyntaxKind::EOF));
    p.finish();
}

#[test]
fn source_file_wraps_everything_in_one_module() {
    let input = input_of(&[(SyntaxKind::LET_KW, 0), (SyntaxKind::IDENT, 4)]);
    let mut p = Parser::new(&input);
    source_file(&mut p);
    let events = p.finish();
    assert_eq!(
        events.first(),
        Some(&Event::Start { kind: SyntaxKind::MODULE, forward_parent: None })
    );
    assert_eq!(events.last(), Some(&Event::Finish));
    assert_eq!(events.len(), 8);
}

#[test]
fn an_end_of_input_token_inside_the_table_ends_the_run() {
    let input = input_of(&[
        (SyntaxKind::LET_KW, 0),
        (SyntaxKind::IDENT, 4),
        (SyntaxKind::EOF, 0),
        (SyntaxKind::LET_KW, 0),
    ]);
    let mut expected = vec![enter(SyntaxKind::MODULE)];
    expected.extend(let_main());
    expected.push(Step::Exit);
    assert_eq!(steps_of(&TopEntryPoint::SourceFile.parse(&input)), expected);
}

#[test]
fn every_input_yields_exactly_one_tree() {
    for text in [
        "",
        "let",
        "module",
        "module =",
        "module M =",
        "module M =\n  module N =\n    module O =",
        "let main\nmodule It =\n  let main\n  let main\nlet main",
        "$ \u{e9} ) ( = 12",
        "= = =\n= =",
        "let let let",
        "module module module",
        "  let a\n let b\nlet c",
        "\r\r\n\r",
    ] {
        assert_one_tree(&parse(text));
    }
}
