use fsic_syntax::event::{process, Event};
use fsic_syntax::{Output, Step, SyntaxKind};

fn steps_of(output: &Output) -> Vec<Step> {
    (0..output.len()).map(|i| output.step(i).clone()).collect()
}

fn start(kind: SyntaxKind) -> Event {
    Event::Start { kind, forward_parent: None }
}

fn token(kind: SyntaxKind) -> Event {
    Event::Token { kind, n_raw_tokens: 1 }
}

#[test]
fn tombstone_is_a_start_without_kind_or_forward_parent() {
    assert_eq!(Event::tombstone(), start(SyntaxKind::TOMBSTONE));
}

#[test]
fn an_empty_log_yields_no_steps() {
    assert!(steps_of(&process(Vec::new())).is_empty());
}

#[test]
fn every_event_yields_its_step() {
    let events = vec![
        start(SyntaxKind::MODULE),
        Event::Error { msg: "oops".to_string() },
        Event::Token { kind: SyntaxKind::COLON2, n_raw_tokens: 2 },
        Event::Finish,
    ];
    assert_eq!(
        steps_of(&process(events)),
        vec![
            Step::Enter { kind: SyntaxKind::MODULE },
            Step::Error { msg: "oops".to_string() },
            Step::Token { kind: SyntaxKind::COLON2, n_input_tokens: 2 },
            Step::Exit,
        ]
    );
}

#[test]
fn tombstones_open_nothing() {
    let events = vec![
        start(SyntaxKind::MODULE),
        start(SyntaxKind::TOMBSTONE),
        start(SyntaxKind::NAME),
        token(SyntaxKind::IDENT),
        Event::Finish,
        Event::Finish,
    ];
    assert_eq!(
        steps_of(&process(events)),
        vec![
            Step::Enter { kind: SyntaxKind::MODULE },
            Step::Enter { kind: SyntaxKind::NAME },
            Step::Token { kind: SyntaxKind::IDENT, n_input_tokens: 1 },
            Step::Exit,
            Step::Exit,
        ]
    );
}

#[test]
fn a_forward_parent_opens_before_its_child() {
    // A is logged first and names B, three events later, as its parent.
    let events = vec![
        Event::Start { kind: SyntaxKind::LITERAL, forward_parent: Some(3) },
        token(SyntaxKind::INT_NUMBER),
        Event::Finish,
        start(SyntaxKind::BIN_EXPR),
        token(SyntaxKind::STAR),
        Event::Finish,
    ];
    assert_eq!(
        steps_of(&process(events)),
        vec![
            Step::Enter { kind: SyntaxKind::BIN_EXPR },
            Step::Enter { kind: SyntaxKind::LITERAL },
            Step::Token { kind: SyntaxKind::INT_NUMBER, n_input_tokens: 1 },
            Step::Exit,
            Step::Token { kind: SyntaxKind::STAR, n_input_tokens: 1 },
            Step::Exit,
        ]
    );
}

#[test]
fn a_chain_of_forward_parents_opens_outermost_first() {
    let events = vec![
        Event::Start { kind: SyntaxKind::NAME, forward_parent: Some(3) },
        token(SyntaxKind::IDENT),
        Event::Finish,
        Event::Start { kind: SyntaxKind::PATH, forward_parent: Some(2) },
        Event::Finish,
        start(SyntaxKind::EXPR),
        Event::Finish,
    ];
    assert_eq!(
        steps_of(&process(events)),
        vec![
            Step::Enter { kind: SyntaxKind::EXPR },
            Step::Enter { kind: SyntaxKind::PATH },
            Step::Enter { kind: SyntaxKind::NAME },
            Step::Token { kind: SyntaxKind::IDENT, n_input_tokens: 1 },
            Step::Exit,
            Step::Exit,
            Step::Exit,
        ]
    );
}

#[test]
fn an_abandoned_forward_parent_is_passed_over() {
    let events = vec![
        Event::Start { kind: SyntaxKind::NAME, forward_parent: Some(3) },
        token(SyntaxKind::IDENT),
        Event::Finish,
        Event::Start { kind: SyntaxKind::TOMBSTONE, forward_parent: Some(1) },
        start(SyntaxKind::EXPR),
        Event::Finish,
    ];
    assert_eq!(
        steps_of(&process(events)),
        vec![
            Step::Enter { kind: SyntaxKind::EXPR },
            Step::Enter { kind: SyntaxKind::NAME },
            Step::Token { kind: SyntaxKind::IDENT, n_input_tokens: 1 },
            Step::Exit,
            Step::Exit,
        ]
    );
}

#[test]
fn tokens_and_diagnostics_keep_their_order() {
    let events = vec![
        Event::Start { kind: SyntaxKind::NAME, forward_parent: Some(4) },
        token(SyntaxKind::IDENT),
        Event::Error { msg: "one".to_string() },
        Event::Finish,
        start(SyntaxKind::EXPR),
        token(SyntaxKind::EQ),
        Event::Error { msg: "two".to_string() },
        Event::Finish,
    ];
    let leaves: Vec<Step> = steps_of(&process(events))
        .into_iter()
        .filter(|s| matches!(s, Step::Token { .. } | Step::Error { .. }))
        .collect();
    assert_eq!(
        leaves,
        vec![
            Step::Token { kind: SyntaxKind::IDENT, n_input_tokens: 1 },
            Step::Error { msg: "one".to_string() },
            Step::Token { kind: SyntaxKind::EQ, n_input_tokens: 1 },
            Step::Error { msg: "two".to_string() },
        ]
    );
}

#[test]
fn output_collects_steps_in_order() {
    let mut output = Output::default();
    assert_eq!(output.len(), 0);
    output.enter_node(SyntaxKind::MODULE);
    output.token(SyntaxKind::IDENT, 1);
    output.error("bad".to_string());
    output.leave_node();
    assert_eq!(
        steps_of(&output),
        vec![
            Step::Enter { kind: SyntaxKind::MODULE },
            Step::Token { kind: SyntaxKind::IDENT, n_input_tokens: 1 },
            Step::Error { msg: "bad".to_string() },
            Step::Exit,
        ]
    );
}
