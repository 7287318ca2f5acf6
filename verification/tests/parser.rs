use fsic_syntax::event::{process, Event};
use fsic_syntax::input::Token;
use fsic_syntax::parser::Parser;
use fsic_syntax::{Input, Output, Step, SyntaxKind};

fn input_of(tokens: &[(SyntaxKind, u32)]) -> Input {
    let mut input = Input::default();
    for &(kind, col) in tokens {
        input.push(kind, col);
    }
    input
}

fn steps_of(output: &Output) -> Vec<Step> {
    (0..output.len()).map(|i| output.step(i).clone()).collect()
}

fn start(kind: SyntaxKind) -> Event {
    Event::Start { kind, forward_parent: None }
}

fn token(kind: SyntaxKind) -> Event {
    Event::Token { kind, n_raw_tokens: 1 }
}

#[test]
fn lookahead_reads_without_consuming() {
    let input = input_of(&[(SyntaxKind::LET_KW, 0), (SyntaxKind::IDENT, 4)]);
    let mut p = Parser::new(&input);
    assert_eq!(p.current(), Token { kind: SyntaxKind::LET_KW, col: 0 });
    assert_eq!(p.nth(0), Token { kind: SyntaxKind::LET_KW, col: 0 });
    assert_eq!(p.nth(1), Token { kind: SyntaxKind::IDENT, col: 4 });
    assert_eq!(p.nth(2), Token { kind: SyntaxKind::EOF, col: 0 });
    assert_eq!(p.nth(3), Token { kind: SyntaxKind::EOF, col: 0 });
    assert!(p.at(SyntaxKind::LET_KW));
    assert!(!p.at(SyntaxKind::IDENT));
    assert!(p.finish().is_empty());
}

#[test]
fn empty_input_is_at_end_of_input() {
    let input = Input::default();
    let mut p = Parser::new(&input);
    assert!(p.at(SyntaxKind::EOF));
    assert_eq!(p.current(), Token { kind: SyntaxKind::EOF, col: 0 });
    p.bump_any();
    assert!(p.finish().is_empty());
}

#[test]
fn bump_consumes_one_token_and_logs_it() {
    let input = input_of(&[(SyntaxKind::LET_KW, 0), (SyntaxKind::IDENT, 4)]);
    let mut p = Parser::new(&input);
    p.bump(SyntaxKind::LET_KW);
    assert!(p.at(SyntaxKind::IDENT));
    p.bump(SyntaxKind::IDENT);
    assert!(p.at(SyntaxKind::EOF));
    assert_eq!(p.finish(), vec![token(SyntaxKind::LET_KW), token(SyntaxKind::IDENT)]);
}

#[test]
fn eat_consumes_only_on_a_match() {
    let input = input_of(&[(SyntaxKind::LET_KW, 0)]);
    let mut p = Parser::new(&input);
    assert!(!p.eat(SyntaxKind::IDENT));
    assert!(p.at(SyntaxKind::LET_KW));
    assert!(p.eat(SyntaxKind::LET_KW));
    assert!(p.at(SyntaxKind::EOF));
    assert!(!p.eat(SyntaxKind::LET_KW));
    assert_eq!(p.finish(), vec![token(SyntaxKind::LET_KW)]);
}

#[test]
fn do_bump_may_span_several_tokens() {
    let input = input_of(&[(SyntaxKind::COLON, 0), (SyntaxKind::COLON, 1), (SyntaxKind::IDENT, 2)]);
    let mut p = Parser::new(&input);
    p.do_bump(SyntaxKind::COLON2, 2);
    assert!(p.at(SyntaxKind::IDENT));
    assert_eq!(
        p.finish(),
        vec![Event::Token { kind: SyntaxKind::COLON2, n_raw_tokens: 2 }]
    );
}

#[test]
fn bump_any_consumes_whatever_is_current() {
    let input = input_of(&[(SyntaxKind::ERROR, 0), (SyntaxKind::IDENT, 1)]);
    let mut p = Parser::new(&input);
    p.bump_any();
    p.bump_any();
    p.bump_any();
    assert_eq!(p.finish(), vec![token(SyntaxKind::ERROR), token(SyntaxKind::IDENT)]);
}

#[test]
fn expect_logs_a_diagnostic_on_a_mismatch() {
    let input = input_of(&[(SyntaxKind::IDENT, 0)]);
    let mut p = Parser::new(&input);
    assert!(!p.expect(SyntaxKind::EQ));
    assert!(p.at(SyntaxKind::IDENT));
    assert!(p.expect(SyntaxKind::IDENT));
    assert_eq!(
        p.finish(),
        vec![
            Event::Error { msg: "expected EQ".to_string() },
            token(SyntaxKind::IDENT),
        ]
    );
}

#[test]
fn error_may_be_logged_any_number_of_times() {
    let input = input_of(&[(SyntaxKind::IDENT, 0)]);
    let mut p = Parser::new(&input);
    p.error("first");
    p.error("second");
    assert!(p.at(SyntaxKind::IDENT));
    assert_eq!(
        p.finish(),
        vec![
            Event::Error { msg: "first".to_string() },
            Event::Error { msg: "second".to_string() },
        ]
    );
}

#[test]
fn complete_writes_the_kind_and_logs_the_finish() {
    let input = input_of(&[(SyntaxKind::IDENT, 0)]);
    let mut p = Parser::new(&input);
    let m = p.start();
    p.bump(SyntaxKind::IDENT);
    let done = m.complete(&mut p, SyntaxKind::NAME);
    assert_eq!(done.kind(), SyntaxKind::NAME);
    assert_eq!(
        p.finish(),
        vec![start(SyntaxKind::NAME), token(SyntaxKind::IDENT), Event::Finish]
    );
}

#[test]
fn abandon_removes_a_placeholder_that_is_still_last() {
    let input = input_of(&[(SyntaxKind::IDENT, 0)]);
    let mut p = Parser::new(&input);
    let m = p.start();
    m.abandon(&mut p);
    p.bump(SyntaxKind::IDENT);
    assert_eq!(p.finish(), vec![token(SyntaxKind::IDENT)]);
}

#[test]
fn abandon_leaves_a_tombstone_once_something_was_logged() {
    let input = input_of(&[(SyntaxKind::IDENT, 0)]);
    let mut p = Parser::new(&input);
    let outer = p.start();
    let m = p.start();
    p.bump(SyntaxKind::IDENT);
    m.abandon(&mut p);
    outer.complete(&mut p, SyntaxKind::MODULE);
    let events = p.finish();
    assert_eq!(
        events,
        vec![
            start(SyntaxKind::MODULE),
            start(SyntaxKind::TOMBSTONE),
            token(SyntaxKind::IDENT),
            Event::Finish,
        ]
    );
    // What the abandoned node would have held falls to its parent.
    assert_eq!(
        steps_of(&process(events)),
        vec![
            Step::Enter { kind: SyntaxKind::MODULE },
            Step::Token { kind: SyntaxKind::IDENT, n_input_tokens: 1 },
            Step::Exit,
        ]
    );
}

#[test]
fn precede_wraps_a_completed_node() {
    let input = input_of(&[(SyntaxKind::IDENT, 0), (SyntaxKind::EQ, 2), (SyntaxKind::IDENT, 4)]);
    let mut p = Parser::new(&input);
    let m = p.start();
    p.bump(SyntaxKind::IDENT);
    let name = m.complete(&mut p, SyntaxKind::NAME);
    let wrapper = name.precede(&mut p);
    p.bump(SyntaxKind::EQ);
    p.bump(SyntaxKind::IDENT);
    wrapper.complete(&mut p, SyntaxKind::BIN_EXPR);
    let events = p.finish();
    assert_eq!(
        events,
        vec![
            Event::Start { kind: SyntaxKind::NAME, forward_parent: Some(3) },
            token(SyntaxKind::IDENT),
            Event::Finish,
            start(SyntaxKind::BIN_EXPR),
            token(SyntaxKind::EQ),
            token(SyntaxKind::IDENT),
            Event::Finish,
        ]
    );
    // The later node opens first and holds the earlier one; the tokens keep their order.
    assert_eq!(
        steps_of(&process(events)),
        vec![
            Step::Enter { kind: SyntaxKind::BIN_EXPR },
            Step::Enter { kind: SyntaxKind::NAME },
            Step::Token { kind: SyntaxKind::IDENT, n_input_tokens: 1 },
            Step::Exit,
            Step::Token { kind: SyntaxKind::EQ, n_input_tokens: 1 },
            Step::Token { kind: SyntaxKind::IDENT, n_input_tokens: 1 },
            Step::Exit,
        ]
    );
}

#[test]
fn precede_may_be_chained() {
    let input = input_of(&[(SyntaxKind::IDENT, 0)]);
    let mut p = Parser::new(&input);
    let m = p.start();
    p.bump(SyntaxKind::IDENT);
    let inner = m.complete(&mut p, SyntaxKind::NAME);
    let middle = inner.precede(&mut p).complete(&mut p, SyntaxKind::PATH);
    middle.precede(&mut p).complete(&mut p, SyntaxKind::EXPR);
    let events = p.finish();
    assert_eq!(
        steps_of(&process(events)),
        vec![
            Step::Enter { kind: SyntaxKind::EXPR },
            Step::Enter { kind: SyntaxKind::PATH },
            Step::Enter { kind: SyntaxKind::NAME },
            Step::Token { kind: SyntaxKind::IDENT, n_input_tokens: 1 },
            Step::Exit,
            Step::Exit,
            Step::Exit,
        ]
    );
}

#[test]
fn extend_to_grows_a_completed_node_to_the_left() {
    let input = input_of(&[(SyntaxKind::ATTRIBUTE, 0), (SyntaxKind::IDENT, 2)]);
    let mut p = Parser::new(&input);
    let earlier = p.start();
    p.bump(SyntaxKind::ATTRIBUTE);
    let m = p.start();
    p.bump(SyntaxKind::IDENT);
    let done = m.complete(&mut p, SyntaxKind::NAME);
    let done = done.extend_to(&mut p, earlier);
    assert_eq!(done.kind(), SyntaxKind::NAME);
    let events = p.finish();
    assert_eq!(
        events,
        vec![
            Event::Start { kind: SyntaxKind::TOMBSTONE, forward_parent: Some(2) },
            token(SyntaxKind::ATTRIBUTE),
            start(SyntaxKind::NAME),
            token(SyntaxKind::IDENT),
            Event::Finish,
        ]
    );
    assert_eq!(
        steps_of(&process(events)),
        vec![
            Step::Enter { kind: SyntaxKind::NAME },
            Step::Token { kind: SyntaxKind::ATTRIBUTE, n_input_tokens: 1 },
            Step::Token { kind: SyntaxKind::IDENT, n_input_tokens: 1 },
            Step::Exit,
        ]
    );
}

#[test]
fn indentation_blocks_form_a_stack() {
    let input = input_of(&[(SyntaxKind::LET_KW, 2), (SyntaxKind::IDENT, 6)]);
    let mut p = Parser::new(&input);
    assert_eq!(p.get_current_indent_block(), (0, 0));
    assert_eq!(p.new_indent_block(), 2);
    assert_eq!(p.get_current_indent_block(), (2, 1));
    p.bump(SyntaxKind::LET_KW);
    assert_eq!(p.new_indent_block(), 6);
    assert_eq!(p.get_current_indent_block(), (6, 2));
    assert_eq!(p.get_indent_block(0), 0);
    assert_eq!(p.get_indent_block(1), 2);
    assert_eq!(p.get_indent_block(2), 6);
    p.drop_indent_block();
    assert_eq!(p.get_current_indent_block(), (2, 1));
    p.drop_indent_block();
    assert_eq!(p.get_current_indent_block(), (0, 0));
    p.finish();
}

#[test]
fn a_new_block_at_the_end_of_the_input_is_at_column_0() {
    let input = Input::default();
    let mut p = Parser::new(&input);
    assert_eq!(p.new_indent_block(), 0);
    assert_eq!(p.get_current_indent_block(), (0, 1));
    p.finish();
}

#[test]
fn every_marker_is_resolved_by_one_call() {
    let input = input_of(&[(SyntaxKind::IDENT, 0), (SyntaxKind::IDENT, 2)]);
    let mut p = Parser::new(&input);
    let root = p.start();
    let first = p.start();
    p.bump(SyntaxKind::IDENT);
    first.complete(&mut p, SyntaxKind::NAME);
    let second = p.start();
    second.abandon(&mut p);
    let third = p.start();
    p.bump(SyntaxKind::IDENT);
    third.abandon(&mut p);
    root.complete(&mut p, SyntaxKind::MODULE);
    let events = p.finish();
    let starts = events.iter().filter(|e| matches!(e, Event::Start { .. })).count();
    let finishes = events.iter().filter(|e| matches!(e, Event::Finish)).count();
    let real = events
        .iter()
        .filter(|e| matches!(e, Event::Start { kind, .. } if *kind != SyntaxKind::TOMBSTONE))
        .count();
    // Four markers were opened; one placeholder was removed, one stays as a tombstone.
    assert_eq!(starts, 3);
    assert_eq!(real, 2);
    assert_eq!(finishes, 2);
}
