use fsic_syntax::parsing::{build_tree, parse_text, try_parse_text, MAX_TEXT_LEN};
use fsic_syntax::syntax_error::SyntaxError;
use fsic_syntax::syntax_node::SyntaxTreeBuilder;
use fsic_syntax::{LexedStr, SyntaxKind, TopEntryPoint};
use rowan::{GreenNode, NodeOrToken, WalkEvent};

#[derive(Debug, Copy, Clone, Eq, PartialEq, Ord, PartialOrd, Hash)]
enum Lang {}

impl rowan::Language for Lang {
    type Kind = SyntaxKind;

    fn kind_from_raw(raw: rowan::SyntaxKind) -> SyntaxKind {
        SyntaxKind::from_raw(raw.0)
    }

    fn kind_to_raw(kind: SyntaxKind) -> rowan::SyntaxKind {
        rowan::SyntaxKind(kind.to_raw())
    }
}

/// Writes the tree down, one node or token per line, indented by depth.
fn dump(green: GreenNode) -> String {
    let root = rowan::SyntaxNode::<Lang>::new_root(green);
    let mut buf = String::new();
    let mut indent = 0;
    for event in root.preorder_with_tokens() {
        match event {
            WalkEvent::Enter(element) => {
                let text = match &element {
                    NodeOrToken::Node(_) => String::new(),
                    NodeOrToken::Token(it) => format!(" {:?}", it.text()),
                };
                buf.push_str(&format!("{}{:?}{}\n", " ".repeat(indent), element.kind(), text));
                indent += 2;
            },
            WalkEvent::Leave(_) => indent -= 2,
        }
    }
    assert_eq!(indent, 0);
    buf
}

fn text_of(green: GreenNode) -> String {
    rowan::SyntaxNode::<Lang>::new_root(green).text().to_string()
}

#[test]
fn walkthrough_tree() {
    let source_code = "let main\nmodule It =\n  let main\n  let main\nlet main";
    let (green, errors) = parse_text(source_code);
    assert!(errors.is_empty());
    assert_eq!(
        dump(green).trim(),
        r#"
MODULE
  LET_DECL
    LET_KW "let"
    WHITESPACE " "
    NAME
      IDENT "main"
  NEWLINE "\n"
  MODULE
    MODULE_KW "module"
    WHITESPACE " "
    NAME
      IDENT "It"
    WHITESPACE " "
    EQ "="
    NEWLINE "\n"
    WHITESPACE " "
    WHITESPACE " "
    LET_DECL
      LET_KW "let"
      WHITESPACE " "
      NAME
        IDENT "main"
    NEWLINE "\n"
    WHITESPACE " "
    WHITESPACE " "
    LET_DECL
      LET_KW "let"
      WHITESPACE " "
      NAME
        IDENT "main"
  NEWLINE "\n"
  LET_DECL
    LET_KW "let"
    WHITESPACE " "
    NAME
      IDENT "main"
"#
        .trim()
    );
}

#[test]
fn the_root_is_always_a_module() {
    for text in ["", "   ", "$", "let", "module", "= = =", "\u{1f600}"] {
        let (green, _) = parse_text(text);
        let root = rowan::SyntaxNode::<Lang>::new_root(green);
        assert_eq!(root.kind(), SyntaxKind::MODULE);
        assert!(root.parent().is_none());
    }
}

#[test]
fn the_text_of_the_tree_is_the_source_text() {
    for text in [
        "",
        "let a",
        "let a =\nlet b\n",
        "module A =\n  module B =\n    let c\n  let d\nlet e\n",
        "$\n\u{e9}\n",
        "\n\n",
    ] {
        let (green, _) = parse_text(text);
        assert_eq!(text_of(green), text);
    }
}

#[test]
fn the_tree_ends_where_the_parse_ends() {
    let (green, errors) = parse_text(" let a\nlet b");
    assert!(errors.is_empty());
    assert_eq!(text_of(green), " let a\n");
}

#[test]
fn diagnostics_come_with_their_offsets() {
    let (green, errors) = parse_text("let\nmodule M\n$");
    let found: Vec<(&str, (u32, u32))> = errors.iter().map(|e| (e.message(), e.range())).collect();
    assert_eq!(
        found,
        vec![
            ("expected a name", (3, 3)),
            ("expected EQ", (12, 12)),
            ("module should contain at least one item", (12, 12)),
            ("expected item", (12, 12)),
        ]
    );
    assert_eq!(text_of(green), "let\nmodule M\n$");
}

#[test]
fn an_empty_tree() {
    let (green, errors) = parse_text("");
    assert!(errors.is_empty());
    assert_eq!(dump(green), "MODULE\n");
}

#[test]
fn try_parse_text_agrees_with_parse_text() {
    let text = "module M =\n  let a";
    let (green, errors) = parse_text(text);
    let (tried_green, tried_errors) = try_parse_text(text).unwrap();
    assert_eq!(green, tried_green);
    assert_eq!(errors, tried_errors);
}

#[test]
fn try_parse_text_refuses_a_text_that_is_too_long() {
    let text = " ".repeat(MAX_TEXT_LEN + 1);
    assert!(try_parse_text(&text).is_none());
}

#[test]
fn build_tree_says_whether_the_end_was_reached() {
    let lexed = LexedStr::new("let a\n");
    let output = TopEntryPoint::SourceFile.parse(&lexed.to_input());
    let (green, errors, eof) = build_tree(lexed, output);
    assert!(eof);
    assert!(errors.is_empty());
    assert_eq!(text_of(green), "let a\n");

    let lexed = LexedStr::new(" let a\nlet b");
    let output = TopEntryPoint::SourceFile.parse(&lexed.to_input());
    let (_, _, eof) = build_tree(lexed, output);
    assert!(!eof);
}

#[test]
fn the_builder_builds_what_it_is_told() {
    let mut builder = SyntaxTreeBuilder::default();
    builder.start_node(SyntaxKind::MODULE);
    builder.token(SyntaxKind::WHITESPACE, " ");
    builder.start_node(SyntaxKind::NAME);
    builder.token(SyntaxKind::IDENT, "x");
    builder.finish_node();
    builder.error("odd".to_string(), 1);
    builder.finish_node();
    let (green, errors) = builder.finish_raw();
    assert_eq!(
        dump(green),
        "MODULE\n  WHITESPACE \" \"\n  NAME\n    IDENT \"x\"\n"
    );
    assert_eq!(errors, vec![SyntaxError::new_at_offset("odd".to_string(), 1)]);
}

#[test]
fn syntax_errors_hold_a_message_and_a_range() {
    let error = SyntaxError::new("bad".to_string(), 2, 5);
    assert_eq!(error.message(), "bad");
    assert_eq!(error.range(), (2, 5));
    let error = SyntaxError::new_at_offset("worse".to_string(), 7);
    assert_eq!(error.message(), "worse");
    assert_eq!(error.range(), (7, 7));
}
