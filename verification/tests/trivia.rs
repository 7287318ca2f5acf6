use fsic_syntax::trivia::{contains_blank_line, is_inner, is_outer, n_attached_trivias};
use fsic_syntax::SyntaxKind;

const COMMENT: SyntaxKind = SyntaxKind::COMMENT;
const WHITESPACE: SyntaxKind = SyntaxKind::WHITESPACE;
const NEWLINE: SyntaxKind = SyntaxKind::NEWLINE;

#[test]
fn outer_doc_comments() {
    assert!(is_outer("/// doc"));
    assert!(is_outer("///"));
    assert!(is_outer("/** doc */"));
    assert!(is_outer("/**"));
    assert!(!is_outer("//// not a doc"));
    assert!(!is_outer("/*** not a doc */"));
    assert!(!is_outer("// plain"));
    assert!(!is_outer("/* plain */"));
    assert!(!is_outer("//! inner"));
    assert!(!is_outer(""));
    assert!(!is_outer("//"));
    assert!(!is_outer(" ///"));
}

#[test]
fn inner_doc_comments() {
    assert!(is_inner("//! doc"));
    assert!(is_inner("//!"));
    assert!(is_inner("/*! doc */"));
    assert!(!is_inner("/// doc"));
    assert!(!is_inner("// !"));
    assert!(!is_inner("/!"));
    assert!(!is_inner(""));
}

#[test]
fn blank_lines() {
    assert!(contains_blank_line("\n\n"));
    assert!(contains_blank_line(" \n\n "));
    assert!(contains_blank_line("\n\n\n"));
    assert!(!contains_blank_line("\n"));
    assert!(!contains_blank_line("\n \n"));
    assert!(!contains_blank_line("\r\n\r\n"));
    assert!(!contains_blank_line(""));
    assert!(!contains_blank_line("  "));
}

#[test]
fn comments_right_before_a_binding_attach() {
    // Nearest to the node first.
    let trivias = [
        (NEWLINE, "\n"),
        (COMMENT, "/// second line"),
        (NEWLINE, "\n"),
        (COMMENT, "/// first line"),
    ];
    assert_eq!(n_attached_trivias(SyntaxKind::LET_DECL, &trivias), 4);
    assert_eq!(n_attached_trivias(SyntaxKind::MODULE, &trivias), 4);
    assert_eq!(n_attached_trivias(SyntaxKind::CLASS, &trivias), 4);
}

#[test]
fn plain_comments_attach_too() {
    let trivias = [(WHITESPACE, " "), (COMMENT, "// plain"), (WHITESPACE, "\n")];
    assert_eq!(n_attached_trivias(SyntaxKind::LET_DECL, &trivias), 2);
}

#[test]
fn trivia_beyond_the_farthest_comment_stays_outside() {
    let trivias = [(COMMENT, "/// doc"), (NEWLINE, "\n"), (WHITESPACE, " ")];
    assert_eq!(n_attached_trivias(SyntaxKind::LET_DECL, &trivias), 1);
}

#[test]
fn without_comments_nothing_attaches() {
    let trivias = [(NEWLINE, "\n"), (WHITESPACE, " "), (WHITESPACE, " ")];
    assert_eq!(n_attached_trivias(SyntaxKind::LET_DECL, &trivias), 0);
    assert_eq!(n_attached_trivias(SyntaxKind::LET_DECL, &[]), 0);
}

#[test]
fn a_blank_line_detaches_a_comment_block() {
    let trivias = [(WHITESPACE, "\n\n"), (COMMENT, "// a block of its own")];
    assert_eq!(n_attached_trivias(SyntaxKind::LET_DECL, &trivias), 0);
    let trivias = [
        (COMMENT, "/// doc"),
        (WHITESPACE, "\n\n"),
        (COMMENT, "// a block of its own"),
    ];
    assert_eq!(n_attached_trivias(SyntaxKind::LET_DECL, &trivias), 1);
}

#[test]
fn an_outer_doc_comment_bridges_a_blank_line() {
    let trivias = [
        (COMMENT, "/// near"),
        (WHITESPACE, "\n\n"),
        (COMMENT, "/// far"),
    ];
    assert_eq!(n_attached_trivias(SyntaxKind::LET_DECL, &trivias), 3);
    let trivias = [(WHITESPACE, "\n\n"), (COMMENT, "/** far */")];
    assert_eq!(n_attached_trivias(SyntaxKind::MODULE, &trivias), 2);
}

#[test]
fn a_doc_of_doc_comment_bridges_nothing() {
    let trivias = [(WHITESPACE, "\n\n"), (COMMENT, "//// far")];
    assert_eq!(n_attached_trivias(SyntaxKind::LET_DECL, &trivias), 0);
    let trivias = [(WHITESPACE, "\n\n"), (COMMENT, "/*** far */")];
    assert_eq!(n_attached_trivias(SyntaxKind::LET_DECL, &trivias), 0);
}

#[test]
fn a_blank_line_at_the_far_end_stops_the_scan() {
    let trivias = [(COMMENT, "/// doc"), (WHITESPACE, "\n\n")];
    assert_eq!(n_attached_trivias(SyntaxKind::LET_DECL, &trivias), 1);
}

#[test]
fn only_whitespace_counts_as_a_blank_line() {
    // A comment that holds a blank line is a comment.
    let trivias = [(COMMENT, "/* a\n\nb */"), (COMMENT, "// far")];
    assert_eq!(n_attached_trivias(SyntaxKind::LET_DECL, &trivias), 2);
    // Two newline tokens in a row are no whitespace token with a blank line.
    let trivias = [(NEWLINE, "\n"), (NEWLINE, "\n"), (COMMENT, "// far")];
    assert_eq!(n_attached_trivias(SyntaxKind::LET_DECL, &trivias), 3);
}

#[test]
fn an_inner_doc_comment_stops_the_scan() {
    let trivias = [
        (COMMENT, "/// near"),
        (COMMENT, "//! inner"),
        (COMMENT, "/// far"),
    ];
    assert_eq!(n_attached_trivias(SyntaxKind::LET_DECL, &trivias), 1);
    let trivias = [(COMMENT, "/*! inner */"), (COMMENT, "/// far")];
    assert_eq!(n_attached_trivias(SyntaxKind::LET_DECL, &trivias), 0);
}

#[test]
fn other_kinds_take_no_trivia() {
    let trivias = [(NEWLINE, "\n"), (COMMENT, "/// doc")];
    for kind in [
        SyntaxKind::NAME,
        SyntaxKind::SOURCE_FILE,
        SyntaxKind::LET_EXPR,
        SyntaxKind::LET_KW,
        SyntaxKind::TOMBSTONE,
    ] {
        assert_eq!(n_attached_trivias(kind, &trivias), 0);
    }
}
