use fsic_syntax::syntax_kind::{str_equal, LAST_CODE};
use fsic_syntax::SyntaxKind;

#[test]
fn keywords_are_keywords() {
    for kind in [
        SyntaxKind::ALIAS_KW,
        SyntaxKind::LET_KW,
        SyntaxKind::MODULE_KW,
        SyntaxKind::WITH_KW,
    ] {
        assert!(kind.is_keyword());
        assert!(!kind.is_punct());
        assert!(!kind.is_literal());
        assert!(!kind.is_trivia());
    }
    assert!(!SyntaxKind::ARROW.is_keyword());
    assert!(!SyntaxKind::CHAR.is_keyword());
    assert!(!SyntaxKind::IDENT.is_keyword());
}

#[test]
fn punctuation_is_punctuation() {
    for kind in [SyntaxKind::SEMICOLON, SyntaxKind::EQ, SyntaxKind::COLON2, SyntaxKind::ARROW] {
        assert!(kind.is_punct());
        assert!(!kind.is_keyword());
    }
    assert!(!SyntaxKind::EOF.is_punct());
    assert!(!SyntaxKind::ALIAS_KW.is_punct());
}

#[test]
fn literals_are_literals() {
    for kind in [
        SyntaxKind::CHAR,
        SyntaxKind::FLOAT_NUMBER,
        SyntaxKind::F_STRING,
        SyntaxKind::INT_NUMBER,
        SyntaxKind::STRING,
    ] {
        assert!(kind.is_literal());
    }
    assert!(!SyntaxKind::WITH_KW.is_literal());
    assert!(!SyntaxKind::ATTRIBUTE.is_literal());
}

#[test]
fn trivia_is_whitespace_newline_and_comment() {
    assert!(SyntaxKind::WHITESPACE.is_trivia());
    assert!(SyntaxKind::NEWLINE.is_trivia());
    assert!(SyntaxKind::COMMENT.is_trivia());
    assert!(!SyntaxKind::IDENT.is_trivia());
    assert!(!SyntaxKind::ERROR.is_trivia());
    assert!(!SyntaxKind::EOF.is_trivia());
}

#[test]
fn from_keyword_finds_every_keyword() {
    let table = [
        ("alias", SyntaxKind::ALIAS_KW),
        ("and", SyntaxKind::AND_KW),
        ("as", SyntaxKind::AS_KW),
        ("attribute", SyntaxKind::ATTRIBUTE_KW),
        ("class", SyntaxKind::CLASS_KW),
        ("else", SyntaxKind::ELSE_KW),
        ("false", SyntaxKind::FALSE_KW),
        ("if", SyntaxKind::IF_KW),
        ("import", SyntaxKind::IMPORT_KW),
        ("in", SyntaxKind::IN_KW),
        ("let", SyntaxKind::LET_KW),
        ("match", SyntaxKind::MATCH_KW),
        ("module", SyntaxKind::MODULE_KW),
        ("rec", SyntaxKind::REC_KW),
        ("then", SyntaxKind::THEN_KW),
        ("true", SyntaxKind::TRUE_KW),
        ("union", SyntaxKind::UNION_KW),
        ("value", SyntaxKind::VALUE_KW),
        ("when", SyntaxKind::WHEN_KW),
        ("where", SyntaxKind::WHERE_KW),
        ("with", SyntaxKind::WITH_KW),
    ];
    for (text, kind) in table {
        assert_eq!(SyntaxKind::from_keyword(text), Some(kind));
        assert!(kind.is_keyword());
    }
}

#[test]
fn from_keyword_wants_the_exact_text() {
    assert_eq!(SyntaxKind::from_keyword(""), None);
    assert_eq!(SyntaxKind::from_keyword("Let"), None);
    assert_eq!(SyntaxKind::from_keyword("let "), None);
    assert_eq!(SyntaxKind::from_keyword("lets"), None);
    assert_eq!(SyntaxKind::from_keyword("main"), None);
}

#[test]
fn from_char_finds_every_single_character_punctuation() {
    let table = [
        (';', SyntaxKind::SEMICOLON),
        (',', SyntaxKind::COMMA),
        ('(', SyntaxKind::L_PAREN),
        (')', SyntaxKind::R_PAREN),
        ('{', SyntaxKind::L_CURLY),
        ('}', SyntaxKind::R_CURLY),
        ('[', SyntaxKind::L_BRACKET),
        (']', SyntaxKind::R_BRACKET),
        ('|', SyntaxKind::PIPE),
        ('*', SyntaxKind::STAR),
        ('_', SyntaxKind::UNDERSCORE),
        ('.', SyntaxKind::DOT),
        (':', SyntaxKind::COLON),
        ('=', SyntaxKind::EQ),
    ];
    for (c, kind) in table {
        assert_eq!(SyntaxKind::from_char(c), Some(kind));
        assert!(kind.is_punct());
    }
    assert_eq!(SyntaxKind::from_char('a'), None);
    assert_eq!(SyntaxKind::from_char('-'), None);
    assert_eq!(SyntaxKind::from_char('\u{e9}'), None);
}

#[test]
fn raw_codes_follow_the_order_of_the_kinds() {
    assert_eq!(SyntaxKind::TOMBSTONE.to_raw(), 0);
    assert_eq!(SyntaxKind::EOF.to_raw(), 1);
    assert_eq!(SyntaxKind::SEMICOLON.to_raw(), 2);
    assert_eq!(SyntaxKind::ARROW.to_raw(), 17);
    assert_eq!(SyntaxKind::ALIAS_KW.to_raw(), 18);
    assert_eq!(SyntaxKind::WITH_KW.to_raw(), 38);
    assert_eq!(SyntaxKind::CHAR.to_raw(), 39);
    assert_eq!(SyntaxKind::STRING.to_raw(), 43);
    assert_eq!(SyntaxKind::__LAST.to_raw(), LAST_CODE);
    assert_eq!(LAST_CODE, 110);
}

#[test]
fn a_kind_comes_back_from_its_raw_code() {
    for raw in 0..=LAST_CODE {
        let kind = SyntaxKind::from_raw(raw);
        assert_eq!(kind.to_raw(), raw);
    }
    assert_eq!(SyntaxKind::from_raw(SyntaxKind::LET_DECL.to_raw()), SyntaxKind::LET_DECL);
}

#[test]
fn kinds_are_ordered_by_their_codes() {
    assert!(SyntaxKind::TOMBSTONE < SyntaxKind::EOF);
    assert!(SyntaxKind::LET_KW < SyntaxKind::MODULE_KW);
    assert!(SyntaxKind::WHITESPACE < SyntaxKind::__LAST);
}

#[test]
fn debug_name_is_the_name_of_the_kind() {
    assert_eq!(SyntaxKind::EQ.debug_name(), "EQ");
    assert_eq!(SyntaxKind::LET_DECL.debug_name(), "LET_DECL");
    assert_eq!(SyntaxKind::__LAST.debug_name(), "__LAST");
    for raw in 0..=LAST_CODE {
        let kind = SyntaxKind::from_raw(raw);
        assert_eq!(kind.debug_name(), format!("{:?}", kind));
    }
}

#[test]
fn str_equal_compares_characters() {
    assert!(str_equal("", ""));
    assert!(str_equal("let", "let"));
    assert!(!str_equal("let", "le"));
    assert!(!str_equal("let", "lat"));
    assert!(str_equal("\u{e9}", "\u{e9}"));
}
