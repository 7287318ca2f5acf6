//! The kinds of tokens and nodes.

use vstd::prelude::*;
use vstd::string::StringSliceAdditionalSpecFns;

verus! {

/// The kind of a token or of a node of the syntax tree.
///
/// The set is closed and totally ordered by declaration order: the keyword,
/// punctuation and literal kinds each occupy one contiguous run of codes.
#[allow(non_camel_case_types)]
#[derive(Clone, Copy, PartialEq, Eq, Structural, PartialOrd, Ord, Hash, Debug)]
pub enum SyntaxKind {
    TOMBSTONE,
    EOF,
    SEMICOLON,
    COMMA,
    L_PAREN,
    R_PAREN,
    L_CURLY,
    R_CURLY,
    L_BRACKET,
    R_BRACKET,
    PIPE,
    STAR,
    UNDERSCORE,
    DOT,
    COLON,
    COLON2,
    EQ,
    ARROW,
    ALIAS_KW,
    AND_KW,
    AS_KW,
    ATTRIBUTE_KW,
    CLASS_KW,
    ELSE_KW,
    FALSE_KW,
    IF_KW,
    IMPORT_KW,
    IN_KW,
    LET_KW,
    MATCH_KW,
    MODULE_KW,
    REC_KW,
    THEN_KW,
    TRUE_KW,
    UNION_KW,
    VALUE_KW,
    WHEN_KW,
    WHERE_KW,
    WITH_KW,
    CHAR,
    FLOAT_NUMBER,
    F_STRING,
    INT_NUMBER,
    STRING,
    ATTRIBUTE,
    COMMENT,
    ERROR,
    IDENT,
    NEWLINE,
    WHITESPACE,
    ADT,
    ADT_LIST,
    ALIAS,
    APP_EXPR,
    ASC_EXPR,
    ASC_PAT,
    ATTR,
    ATTR_DEF,
    BIN_EXPR,
    CLASS,
    CONSTRAINT,
    CONSTRAINT_LIST,
    CONSTRAINT_TYPE,
    CONS_PAT,
    EXPR,
    FN_TYPE,
    IDENT_PAT,
    IF_EXPR,
    IMPORT,
    INFER_TYPE,
    ITEM,
    LET_DECL,
    LET_EXPR,
    LET_OP,
    LITERAL,
    LITERAL_PAT,
    MATCH_CASE,
    MATCH_EXPR,
    MATCH_GUARD,
    MODULE,
    NAME,
    OPERATOR,
    OR_PAT,
    PARAM,
    PARAM_LIST,
    PAREN_EXPR,
    PAREN_PAT,
    PAREN_TYPE,
    PAT,
    PATH,
    PATH_SEGMENT,
    PATH_TYPE,
    PREAMBLE,
    RECORD_PAT,
    RECORD_PAT_FIELD,
    SEQ_EXPR,
    SOURCE_FILE,
    TUPLE_EXPR,
    TUPLE_PAT,
    TUPLE_TYPE,
    TUPLE_VALUE_PAT,
    TYPE,
    TYPE_ARG_LIST,
    TYPE_VAR,
    UNARY_EXPR,
    UNION,
    VALUE,
    VALUE_FIELD,
    WHERE,
    WILDCARD_PAT,
    __LAST,
}

/// Code of the last kind; every valid raw code is at most this.
pub const LAST_CODE: u16 = 110u16;

/// Whether two strings hold the same characters.
pub fn str_equal(a: &str, b: &str) -> (r: bool)
    ensures
        r == (a@ == b@),
{
    let x = a.as_bytes();
    let y = b.as_bytes();
    proof {
        vstd::utf8::encode_utf8_decode_utf8(a@);
        vstd::utf8::encode_utf8_decode_utf8(b@);
    }
    if x.len() != y.len() {
        return false;
    }
    let mut i: usize = 0;
    while i < x.len()
        invariant
            x@ == a.spec_bytes(),
            y@ == b.spec_bytes(),
            vstd::utf8::decode_utf8(a.spec_bytes()) == a@,
            vstd::utf8::decode_utf8(b.spec_bytes()) == b@,
            x@.len() == y@.len(),
            i <= x@.len(),
            forall|j: int| 0 <= j < i ==> x@[j] == y@[j],
        decreases x@.len() - i,
    {
        if x[i] != y[i] {
            return false;
        }
        i += 1;
    }
    assert(x@ =~= y@);
    true
}

impl SyntaxKind {
    /// The position of the kind in the enumeration, its raw numeric code.
    pub open spec fn code(self) -> int {
        match self {
            SyntaxKind::TOMBSTONE => 0,
            SyntaxKind::EOF => 1,
            SyntaxKind::SEMICOLON => 2,
            SyntaxKind::COMMA => 3,
            SyntaxKind::L_PAREN => 4,
            SyntaxKind::R_PAREN => 5,
            SyntaxKind::L_CURLY => 6,
            SyntaxKind::R_CURLY => 7,
            SyntaxKind::L_BRACKET => 8,
            SyntaxKind::R_BRACKET => 9,
            SyntaxKind::PIPE => 10,
            SyntaxKind::STAR => 11,
            SyntaxKind::UNDERSCORE => 12,
            SyntaxKind::DOT => 13,
            SyntaxKind::COLON => 14,
            SyntaxKind::COLON2 => 15,
            SyntaxKind::EQ => 16,
            SyntaxKind::ARROW => 17,
            SyntaxKind::ALIAS_KW => 18,
            SyntaxKind::AND_KW => 19,
            SyntaxKind::AS_KW => 20,
            SyntaxKind::ATTRIBUTE_KW => 21,
            SyntaxKind::CLASS_KW => 22,
            SyntaxKind::ELSE_KW => 23,
            SyntaxKind::FALSE_KW => 24,
            SyntaxKind::IF_KW => 25,
            SyntaxKind::IMPORT_KW => 26,
            SyntaxKind::IN_KW => 27,
            SyntaxKind::LET_KW => 28,
            SyntaxKind::MATCH_KW => 29,
            SyntaxKind::MODULE_KW => 30,
            SyntaxKind::REC_KW => 31,
            SyntaxKind::THEN_KW => 32,
            SyntaxKind::TRUE_KW => 33,
            SyntaxKind::UNION_KW => 34,
            SyntaxKind::VALUE_KW => 35,
            SyntaxKind::WHEN_KW => 36,
            SyntaxKind::WHERE_KW => 37,
            SyntaxKind::WITH_KW => 38,
            SyntaxKind::CHAR => 39,
            SyntaxKind::FLOAT_NUMBER => 40,
            SyntaxKind::F_STRING => 41,
            SyntaxKind::INT_NUMBER => 42,
            SyntaxKind::STRING => 43,
            SyntaxKind::ATTRIBUTE => 44,
            SyntaxKind::COMMENT => 45,
            SyntaxKind::ERROR => 46,
            SyntaxKind::IDENT => 47,
            SyntaxKind::NEWLINE => 48,
            SyntaxKind::WHITESPACE => 49,
            SyntaxKind::ADT => 50,
            SyntaxKind::ADT_LIST => 51,
            SyntaxKind::ALIAS => 52,
            SyntaxKind::APP_EXPR => 53,
            SyntaxKind::ASC_EXPR => 54,
            SyntaxKind::ASC_PAT => 55,
            SyntaxKind::ATTR => 56,
            SyntaxKind::ATTR_DEF => 57,
            SyntaxKind::BIN_EXPR => 58,
            SyntaxKind::CLASS => 59,
            SyntaxKind::CONSTRAINT => 60,
            SyntaxKind::CONSTRAINT_LIST => 61,
            SyntaxKind::CONSTRAINT_TYPE => 62,
            SyntaxKind::CONS_PAT => 63,
            SyntaxKind::EXPR => 64,
            SyntaxKind::FN_TYPE => 65,
            SyntaxKind::IDENT_PAT => 66,
            SyntaxKind::IF_EXPR => 67,
            SyntaxKind::IMPORT => 68,
            SyntaxKind::INFER_TYPE => 69,
            SyntaxKind::ITEM => 70,
            SyntaxKind::LET_DECL => 71,
            SyntaxKind::LET_EXPR => 72,
            SyntaxKind::LET_OP => 73,
            SyntaxKind::LITERAL => 74,
            SyntaxKind::LITERAL_PAT => 75,
            SyntaxKind::MATCH_CASE => 76,
            SyntaxKind::MATCH_EXPR => 77,
            SyntaxKind::MATCH_GUARD => 78,
            SyntaxKind::MODULE => 79,
            SyntaxKind::NAME => 80,
            SyntaxKind::OPERATOR => 81,
            SyntaxKind::OR_PAT => 82,
            SyntaxKind::PARAM => 83,
            SyntaxKind::PARAM_LIST => 84,
            SyntaxKind::PAREN_EXPR => 85,
            SyntaxKind::PAREN_PAT => 86,
            SyntaxKind::PAREN_TYPE => 87,
            SyntaxKind::PAT => 88,
            SyntaxKind::PATH => 89,
            SyntaxKind::PATH_SEGMENT => 90,
            SyntaxKind::PATH_TYPE => 91,
            SyntaxKind::PREAMBLE => 92,
            SyntaxKind::RECORD_PAT => 93,
            SyntaxKind::RECORD_PAT_FIELD => 94,
            SyntaxKind::SEQ_EXPR => 95,
            SyntaxKind::SOURCE_FILE => 96,
            SyntaxKind::TUPLE_EXPR => 97,
            SyntaxKind::TUPLE_PAT => 98,
            SyntaxKind::TUPLE_TYPE => 99,
            SyntaxKind::TUPLE_VALUE_PAT => 100,
            SyntaxKind::TYPE => 101,
            SyntaxKind::TYPE_ARG_LIST => 102,
            SyntaxKind::TYPE_VAR => 103,
            SyntaxKind::UNARY_EXPR => 104,
            SyntaxKind::UNION => 105,
            SyntaxKind::VALUE => 106,
            SyntaxKind::VALUE_FIELD => 107,
            SyntaxKind::WHERE => 108,
            SyntaxKind::WILDCARD_PAT => 109,
            SyntaxKind::__LAST => 110,
        }
    }

    /// The raw numeric code of the kind.
    pub fn to_raw(self) -> (r: u16)
        ensures
            r == self.code(),
            r <= LAST_CODE,
    {
        match self {
            SyntaxKind::TOMBSTONE => 0,
            SyntaxKind::EOF => 1,
            SyntaxKind::SEMICOLON => 2,
            SyntaxKind::COMMA => 3,
            SyntaxKind::L_PAREN => 4,
            SyntaxKind::R_PAREN => 5,
            SyntaxKind::L_CURLY => 6,
            SyntaxKind::R_CURLY => 7,
            SyntaxKind::L_BRACKET => 8,
            SyntaxKind::R_BRACKET => 9,
            SyntaxKind::PIPE => 10,
            SyntaxKind::STAR => 11,
            SyntaxKind::UNDERSCORE => 12,
            SyntaxKind::DOT => 13,
            SyntaxKind::COLON => 14,
            SyntaxKind::COLON2 => 15,
            SyntaxKind::EQ => 16,
            SyntaxKind::ARROW => 17,
            SyntaxKind::ALIAS_KW => 18,
            SyntaxKind::AND_KW => 19,
            SyntaxKind::AS_KW => 20,
            SyntaxKind::ATTRIBUTE_KW => 21,
            SyntaxKind::CLASS_KW => 22,
            SyntaxKind::ELSE_KW => 23,
            SyntaxKind::FALSE_KW => 24,
            SyntaxKind::IF_KW => 25,
            SyntaxKind::IMPORT_KW => 26,
            SyntaxKind::IN_KW => 27,
            SyntaxKind::LET_KW => 28,
            SyntaxKind::MATCH_KW => 29,
            SyntaxKind::MODULE_KW => 30,
            SyntaxKind::REC_KW => 31,
            SyntaxKind::THEN_KW => 32,
            SyntaxKind::TRUE_KW => 33,
            SyntaxKind::UNION_KW => 34,
            SyntaxKind::VALUE_KW => 35,
            SyntaxKind::WHEN_KW => 36,
            SyntaxKind::WHERE_KW => 37,
            SyntaxKind::WITH_KW => 38,
            SyntaxKind::CHAR => 39,
            SyntaxKind::FLOAT_NUMBER => 40,
            SyntaxKind::F_STRING => 41,
            SyntaxKind::INT_NUMBER => 42,
            SyntaxKind::STRING => 43,
            SyntaxKind::ATTRIBUTE => 44,
            SyntaxKind::COMMENT => 45,
            SyntaxKind::ERROR => 46,
            SyntaxKind::IDENT => 47,
            SyntaxKind::NEWLINE => 48,
            SyntaxKind::WHITESPACE => 49,
            SyntaxKind::ADT => 50,
            SyntaxKind::ADT_LIST => 51,
            SyntaxKind::ALIAS => 52,
            SyntaxKind::APP_EXPR => 53,
            SyntaxKind::ASC_EXPR => 54,
            SyntaxKind::ASC_PAT => 55,
            SyntaxKind::ATTR => 56,
            SyntaxKind::ATTR_DEF => 57,
            SyntaxKind::BIN_EXPR => 58,
            SyntaxKind::CLASS => 59,
            SyntaxKind::CONSTRAINT => 60,
            SyntaxKind::CONSTRAINT_LIST => 61,
            SyntaxKind::CONSTRAINT_TYPE => 62,
            SyntaxKind::CONS_PAT => 63,
            SyntaxKind::EXPR => 64,
            SyntaxKind::FN_TYPE => 65,
            SyntaxKind::IDENT_PAT => 66,
            SyntaxKind::IF_EXPR => 67,
            SyntaxKind::IMPORT => 68,
            SyntaxKind::INFER_TYPE => 69,
            SyntaxKind::ITEM => 70,
            SyntaxKind::LET_DECL => 71,
            SyntaxKind::LET_EXPR => 72,
            SyntaxKind::LET_OP => 73,
            SyntaxKind::LITERAL => 74,
            SyntaxKind::LITERAL_PAT => 75,
            SyntaxKind::MATCH_CASE => 76,
            SyntaxKind::MATCH_EXPR => 77,
            SyntaxKind::MATCH_GUARD => 78,
            SyntaxKind::MODULE => 79,
            SyntaxKind::NAME => 80,
            SyntaxKind::OPERATOR => 81,
            SyntaxKind::OR_PAT => 82,
            SyntaxKind::PARAM => 83,
            SyntaxKind::PARAM_LIST => 84,
            SyntaxKind::PAREN_EXPR => 85,
            SyntaxKind::PAREN_PAT => 86,
            SyntaxKind::PAREN_TYPE => 87,
            SyntaxKind::PAT => 88,
            SyntaxKind::PATH => 89,
            SyntaxKind::PATH_SEGMENT => 90,
            SyntaxKind::PATH_TYPE => 91,
            SyntaxKind::PREAMBLE => 92,
            SyntaxKind::RECORD_PAT => 93,
            SyntaxKind::RECORD_PAT_FIELD => 94,
            SyntaxKind::SEQ_EXPR => 95,
            SyntaxKind::SOURCE_FILE => 96,
            SyntaxKind::TUPLE_EXPR => 97,
            SyntaxKind::TUPLE_PAT => 98,
            SyntaxKind::TUPLE_TYPE => 99,
            SyntaxKind::TUPLE_VALUE_PAT => 100,
            SyntaxKind::TYPE => 101,
            SyntaxKind::TYPE_ARG_LIST => 102,
            SyntaxKind::TYPE_VAR => 103,
            SyntaxKind::UNARY_EXPR => 104,
            SyntaxKind::UNION => 105,
            SyntaxKind::VALUE => 106,
            SyntaxKind::VALUE_FIELD => 107,
            SyntaxKind::WHERE => 108,
            SyntaxKind::WILDCARD_PAT => 109,
            SyntaxKind::__LAST => 110,
        }
    }

    /// The kind with the given raw code.
    pub fn from_raw(raw: u16) -> (r: SyntaxKind)
        requires
            raw <= LAST_CODE,
        ensures
            r.code() == raw,
    {
        match raw {
            0 => SyntaxKind::TOMBSTONE,
            1 => SyntaxKind::EOF,
            2 => SyntaxKind::SEMICOLON,
            3 => SyntaxKind::COMMA,
            4 => SyntaxKind::L_PAREN,
            5 => SyntaxKind::R_PAREN,
            6 => SyntaxKind::L_CURLY,
            7 => SyntaxKind::R_CURLY,
            8 => SyntaxKind::L_BRACKET,
            9 => SyntaxKind::R_BRACKET,
            10 => SyntaxKind::PIPE,
            11 => SyntaxKind::STAR,
            12 => SyntaxKind::UNDERSCORE,
            13 => SyntaxKind::DOT,
            14 => SyntaxKind::COLON,
            15 => SyntaxKind::COLON2,
            16 => SyntaxKind::EQ,
            17 => SyntaxKind::ARROW,
            18 => SyntaxKind::ALIAS_KW,
            19 => SyntaxKind::AND_KW,
            20 => SyntaxKind::AS_KW,
            21 => SyntaxKind::ATTRIBUTE_KW,
            22 => SyntaxKind::CLASS_KW,
            23 => SyntaxKind::ELSE_KW,
            24 => SyntaxKind::FALSE_KW,
            25 => SyntaxKind::IF_KW,
            26 => SyntaxKind::IMPORT_KW,
            27 => SyntaxKind::IN_KW,
            28 => SyntaxKind::LET_KW,
            29 => SyntaxKind::MATCH_KW,
            30 => SyntaxKind::MODULE_KW,
            31 => SyntaxKind::REC_KW,
            32 => SyntaxKind::THEN_KW,
            33 => SyntaxKind::TRUE_KW,
            34 => SyntaxKind::UNION_KW,
            35 => SyntaxKind::VALUE_KW,
            36 => SyntaxKind::WHEN_KW,
            37 => SyntaxKind::WHERE_KW,
            38 => SyntaxKind::WITH_KW,
            39 => SyntaxKind::CHAR,
            40 => SyntaxKind::FLOAT_NUMBER,
            41 => SyntaxKind::F_STRING,
            42 => SyntaxKind::INT_NUMBER,
            43 => SyntaxKind::STRING,
            44 => SyntaxKind::ATTRIBUTE,
            45 => SyntaxKind::COMMENT,
            46 => SyntaxKind::ERROR,
            47 => SyntaxKind::IDENT,
            48 => SyntaxKind::NEWLINE,
            49 => SyntaxKind::WHITESPACE,
            50 => SyntaxKind::ADT,
            51 => SyntaxKind::ADT_LIST,
            52 => SyntaxKind::ALIAS,
            53 => SyntaxKind::APP_EXPR,
            54 => SyntaxKind::ASC_EXPR,
            55 => SyntaxKind::ASC_PAT,
            56 => SyntaxKind::ATTR,
            57 => SyntaxKind::ATTR_DEF,
            58 => SyntaxKind::BIN_EXPR,
            59 => SyntaxKind::CLASS,
            60 => SyntaxKind::CONSTRAINT,
            61 => SyntaxKind::CONSTRAINT_LIST,
            62 => SyntaxKind::CONSTRAINT_TYPE,
            63 => SyntaxKind::CONS_PAT,
            64 => SyntaxKind::EXPR,
            65 => SyntaxKind::FN_TYPE,
            66 => SyntaxKind::IDENT_PAT,
            67 => SyntaxKind::IF_EXPR,
            68 => SyntaxKind::IMPORT,
            69 => SyntaxKind::INFER_TYPE,
            70 => SyntaxKind::ITEM,
            71 => SyntaxKind::LET_DECL,
            72 => SyntaxKind::LET_EXPR,
            73 => SyntaxKind::LET_OP,
            74 => SyntaxKind::LITERAL,
            75 => SyntaxKind::LITERAL_PAT,
            76 => SyntaxKind::MATCH_CASE,
            77 => SyntaxKind::MATCH_EXPR,
            78 => SyntaxKind::MATCH_GUARD,
            79 => SyntaxKind::MODULE,
            80 => SyntaxKind::NAME,
            81 => SyntaxKind::OPERATOR,
            82 => SyntaxKind::OR_PAT,
            83 => SyntaxKind::PARAM,
            84 => SyntaxKind::PARAM_LIST,
            85 => SyntaxKind::PAREN_EXPR,
            86 => SyntaxKind::PAREN_PAT,
            87 => SyntaxKind::PAREN_TYPE,
            88 => SyntaxKind::PAT,
            89 => SyntaxKind::PATH,
            90 => SyntaxKind::PATH_SEGMENT,
            91 => SyntaxKind::PATH_TYPE,
            92 => SyntaxKind::PREAMBLE,
            93 => SyntaxKind::RECORD_PAT,
            94 => SyntaxKind::RECORD_PAT_FIELD,
            95 => SyntaxKind::SEQ_EXPR,
            96 => SyntaxKind::SOURCE_FILE,
            97 => SyntaxKind::TUPLE_EXPR,
            98 => SyntaxKind::TUPLE_PAT,
            99 => SyntaxKind::TUPLE_TYPE,
            100 => SyntaxKind::TUPLE_VALUE_PAT,
            101 => SyntaxKind::TYPE,
            102 => SyntaxKind::TYPE_ARG_LIST,
            103 => SyntaxKind::TYPE_VAR,
            104 => SyntaxKind::UNARY_EXPR,
            105 => SyntaxKind::UNION,
            106 => SyntaxKind::VALUE,
            107 => SyntaxKind::VALUE_FIELD,
            108 => SyntaxKind::WHERE,
            109 => SyntaxKind::WILDCARD_PAT,
            _ => SyntaxKind::__LAST,
        }
    }

    /// The name of the kind as it is written in the enumeration.
    pub open spec fn name(self) -> Seq<char> {
        match self {
            SyntaxKind::TOMBSTONE => "TOMBSTONE"@,
            SyntaxKind::EOF => "EOF"@,
            SyntaxKind::SEMICOLON => "SEMICOLON"@,
            SyntaxKind::COMMA => "COMMA"@,
            SyntaxKind::L_PAREN => "L_PAREN"@,
            SyntaxKind::R_PAREN => "R_PAREN"@,
            SyntaxKind::L_CURLY => "L_CURLY"@,
            SyntaxKind::R_CURLY => "R_CURLY"@,
            SyntaxKind::L_BRACKET => "L_BRACKET"@,
            SyntaxKind::R_BRACKET => "R_BRACKET"@,
            SyntaxKind::PIPE => "PIPE"@,
            SyntaxKind::STAR => "STAR"@,
            SyntaxKind::UNDERSCORE => "UNDERSCORE"@,
            SyntaxKind::DOT => "DOT"@,
            SyntaxKind::COLON => "COLON"@,
            SyntaxKind::COLON2 => "COLON2"@,
            SyntaxKind::EQ => "EQ"@,
            SyntaxKind::ARROW => "ARROW"@,
            SyntaxKind::ALIAS_KW => "ALIAS_KW"@,
            SyntaxKind::AND_KW => "AND_KW"@,
            SyntaxKind::AS_KW => "AS_KW"@,
            SyntaxKind::ATTRIBUTE_KW => "ATTRIBUTE_KW"@,
            SyntaxKind::CLASS_KW => "CLASS_KW"@,
            SyntaxKind::ELSE_KW => "ELSE_KW"@,
            SyntaxKind::FALSE_KW => "FALSE_KW"@,
            SyntaxKind::IF_KW => "IF_KW"@,
            SyntaxKind::IMPORT_KW => "IMPORT_KW"@,
            SyntaxKind::IN_KW => "IN_KW"@,
            SyntaxKind::LET_KW => "LET_KW"@,
            SyntaxKind::MATCH_KW => "MATCH_KW"@,
            SyntaxKind::MODULE_KW => "MODULE_KW"@,
            SyntaxKind::REC_KW => "REC_KW"@,
            SyntaxKind::THEN_KW => "THEN_KW"@,
            SyntaxKind::TRUE_KW => "TRUE_KW"@,
            SyntaxKind::UNION_KW => "UNION_KW"@,
            SyntaxKind::VALUE_KW => "VALUE_KW"@,
            SyntaxKind::WHEN_KW => "WHEN_KW"@,
            SyntaxKind::WHERE_KW => "WHERE_KW"@,
            SyntaxKind::WITH_KW => "WITH_KW"@,
            SyntaxKind::CHAR => "CHAR"@,
            SyntaxKind::FLOAT_NUMBER => "FLOAT_NUMBER"@,
            SyntaxKind::F_STRING => "F_STRING"@,
            SyntaxKind::INT_NUMBER => "INT_NUMBER"@,
            SyntaxKind::STRING => "STRING"@,
            SyntaxKind::ATTRIBUTE => "ATTRIBUTE"@,
            SyntaxKind::COMMENT => "COMMENT"@,
            SyntaxKind::ERROR => "ERROR"@,
            SyntaxKind::IDENT => "IDENT"@,
            SyntaxKind::NEWLINE => "NEWLINE"@,
            SyntaxKind::WHITESPACE => "WHITESPACE"@,
            SyntaxKind::ADT => "ADT"@,
            SyntaxKind::ADT_LIST => "ADT_LIST"@,
            SyntaxKind::ALIAS => "ALIAS"@,
            SyntaxKind::APP_EXPR => "APP_EXPR"@,
            SyntaxKind::ASC_EXPR => "ASC_EXPR"@,
            SyntaxKind::ASC_PAT => "ASC_PAT"@,
            SyntaxKind::ATTR => "ATTR"@,
            SyntaxKind::ATTR_DEF => "ATTR_DEF"@,
            SyntaxKind::BIN_EXPR => "BIN_EXPR"@,
            SyntaxKind::CLASS => "CLASS"@,
            SyntaxKind::CONSTRAINT => "CONSTRAINT"@,
            SyntaxKind::CONSTRAINT_LIST => "CONSTRAINT_LIST"@,
            SyntaxKind::CONSTRAINT_TYPE => "CONSTRAINT_TYPE"@,
            SyntaxKind::CONS_PAT => "CONS_PAT"@,
            SyntaxKind::EXPR => "EXPR"@,
            SyntaxKind::FN_TYPE => "FN_TYPE"@,
            SyntaxKind::IDENT_PAT => "IDENT_PAT"@,
            SyntaxKind::IF_EXPR => "IF_EXPR"@,
            SyntaxKind::IMPORT => "IMPORT"@,
            SyntaxKind::INFER_TYPE => "INFER_TYPE"@,
            SyntaxKind::ITEM => "ITEM"@,
            SyntaxKind::LET_DECL => "LET_DECL"@,
            SyntaxKind::LET_EXPR => "LET_EXPR"@,
            SyntaxKind::LET_OP => "LET_OP"@,
            SyntaxKind::LITERAL => "LITERAL"@,
            SyntaxKind::LITERAL_PAT => "LITERAL_PAT"@,
            SyntaxKind::MATCH_CASE => "MATCH_CASE"@,
            SyntaxKind::MATCH_EXPR => "MATCH_EXPR"@,
            SyntaxKind::MATCH_GUARD => "MATCH_GUARD"@,
            SyntaxKind::MODULE => "MODULE"@,
            SyntaxKind::NAME => "NAME"@,
            SyntaxKind::OPERATOR => "OPERATOR"@,
            SyntaxKind::OR_PAT => "OR_PAT"@,
            SyntaxKind::PARAM => "PARAM"@,
            SyntaxKind::PARAM_LIST => "PARAM_LIST"@,
            SyntaxKind::PAREN_EXPR => "PAREN_EXPR"@,
            SyntaxKind::PAREN_PAT => "PAREN_PAT"@,
            SyntaxKind::PAREN_TYPE => "PAREN_TYPE"@,
            SyntaxKind::PAT => "PAT"@,
            SyntaxKind::PATH => "PATH"@,
            SyntaxKind::PATH_SEGMENT => "PATH_SEGMENT"@,
            SyntaxKind::PATH_TYPE => "PATH_TYPE"@,
            SyntaxKind::PREAMBLE => "PREAMBLE"@,
            SyntaxKind::RECORD_PAT => "RECORD_PAT"@,
            SyntaxKind::RECORD_PAT_FIELD => "RECORD_PAT_FIELD"@,
            SyntaxKind::SEQ_EXPR => "SEQ_EXPR"@,
            SyntaxKind::SOURCE_FILE => "SOURCE_FILE"@,
            SyntaxKind::TUPLE_EXPR => "TUPLE_EXPR"@,
            SyntaxKind::TUPLE_PAT => "TUPLE_PAT"@,
            SyntaxKind::TUPLE_TYPE => "TUPLE_TYPE"@,
            SyntaxKind::TUPLE_VALUE_PAT => "TUPLE_VALUE_PAT"@,
            SyntaxKind::TYPE => "TYPE"@,
            SyntaxKind::TYPE_ARG_LIST => "TYPE_ARG_LIST"@,
            SyntaxKind::TYPE_VAR => "TYPE_VAR"@,
            SyntaxKind::UNARY_EXPR => "UNARY_EXPR"@,
            SyntaxKind::UNION => "UNION"@,
            SyntaxKind::VALUE => "VALUE"@,
            SyntaxKind::VALUE_FIELD => "VALUE_FIELD"@,
            SyntaxKind::WHERE => "WHERE"@,
            SyntaxKind::WILDCARD_PAT => "WILDCARD_PAT"@,
            SyntaxKind::__LAST => "__LAST"@,
        }
    }

    /// The name of the kind, for diagnostics.
    pub fn debug_name(self) -> (r: &'static str)
        ensures
            r@ == self.name(),
    {
        match self {
            SyntaxKind::TOMBSTONE => "TOMBSTONE",
            SyntaxKind::EOF => "EOF",
            SyntaxKind::SEMICOLON => "SEMICOLON",
            SyntaxKind::COMMA => "COMMA",
            SyntaxKind::L_PAREN => "L_PAREN",
            SyntaxKind::R_PAREN => "R_PAREN",
            SyntaxKind::L_CURLY => "L_CURLY",
            SyntaxKind::R_CURLY => "R_CURLY",
            SyntaxKind::L_BRACKET => "L_BRACKET",
            SyntaxKind::R_BRACKET => "R_BRACKET",
            SyntaxKind::PIPE => "PIPE",
            SyntaxKind::STAR => "STAR",
            SyntaxKind::UNDERSCORE => "UNDERSCORE",
            SyntaxKind::DOT => "DOT",
            SyntaxKind::COLON => "COLON",
            SyntaxKind::COLON2 => "COLON2",
            SyntaxKind::EQ => "EQ",
            SyntaxKind::ARROW => "ARROW",
            SyntaxKind::ALIAS_KW => "ALIAS_KW",
            SyntaxKind::AND_KW => "AND_KW",
            SyntaxKind::AS_KW => "AS_KW",
            SyntaxKind::ATTRIBUTE_KW => "ATTRIBUTE_KW",
            SyntaxKind::CLASS_KW => "CLASS_KW",
            SyntaxKind::ELSE_KW => "ELSE_KW",
            SyntaxKind::FALSE_KW => "FALSE_KW",
            SyntaxKind::IF_KW => "IF_KW",
            SyntaxKind::IMPORT_KW => "IMPORT_KW",
            SyntaxKind::IN_KW => "IN_KW",
            SyntaxKind::LET_KW => "LET_KW",
            SyntaxKind::MATCH_KW => "MATCH_KW",
            SyntaxKind::MODULE_KW => "MODULE_KW",
            SyntaxKind::REC_KW => "REC_KW",
            SyntaxKind::THEN_KW => "THEN_KW",
            SyntaxKind::TRUE_KW => "TRUE_KW",
            SyntaxKind::UNION_KW => "UNION_KW",
            SyntaxKind::VALUE_KW => "VALUE_KW",
            SyntaxKind::WHEN_KW => "WHEN_KW",
            SyntaxKind::WHERE_KW => "WHERE_KW",
            SyntaxKind::WITH_KW => "WITH_KW",
            SyntaxKind::CHAR => "CHAR",
            SyntaxKind::FLOAT_NUMBER => "FLOAT_NUMBER",
            SyntaxKind::F_STRING => "F_STRING",
            SyntaxKind::INT_NUMBER => "INT_NUMBER",
            SyntaxKind::STRING => "STRING",
            SyntaxKind::ATTRIBUTE => "ATTRIBUTE",
            SyntaxKind::COMMENT => "COMMENT",
            SyntaxKind::ERROR => "ERROR",
            SyntaxKind::IDENT => "IDENT",
            SyntaxKind::NEWLINE => "NEWLINE",
            SyntaxKind::WHITESPACE => "WHITESPACE",
            SyntaxKind::ADT => "ADT",
            SyntaxKind::ADT_LIST => "ADT_LIST",
            SyntaxKind::ALIAS => "ALIAS",
            SyntaxKind::APP_EXPR => "APP_EXPR",
            SyntaxKind::ASC_EXPR => "ASC_EXPR",
            SyntaxKind::ASC_PAT => "ASC_PAT",
            SyntaxKind::ATTR => "ATTR",
            SyntaxKind::ATTR_DEF => "ATTR_DEF",
            SyntaxKind::BIN_EXPR => "BIN_EXPR",
            SyntaxKind::CLASS => "CLASS",
            SyntaxKind::CONSTRAINT => "CONSTRAINT",
            SyntaxKind::CONSTRAINT_LIST => "CONSTRAINT_LIST",
            SyntaxKind::CONSTRAINT_TYPE => "CONSTRAINT_TYPE",
            SyntaxKind::CONS_PAT => "CONS_PAT",
            SyntaxKind::EXPR => "EXPR",
            SyntaxKind::FN_TYPE => "FN_TYPE",
            SyntaxKind::IDENT_PAT => "IDENT_PAT",
            SyntaxKind::IF_EXPR => "IF_EXPR",
            SyntaxKind::IMPORT => "IMPORT",
            SyntaxKind::INFER_TYPE => "INFER_TYPE",
            SyntaxKind::ITEM => "ITEM",
            SyntaxKind::LET_DECL => "LET_DECL",
            SyntaxKind::LET_EXPR => "LET_EXPR",
            SyntaxKind::LET_OP => "LET_OP",
            SyntaxKind::LITERAL => "LITERAL",
            SyntaxKind::LITERAL_PAT => "LITERAL_PAT",
            SyntaxKind::MATCH_CASE => "MATCH_CASE",
            SyntaxKind::MATCH_EXPR => "MATCH_EXPR",
            SyntaxKind::MATCH_GUARD => "MATCH_GUARD",
            SyntaxKind::MODULE => "MODULE",
            SyntaxKind::NAME => "NAME",
            SyntaxKind::OPERATOR => "OPERATOR",
            SyntaxKind::OR_PAT => "OR_PAT",
            SyntaxKind::PARAM => "PARAM",
            SyntaxKind::PARAM_LIST => "PARAM_LIST",
            SyntaxKind::PAREN_EXPR => "PAREN_EXPR",
            SyntaxKind::PAREN_PAT => "PAREN_PAT",
            SyntaxKind::PAREN_TYPE => "PAREN_TYPE",
            SyntaxKind::PAT => "PAT",
            SyntaxKind::PATH => "PATH",
            SyntaxKind::PATH_SEGMENT => "PATH_SEGMENT",
            SyntaxKind::PATH_TYPE => "PATH_TYPE",
            SyntaxKind::PREAMBLE => "PREAMBLE",
            SyntaxKind::RECORD_PAT => "RECORD_PAT",
            SyntaxKind::RECORD_PAT_FIELD => "RECORD_PAT_FIELD",
            SyntaxKind::SEQ_EXPR => "SEQ_EXPR",
            SyntaxKind::SOURCE_FILE => "SOURCE_FILE",
            SyntaxKind::TUPLE_EXPR => "TUPLE_EXPR",
            SyntaxKind::TUPLE_PAT => "TUPLE_PAT",
            SyntaxKind::TUPLE_TYPE => "TUPLE_TYPE",
            SyntaxKind::TUPLE_VALUE_PAT => "TUPLE_VALUE_PAT",
            SyntaxKind::TYPE => "TYPE",
            SyntaxKind::TYPE_ARG_LIST => "TYPE_ARG_LIST",
            SyntaxKind::TYPE_VAR => "TYPE_VAR",
            SyntaxKind::UNARY_EXPR => "UNARY_EXPR",
            SyntaxKind::UNION => "UNION",
            SyntaxKind::VALUE => "VALUE",
            SyntaxKind::VALUE_FIELD => "VALUE_FIELD",
            SyntaxKind::WHERE => "WHERE",
            SyntaxKind::WILDCARD_PAT => "WILDCARD_PAT",
            SyntaxKind::__LAST => "__LAST",
        }
    }

    /// The kinds that are a keyword: the run of the enumeration from `ALIAS_KW` to `WITH_KW`.
    pub open spec fn keyword_class(self) -> bool {
        SyntaxKind::ALIAS_KW.code() <= self.code() <= SyntaxKind::WITH_KW.code()
    }

    /// Whether the kind is a keyword.
    pub fn is_keyword(self) -> (r: bool)
        ensures
            r == self.keyword_class(),
    {
        matches!(
            self,
            SyntaxKind::ALIAS_KW
                | SyntaxKind::AND_KW
                | SyntaxKind::AS_KW
                | SyntaxKind::ATTRIBUTE_KW
                | SyntaxKind::CLASS_KW
                | SyntaxKind::ELSE_KW
                | SyntaxKind::FALSE_KW
                | SyntaxKind::IF_KW
                | SyntaxKind::IMPORT_KW
                | SyntaxKind::IN_KW
                | SyntaxKind::LET_KW
                | SyntaxKind::MATCH_KW
                | SyntaxKind::MODULE_KW
                | SyntaxKind::REC_KW
                | SyntaxKind::THEN_KW
                | SyntaxKind::TRUE_KW
                | SyntaxKind::UNION_KW
                | SyntaxKind::VALUE_KW
                | SyntaxKind::WHEN_KW
                | SyntaxKind::WHERE_KW
                | SyntaxKind::WITH_KW
        )
    }

    /// The kinds that are punctuation: the run of the enumeration from `SEMICOLON` to `ARROW`.
    pub open spec fn punct_class(self) -> bool {
        SyntaxKind::SEMICOLON.code() <= self.code() <= SyntaxKind::ARROW.code()
    }

    /// Whether the kind is punctuation.
    pub fn is_punct(self) -> (r: bool)
        ensures
            r == self.punct_class(),
    {
        matches!(
            self,
            SyntaxKind::SEMICOLON
                | SyntaxKind::COMMA
                | SyntaxKind::L_PAREN
                | SyntaxKind::R_PAREN
                | SyntaxKind::L_CURLY
                | SyntaxKind::R_CURLY
                | SyntaxKind::L_BRACKET
                | SyntaxKind::R_BRACKET
                | SyntaxKind::PIPE
                | SyntaxKind::STAR
                | SyntaxKind::UNDERSCORE
                | SyntaxKind::DOT
                | SyntaxKind::COLON
                | SyntaxKind::COLON2
                | SyntaxKind::EQ
                | SyntaxKind::ARROW
        )
    }

    /// The kinds that are a literal: the run of the enumeration from `CHAR` to `STRING`.
    pub open spec fn literal_class(self) -> bool {
        SyntaxKind::CHAR.code() <= self.code() <= SyntaxKind::STRING.code()
    }

    /// Whether the kind is a literal.
    pub fn is_literal(self) -> (r: bool)
        ensures
            r == self.literal_class(),
    {
        matches!(
            self,
            SyntaxKind::CHAR
                | SyntaxKind::FLOAT_NUMBER
                | SyntaxKind::F_STRING
                | SyntaxKind::INT_NUMBER
                | SyntaxKind::STRING
        )
    }

    /// Whether tokens of this kind are trivia: whitespace, newlines and comments.
    pub open spec fn trivia(self) -> bool {
        self == SyntaxKind::WHITESPACE || self == SyntaxKind::NEWLINE || self == SyntaxKind::COMMENT
    }

    /// Whether tokens of this kind are dropped before parsing and reinserted afterwards.
    pub fn is_trivia(self) -> (r: bool)
        ensures
            r == self.trivia(),
    {
        matches!(self, SyntaxKind::WHITESPACE | SyntaxKind::NEWLINE | SyntaxKind::COMMENT)
    }

    /// The keyword kind whose exact text is `ident`, if there is one.
    pub open spec fn keyword(ident: Seq<char>) -> Option<SyntaxKind> {
        if ident == "alias"@ {
            Some(SyntaxKind::ALIAS_KW)
        } else if ident == "and"@ {
            Some(SyntaxKind::AND_KW)
        } else if ident == "as"@ {
            Some(SyntaxKind::AS_KW)
        } else if ident == "attribute"@ {
            Some(SyntaxKind::ATTRIBUTE_KW)
        } else if ident == "class"@ {
            Some(SyntaxKind::CLASS_KW)
        } else if ident == "else"@ {
            Some(SyntaxKind::ELSE_KW)
        } else if ident == "false"@ {
            Some(SyntaxKind::FALSE_KW)
        } else if ident == "if"@ {
            Some(SyntaxKind::IF_KW)
        } else if ident == "import"@ {
            Some(SyntaxKind::IMPORT_KW)
        } else if ident == "in"@ {
            Some(SyntaxKind::IN_KW)
        } else if ident == "let"@ {
            Some(SyntaxKind::LET_KW)
        } else if ident == "match"@ {
            Some(SyntaxKind::MATCH_KW)
        } else if ident == "module"@ {
            Some(SyntaxKind::MODULE_KW)
        } else if ident == "rec"@ {
            Some(SyntaxKind::REC_KW)
        } else if ident == "then"@ {
            Some(SyntaxKind::THEN_KW)
        } else if ident == "true"@ {
            Some(SyntaxKind::TRUE_KW)
        } else if ident == "union"@ {
            Some(SyntaxKind::UNION_KW)
        } else if ident == "value"@ {
            Some(SyntaxKind::VALUE_KW)
        } else if ident == "when"@ {
            Some(SyntaxKind::WHEN_KW)
        } else if ident == "where"@ {
            Some(SyntaxKind::WHERE_KW)
        } else if ident == "with"@ {
            Some(SyntaxKind::WITH_KW)
        } else {
            None
        }
    }

    /// Looks a keyword up by its exact text.
    pub fn from_keyword(ident: &str) -> (r: Option<SyntaxKind>)
        ensures
            r == Self::keyword(ident@),
    {
        if str_equal(ident, "alias") {
            Some(SyntaxKind::ALIAS_KW)
        } else if str_equal(ident, "and") {
            Some(SyntaxKind::AND_KW)
        } else if str_equal(ident, "as") {
            Some(SyntaxKind::AS_KW)
        } else if str_equal(ident, "attribute") {
            Some(SyntaxKind::ATTRIBUTE_KW)
        } else if str_equal(ident, "class") {
            Some(SyntaxKind::CLASS_KW)
        } else if str_equal(ident, "else") {
            Some(SyntaxKind::ELSE_KW)
        } else if str_equal(ident, "false") {
            Some(SyntaxKind::FALSE_KW)
        } else if str_equal(ident, "if") {
            Some(SyntaxKind::IF_KW)
        } else if str_equal(ident, "import") {
            Some(SyntaxKind::IMPORT_KW)
        } else if str_equal(ident, "in") {
            Some(SyntaxKind::IN_KW)
        } else if str_equal(ident, "let") {
            Some(SyntaxKind::LET_KW)
        } else if str_equal(ident, "match") {
            Some(SyntaxKind::MATCH_KW)
        } else if str_equal(ident, "module") {
            Some(SyntaxKind::MODULE_KW)
        } else if str_equal(ident, "rec") {
            Some(SyntaxKind::REC_KW)
        } else if str_equal(ident, "then") {
            Some(SyntaxKind::THEN_KW)
        } else if str_equal(ident, "true") {
            Some(SyntaxKind::TRUE_KW)
        } else if str_equal(ident, "union") {
            Some(SyntaxKind::UNION_KW)
        } else if str_equal(ident, "value") {
            Some(SyntaxKind::VALUE_KW)
        } else if str_equal(ident, "when") {
            Some(SyntaxKind::WHEN_KW)
        } else if str_equal(ident, "where") {
            Some(SyntaxKind::WHERE_KW)
        } else if str_equal(ident, "with") {
            Some(SyntaxKind::WITH_KW)
        } else {
            None
        }
    }

    /// The punctuation kind written as the single character `c`, if there is one.
    pub open spec fn punct(c: char) -> Option<SyntaxKind> {
        if c == ';' {
            Some(SyntaxKind::SEMICOLON)
        } else if c == ',' {
            Some(SyntaxKind::COMMA)
        } else if c == '(' {
            Some(SyntaxKind::L_PAREN)
        } else if c == ')' {
            Some(SyntaxKind::R_PAREN)
        } else if c == '{' {
            Some(SyntaxKind::L_CURLY)
        } else if c == '}' {
            Some(SyntaxKind::R_CURLY)
        } else if c == '[' {
            Some(SyntaxKind::L_BRACKET)
        } else if c == ']' {
            Some(SyntaxKind::R_BRACKET)
        } else if c == '|' {
            Some(SyntaxKind::PIPE)
        } else if c == '*' {
            Some(SyntaxKind::STAR)
        } else if c == '_' {
            Some(SyntaxKind::UNDERSCORE)
        } else if c == '.' {
            Some(SyntaxKind::DOT)
        } else if c == ':' {
            Some(SyntaxKind::COLON)
        } else if c == '=' {
            Some(SyntaxKind::EQ)
        } else {
            None
        }
    }

    /// Looks a punctuation kind up by its character.
    pub fn from_char(c: char) -> (r: Option<SyntaxKind>)
        ensures
            r == Self::punct(c),
    {
        let tok = match c {
            ';' => SyntaxKind::SEMICOLON,
            ',' => SyntaxKind::COMMA,
            '(' => SyntaxKind::L_PAREN,
            ')' => SyntaxKind::R_PAREN,
            '{' => SyntaxKind::L_CURLY,
            '}' => SyntaxKind::R_CURLY,
            '[' => SyntaxKind::L_BRACKET,
            ']' => SyntaxKind::R_BRACKET,
            '|' => SyntaxKind::PIPE,
            '*' => SyntaxKind::STAR,
            '_' => SyntaxKind::UNDERSCORE,
            '.' => SyntaxKind::DOT,
            ':' => SyntaxKind::COLON,
            '=' => SyntaxKind::EQ,
            _ => return None,
        };
        Some(tok)
    }
}

/// The enumeration is closed and its codes tell the kinds apart: every kind
/// has a code up to [`LAST_CODE`], and kinds with the same code are the same.
pub proof fn lemma_code_injective(a: SyntaxKind, b: SyntaxKind)
    ensures
        0 <= a.code() <= LAST_CODE,
        a.code() == b.code() ==> a == b,
{
}

/// A kind belongs to at most one of the classes of keywords, punctuation,
/// literals and trivia.
pub proof fn lemma_classes_disjoint(a: SyntaxKind)
    ensures
        !(a.keyword_class() && a.punct_class()),
        !(a.keyword_class() && a.literal_class()),
        !(a.punct_class() && a.literal_class()),
        a.trivia() ==> !a.keyword_class() && !a.punct_class() && !a.literal_class(),
{
}

/// Every keyword that is looked up by its text is of the keyword class, and
/// every punctuation that is looked up by its character of the punctuation class.
pub proof fn lemma_lookups_in_class(ident: Seq<char>, c: char)
    ensures
        SyntaxKind::keyword(ident) matches Some(kind) ==> kind.keyword_class(),
        SyntaxKind::punct(c) matches Some(kind) ==> kind.punct_class(),
{
}

} // verus!
