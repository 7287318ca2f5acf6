//! The tokenizer: from source text to raw tokens that cover it entirely.

use vstd::prelude::*;
use vstd::string::StringSliceAdditionalSpecFns;
use vstd::utf8::{is_char_boundary, valid_utf8};

verus! {

/// The raw category of a token, before it is resolved into a syntax kind.
#[derive(Copy, Clone, Debug, PartialEq, Eq, Structural)]
pub enum TokenKind {
    Let,
    Module,
    Eq,
    Ident,
    Whitespace,
    Newline,
    OpenParen,
    CloseParen,
    Number,
    Unknown,
    Eof,
}

/// A raw token: its category and the number of bytes it covers.
#[derive(Copy, Clone, Debug, PartialEq, Eq, Structural)]
pub struct Token {
    pub kind: TokenKind,
    pub len: u32,
}

impl Token {
    pub fn new(kind: TokenKind, len: u32) -> (t: Self)
        ensures
            t == (Token { kind, len }),
    {
        Self { kind, len }
    }
}

/// Bytes that may begin an identifier: an ASCII letter, `a` to `z` or `A` to
/// `Z`, or an underscore.
pub open spec fn ident_start(b: u8) -> bool {
    (0x61 <= b <= 0x7a) || (0x41 <= b <= 0x5a) || b == 0x5f
}

/// Bytes that may continue an identifier: those that begin one, and the digits.
pub open spec fn ident_continue(b: u8) -> bool {
    ident_start(b) || digit(b)
}

/// The ASCII digits, `0` to `9`.
pub open spec fn digit(b: u8) -> bool {
    0x30 <= b <= 0x39
}

/// Number of consecutive identifier bytes of `s` from `from` on.
pub open spec fn ident_run(s: Seq<u8>, from: int) -> nat
    decreases s.len() - from,
{
    if 0 <= from < s.len() && ident_continue(s[from]) {
        1 + ident_run(s, from + 1)
    } else {
        0
    }
}

/// Number of consecutive digits of `s` from `from` on.
pub open spec fn digit_run(s: Seq<u8>, from: int) -> nat
    decreases s.len() - from,
{
    if 0 <= from < s.len() && digit(s[from]) {
        1 + digit_run(s, from + 1)
    } else {
        0
    }
}

/// The first character boundary of `s` at or after `from`, or the end of `s`.
pub open spec fn next_boundary(s: Seq<u8>, from: int) -> int
    decreases s.len() - from,
{
    if 0 <= from < s.len() && !is_char_boundary(s, from) {
        next_boundary(s, from + 1)
    } else {
        from
    }
}

/// The bytes of the word `let`.
pub open spec fn let_word() -> Seq<u8> {
    seq![0x6cu8, 0x65u8, 0x74u8]
}

/// The bytes of the word `module`.
pub open spec fn module_word() -> Seq<u8> {
    seq![0x6du8, 0x6fu8, 0x64u8, 0x75u8, 0x6cu8, 0x65u8]
}

/// The category of a maximal word: a keyword when the text is exactly one, else an identifier.
pub open spec fn word_kind(word: Seq<u8>) -> TokenKind {
    if word == let_word() {
        TokenKind::Let
    } else if word == module_word() {
        TokenKind::Module
    } else {
        TokenKind::Ident
    }
}

/// The token that starts at byte `at` of `s`: the longest match of the token
/// grammar, or, where nothing matches, one character of category `Unknown`.
///
/// The grammar: a word is a run of identifier bytes that begins with a letter
/// or an underscore, and is a keyword if it is exactly `let` or `module`; a
/// number is a run of digits; a space (0x20) is whitespace, one token each;
/// a line feed (0x0a), alone or after a carriage return (0x0d), is a newline;
/// `=` (0x3d), `(` (0x28) and `)` (0x29) stand for themselves.
pub open spec fn first_token(s: Seq<u8>, at: int) -> (TokenKind, int)
    recommends
        0 <= at < s.len(),
{
    let b = s[at];
    if ident_start(b) {
        let n = 1 + ident_run(s, at + 1) as int;
        (word_kind(s.subrange(at, at + n)), n)
    } else if digit(b) {
        (TokenKind::Number, 1 + digit_run(s, at + 1) as int)
    } else if b == 0x20 {
        (TokenKind::Whitespace, 1)
    } else if b == 0x0a {
        (TokenKind::Newline, 1)
    } else if b == 0x0d && at + 1 < s.len() && s[at + 1] == 0x0a {
        (TokenKind::Newline, 2)
    } else if b == 0x3d {
        (TokenKind::Eq, 1)
    } else if b == 0x28 {
        (TokenKind::OpenParen, 1)
    } else if b == 0x29 {
        (TokenKind::CloseParen, 1)
    } else {
        (TokenKind::Unknown, next_boundary(s, at + 1) - at)
    }
}

/// The tokens of `s` from byte `at` to the end, in order. Every token covers
/// at least one byte and ends inside `s` (see [`lemma_first_token_bound`]), so
/// the sequence ends only at the end of `s`.
pub open spec fn token_seq(s: Seq<u8>, at: int) -> Seq<Token>
    decreases s.len() - at,
{
    if 0 <= at < s.len() {
        let first = first_token(s, at);
        if first.1 <= 0 || at + first.1 > s.len() {
            Seq::empty()
        } else {
            let rest = token_seq(s, at + first.1);
            seq![Token { kind: first.0, len: #[verifier::truncate] (first.1 as u32) }] + rest
        }
    } else {
        Seq::empty()
    }
}

/// Sum of the lengths of the tokens in `tokens`.
pub open spec fn total_len(tokens: Seq<Token>) -> int
    decreases tokens.len(),
{
    if tokens.len() == 0 {
        0
    } else {
        tokens[0].len + total_len(tokens.drop_first())
    }
}

/// A run of identifier bytes ends inside `s`.
pub proof fn lemma_ident_run_bound(s: Seq<u8>, from: int)
    requires
        0 <= from <= s.len(),
    ensures
        from + ident_run(s, from) <= s.len(),
    decreases s.len() - from,
{
    if from < s.len() && ident_continue(s[from]) {
        lemma_ident_run_bound(s, from + 1);
    }
}

/// A run of digits ends inside `s`.
pub proof fn lemma_digit_run_bound(s: Seq<u8>, from: int)
    requires
        0 <= from <= s.len(),
    ensures
        from + digit_run(s, from) <= s.len(),
    decreases s.len() - from,
{
    if from < s.len() && digit(s[from]) {
        lemma_digit_run_bound(s, from + 1);
    }
}

/// The next boundary lies between its starting point and the end of `s`.
pub proof fn lemma_next_boundary_bound(s: Seq<u8>, from: int)
    requires
        0 <= from <= s.len(),
    ensures
        from <= next_boundary(s, from) <= s.len(),
    decreases s.len() - from,
{
    if from < s.len() && !is_char_boundary(s, from) {
        lemma_next_boundary_bound(s, from + 1);
    }
}

/// Every token covers at least one byte and ends inside the text.
pub proof fn lemma_first_token_bound(s: Seq<u8>, at: int)
    requires
        0 <= at < s.len(),
    ensures
        1 <= first_token(s, at).1,
        at + first_token(s, at).1 <= s.len(),
{
    lemma_ident_run_bound(s, at + 1);
    lemma_digit_run_bound(s, at + 1);
    lemma_next_boundary_bound(s, at + 1);
}

/// Total coverage: the lengths of the tokens from `at` on sum to the rest of the text.
pub proof fn lemma_tokens_cover(s: Seq<u8>, at: int)
    requires
        0 <= at <= s.len(),
        s.len() <= u32::MAX,
    ensures
        total_len(token_seq(s, at)) == s.len() - at,
    decreases s.len() - at,
{
    if at < s.len() {
        lemma_first_token_bound(s, at);
        let (kind, n) = first_token(s, at);
        let rest = token_seq(s, at + n);
        lemma_tokens_cover(s, at + n);
        assert(token_seq(s, at).drop_first() =~= rest);
    }
}

/// There are no more tokens than bytes.
pub proof fn lemma_token_count(s: Seq<u8>, at: int)
    requires
        0 <= at <= s.len(),
    ensures
        token_seq(s, at).len() <= s.len() - at,
    decreases s.len() - at,
{
    if at < s.len() {
        lemma_first_token_bound(s, at);
        lemma_token_count(s, at + first_token(s, at).1);
    }
}

/// In valid UTF-8 the position after an ASCII byte is a character boundary.
pub proof fn lemma_boundary_after_ascii(s: Seq<u8>, i: int)
    requires
        valid_utf8(s),
        0 <= i < s.len(),
        s[i] < 0x80,
    ensures
        is_char_boundary(s, i + 1),
{
    let b = s[i];
    assert(!vstd::utf8::is_continuation_byte(b)) by (bit_vector)
        requires
            b < 0x80,
    ;
    vstd::utf8::is_char_boundary_iff_not_is_continuation_byte(s, i);
    vstd::utf8::valid_utf8_split(s, i);
    let tail = s.subrange(i, s.len() as int);
    assert(tail[0] == s[i]);
    assert(vstd::utf8::is_leading_byte_width_1(b)) by (bit_vector)
        requires
            b < 0x80,
    ;
    reveal_with_fuel(valid_utf8, 2);
    reveal_with_fuel(is_char_boundary, 2);
    assert(is_char_boundary(tail, 1));
    if i + 1 < s.len() {
        vstd::utf8::is_char_boundary_iff_not_is_continuation_byte(tail, 1);
        assert(tail[1] == s[i + 1]);
        vstd::utf8::is_char_boundary_iff_not_is_continuation_byte(s, i + 1);
    } else {
        vstd::utf8::is_char_boundary_start_end_of_seq(s);
    }
}

/// The next boundary of valid UTF-8 is a character boundary.
pub proof fn lemma_next_boundary_is_boundary(s: Seq<u8>, from: int)
    requires
        valid_utf8(s),
        0 <= from <= s.len(),
    ensures
        is_char_boundary(s, next_boundary(s, from)),
    decreases s.len() - from,
{
    if from < s.len() && !is_char_boundary(s, from) {
        lemma_next_boundary_is_boundary(s, from + 1);
    } else if from == s.len() {
        vstd::utf8::is_char_boundary_start_end_of_seq(s);
    }
}

/// All bytes of an identifier run are ASCII.
proof fn lemma_ident_run_ascii(s: Seq<u8>, from: int)
    requires
        0 <= from <= s.len(),
    ensures
        forall|j: int| from <= j < from + ident_run(s, from) ==> ident_continue(#[trigger] s[j]),
    decreases s.len() - from,
{
    if from < s.len() && ident_continue(s[from]) {
        lemma_ident_run_ascii(s, from + 1);
    }
}

/// All bytes of a digit run are digits.
proof fn lemma_digit_run_ascii(s: Seq<u8>, from: int)
    requires
        0 <= from <= s.len(),
    ensures
        forall|j: int| from <= j < from + digit_run(s, from) ==> digit(#[trigger] s[j]),
    decreases s.len() - from,
{
    if from < s.len() && digit(s[from]) {
        lemma_digit_run_ascii(s, from + 1);
    }
}

/// A token that starts at a character boundary of valid UTF-8 ends at one.
pub proof fn lemma_first_token_ends_at_boundary(s: Seq<u8>, at: int)
    requires
        valid_utf8(s),
        0 <= at < s.len(),
    ensures
        is_char_boundary(s, at + first_token(s, at).1),
{
    let b = s[at];
    let n = first_token(s, at).1;
    lemma_first_token_bound(s, at);
    if ident_start(b) {
        lemma_ident_run_ascii(s, at + 1);
        assert(ident_continue(s[at + n - 1]));
        lemma_boundary_after_ascii(s, at + n - 1);
    } else if digit(b) {
        lemma_digit_run_ascii(s, at + 1);
        assert(digit(s[at + n - 1]));
        lemma_boundary_after_ascii(s, at + n - 1);
    } else if b == 0x20 || b == 0x0a || b == 0x3d || b == 0x28 || b == 0x29 {
        lemma_boundary_after_ascii(s, at);
    } else if b == 0x0d && at + 1 < s.len() && s[at + 1] == 0x0a {
        lemma_boundary_after_ascii(s, at + 1);
    } else {
        lemma_next_boundary_is_boundary(s, at + 1);
    }
}

/// Scans the identifier bytes of `bytes` from `from` on and returns where they end.
fn scan_ident(bytes: &[u8], from: usize) -> (end: usize)
    requires
        from <= bytes@.len(),
    ensures
        end == from + ident_run(bytes@, from as int),
        end <= bytes@.len(),
{
    let mut end = from;
    while end < bytes.len() && is_ident_continue(bytes[end])
        invariant
            from <= end <= bytes@.len(),
            from + ident_run(bytes@, from as int) == end + ident_run(bytes@, end as int),
        decreases bytes@.len() - end,
    {
        end += 1;
    }
    end
}

/// Scans the digits of `bytes` from `from` on and returns where they end.
fn scan_digits(bytes: &[u8], from: usize) -> (end: usize)
    requires
        from <= bytes@.len(),
    ensures
        end == from + digit_run(bytes@, from as int),
        end <= bytes@.len(),
{
    let mut end = from;
    while end < bytes.len() && is_digit(bytes[end])
        invariant
            from <= end <= bytes@.len(),
            from + digit_run(bytes@, from as int) == end + digit_run(bytes@, end as int),
        decreases bytes@.len() - end,
    {
        end += 1;
    }
    end
}

fn is_ident_start(b: u8) -> (r: bool)
    ensures
        r == ident_start(b),
{
    (0x61 <= b && b <= 0x7a) || (0x41 <= b && b <= 0x5a) || b == 0x5f
}

fn is_digit(b: u8) -> (r: bool)
    ensures
        r == digit(b),
{
    0x30 <= b && b <= 0x39
}

fn is_ident_continue(b: u8) -> (r: bool)
    ensures
        r == ident_continue(b),
{
    is_ident_start(b) || is_digit(b)
}

/// Resolves a maximal word into a keyword or an identifier.
fn classify_word(bytes: &[u8], at: usize, end: usize) -> (kind: TokenKind)
    requires
        at < end <= bytes@.len(),
    ensures
        kind == word_kind(bytes@.subrange(at as int, end as int)),
{
    let n = end - at;
    let ghost word = bytes@.subrange(at as int, end as int);
    if n == 3 && bytes[at] == 0x6c && bytes[at + 1] == 0x65 && bytes[at + 2] == 0x74 {
        assert(word =~= let_word());
        TokenKind::Let
    } else if n == 6 && bytes[at] == 0x6d && bytes[at + 1] == 0x6f && bytes[at + 2] == 0x64
        && bytes[at + 3] == 0x75 && bytes[at + 4] == 0x6c && bytes[at + 5] == 0x65 {
        assert(word =~= module_word());
        TokenKind::Module
    } else {
        assert(word != let_word()) by {
            if word == let_word() {
                assert(word.len() == 3);
                assert(word[0] == 0x6c && word[1] == 0x65 && word[2] == 0x74);
            }
        }
        assert(word != module_word()) by {
            if word == module_word() {
                assert(word.len() == 6);
                assert(word[0] == 0x6d && word[1] == 0x6f && word[2] == 0x64);
                assert(word[3] == 0x75 && word[4] == 0x6c && word[5] == 0x65);
            }
        }
        TokenKind::Ident
    }
}

/// Finds the end of the character that starts at `at`.
fn scan_char(input: &str, bytes: &[u8], at: usize) -> (end: usize)
    requires
        bytes@ == input.spec_bytes(),
        at < input.spec_bytes().len(),
    ensures
        end == next_boundary(input.spec_bytes(), at + 1),
        at < end <= input.spec_bytes().len(),
{
    let len = bytes.len();
    let mut end = at + 1;
    while end < len && !input.is_char_boundary(end)
        invariant
            len == input.spec_bytes().len(),
            at < end <= len,
            bytes@ == input.spec_bytes(),
            next_boundary(bytes@, at + 1) == next_boundary(bytes@, end as int),
        decreases len - end,
    {
        end += 1;
    }
    end
}

/// Reads the token that starts at byte `at` and returns its category and its end.
fn next_token(input: &str, bytes: &[u8], at: usize) -> (r: (TokenKind, usize))
    requires
        bytes@ == input.spec_bytes(),
        at < bytes@.len(),
    ensures
        r.0 == first_token(bytes@, at as int).0,
        r.1 == at + first_token(bytes@, at as int).1,
        at < r.1 <= bytes@.len(),
{
    let b = bytes[at];
    if is_ident_start(b) {
        let end = scan_ident(bytes, at + 1);
        (classify_word(bytes, at, end), end)
    } else if is_digit(b) {
        let end = scan_digits(bytes, at + 1);
        (TokenKind::Number, end)
    } else if b == 0x20 {
        (TokenKind::Whitespace, at + 1)
    } else if b == 0x0a {
        (TokenKind::Newline, at + 1)
    } else if b == 0x0d && at + 1 < bytes.len() && bytes[at + 1] == 0x0a {
        (TokenKind::Newline, at + 2)
    } else if b == 0x3d {
        (TokenKind::Eq, at + 1)
    } else if b == 0x28 {
        (TokenKind::OpenParen, at + 1)
    } else if b == 0x29 {
        (TokenKind::CloseParen, at + 1)
    } else {
        (TokenKind::Unknown, scan_char(input, bytes, at))
    }
}

/// Splits `input` into raw tokens.
///
/// Every byte belongs to exactly one token: text that matches no rule of the
/// token grammar comes out one character at a time as `Unknown`. No trivia is
/// filtered and no end marker is added.
pub fn tokenize(input: &str) -> (tokens: Vec<Token>)
    requires
        input.spec_bytes().len() <= u32::MAX,
    ensures
        tokens@ == token_seq(input.spec_bytes(), 0),
        total_len(tokens@) == input.spec_bytes().len(),
{
    let bytes = input.as_bytes();
    let mut tokens: Vec<Token> = Vec::new();
    let mut at: usize = 0;
    while at < bytes.len()
        invariant
            bytes@ == input.spec_bytes(),
            bytes@.len() <= u32::MAX,
            at <= bytes@.len(),
            tokens@ + token_seq(bytes@, at as int) == token_seq(bytes@, 0),
        decreases bytes@.len() - at,
    {
        let (kind, end) = next_token(input, bytes, at);
        let ghost before = tokens@;
        tokens.push(Token::new(kind, (end - at) as u32));
        assert(before + token_seq(bytes@, at as int) =~= tokens@ + token_seq(bytes@, end as int));
        at = end;
    }
    proof {
        assert(tokens@ + token_seq(bytes@, at as int) =~= tokens@);
        lemma_tokens_cover(bytes@, 0);
    }
    tokens
}

} // verus!
