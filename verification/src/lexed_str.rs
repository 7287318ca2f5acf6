//! The token table of a source text: kinds, offsets and lexical errors.

use std::ops::Range;

use vstd::prelude::*;
use vstd::string::StringSliceAdditionalSpecFns;
use vstd::utf8::{encode_utf8, is_char_boundary, valid_utf8};

use crate::lexer::{first_token, token_seq, tokenize, total_len, Token, TokenKind};
use crate::syntax_kind::SyntaxKind;

verus! {

/// A lexical error: the index of the token it belongs to, and its message.
struct LexError {
    msg: String,
    token: u32,
}

/// The token table of one source text.
///
/// Parallel arrays hold the kind and the starting byte offset of every token,
/// trivia included, followed by one end-of-input entry whose offset is the
/// length of the text. Lexical errors are kept apart, sorted by token index.
pub struct LexedStr<'a> {
    text: &'a str,
    kind: Vec<SyntaxKind>,
    start: Vec<u32>,
    error: Vec<LexError>,
}

/// The mathematical value of a token table: the bytes of the source text,
/// the kind and the starting offset of every entry, the closing end-of-input
/// entry included, and the lexical errors, each as a token index and a message.
pub struct Table {
    pub bytes: Seq<u8>,
    pub kinds: Seq<SyntaxKind>,
    pub starts: Seq<u32>,
    pub errors: Seq<(int, Seq<char>)>,
}

impl Table {
    /// The number of tokens, the closing entry not counted.
    pub open spec fn len(self) -> int {
        self.kinds.len() - 1
    }

    /// The bytes of token `i`.
    pub open spec fn token_bytes(self, i: int) -> Seq<u8> {
        self.bytes.subrange(self.starts[i] as int, self.starts[i + 1] as int)
    }

    /// The bytes of the tokens from `lo` up to `hi`.
    pub open spec fn range_bytes(self, lo: int, hi: int) -> Seq<u8> {
        self.bytes.subrange(self.starts[lo] as int, self.starts[hi] as int)
    }

    /// The invariant of a finished table: it ends with the end-of-input
    /// entry at the length of the text, its offsets begin at 0, never
    /// decrease and fall on character boundaries, and its errors are sorted.
    pub open spec fn wf(self) -> bool {
        &&& self.kinds.len() >= 1
        &&& self.starts.len() == self.kinds.len()
        &&& self.kinds.last() == SyntaxKind::EOF
        &&& self.starts[0] == 0
        &&& self.starts.last() == self.bytes.len()
        &&& self.bytes.len() <= u32::MAX
        &&& monotone(self.starts)
        &&& on_boundaries(self.bytes, self.starts)
        &&& errors_sorted(self.errors, self.len())
    }
}

/// The kinds of the table of a source text: those of its tokens, resolved,
/// and the closing end-of-input entry.
pub open spec fn table_kinds(bytes: Seq<u8>) -> Seq<SyntaxKind> {
    let tokens = token_seq(bytes, 0);
    Seq::new(
        tokens.len() + 1,
        |i: int|
            if i < tokens.len() {
                resolve(tokens[i].kind)
            } else {
                SyntaxKind::EOF
            },
    )
}

/// The offsets of the table of a source text: every token starts where the
/// tokens before it end, and the closing entry stands at the end of the text.
pub open spec fn table_starts(bytes: Seq<u8>) -> Seq<u32> {
    let tokens = token_seq(bytes, 0);
    Seq::new(tokens.len() + 1, |i: int| total_len(tokens.take(i)) as u32)
}

/// The table of a source text.
pub open spec fn table_of(bytes: Seq<u8>) -> Table {
    Table {
        bytes,
        kinds: table_kinds(bytes),
        starts: table_starts(bytes),
        errors: Seq::empty(),
    }
}

/// The syntax kind that a raw token category resolves into.
pub open spec fn resolve(kind: TokenKind) -> SyntaxKind {
    match kind {
        TokenKind::Let => SyntaxKind::LET_KW,
        TokenKind::Module => SyntaxKind::MODULE_KW,
        TokenKind::Eq => SyntaxKind::EQ,
        TokenKind::Ident => SyntaxKind::IDENT,
        TokenKind::Whitespace => SyntaxKind::WHITESPACE,
        TokenKind::Newline => SyntaxKind::NEWLINE,
        TokenKind::OpenParen => SyntaxKind::L_PAREN,
        TokenKind::CloseParen => SyntaxKind::R_PAREN,
        TokenKind::Number => SyntaxKind::INT_NUMBER,
        TokenKind::Unknown => SyntaxKind::ERROR,
        TokenKind::Eof => SyntaxKind::EOF,
    }
}

/// Offsets that never decrease.
pub open spec fn monotone(starts: Seq<u32>) -> bool {
    forall|i: int, j: int| 0 <= i <= j < starts.len() ==> starts[i] <= starts[j]
}

/// Every offset is a character boundary of `bytes`.
pub open spec fn on_boundaries(bytes: Seq<u8>, starts: Seq<u32>) -> bool {
    forall|i: int| 0 <= i < starts.len() ==> is_char_boundary(bytes, #[trigger] starts[i] as int)
}

/// Errors in strictly increasing order of token index, each below `n`.
pub open spec fn errors_sorted(errors: Seq<(int, Seq<char>)>, n: int) -> bool {
    &&& forall|i: int, j: int| 0 <= i < j < errors.len() ==> errors[i].0 < errors[j].0
    &&& forall|i: int| 0 <= i < errors.len() ==> 0 <= (#[trigger] errors[i]).0 < n
}

/// The message recorded for token `i`, if there is one.
pub open spec fn error_of(errors: Seq<(int, Seq<char>)>, i: int) -> Option<Seq<char>> {
    if exists|j: int| 0 <= j < errors.len() && (#[trigger] errors[j]).0 == i {
        let j = choose|j: int| 0 <= j < errors.len() && (#[trigger] errors[j]).0 == i;
        Some(errors[j].1)
    } else {
        None
    }
}

/// In valid UTF-8, a boundary of the text is a boundary of every prefix that reaches it.
proof fn lemma_boundary_in_prefix(s: Seq<u8>, lo: int, hi: int)
    requires
        valid_utf8(s),
        0 <= lo <= hi <= s.len(),
        is_char_boundary(s, lo),
        is_char_boundary(s, hi),
    ensures
        valid_utf8(s.subrange(0, hi)),
        is_char_boundary(s.subrange(0, hi), lo),
{
    vstd::utf8::valid_utf8_split(s, hi);
    let head = s.subrange(0, hi);
    if lo == hi {
        vstd::utf8::is_char_boundary_start_end_of_seq(head);
    } else {
        vstd::utf8::is_char_boundary_iff_not_is_continuation_byte(s, lo);
        vstd::utf8::is_char_boundary_iff_not_is_continuation_byte(head, lo);
        assert(head[lo] == s[lo]);
    }
}

/// The part of `text` between two character boundaries.
fn slice_text<'a>(text: &'a str, lo: usize, hi: usize) -> (r: &'a str)
    requires
        lo <= hi <= text.spec_bytes().len(),
        is_char_boundary(text.spec_bytes(), lo as int),
        is_char_boundary(text.spec_bytes(), hi as int),
    ensures
        r.spec_bytes() == text.spec_bytes().subrange(lo as int, hi as int),
{
    proof {
        vstd::utf8::encode_utf8_valid_utf8(text@);
        lemma_boundary_in_prefix(text.spec_bytes(), lo as int, hi as int);
    }
    let (head, _) = text.split_at(hi);
    let (_, r) = head.split_at(lo);
    assert(r.spec_bytes() =~= text.spec_bytes().subrange(lo as int, hi as int));
    r
}

impl<'a> View for LexedStr<'a> {
    type V = Table;

    open spec fn view(&self) -> Table {
        Table {
            bytes: self.bytes(),
            kinds: self.kinds(),
            starts: self.starts(),
            errors: self.lex_errors(),
        }
    }
}

impl<'a> LexedStr<'a> {
    /// The characters of the source text.
    pub closed spec fn chars(&self) -> Seq<char> {
        self.text@
    }

    /// The bytes of the source text.
    pub open spec fn bytes(&self) -> Seq<u8> {
        encode_utf8(self.chars())
    }

    /// The kind of every entry, the closing end-of-input entry included.
    pub closed spec fn kinds(&self) -> Seq<SyntaxKind> {
        self.kind@
    }

    /// The starting offset of every entry, the closing one included.
    pub closed spec fn starts(&self) -> Seq<u32> {
        self.start@
    }

    /// The lexical errors, each as a token index and a message.
    pub closed spec fn lex_errors(&self) -> Seq<(int, Seq<char>)> {
        Seq::new(self.error@.len(), |i: int| (self.error@[i].token as int, self.error@[i].msg@))
    }

    /// The number of tokens, the closing entry not counted.
    pub open spec fn spec_len(&self) -> int {
        self@.len()
    }

    /// The bytes of token `i`.
    pub open spec fn token_bytes(&self, i: int) -> Seq<u8> {
        self@.token_bytes(i)
    }

    /// The bytes of the tokens from `lo` up to `hi`.
    pub open spec fn range_bytes(&self, lo: int, hi: int) -> Seq<u8> {
        self@.range_bytes(lo, hi)
    }

    /// The table is held in vectors, so its length fits a machine word.
    pub proof fn lemma_len_fits(&self)
        ensures
            self.kinds().len() <= usize::MAX,
    {
        assert(self.kind@.len() == self.kind.len());
    }

    /// The invariant of a finished table.
    pub open spec fn wf(&self) -> bool {
        self@.wf()
    }

    /// Lexes `text` into a token table.
    ///
    /// Entry `i` is the `i`-th raw token of the text with its kind resolved
    /// and its offset recorded; the closing entry is end-of-input at the
    /// length of the text. The token grammar reports no lexical errors.
    pub fn new(text: &'a str) -> (lexed: LexedStr<'a>)
        requires
            text.spec_bytes().len() <= u32::MAX,
        ensures
            lexed.wf(),
            lexed.chars() == text@,
            lexed@ == table_of(text.spec_bytes()),
    {
        let mut conv = Converter::new(text);
        let tokens = tokenize(text);
        let ghost bytes = text.spec_bytes();
        let ghost toks = token_seq(bytes, 0);
        proof {
            vstd::utf8::encode_utf8_valid_utf8(text@);
            vstd::utf8::is_char_boundary_start_end_of_seq(bytes);
            assert(toks.take(0) =~= Seq::<Token>::empty());
            assert(toks.skip(0) =~= toks);
        }
        let mut i: usize = 0;
        while i < tokens.len()
            invariant
                tokens@ == toks,
                toks == token_seq(bytes, 0),
                bytes == text.spec_bytes(),
                valid_utf8(bytes),
                bytes.len() <= u32::MAX,
                i <= toks.len(),
                conv.building(),
                conv.res.chars() == text@,
                conv.res.kinds().len() == i,
                conv.offset == total_len(toks.take(i as int)),
                toks.skip(i as int) == token_seq(bytes, conv.offset as int),
                conv.res.lex_errors().len() == 0,
                forall|k: int|
                    0 <= k < i ==> {
                        &&& (#[trigger] conv.res.kinds()[k]) == resolve(toks[k].kind)
                        &&& conv.res.starts()[k] == total_len(toks.take(k))
                    },
            decreases toks.len() - i,
        {
            let token = tokens[i];
            proof {
                let at = conv.offset as int;
                assert(toks.skip(i as int)[0] == toks[i as int]);
                assert(at < bytes.len());
                crate::lexer::lemma_first_token_bound(bytes, at);
                crate::lexer::lemma_first_token_ends_at_boundary(bytes, at);
                assert(token.len == first_token(bytes, at).1);
                assert(toks.skip(i as int + 1) =~= toks.skip(i as int).drop_first());
                lemma_total_len_take_next(toks, i as int);
            }
            let end = conv.offset + token.len as usize;
            let token_text = slice_text(text, conv.offset, end);
            conv.extend_token(&token.kind, token_text);
            i += 1;
        }
        proof {
            assert(toks.take(toks.len() as int) =~= toks);
            crate::lexer::lemma_tokens_cover(bytes, 0);
        }
        let ghost built = conv.res;
        let lexed = conv.finalize_with_eof();
        proof {
            assert(lexed.kinds() =~= table_kinds(bytes));
            assert forall|k: int| 0 <= k < lexed.starts().len() implies lexed.starts()[k]
                == table_starts(bytes)[k] by {
                if k < toks.len() {
                    assert(built.kinds()[k] == resolve(toks[k].kind));
                    assert(lexed.starts()[k] == built.starts()[k]);
                }
            }
            assert(lexed.starts() =~= table_starts(bytes));
            assert(lexed.lex_errors() =~= Seq::<(int, Seq<char>)>::empty());
        }
        lexed
    }

    /// The source text.
    pub fn as_str(&self) -> (text: &str)
        ensures
            text@ == self.chars(),
    {
        self.text
    }

    /// The number of tokens, the closing end-of-input entry not counted.
    pub fn len(&self) -> (n: usize)
        requires
            self.wf(),
        ensures
            n == self.spec_len(),
    {
        self.kind.len() - 1
    }

    /// Whether the text holds no token at all.
    pub fn is_empty(&self) -> (r: bool)
        requires
            self.wf(),
        ensures
            r == (self.spec_len() == 0),
    {
        self.len() == 0
    }

    /// The kind of token `i`.
    pub fn kind(&self, i: usize) -> (kind: SyntaxKind)
        requires
            self.wf(),
            i < self.spec_len(),
        ensures
            kind == self.kinds()[i as int],
    {
        self.kind[i]
    }

    /// The text of token `i`.
    pub fn text(&self, i: usize) -> (text: &str)
        requires
            self.wf(),
            i < self.spec_len(),
        ensures
            text.spec_bytes() == self.token_bytes(i as int),
    {
        assert(self.kind@.len() == self.kind.len());
        self.range_text(i..i + 1)
    }

    /// The text of the tokens in the range `r`.
    pub fn range_text(&self, r: Range<usize>) -> (text: &str)
        requires
            self.wf(),
            r.start < r.end <= self.spec_len(),
        ensures
            text.spec_bytes() == self.range_bytes(r.start as int, r.end as int),
    {
        let lo = self.start[r.start] as usize;
        let hi = self.start[r.end] as usize;
        slice_text(self.text, lo, hi)
    }

    /// The byte range of token `i` in the source text.
    pub fn text_range(&self, i: usize) -> (r: Range<usize>)
        requires
            self.wf(),
            i < self.spec_len(),
        ensures
            r.start == self.starts()[i as int],
            r.end == self.starts()[i + 1],
            r.start <= r.end <= self.bytes().len(),
    {
        assert(self.kind@.len() == self.kind.len());
        let lo = self.start[i] as usize;
        let hi = self.start[i + 1] as usize;
        lo..hi
    }

    /// The byte offset at which token `i` starts; for `i == len()`, the length of the text.
    pub fn text_start(&self, i: usize) -> (offset: usize)
        requires
            self.wf(),
            i <= self.spec_len(),
        ensures
            offset == self.starts()[i as int],
            offset <= self.bytes().len(),
    {
        self.start[i] as usize
    }

    /// The number of bytes of token `i`.
    pub fn text_len(&self, i: usize) -> (n: usize)
        requires
            self.wf(),
            i < self.spec_len(),
        ensures
            n == self.starts()[i + 1] - self.starts()[i as int],
            n == self.token_bytes(i as int).len(),
    {
        let r = self.text_range(i);
        r.end - r.start
    }

    /// The lexical error recorded for token `i`, found by binary search.
    pub fn error(&self, i: usize) -> (r: Option<&str>)
        requires
            self.wf(),
            i < self.spec_len(),
        ensures
            match r {
                Some(msg) => error_of(self.lex_errors(), i as int) == Some(msg@),
                None => error_of(self.lex_errors(), i as int).is_none(),
            },
    {
        let ghost errors = self.lex_errors();
        let mut lo: usize = 0;
        let mut hi: usize = self.error.len();
        while lo < hi
            invariant
                self.wf(),
                errors == self.lex_errors(),
                lo <= hi <= errors.len(),
                forall|j: int| 0 <= j < lo ==> (#[trigger] errors[j]).0 < i,
                forall|j: int| hi <= j < errors.len() ==> (#[trigger] errors[j]).0 > i,
            decreases hi - lo,
        {
            let mid = lo + (hi - lo) / 2;
            let token = self.error[mid].token as usize;
            assert(errors[mid as int].0 == token);
            if token == i {
                let msg = self.error[mid].msg.as_str();
                proof {
                    let found = choose|j: int|
                        0 <= j < errors.len() && (#[trigger] errors[j]).0 == i;
                    assert(found == mid) by {
                        if found < mid {
                            assert(errors[found].0 < errors[mid as int].0);
                        } else if found > mid {
                            assert(errors[mid as int].0 < errors[found].0);
                        }
                    }
                }
                return Some(msg);
            } else if token < i {
                lo = mid + 1;
            } else {
                hi = mid;
            }
        }
        None
    }

    /// All lexical errors, each with the index of its token, in token order.
    pub fn errors(&self) -> (r: Vec<(usize, &str)>)
        requires
            self.wf(),
        ensures
            r@.len() == self.lex_errors().len(),
            forall|j: int|
                0 <= j < r@.len() ==> (#[trigger] r@[j]).0 == self.lex_errors()[j].0 && r@[j].1@
                    == self.lex_errors()[j].1,
    {
        let mut out: Vec<(usize, &str)> = Vec::new();
        let mut j: usize = 0;
        while j < self.error.len()
            invariant
                j <= self.error@.len(),
                out@.len() == j,
                forall|k: int|
                    0 <= k < j ==> (#[trigger] out@[k]).0 == self.lex_errors()[k].0 && out@[k].1@
                        == self.lex_errors()[k].1,
            decreases self.error@.len() - j,
        {
            out.push((self.error[j].token as usize, self.error[j].msg.as_str()));
            j += 1;
        }
        out
    }

    /// Appends one entry.
    fn push(&mut self, kind: SyntaxKind, offset: usize)
        requires
            offset <= u32::MAX,
        ensures
            final(self).chars() == old(self).chars(),
            final(self).kinds() == old(self).kinds().push(kind),
            final(self).starts() == old(self).starts().push(offset as u32),
            final(self).lex_errors() == old(self).lex_errors(),
    {
        self.kind.push(kind);
        self.start.push(offset as u32);
        assert(self.lex_errors() =~= old(self).lex_errors());
    }
}

/// The offset of token `i + 1` is that of token `i` plus the length of token `i`.
proof fn lemma_total_len_take_next(toks: Seq<Token>, i: int)
    requires
        0 <= i < toks.len(),
    ensures
        total_len(toks.take(i + 1)) == total_len(toks.take(i)) + toks[i].len,
    decreases i,
{
    if i == 0 {
        assert(toks.take(1).drop_first() =~= Seq::<Token>::empty());
        assert(toks.take(0) =~= Seq::<Token>::empty());
    } else {
        let rest = toks.drop_first();
        lemma_total_len_take_next(rest, i - 1);
        assert(toks.take(i + 1).drop_first() =~= rest.take(i));
        assert(toks.take(i).drop_first() =~= rest.take(i - 1));
    }
}

/// A table under construction, with the offset at which the next token starts.
struct Converter<'a> {
    res: LexedStr<'a>,
    offset: usize,
}

impl<'a> Converter<'a> {
    /// The invariant of a table that lacks only its closing entry.
    spec fn building(&self) -> bool {
        &&& self.res.starts().len() == self.res.kinds().len()
        &&& self.offset <= self.res.bytes().len() <= u32::MAX
        &&& is_char_boundary(self.res.bytes(), self.offset as int)
        &&& monotone(self.res.starts())
        &&& on_boundaries(self.res.bytes(), self.res.starts())
        &&& forall|i: int| 0 <= i < self.res.starts().len() ==> self.res.starts()[i] <= self.offset
        &&& self.res.starts().len() > 0 ==> self.res.starts()[0] == 0
        &&& self.res.starts().len() == 0 ==> self.offset == 0
        &&& errors_sorted(self.res.lex_errors(), self.res.kinds().len() as int)
    }

    fn new(text: &'a str) -> (conv: Self)
        requires
            text.spec_bytes().len() <= u32::MAX,
        ensures
            conv.building(),
            conv.res.chars() == text@,
            conv.res.kinds().len() == 0,
            conv.res.lex_errors().len() == 0,
            conv.offset == 0,
    {
        proof {
            vstd::utf8::encode_utf8_valid_utf8(text@);
            vstd::utf8::is_char_boundary_start_end_of_seq(text.spec_bytes());
        }
        Self {
            res: LexedStr { text, kind: Vec::new(), start: Vec::new(), error: Vec::new() },
            offset: 0,
        }
    }

    /// Closes the table with the end-of-input entry.
    fn finalize_with_eof(self) -> (lexed: LexedStr<'a>)
        requires
            self.building(),
            self.offset == self.res.bytes().len(),
        ensures
            lexed.wf(),
            lexed.chars() == self.res.chars(),
            lexed.kinds() == self.res.kinds().push(SyntaxKind::EOF),
            lexed.starts() == self.res.starts().push(self.offset as u32),
            lexed.lex_errors() == self.res.lex_errors(),
    {
        let mut res = self.res;
        res.push(SyntaxKind::EOF, self.offset);
        res
    }

    /// Appends a token of `len` bytes, with its lexical error if it has one.
    fn push(&mut self, kind: SyntaxKind, len: usize, err: Option<&str>)
        requires
            old(self).building(),
            old(self).offset + len <= old(self).res.bytes().len(),
            is_char_boundary(old(self).res.bytes(), old(self).offset + len),
            err.is_some() ==> old(self).res.kinds().len() < u32::MAX,
        ensures
            final(self).building(),
            final(self).res.chars() == old(self).res.chars(),
            final(self).res.kinds() == old(self).res.kinds().push(kind),
            final(self).res.starts() == old(self).res.starts().push(old(self).offset as u32),
            final(self).offset == old(self).offset + len,
            final(self).res.lex_errors() == match err {
                Some(msg) => old(self).res.lex_errors().push(
                    (old(self).res.kinds().len() as int, msg@),
                ),
                None => old(self).res.lex_errors(),
            },
    {
        self.res.push(kind, self.offset);
        self.offset += len;

        if let Some(err) = err {
            let token = (self.res.kind.len() - 1) as u32;
            let msg = err.to_owned();
            self.res.error.push(LexError { msg, token });
            assert(self.res.lex_errors() =~= old(self).res.lex_errors().push(
                (old(self).res.kinds().len() as int, err@),
            ));
        }
    }

    /// Resolves the category of a raw token and appends it.
    fn extend_token(&mut self, kind: &TokenKind, token_text: &str)
        requires
            old(self).building(),
            token_text.spec_bytes() == old(self).res.bytes().subrange(
                old(self).offset as int,
                old(self).offset + token_text.spec_bytes().len(),
            ),
            old(self).offset + token_text.spec_bytes().len() <= old(self).res.bytes().len(),
            is_char_boundary(
                old(self).res.bytes(),
                old(self).offset + token_text.spec_bytes().len(),
            ),
        ensures
            final(self).building(),
            final(self).res.chars() == old(self).res.chars(),
            final(self).res.kinds() == old(self).res.kinds().push(resolve(*kind)),
            final(self).res.starts() == old(self).res.starts().push(old(self).offset as u32),
            final(self).offset == old(self).offset + token_text.spec_bytes().len(),
            final(self).res.lex_errors() == old(self).res.lex_errors(),
    {
        let syntax_kind = match kind {
            TokenKind::Let => SyntaxKind::LET_KW,
            TokenKind::Module => SyntaxKind::MODULE_KW,
            TokenKind::Eq => SyntaxKind::EQ,
            TokenKind::Ident => SyntaxKind::IDENT,
            TokenKind::Whitespace => SyntaxKind::WHITESPACE,
            TokenKind::Newline => SyntaxKind::NEWLINE,
            TokenKind::OpenParen => SyntaxKind::L_PAREN,
            TokenKind::CloseParen => SyntaxKind::R_PAREN,
            TokenKind::Number => SyntaxKind::INT_NUMBER,
            TokenKind::Unknown => SyntaxKind::ERROR,
            TokenKind::Eof => SyntaxKind::EOF,
        };

        self.push(syntax_kind, token_text.len(), None);
    }
}

} // verus!
