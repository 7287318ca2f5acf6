//! The rule by which comments before a node become part of it.

use vstd::prelude::*;
use vstd::string::StringSliceAdditionalSpecFns;

use crate::syntax_kind::SyntaxKind;

verus! {

/// A trivia token as the attachment rule sees it: its kind and the bytes of its text.
pub type TriviaModel = (SyntaxKind, Seq<u8>);

/// Whether `text` begins with `prefix`.
pub open spec fn has_prefix(text: Seq<u8>, prefix: Seq<u8>) -> bool {
    prefix.len() <= text.len() && text.subrange(0, prefix.len() as int) == prefix
}

/// Whether `text` holds two line feeds in a row, that is, a blank line.
pub open spec fn has_blank_line(text: Seq<u8>) -> bool {
    exists|i: int| 0 <= i && i + 1 < text.len() && #[trigger] text[i] == 0x0a && text[i + 1] == 0x0a
}

/// The bytes of `///`.
pub open spec fn line_doc() -> Seq<u8> {
    seq![0x2fu8, 0x2fu8, 0x2fu8]
}

/// The bytes of `////`.
pub open spec fn line_doc_of_doc() -> Seq<u8> {
    seq![0x2fu8, 0x2fu8, 0x2fu8, 0x2fu8]
}

/// The bytes of `/**`.
pub open spec fn block_doc() -> Seq<u8> {
    seq![0x2fu8, 0x2au8, 0x2au8]
}

/// The bytes of `/***`.
pub open spec fn block_doc_of_doc() -> Seq<u8> {
    seq![0x2fu8, 0x2au8, 0x2au8, 0x2au8]
}

/// The bytes of `//!`.
pub open spec fn line_inner_doc() -> Seq<u8> {
    seq![0x2fu8, 0x2fu8, 0x21u8]
}

/// The bytes of `/*!`.
pub open spec fn block_inner_doc() -> Seq<u8> {
    seq![0x2fu8, 0x2au8, 0x21u8]
}

/// An outer doc comment: one that documents what follows it. It begins with
/// `///` or `/**`, but not with `////` or `/***`.
pub open spec fn outer_doc(text: Seq<u8>) -> bool {
    &&& !has_prefix(text, line_doc_of_doc())
    &&& !has_prefix(text, block_doc_of_doc())
    &&& (has_prefix(text, line_doc()) || has_prefix(text, block_doc()))
}

/// An inner doc comment: one that documents what holds it. It begins with `//!` or `/*!`.
pub open spec fn inner_doc(text: Seq<u8>) -> bool {
    has_prefix(text, line_inner_doc()) || has_prefix(text, block_inner_doc())
}

/// The kinds of node that take the comments before them as their own.
pub open spec fn takes_comments(kind: SyntaxKind) -> bool {
    kind == SyntaxKind::LET_DECL || kind == SyntaxKind::MODULE || kind == SyntaxKind::CLASS
}

/// Whether the scan over `trivias`, nearest to the node first, stops at `i`:
/// at an inner doc comment, or at whitespace with a blank line unless the
/// trivia beyond it is an outer doc comment.
pub open spec fn stops_at(trivias: Seq<TriviaModel>, i: int) -> bool {
    let (kind, text) = trivias[i];
    ||| kind == SyntaxKind::COMMENT && inner_doc(text)
    ||| kind == SyntaxKind::WHITESPACE && has_blank_line(text) && !(i + 1 < trivias.len()
        && trivias[i + 1].0 == SyntaxKind::COMMENT && outer_doc(trivias[i + 1].1))
}

/// The first position at or after `from` at which the scan stops, or the
/// number of trivias if it never does.
pub open spec fn first_stop(trivias: Seq<TriviaModel>, from: int) -> int
    decreases trivias.len() - from,
{
    if 0 <= from < trivias.len() && !stops_at(trivias, from) {
        first_stop(trivias, from + 1)
    } else {
        from
    }
}

/// One more than the position of the last comment among the first `until`
/// trivias, or 0 if there is none.
pub open spec fn comments_reach(trivias: Seq<TriviaModel>, until: int) -> int
    decreases until,
{
    if until <= 0 || until > trivias.len() {
        0
    } else if trivias[until - 1].0 == SyntaxKind::COMMENT {
        until
    } else {
        comments_reach(trivias, until - 1)
    }
}

/// The number of trivias, counted from the node outwards, that belong to a
/// node of the given kind: all up to the farthest comment that the scan
/// reaches before it stops.
pub open spec fn attached_trivias(kind: SyntaxKind, trivias: Seq<TriviaModel>) -> int {
    if takes_comments(kind) {
        comments_reach(trivias, first_stop(trivias, 0))
    } else {
        0
    }
}

/// The trivia models of a slice of pairs of kind and text.
pub open spec fn trivia_models(trivias: Seq<(SyntaxKind, &str)>) -> Seq<TriviaModel> {
    Seq::new(trivias.len(), |i: int| (trivias[i].0, trivias[i].1.spec_bytes()))
}

/// Whether the bytes of `text` begin with the given three bytes.
fn starts_with3(text: &[u8], a: u8, b: u8, c: u8) -> (r: bool)
    ensures
        r == has_prefix(text@, seq![a, b, c]),
{
    if text.len() >= 3 && text[0] == a && text[1] == b && text[2] == c {
        assert(text@.subrange(0, 3) =~= seq![a, b, c]);
        true
    } else {
        proof {
            if text@.len() >= 3 {
                let head = text@.subrange(0, 3);
                assert(head[0] == text@[0] && head[1] == text@[1] && head[2] == text@[2]);
            }
        }
        false
    }
}

/// Whether the bytes of `text` begin with the given four bytes.
fn starts_with4(text: &[u8], a: u8, b: u8, c: u8, d: u8) -> (r: bool)
    ensures
        r == has_prefix(text@, seq![a, b, c, d]),
{
    if text.len() >= 4 && text[0] == a && text[1] == b && text[2] == c && text[3] == d {
        assert(text@.subrange(0, 4) =~= seq![a, b, c, d]);
        true
    } else {
        proof {
            if text@.len() >= 4 {
                let head = text@.subrange(0, 4);
                assert(head[0] == text@[0] && head[1] == text@[1] && head[2] == text@[2] && head[3]
                    == text@[3]);
            }
        }
        false
    }
}

/// Whether the comment documents what follows it.
pub fn is_outer(text: &str) -> (r: bool)
    ensures
        r == outer_doc(text.spec_bytes()),
{
    let bytes = text.as_bytes();
    if starts_with4(bytes, 0x2f, 0x2f, 0x2f, 0x2f) || starts_with4(bytes, 0x2f, 0x2a, 0x2a, 0x2a) {
        return false;
    }
    starts_with3(bytes, 0x2f, 0x2f, 0x2f) || starts_with3(bytes, 0x2f, 0x2a, 0x2a)
}

/// Whether the comment documents what holds it.
pub fn is_inner(text: &str) -> (r: bool)
    ensures
        r == inner_doc(text.spec_bytes()),
{
    let bytes = text.as_bytes();
    starts_with3(bytes, 0x2f, 0x2f, 0x21) || starts_with3(bytes, 0x2f, 0x2a, 0x21)
}

/// Whether the text holds a blank line.
pub fn contains_blank_line(text: &str) -> (r: bool)
    ensures
        r == has_blank_line(text.spec_bytes()),
{
    let bytes = text.as_bytes();
    let mut i: usize = 1;
    while i < bytes.len()
        invariant
            bytes@ == text.spec_bytes(),
            1 <= i,
            forall|j: int| 0 <= j && j + 1 < i ==> !(#[trigger] bytes@[j] == 0x0a && bytes@[j + 1]
                == 0x0a),
        decreases bytes@.len() - i,
    {
        if bytes[i - 1] == 0x0a && bytes[i] == 0x0a {
            return true;
        }
        i += 1;
    }
    false
}

/// Counts the trivias that belong to a node of the given kind.
///
/// `trivias` are the trivia tokens that stand before the node, the nearest
/// first. For a binding, a module or a class the comments before the node
/// belong to it, as far as no inner doc comment and no blank line comes
/// between; a blank line is passed over where an outer doc comment stands
/// right beyond it. For every other kind nothing belongs to the node.
pub fn n_attached_trivias(kind: SyntaxKind, trivias: &[(SyntaxKind, &str)]) -> (res: usize)
    ensures
        res == attached_trivias(kind, trivia_models(trivias@)),
        res <= trivias@.len(),
{
    let ghost models = trivia_models(trivias@);
    match kind {
        SyntaxKind::LET_DECL | SyntaxKind::MODULE | SyntaxKind::CLASS => {
            let mut res: usize = 0;
            let mut i: usize = 0;
            while i < trivias.len()
                invariant
                    models == trivia_models(trivias@),
                    i <= trivias@.len(),
                    res <= i,
                    first_stop(models, 0) == first_stop(models, i as int),
                    res == comments_reach(models, i as int),
                ensures
                    i <= trivias@.len(),
                    i == first_stop(models, 0),
                    res == comments_reach(models, i as int),
                decreases trivias@.len() - i,
            {
                let (kind, text) = trivias[i];
                assert(models[i as int] == (kind, text.spec_bytes()));
                match kind {
                    SyntaxKind::WHITESPACE => {
                        if contains_blank_line(text) {
                            let mut bridged = false;
                            if i + 1 < trivias.len() {
                                let (next_kind, next_text) = trivias[i + 1];
                                assert(models[i + 1] == (next_kind, next_text.spec_bytes()));
                                match next_kind {
                                    SyntaxKind::COMMENT => {
                                        bridged = is_outer(next_text);
                                    },
                                    _ => {},
                                }
                            }
                            if !bridged {
                                break ;
                            }
                        }
                    },
                    SyntaxKind::COMMENT => {
                        if is_inner(text) {
                            break ;
                        }
                        res = i + 1;
                    },
                    _ => {},
                }
                i += 1;
            }
            assert(res <= i);
            res
        },
        _ => 0,
    }
}

/// The attached trivias reach no further than the scan does.
pub proof fn lemma_attached_bound(kind: SyntaxKind, trivias: Seq<TriviaModel>)
    ensures
        0 <= attached_trivias(kind, trivias) <= trivias.len(),
{
    lemma_first_stop_bound(trivias, 0);
    lemma_comments_reach_bound(trivias, first_stop(trivias, 0));
}

/// The scan stops inside the trivias or at their end.
pub proof fn lemma_first_stop_bound(trivias: Seq<TriviaModel>, from: int)
    requires
        0 <= from <= trivias.len(),
    ensures
        from <= first_stop(trivias, from) <= trivias.len(),
    decreases trivias.len() - from,
{
    if from < trivias.len() && !stops_at(trivias, from) {
        lemma_first_stop_bound(trivias, from + 1);
    }
}

/// The reach of the comments lies within the trivias scanned.
pub proof fn lemma_comments_reach_bound(trivias: Seq<TriviaModel>, until: int)
    ensures
        0 <= comments_reach(trivias, until),
        until >= 0 ==> comments_reach(trivias, until) <= until,
    decreases until,
{
    if until > 0 && until <= trivias.len() && trivias[until - 1].0 != SyntaxKind::COMMENT {
        lemma_comments_reach_bound(trivias, until - 1);
    }
}

/// Doc-comment attachment, first half: where the scan meets neither an inner
/// doc comment nor a blank line that no outer doc comment bridges, every
/// comment before the node belongs to it, and with it all trivia up to the
/// farthest comment.
pub proof fn lemma_unbroken_comments_attach(kind: SyntaxKind, trivias: Seq<TriviaModel>, at: int)
    requires
        takes_comments(kind),
        0 <= at < trivias.len(),
        trivias[at].0 == SyntaxKind::COMMENT,
        forall|i: int| 0 <= i < trivias.len() ==> !stops_at(trivias, i),
    ensures
        at < attached_trivias(kind, trivias),
{
    lemma_first_stop_skips(trivias, 0, trivias.len() as int);
    lemma_comments_reach_covers(trivias, trivias.len() as int, at);
}

/// Doc-comment attachment, second half: nothing at or beyond a blank line
/// that no outer doc comment bridges belongs to the node, and nothing at or
/// beyond an inner doc comment.
pub proof fn lemma_break_detaches(kind: SyntaxKind, trivias: Seq<TriviaModel>, at: int)
    requires
        0 <= at < trivias.len(),
        stops_at(trivias, at),
    ensures
        attached_trivias(kind, trivias) <= at,
{
    lemma_first_stop_before(trivias, 0, at);
    lemma_comments_reach_bound(trivias, first_stop(trivias, 0));
}

/// A scan over trivias none of which stops it reaches the end.
proof fn lemma_first_stop_skips(trivias: Seq<TriviaModel>, from: int, until: int)
    requires
        0 <= from <= until <= trivias.len(),
        forall|i: int| from <= i < until ==> !stops_at(trivias, i),
    ensures
        first_stop(trivias, from) == first_stop(trivias, until),
    decreases until - from,
{
    if from < until {
        lemma_first_stop_skips(trivias, from + 1, until);
    }
}

/// A scan stops at the latest where something stops it.
proof fn lemma_first_stop_before(trivias: Seq<TriviaModel>, from: int, at: int)
    requires
        0 <= from <= at < trivias.len(),
        stops_at(trivias, at),
    ensures
        first_stop(trivias, from) <= at,
    decreases at - from,
{
    if from < at && !stops_at(trivias, from) {
        lemma_first_stop_before(trivias, from + 1, at);
    }
}

/// The reach of the comments covers every comment scanned.
proof fn lemma_comments_reach_covers(trivias: Seq<TriviaModel>, until: int, at: int)
    requires
        0 <= at < until <= trivias.len(),
        trivias[at].0 == SyntaxKind::COMMENT,
    ensures
        at < comments_reach(trivias, until),
    decreases until,
{
    if trivias[until - 1].0 != SyntaxKind::COMMENT {
        lemma_comments_reach_covers(trivias, until - 1, at);
    }
}

} // verus!
