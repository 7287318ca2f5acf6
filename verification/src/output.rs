//! The steps of a tree, and what it means for them to be well nested.

use vstd::prelude::*;

use crate::syntax_kind::SyntaxKind;

verus! {

/// One step of the linear description of a tree: open a node, close the
/// innermost open node, attach a token that spans some input tokens, or report
/// a diagnostic.
#[derive(Debug, Clone, PartialEq, Eq)]
pub enum Step {
    Enter { kind: SyntaxKind },
    Exit,
    Token { kind: SyntaxKind, n_input_tokens: u8 },
    Error { msg: String },
}

/// The mathematical value of a [`Step`].
pub enum StepModel {
    Enter { kind: SyntaxKind },
    Exit,
    Token { kind: SyntaxKind, n_input_tokens: u8 },
    Error { msg: Seq<char> },
}

impl View for Step {
    type V = StepModel;

    open spec fn view(&self) -> StepModel {
        match *self {
            Step::Enter { kind } => StepModel::Enter { kind },
            Step::Exit => StepModel::Exit,
            Step::Token { kind, n_input_tokens } => StepModel::Token { kind, n_input_tokens },
            Step::Error { msg } => StepModel::Error { msg: msg@ },
        }
    }
}

/// The change of nesting depth that a step causes.
pub open spec fn delta(step: StepModel) -> int {
    match step {
        StepModel::Enter { .. } => 1,
        StepModel::Exit => -1,
        _ => 0,
    }
}

/// The nesting depth after the first `n` steps.
pub open spec fn depth_after(steps: Seq<StepModel>, n: int) -> int
    decreases n,
{
    if n <= 0 || n > steps.len() {
        0
    } else {
        depth_after(steps, n - 1) + delta(steps[n - 1])
    }
}

/// Started at `depth`, the steps never act at depth 0 and end at depth 0.
pub open spec fn closes(steps: Seq<StepModel>, depth: int) -> bool
    decreases steps.len(),
{
    if steps.len() == 0 {
        depth == 0
    } else {
        depth >= 1 && closes(steps.drop_first(), depth + delta(steps[0]))
    }
}

/// The steps describe exactly one tree: the first step opens the root, every
/// later step happens inside it, and the last step closes it.
pub open spec fn well_nested(steps: Seq<StepModel>) -> bool {
    &&& steps.len() > 0
    &&& steps[0] is Enter
    &&& closes(steps.drop_first(), 1)
}

/// The depth that a walk reaches which starts at `depth` and changes it by
/// each of `deltas` in turn, or `None` if one of the changes would be made
/// at depth 0.
pub open spec fn walk(deltas: Seq<int>, depth: int) -> Option<int>
    decreases deltas.len(),
{
    if deltas.len() == 0 {
        Some(depth)
    } else if depth < 1 {
        None
    } else {
        walk(deltas.drop_first(), depth + deltas[0])
    }
}

/// A walk over two runs in a row is the walk over the second, started where
/// the first one ends.
pub proof fn lemma_walk_concat(a: Seq<int>, b: Seq<int>, depth: int)
    ensures
        walk(a + b, depth) == match walk(a, depth) {
            Some(mid) => walk(b, mid),
            None => None,
        },
    decreases a.len(),
{
    if a.len() == 0 {
        assert(a + b =~= b);
    } else {
        assert((a + b).drop_first() =~= a.drop_first() + b);
        assert((a + b)[0] == a[0]);
        if depth >= 1 {
            lemma_walk_concat(a.drop_first(), b, depth + a[0]);
        }
    }
}

/// A walk of one change, made at depth 1 or more, changes the depth by it.
pub proof fn lemma_walk_one(delta: int, depth: int)
    requires
        depth >= 1,
    ensures
        walk(seq![delta], depth) == Some(depth + delta),
{
    let run = seq![delta];
    assert(run.drop_first() =~= Seq::<int>::empty());
    assert(walk(run.drop_first(), depth + delta) == Some(depth + delta));
}

/// A walk over changes that are all 0 keeps the depth.
pub proof fn lemma_walk_flat(deltas: Seq<int>, depth: int)
    requires
        depth >= 1,
        forall|i: int| 0 <= i < deltas.len() ==> #[trigger] deltas[i] == 0,
    ensures
        walk(deltas, depth) == Some(depth),
    decreases deltas.len(),
{
    if deltas.len() > 0 {
        assert(deltas[0] == 0);
        let rest = deltas.drop_first();
        assert forall|i: int| 0 <= i < rest.len() implies #[trigger] rest[i] == 0 by {
            assert(rest[i] == deltas[i + 1]);
        }
        lemma_walk_flat(rest, depth);
    }
}

/// The tokens and diagnostics among the steps, in order.
pub open spec fn leaves(steps: Seq<StepModel>) -> Seq<StepModel>
    decreases steps.len(),
{
    if steps.len() == 0 {
        Seq::empty()
    } else if steps[0] is Token || steps[0] is Error {
        seq![steps[0]] + leaves(steps.drop_first())
    } else {
        leaves(steps.drop_first())
    }
}

/// The leaves of a concatenation are the leaves of its parts, in order.
pub proof fn lemma_leaves_concat(a: Seq<StepModel>, b: Seq<StepModel>)
    ensures
        leaves(a + b) == leaves(a) + leaves(b),
    decreases a.len(),
{
    if a.len() == 0 {
        assert(a + b =~= b);
        assert(leaves(a) + leaves(b) =~= leaves(b));
    } else {
        lemma_leaves_concat(a.drop_first(), b);
        assert((a + b).drop_first() =~= a.drop_first() + b);
        assert((a + b)[0] == a[0]);
        if a[0] is Token || a[0] is Error {
            assert(leaves(a + b) =~= seq![a[0]] + (leaves(a.drop_first()) + leaves(b)));
            assert(leaves(a) + leaves(b) =~= seq![a[0]] + (leaves(a.drop_first()) + leaves(b)));
        }
    }
}

/// Opening nodes before steps that close from the raised depth closes from the lower one.
pub proof fn lemma_closes_after_enters(es: Seq<StepModel>, rest: Seq<StepModel>, depth: int)
    requires
        forall|k: int| 0 <= k < es.len() ==> (#[trigger] es[k]) is Enter,
        depth >= 1,
        closes(rest, depth + es.len()),
    ensures
        closes(es + rest, depth),
    decreases es.len(),
{
    if es.len() == 0 {
        assert(es + rest =~= rest);
    } else {
        assert(es[0] is Enter);
        lemma_closes_after_enters(es.drop_first(), rest, depth + 1);
        assert((es + rest).drop_first() =~= es.drop_first() + rest);
        assert((es + rest)[0] == es[0]);
    }
}

/// The number of input tokens that the steps attach.
pub open spec fn tokens_spanned(steps: Seq<StepModel>) -> int
    decreases steps.len(),
{
    if steps.len() == 0 {
        0
    } else {
        tokens_spanned(steps.drop_last()) + match steps.last() {
            StepModel::Token { n_input_tokens, .. } => n_input_tokens as int,
            _ => 0,
        }
    }
}

/// Every token step spans exactly one token of the input.
pub open spec fn unit_tokens(steps: Seq<StepModel>) -> bool {
    forall|i: int|
        0 <= i < steps.len() && (#[trigger] steps[i]) is Token ==> steps[i]->Token_n_input_tokens
            == 1
}

/// Steps in a row span the tokens of both parts.
pub proof fn lemma_spanned_concat(a: Seq<StepModel>, b: Seq<StepModel>)
    ensures
        tokens_spanned(a + b) == tokens_spanned(a) + tokens_spanned(b),
    decreases b.len(),
{
    if b.len() == 0 {
        assert(a + b =~= a);
    } else {
        lemma_spanned_concat(a, b.drop_last());
        assert((a + b).drop_last() =~= a + b.drop_last());
        assert((a + b).last() == b.last());
    }
}

/// The depth after `n` steps of a sequence that starts at `depth` and closes.
proof fn lemma_closes_depths(steps: Seq<StepModel>, depth: int, n: int)
    requires
        closes(steps, depth),
        0 <= n <= steps.len(),
    ensures
        n < steps.len() ==> depth + depth_after(steps, n) >= 1,
        n == steps.len() ==> depth + depth_after(steps, n) == 0,
    decreases steps.len(),
{
    if steps.len() > 0 {
        let rest = steps.drop_first();
        if n > 0 {
            lemma_closes_depths(rest, depth + delta(steps[0]), n - 1);
            lemma_depth_after_shift(steps, n);
        }
    }
}

/// The depth after `n` steps is the first step's change plus the depth after
/// `n - 1` steps of the rest.
proof fn lemma_depth_after_shift(steps: Seq<StepModel>, n: int)
    requires
        1 <= n <= steps.len(),
    ensures
        depth_after(steps, n) == delta(steps[0]) + depth_after(steps.drop_first(), n - 1),
    decreases n,
{
    let rest = steps.drop_first();
    assert(depth_after(steps, n) == depth_after(steps, n - 1) + delta(steps[n - 1]));
    if n > 1 {
        lemma_depth_after_shift(steps, n - 1);
        assert(rest[n - 2] == steps[n - 1]);
        assert(depth_after(rest, n - 1) == depth_after(rest, n - 2) + delta(rest[n - 2]));
    } else {
        assert(depth_after(steps, 0) == 0);
        assert(depth_after(rest, 0) == 0);
    }
}

/// Balanced nesting: in a well-nested sequence the depth is positive after
/// every proper, non-empty prefix and returns to 0 exactly at the end.
pub proof fn lemma_well_nested_depths(steps: Seq<StepModel>)
    requires
        well_nested(steps),
    ensures
        depth_after(steps, steps.len() as int) == 0,
        forall|n: int| 0 < n < steps.len() ==> depth_after(steps, n) > 0,
        forall|n: int| 0 <= n <= steps.len() ==> depth_after(steps, n) >= 0,
        steps.last() is Exit,
{
    let rest = steps.drop_first();
    assert forall|n: int| 0 < n <= steps.len() implies (n < steps.len() ==> depth_after(steps, n)
        > 0) && (n == steps.len() ==> depth_after(steps, n) == 0) by {
        lemma_closes_depths(rest, 1, n - 1);
        lemma_depth_after_shift(steps, n);
    }
    let len = steps.len() as int;
    assert(depth_after(steps, len) == 0);
    if len == 1 {
        assert(depth_after(steps, 1) == delta(steps[0]));
    } else {
        assert(depth_after(steps, len - 1) > 0);
    }
}

/// The step sequence that a parse yields.
pub struct Output {
    steps: Vec<Step>,
}

impl View for Output {
    type V = Seq<StepModel>;

    closed spec fn view(&self) -> Seq<StepModel> {
        Seq::new(self.steps@.len(), |i: int| self.steps@[i]@)
    }
}

impl Default for Output {
    fn default() -> (out: Output)
        ensures
            out@ == Seq::<StepModel>::empty(),
    {
        let out = Output { steps: Vec::new() };
        assert(out@ =~= Seq::<StepModel>::empty());
        out
    }
}

impl Output {
    /// The number of steps.
    pub fn len(&self) -> (n: usize)
        ensures
            n == self@.len(),
    {
        self.steps.len()
    }

    /// The step at position `i`.
    pub fn step(&self, i: usize) -> (step: &Step)
        requires
            i < self@.len(),
        ensures
            step@ == self@[i as int],
    {
        &self.steps[i]
    }

    /// Appends a step.
    fn push(&mut self, step: Step)
        ensures
            final(self)@ == old(self)@.push(step@),
    {
        self.steps.push(step);
        assert(self@ =~= old(self)@.push(step@));
    }

    /// Opens a node of the given kind.
    pub fn enter_node(&mut self, kind: SyntaxKind)
        ensures
            final(self)@ == old(self)@.push(StepModel::Enter { kind }),
    {
        self.push(Step::Enter { kind });
    }

    /// Closes the innermost open node.
    pub fn leave_node(&mut self)
        ensures
            final(self)@ == old(self)@.push(StepModel::Exit),
    {
        self.push(Step::Exit);
    }

    /// Attaches a token that spans `n_input_tokens` tokens of the input.
    pub fn token(&mut self, kind: SyntaxKind, n_input_tokens: u8)
        ensures
            final(self)@ == old(self)@.push(StepModel::Token { kind, n_input_tokens }),
    {
        self.push(Step::Token { kind, n_input_tokens });
    }

    /// Reports a diagnostic.
    pub fn error(&mut self, msg: String)
        ensures
            final(self)@ == old(self)@.push(StepModel::Error { msg: msg@ }),
    {
        self.push(Step::Error { msg });
    }
}

} // verus!
