//! From the token table to the parser's input, and from the steps of a parse
//! back to steps that carry trivia and text.

use vstd::prelude::*;
use vstd::string::StringSliceAdditionalSpecFns;

use crate::input::{Input, Token};
use crate::lexed_str::{LexedStr, Table};
use crate::output::{
    delta, depth_after, lemma_walk_concat, lemma_walk_flat, lemma_walk_one, tokens_spanned,
    unit_tokens, walk, well_nested, Output, Step, StepModel,
};
use crate::syntax_kind::SyntaxKind;
use crate::trivia::{attached_trivias, n_attached_trivias, trivia_models, TriviaModel};

verus! {

/// One step of the description of a tree that carries its text: like a
/// [`Step`], but trivia tokens are back in place, every token holds its exact
/// source text, and every diagnostic holds the byte offset it refers to.
#[derive(Debug, Clone, PartialEq, Eq)]
pub enum StrStep<'a> {
    Token { kind: SyntaxKind, text: &'a str },
    Enter { kind: SyntaxKind },
    Exit,
    Error { msg: &'a str, pos: usize },
}

/// The mathematical value of a [`StrStep`]; the text of a token is given by its bytes.
pub enum StrStepModel {
    Token { kind: SyntaxKind, text: Seq<u8> },
    Enter { kind: SyntaxKind },
    Exit,
    Error { msg: Seq<char>, pos: int },
}

impl<'a> View for StrStep<'a> {
    type V = StrStepModel;

    open spec fn view(&self) -> StrStepModel {
        match *self {
            StrStep::Token { kind, text } => StrStepModel::Token { kind, text: text.spec_bytes() },
            StrStep::Enter { kind } => StrStepModel::Enter { kind },
            StrStep::Exit => StrStepModel::Exit,
            StrStep::Error { msg, pos } => StrStepModel::Error { msg: msg@, pos: pos as int },
        }
    }
}

/// The values of a sequence of steps.
pub open spec fn str_steps_view(steps: Seq<StrStep<'_>>) -> Seq<StrStepModel> {
    Seq::new(steps.len(), |i: int| steps[i]@)
}

/// The column of entry `i` of a token table: the bytes between the start of
/// its line and the entry. The column is 0 after every newline token and
/// grows by the width of every other token.
pub open spec fn column(kinds: Seq<SyntaxKind>, starts: Seq<u32>, i: int) -> int
    decreases i,
{
    if i <= 0 || i >= kinds.len() || i >= starts.len() {
        0
    } else if kinds[i - 1] == SyntaxKind::NEWLINE {
        0
    } else {
        column(kinds, starts, i - 1) + (starts[i] - starts[i - 1])
    }
}

/// The significant tokens among the first `n` entries of a token table, each with its column.
pub open spec fn significant(kinds: Seq<SyntaxKind>, starts: Seq<u32>, n: int) -> Seq<Token>
    decreases n,
{
    if n <= 0 || n > kinds.len() {
        Seq::empty()
    } else if kinds[n - 1].trivia() {
        significant(kinds, starts, n - 1)
    } else {
        significant(kinds, starts, n - 1).push(
            Token { kind: kinds[n - 1], col: column(kinds, starts, n - 1) as u32 },
        )
    }
}

/// The state of the machine that puts trivia back: before the root is
/// opened, inside a node, or after an `Exit` that is held back until it is
/// known which trivia the closed node takes along.
#[derive(Clone, Copy, Debug, PartialEq, Eq, Structural)]
pub enum State {
    PendingEnter,
    Normal,
    PendingExit,
}

/// The mathematical value of a builder: the next token of the table, the
/// state, and the steps handed out so far.
pub struct BuilderModel {
    pub pos: int,
    pub state: State,
    pub out: Seq<StrStepModel>,
}

/// The number of consecutive trivia tokens of the table from `pos` on.
pub open spec fn trivia_run(lexed: Table, pos: int) -> int
    decreases lexed.len() - pos,
{
    if 0 <= pos < lexed.len() && lexed.kinds[pos].trivia() {
        1 + trivia_run(lexed, pos + 1)
    } else {
        0
    }
}

/// The tokens of the table from `from` on, `n` of them, each as a step of its own.
pub open spec fn raw_tokens(lexed: Table, from: int, n: int) -> Seq<StrStepModel> {
    Seq::new(
        n as nat,
        |i: int|
            StrStepModel::Token { kind: lexed.kinds[from + i], text: lexed.token_bytes(from + i) },
    )
}

/// The `run` trivia tokens from `pos` on as the attachment rule sees them:
/// nearest to the node first.
pub open spec fn trivia_window(lexed: Table, pos: int, run: int) -> Seq<TriviaModel> {
    Seq::new(
        run as nat,
        |i: int| (lexed.kinds[pos + run - 1 - i], lexed.token_bytes(pos + run - 1 - i)),
    )
}

/// The steps handed out once an `Exit` that was held back is released.
pub open spec fn released(b: BuilderModel) -> Seq<StrStepModel> {
    if b.state is PendingExit {
        b.out.push(StrStepModel::Exit)
    } else {
        b.out
    }
}

/// The builder at its start.
pub open spec fn initial() -> BuilderModel {
    BuilderModel { pos: 0, state: State::PendingEnter, out: Seq::empty() }
}

/// The builder after a token step: a held `Exit` is released, the trivia
/// before the token goes to the open node, then comes the token itself with
/// the text of the `n` table tokens it spans.
pub open spec fn after_token(
    lexed: Table,
    b: BuilderModel,
    kind: SyntaxKind,
    n: int,
) -> BuilderModel {
    let run = trivia_run(lexed, b.pos);
    let at = b.pos + run;
    BuilderModel {
        pos: at + n,
        state: State::Normal,
        out: (released(b) + raw_tokens(lexed, b.pos, run)).push(
            StrStepModel::Token { kind, text: lexed.range_bytes(at, at + n) },
        ),
    }
}

/// The builder after an `Enter` step. The root opens at once. Any other
/// node opens after the trivia before it, except for the trivia that the
/// attachment rule gives to the node: those go inside.
pub open spec fn after_enter(lexed: Table, b: BuilderModel, kind: SyntaxKind) -> BuilderModel {
    if b.state is PendingEnter {
        BuilderModel {
            pos: b.pos,
            state: State::Normal,
            out: b.out.push(StrStepModel::Enter { kind }),
        }
    } else {
        let run = trivia_run(lexed, b.pos);
        let attached = attached_trivias(kind, trivia_window(lexed, b.pos, run));
        let loose = run - attached;
        BuilderModel {
            pos: b.pos + run,
            state: State::Normal,
            out: (released(b) + raw_tokens(lexed, b.pos, loose)).push(
                StrStepModel::Enter { kind },
            ) + raw_tokens(lexed, b.pos + loose, attached),
        }
    }
}

/// The builder after an `Exit` step: an earlier held `Exit` is released, and this one is held back.
pub open spec fn after_exit(b: BuilderModel) -> BuilderModel {
    BuilderModel { pos: b.pos, state: State::PendingExit, out: released(b) }
}

/// The builder after a diagnostic: it is handed on at once, with the byte
/// offset of the next token of the table.
pub open spec fn after_error(lexed: Table, b: BuilderModel, msg: Seq<char>) -> BuilderModel {
    BuilderModel {
        pos: b.pos,
        state: b.state,
        out: b.out.push(StrStepModel::Error { msg, pos: lexed.starts[b.pos] as int }),
    }
}

/// Whether the builder can take the step: the root is opened first, and
/// the table still holds the tokens that a token step spans.
pub open spec fn step_fits(lexed: Table, b: BuilderModel, step: StepModel) -> bool {
    match step {
        StepModel::Token { n_input_tokens, .. } => !(b.state is PendingEnter) && n_input_tokens >= 1
            && b.pos + trivia_run(lexed, b.pos) + n_input_tokens <= lexed.len(),
        StepModel::Exit => !(b.state is PendingEnter),
        _ => true,
    }
}

/// The builder after the step.
pub open spec fn after_step(lexed: Table, b: BuilderModel, step: StepModel) -> BuilderModel {
    match step {
        StepModel::Token { kind, n_input_tokens } => after_token(
            lexed,
            b,
            kind,
            n_input_tokens as int,
        ),
        StepModel::Enter { kind } => after_enter(lexed, b, kind),
        StepModel::Exit => after_exit(b),
        StepModel::Error { msg } => after_error(lexed, b, msg),
    }
}

/// The builder after the first `n` steps.
pub open spec fn replay(lexed: Table, steps: Seq<StepModel>, n: int) -> BuilderModel
    decreases n,
{
    if n <= 0 || n > steps.len() {
        initial()
    } else {
        after_step(lexed, replay(lexed, steps, n - 1), steps[n - 1])
    }
}

/// Whether the builder can take the first `n` steps one after the other.
pub open spec fn replay_fits(lexed: Table, steps: Seq<StepModel>, n: int) -> bool
    decreases n,
{
    if n <= 0 || n > steps.len() {
        true
    } else {
        replay_fits(lexed, steps, n - 1) && step_fits(
            lexed,
            replay(lexed, steps, n - 1),
            steps[n - 1],
        )
    }
}

/// Whether the steps can be merged with the table: the builder can take them
/// all and ends with the `Exit` of the root held back.
pub open spec fn mergeable(lexed: Table, steps: Seq<StepModel>) -> bool {
    &&& replay_fits(lexed, steps, steps.len() as int)
    &&& replay(lexed, steps, steps.len() as int).state is PendingExit
}

/// All that the builder hands out: the steps so far, the trivia that is left
/// before the next significant token, and the `Exit` of the root.
pub open spec fn merged(lexed: Table, steps: Seq<StepModel>) -> Seq<StrStepModel> {
    let b = replay(lexed, steps, steps.len() as int);
    (b.out + raw_tokens(lexed, b.pos, trivia_run(lexed, b.pos))).push(StrStepModel::Exit)
}

/// The token of the table at which the builder ends.
pub open spec fn merged_end(lexed: Table, steps: Seq<StepModel>) -> int {
    let b = replay(lexed, steps, steps.len() as int);
    b.pos + trivia_run(lexed, b.pos)
}

/// A run of trivia ends inside the table.
pub proof fn lemma_trivia_run_bound(lexed: Table, pos: int)
    requires
        0 <= pos <= lexed.len(),
    ensures
        0 <= trivia_run(lexed, pos),
        pos + trivia_run(lexed, pos) <= lexed.len(),
        forall|i: int|
            pos <= i < pos + trivia_run(lexed, pos) ==> (#[trigger] lexed.kinds[i]).trivia(),
        pos + trivia_run(lexed, pos) < lexed.len() ==> !lexed.kinds[pos + trivia_run(
            lexed,
            pos,
        )].trivia(),
    decreases lexed.len() - pos,
{
    if pos < lexed.len() && lexed.kinds[pos].trivia() {
        lemma_trivia_run_bound(lexed, pos + 1);
    }
}

/// The builder stays inside the table.
pub proof fn lemma_replay_bound(lexed: Table, steps: Seq<StepModel>, n: int)
    requires
        lexed.wf(),
        replay_fits(lexed, steps, n),
        0 <= n <= steps.len(),
    ensures
        0 <= replay(lexed, steps, n).pos <= lexed.len(),
    decreases n,
{
    if n > 0 {
        lemma_replay_bound(lexed, steps, n - 1);
        lemma_trivia_run_bound(lexed, replay(lexed, steps, n - 1).pos);
    }
}

impl<'a> LexedStr<'a> {
    /// Builds the table that the parser reads: the significant tokens, each
    /// with the column at which it starts. Trivia is left out; a newline
    /// sets the column back to 0.
    pub fn to_input(&self) -> (res: Input)
        requires
            self.wf(),
        ensures
            res@ == significant(self.kinds(), self.starts(), self.spec_len()),
    {
        let mut res = Input::default();
        let mut col: u32 = 0;
        let n = self.len();
        let mut i: usize = 0;
        while i < n
            invariant
                self.wf(),
                n == self.spec_len(),
                i <= n,
                res@ == significant(self.kinds(), self.starts(), i as int),
                col == column(self.kinds(), self.starts(), i as int),
                col <= self.starts()[i as int],
            decreases n - i,
        {
            let kind = self.kind(i);

            if kind == SyntaxKind::NEWLINE {
                col = 0;
            } else {
                let text_len = self.text_len(i) as u32;

                if !kind.is_trivia() {
                    res.push(kind, col);
                }
                col += text_len;
            }
            i += 1;
        }
        res
    }

    /// Merges the steps of a parse with the table: puts the trivia back
    /// between the steps, gives every token its text and every diagnostic
    /// its byte offset. Returns the steps and whether they reach the end of
    /// the table.
    pub fn intersperse_trivia<'b>(&'b self, output: &'b Output) -> (res: (Vec<StrStep<'b>>, bool))
        requires
            self.wf(),
            mergeable(self@, output@),
        ensures
            str_steps_view(res.0@) == merged(self@, output@),
            res.1 == (merged_end(self@, output@) == self.spec_len()),
    {
        let mut builder = Builder {
            lexed: self,
            pos: 0,
            state: State::PendingEnter,
            sink: Vec::new(),
        };
        assert(builder.model() =~= initial()) by {
            assert(str_steps_view(builder.sink@) =~= Seq::<StrStepModel>::empty());
        }
        let n = output.len();
        let mut i: usize = 0;
        while i < n
            invariant
                self.wf(),
                builder.lexed == self,
                n == output@.len(),
                i <= n,
                mergeable(self@, output@),
                replay_fits(self@, output@, i as int),
                builder.inv(),
                builder.model() == replay(self@, output@, i as int),
            decreases n - i,
        {
            proof {
                lemma_fits_prefix(self@, output@, i as int + 1, n as int);
            }
            match output.step(i) {
                Step::Token { kind, n_input_tokens } => builder.token(*kind, *n_input_tokens),
                Step::Enter { kind } => builder.enter(*kind),
                Step::Exit => builder.exit(),
                Step::Error { msg } => {
                    let text_pos = builder.lexed.text_start(builder.pos);
                    builder.emit(StrStep::Error { msg: msg.as_str(), pos: text_pos });
                },
            }
            i += 1;
        }
        builder.eat_trivias();
        builder.emit(StrStep::Exit);
        let eof = builder.pos == builder.lexed.len();
        (builder.sink, eof)
    }
}

/// The change of nesting depth that a step causes.
pub open spec fn str_delta(step: StrStepModel) -> int {
    match step {
        StrStepModel::Enter { .. } => 1,
        StrStepModel::Exit => -1,
        _ => 0,
    }
}

/// The changes of nesting depth along the steps.
pub open spec fn str_deltas(out: Seq<StrStepModel>) -> Seq<int> {
    Seq::new(out.len(), |i: int| str_delta(out[i]))
}

/// The depth that the steps after the first reach from depth 1, or `None`
/// if one of them acts outside the root.
pub open spec fn str_level(out: Seq<StrStepModel>) -> Option<int> {
    walk(str_deltas(out.drop_first()), 1)
}

/// The steps describe exactly one tree: the first opens the root, every
/// other step happens inside the root, and the last closes it.
pub open spec fn str_well_nested(out: Seq<StrStepModel>) -> bool {
    &&& out.len() > 0
    &&& out[0] is Enter
    &&& str_level(out) == Some(0int)
}

/// The texts of the tokens among the steps, one after the other.
pub open spec fn texts(out: Seq<StrStepModel>) -> Seq<u8>
    decreases out.len(),
{
    if out.len() == 0 {
        Seq::empty()
    } else {
        texts(out.drop_last()) + match out.last() {
            StrStepModel::Token { text, .. } => text,
            _ => Seq::empty(),
        }
    }
}

/// Every diagnostic among the steps refers to an offset that fits 32 bits.
pub open spec fn offsets_fit(out: Seq<StrStepModel>) -> bool {
    forall|i: int|
        0 <= i < out.len() && (#[trigger] out[i]) is Error ==> 0 <= out[i]->Error_pos <= u32::MAX
}

/// The number of significant tokens among the first `n` tokens of the table.
pub open spec fn sig_count(lexed: Table, n: int) -> int
    decreases n,
{
    if n <= 0 || n > lexed.len() {
        0
    } else if lexed.kinds[n - 1].trivia() {
        sig_count(lexed, n - 1)
    } else {
        sig_count(lexed, n - 1) + 1
    }
}

/// The texts of steps in a row are their texts in a row.
pub proof fn lemma_texts_concat(a: Seq<StrStepModel>, b: Seq<StrStepModel>)
    ensures
        texts(a + b) == texts(a) + texts(b),
    decreases b.len(),
{
    if b.len() == 0 {
        assert(a + b =~= a);
        assert(texts(a) + texts(b) =~= texts(a));
    } else {
        lemma_texts_concat(a, b.drop_last());
        assert((a + b).drop_last() =~= a + b.drop_last());
        assert((a + b).last() == b.last());
        let tail = match b.last() {
            StrStepModel::Token { text, .. } => text,
            _ => Seq::empty(),
        };
        assert(texts(a + b) =~= (texts(a) + texts(b.drop_last())) + tail);
        assert(texts(a) + texts(b) =~= (texts(a) + texts(b.drop_last())) + tail);
    }
}

/// The texts of the steps with one more step.
pub proof fn lemma_texts_push(a: Seq<StrStepModel>, step: StrStepModel)
    ensures
        texts(a.push(step)) == texts(a) + match step {
            StrStepModel::Token { text, .. } => text,
            _ => Seq::empty(),
        },
{
    assert(a.push(step).drop_last() =~= a);
}

/// The texts of tokens of the table in a row are the bytes that they cover.
pub proof fn lemma_texts_raw(lexed: Table, from: int, n: int)
    requires
        lexed.wf(),
        0 <= from,
        0 <= n,
        from + n <= lexed.len(),
    ensures
        texts(raw_tokens(lexed, from, n)) == lexed.range_bytes(from, from + n),
    decreases n,
{
    let run = raw_tokens(lexed, from, n);
    if n == 0 {
        assert(lexed.range_bytes(from, from) =~= Seq::<u8>::empty());
    } else {
        lemma_texts_raw(lexed, from, n - 1);
        assert(run.drop_last() =~= raw_tokens(lexed, from, n - 1));
        assert(lexed.range_bytes(from, from + n) =~= lexed.range_bytes(from, from + n - 1)
            + lexed.token_bytes(from + n - 1));
    }
}

/// Trivia tokens in a row hold no significant token.
pub proof fn lemma_sig_count_trivia(lexed: Table, from: int, n: int)
    requires
        0 <= from,
        0 <= n,
        from + n <= lexed.len(),
        forall|i: int| from <= i < from + n ==> (#[trigger] lexed.kinds[i]).trivia(),
    ensures
        sig_count(lexed, from + n) == sig_count(lexed, from),
    decreases n,
{
    if n > 0 {
        lemma_sig_count_trivia(lexed, from, n - 1);
    }
}

/// The count of significant tokens grows with the part of the table counted.
pub proof fn lemma_sig_count_grows(lexed: Table, m: int, n: int)
    requires
        0 <= m <= n <= lexed.len(),
    ensures
        0 <= sig_count(lexed, m) <= sig_count(lexed, n),
    decreases n,
{
    if m < n {
        lemma_sig_count_grows(lexed, m, n - 1);
    } else if m > 0 {
        lemma_sig_count_grows(lexed, m - 1, n - 1);
    }
}

/// The significant tokens of a table are as many as are counted.
pub proof fn lemma_significant_len(lexed: Table, n: int)
    requires
        0 <= n <= lexed.len(),
    ensures
        significant(lexed.kinds, lexed.starts, n).len() == sig_count(lexed, n),
    decreases n,
{
    if n > 0 {
        lemma_significant_len(lexed, n - 1);
    }
}

/// The tokens that a prefix of the steps spans are at most those of all steps.
pub proof fn lemma_spanned_prefix(steps: Seq<StepModel>, n: int)
    requires
        0 <= n <= steps.len(),
    ensures
        0 <= tokens_spanned(steps.take(n)) <= tokens_spanned(steps),
    decreases steps.len() - n,
{
    if n < steps.len() {
        lemma_spanned_prefix(steps, n + 1);
        assert(steps.take(n + 1).drop_last() =~= steps.take(n));
        lemma_spanned_nonnegative(steps.take(n));
    } else {
        assert(steps.take(n) =~= steps);
        lemma_spanned_nonnegative(steps);
    }
}

/// Steps span no negative number of tokens.
pub proof fn lemma_spanned_nonnegative(steps: Seq<StepModel>)
    ensures
        0 <= tokens_spanned(steps),
    decreases steps.len(),
{
    if steps.len() > 0 {
        lemma_spanned_nonnegative(steps.drop_last());
    }
}

/// The texts handed out are exactly the source text up to the token at
/// which the builder stands.
pub open spec fn lossless_at(lexed: Table, b: BuilderModel) -> bool {
    &&& 0 <= b.pos <= lexed.len()
    &&& texts(b.out) == lexed.bytes.subrange(0, lexed.starts[b.pos] as int)
}

/// Releasing a held `Exit` hands out no text.
proof fn lemma_released_texts(b: BuilderModel)
    ensures
        texts(released(b)) == texts(b.out),
{
    lemma_texts_push(b.out, StrStepModel::Exit);
    assert(texts(b.out) + Seq::<u8>::empty() =~= texts(b.out));
}

/// The bytes up to a token and the bytes of the tokens that follow are the
/// bytes up to where those tokens end.
proof fn lemma_bytes_extend(lexed: Table, sofar: Seq<u8>, from: int, to: int)
    requires
        lexed.wf(),
        0 <= from <= to <= lexed.len(),
        sofar == lexed.bytes.subrange(0, lexed.starts[from] as int),
    ensures
        sofar + lexed.range_bytes(from, to) == lexed.bytes.subrange(0, lexed.starts[to] as int),
{
    assert(sofar + lexed.range_bytes(from, to) =~= lexed.bytes.subrange(
        0,
        lexed.starts[to] as int,
    ));
}

/// A token step keeps the texts in step with the table.
proof fn lemma_token_lossless(lexed: Table, b: BuilderModel, kind: SyntaxKind, n: int)
    requires
        lexed.wf(),
        lossless_at(lexed, b),
        n >= 1,
        b.pos + trivia_run(lexed, b.pos) + n <= lexed.len(),
    ensures
        lossless_at(lexed, after_token(lexed, b, kind, n)),
{
    let run = trivia_run(lexed, b.pos);
    lemma_trivia_run_bound(lexed, b.pos);
    let at = b.pos + run;
    let step = StrStepModel::Token { kind, text: lexed.range_bytes(at, at + n) };
    let head = released(b) + raw_tokens(lexed, b.pos, run);
    lemma_released_texts(b);
    lemma_texts_raw(lexed, b.pos, run);
    lemma_texts_concat(released(b), raw_tokens(lexed, b.pos, run));
    lemma_texts_push(head, step);
    lemma_bytes_extend(lexed, texts(b.out), b.pos, at);
    lemma_bytes_extend(lexed, texts(head), at, at + n);
}

/// An `Enter` step keeps the texts in step with the table.
proof fn lemma_enter_lossless(lexed: Table, b: BuilderModel, kind: SyntaxKind)
    requires
        lexed.wf(),
        lossless_at(lexed, b),
    ensures
        lossless_at(lexed, after_enter(lexed, b, kind)),
{
    if b.state is PendingEnter {
        lemma_texts_push(b.out, StrStepModel::Enter { kind });
        assert(texts(b.out) + Seq::<u8>::empty() =~= texts(b.out));
    } else {
        let run = trivia_run(lexed, b.pos);
        lemma_trivia_run_bound(lexed, b.pos);
        let window = trivia_window(lexed, b.pos, run);
        crate::trivia::lemma_attached_bound(kind, window);
        let attached = attached_trivias(kind, window);
        let loose = run - attached;
        let head = released(b) + raw_tokens(lexed, b.pos, loose);
        let opened = head.push(StrStepModel::Enter { kind });
        lemma_released_texts(b);
        lemma_texts_raw(lexed, b.pos, loose);
        lemma_texts_raw(lexed, b.pos + loose, attached);
        lemma_texts_concat(released(b), raw_tokens(lexed, b.pos, loose));
        lemma_texts_push(head, StrStepModel::Enter { kind });
        assert(texts(head) + Seq::<u8>::empty() =~= texts(head));
        lemma_texts_concat(opened, raw_tokens(lexed, b.pos + loose, attached));
        lemma_bytes_extend(lexed, texts(b.out), b.pos, b.pos + loose);
        lemma_bytes_extend(lexed, texts(head), b.pos + loose, b.pos + run);
    }
}

/// Losslessness, step by step: after any number of steps, the texts handed
/// out are exactly the source text up to the token at which the builder stands.
pub proof fn lemma_replay_lossless(lexed: Table, steps: Seq<StepModel>, n: int)
    requires
        lexed.wf(),
        0 <= n <= steps.len(),
        replay_fits(lexed, steps, n),
    ensures
        lossless_at(lexed, replay(lexed, steps, n)),
    decreases n,
{
    if n == 0 {
        assert(lexed.bytes.subrange(0, 0) =~= Seq::<u8>::empty());
    } else {
        lemma_replay_lossless(lexed, steps, n - 1);
        let b = replay(lexed, steps, n - 1);
        match steps[n - 1] {
            StepModel::Token { kind, n_input_tokens } => {
                lemma_token_lossless(lexed, b, kind, n_input_tokens as int);
            },
            StepModel::Enter { kind } => {
                lemma_enter_lossless(lexed, b, kind);
            },
            StepModel::Exit => {
                lemma_released_texts(b);
            },
            StepModel::Error { msg } => {
                lemma_texts_push(
                    b.out,
                    StrStepModel::Error { msg, pos: lexed.starts[b.pos] as int },
                );
                assert(texts(b.out) + Seq::<u8>::empty() =~= texts(b.out));
            },
        }
    }
}

/// Steps in a row hold fitting offsets if both parts do.
proof fn lemma_offsets_concat(a: Seq<StrStepModel>, b: Seq<StrStepModel>)
    requires
        offsets_fit(a),
        offsets_fit(b),
    ensures
        offsets_fit(a + b),
{
    assert forall|i: int| 0 <= i < (a + b).len() && (#[trigger] (a + b)[i]) is Error implies 0 <= (a
        + b)[i]->Error_pos <= u32::MAX by {
        if i < a.len() {
            assert((a + b)[i] == a[i]);
        } else {
            assert((a + b)[i] == b[i - a.len()]);
        }
    }
}

/// The steps that one step of a parse adds hold fitting offsets.
proof fn lemma_step_offsets(lexed: Table, b: BuilderModel, step: StepModel)
    requires
        offsets_fit(b.out),
    ensures
        offsets_fit(after_step(lexed, b, step).out),
{
    let exit = seq![StrStepModel::Exit];
    let held = if b.state is PendingExit {
        exit
    } else {
        Seq::empty()
    };
    assert(released(b) =~= b.out + held);
    lemma_offsets_concat(b.out, held);
    let run = trivia_run(lexed, b.pos);
    match step {
        StepModel::Token { kind, n_input_tokens } => {
            let at = b.pos + run;
            let last = seq![
                StrStepModel::Token { kind, text: lexed.range_bytes(at, at + n_input_tokens) },
            ];
            lemma_offsets_concat(released(b), raw_tokens(lexed, b.pos, run));
            lemma_offsets_concat(released(b) + raw_tokens(lexed, b.pos, run), last);
            assert(after_step(lexed, b, step).out =~= released(b) + raw_tokens(lexed, b.pos, run)
                + last);
        },
        StepModel::Enter { kind } => {
            let open = seq![StrStepModel::Enter { kind }];
            if b.state is PendingEnter {
                lemma_offsets_concat(b.out, open);
                assert(after_step(lexed, b, step).out =~= b.out + open);
            } else {
                let attached = attached_trivias(kind, trivia_window(lexed, b.pos, run));
                let loose = run - attached;
                let head = released(b) + raw_tokens(lexed, b.pos, loose);
                lemma_offsets_concat(released(b), raw_tokens(lexed, b.pos, loose));
                lemma_offsets_concat(head, open);
                lemma_offsets_concat(head + open, raw_tokens(lexed, b.pos + loose, attached));
                assert(after_step(lexed, b, step).out =~= head + open + raw_tokens(
                    lexed,
                    b.pos + loose,
                    attached,
                ));
            }
        },
        StepModel::Exit => {},
        StepModel::Error { msg } => {
            let report = seq![StrStepModel::Error { msg, pos: lexed.starts[b.pos] as int }];
            lemma_offsets_concat(b.out, report);
            assert(after_step(lexed, b, step).out =~= b.out + report);
        },
    }
}

/// Every diagnostic that the builder hands out refers to an offset that fits 32 bits.
pub proof fn lemma_replay_offsets(lexed: Table, steps: Seq<StepModel>, n: int)
    requires
        0 <= n <= steps.len(),
    ensures
        offsets_fit(replay(lexed, steps, n).out),
    decreases n,
{
    if n > 0 {
        lemma_replay_offsets(lexed, steps, n - 1);
        lemma_step_offsets(lexed, replay(lexed, steps, n - 1), steps[n - 1]);
    }
}

/// Losslessness: the texts of all steps handed out are the source text up to
/// the token at which the builder ends; where it ends at the end of the table,
/// they are the whole source text, byte for byte.
pub proof fn lemma_merged_lossless(lexed: Table, steps: Seq<StepModel>)
    requires
        lexed.wf(),
        mergeable(lexed, steps),
    ensures
        0 <= merged_end(lexed, steps) <= lexed.len(),
        texts(merged(lexed, steps)) == lexed.bytes.subrange(
            0,
            lexed.starts[merged_end(lexed, steps)] as int,
        ),
        merged_end(lexed, steps) == lexed.len() ==> texts(merged(lexed, steps))
            == lexed.bytes,
        offsets_fit(merged(lexed, steps)),
{
    let n = steps.len() as int;
    lemma_replay_lossless(lexed, steps, n);
    lemma_replay_offsets(lexed, steps, n);
    let b = replay(lexed, steps, n);
    let run = trivia_run(lexed, b.pos);
    lemma_trivia_run_bound(lexed, b.pos);
    let tail = raw_tokens(lexed, b.pos, run);
    lemma_texts_raw(lexed, b.pos, run);
    lemma_texts_concat(b.out, tail);
    lemma_texts_push(b.out + tail, StrStepModel::Exit);
    lemma_bytes_extend(lexed, texts(b.out), b.pos, b.pos + run);
    assert(texts(merged(lexed, steps)) =~= texts(b.out + tail));
    lemma_offsets_concat(b.out, tail);
    lemma_offsets_concat(b.out + tail, seq![StrStepModel::Exit]);
    assert(merged(lexed, steps) =~= b.out + tail + seq![StrStepModel::Exit]);
    if merged_end(lexed, steps) == lexed.len() {
        assert(lexed.bytes.subrange(0, lexed.bytes.len() as int) =~= lexed.bytes);
    }
}

/// The level of steps with one more step, which is made inside the root.
pub proof fn lemma_level_push(out: Seq<StrStepModel>, step: StrStepModel, mid: int)
    requires
        out.len() >= 1,
        str_level(out) == Some(mid),
        mid >= 1,
    ensures
        str_level(out.push(step)) == Some(mid + str_delta(step)),
{
    let before = str_deltas(out.drop_first());
    lemma_walk_one(str_delta(step), mid);
    lemma_walk_concat(before, seq![str_delta(step)], 1);
    assert(str_deltas(out.push(step).drop_first()) =~= before + seq![str_delta(step)]);
}

/// The level of steps followed by tokens, which are added inside the root.
proof fn lemma_level_tokens(out: Seq<StrStepModel>, lexed: Table, from: int, n: int, mid: int)
    requires
        out.len() >= 1,
        str_level(out) == Some(mid),
        mid >= 1,
        0 <= n,
    ensures
        str_level(out + raw_tokens(lexed, from, n)) == Some(mid),
{
    let before = str_deltas(out.drop_first());
    let flat = str_deltas(raw_tokens(lexed, from, n));
    lemma_walk_flat(flat, mid);
    lemma_walk_concat(before, flat, 1);
    assert(str_deltas((out + raw_tokens(lexed, from, n)).drop_first()) =~= before + flat);
}

/// Inside a well-nested sequence, every proper prefix that holds the root is
/// at depth 1 or deeper.
pub proof fn lemma_prefix_level(out: Seq<StrStepModel>, n: int)
    requires
        str_well_nested(out),
        1 <= n <= out.len(),
    ensures
        str_level(out.take(n)) is Some,
        n < out.len() ==> str_level(out.take(n))->0 >= 1,
        n == out.len() ==> str_level(out.take(n)) == Some(0int),
{
    let a = str_deltas(out.take(n).drop_first());
    let b = str_deltas(out.skip(n));
    assert(str_deltas(out.drop_first()) =~= a + b);
    lemma_walk_concat(a, b, 1);
    if n == out.len() {
        assert(out.take(n) =~= out);
    }
}

/// The texts of a prefix of the steps are no longer than the texts of all steps.
pub proof fn lemma_texts_prefix(out: Seq<StrStepModel>, n: int)
    requires
        0 <= n <= out.len(),
    ensures
        texts(out.take(n)).len() <= texts(out).len(),
{
    lemma_texts_concat(out.take(n), out.skip(n));
    assert(out.take(n) + out.skip(n) =~= out);
}

/// The `Exit` that the builder holds back, counted as a level.
pub open spec fn held(b: BuilderModel) -> int {
    if b.state is PendingExit {
        1
    } else {
        0
    }
}

/// Nesting, step by step: the steps handed out for a prefix of a well-nested
/// sequence open the root first and stay inside it, at the depth of the
/// prefix, one deeper while an `Exit` is held back.
pub proof fn lemma_replay_nested(lexed: Table, steps: Seq<StepModel>, n: int)
    requires
        lexed.wf(),
        well_nested(steps),
        1 <= n <= steps.len(),
        replay_fits(lexed, steps, n),
    ensures
        replay(lexed, steps, n).out.len() >= 1,
        replay(lexed, steps, n).out[0] is Enter,
        !(replay(lexed, steps, n).state is PendingEnter),
        str_level(replay(lexed, steps, n).out) == Some(
            depth_after(steps, n) + held(replay(lexed, steps, n)),
        ),
    decreases n,
{
    let now = replay(lexed, steps, n);
    crate::output::lemma_well_nested_depths(steps);
    if n == 1 {
        assert(replay(lexed, steps, 0) == initial());
        assert(now.out =~= seq![StrStepModel::Enter { kind: steps[0]->Enter_kind }]);
        assert(now.out.drop_first() =~= Seq::<StrStepModel>::empty());
        assert(str_deltas(now.out.drop_first()) =~= Seq::<int>::empty());
        assert(depth_after(steps, 1) == depth_after(steps, 0) + delta(steps[0]));
    } else {
        lemma_replay_nested(lexed, steps, n - 1);
        lemma_replay_bound(lexed, steps, n - 1);
        let b = replay(lexed, steps, n - 1);
        let depth = depth_after(steps, n - 1);
        assert(depth >= 1);
        assert(depth_after(steps, n) == depth + delta(steps[n - 1]));
        let run = trivia_run(lexed, b.pos);
        lemma_trivia_run_bound(lexed, b.pos);
        if b.state is PendingExit {
            lemma_level_push(b.out, StrStepModel::Exit, depth + 1);
        }
        let open = released(b);
        assert(str_level(open) == Some(depth));
        match steps[n - 1] {
            StepModel::Token { kind, n_input_tokens } => {
                let at = b.pos + run;
                lemma_level_tokens(open, lexed, b.pos, run, depth);
                lemma_level_push(
                    open + raw_tokens(lexed, b.pos, run),
                    StrStepModel::Token { kind, text: lexed.range_bytes(at, at + n_input_tokens) },
                    depth,
                );
            },
            StepModel::Enter { kind } => {
                let window = trivia_window(lexed, b.pos, run);
                crate::trivia::lemma_attached_bound(kind, window);
                let attached = attached_trivias(kind, window);
                let loose = run - attached;
                lemma_level_tokens(open, lexed, b.pos, loose, depth);
                let head = open + raw_tokens(lexed, b.pos, loose);
                lemma_level_push(head, StrStepModel::Enter { kind }, depth);
                lemma_level_tokens(
                    head.push(StrStepModel::Enter { kind }),
                    lexed,
                    b.pos + loose,
                    attached,
                    depth + 1,
                );
            },
            StepModel::Exit => {},
            StepModel::Error { msg } => {
                lemma_level_push(
                    b.out,
                    StrStepModel::Error { msg, pos: lexed.starts[b.pos] as int },
                    depth + held(b),
                );
            },
        }
    }
}

/// Balanced nesting survives the merge: the steps handed out for a
/// well-nested sequence describe exactly one tree, with all trivia inside it.
pub proof fn lemma_merged_nested(lexed: Table, steps: Seq<StepModel>)
    requires
        lexed.wf(),
        well_nested(steps),
        mergeable(lexed, steps),
    ensures
        str_well_nested(merged(lexed, steps)),
{
    let n = steps.len() as int;
    lemma_replay_nested(lexed, steps, n);
    lemma_replay_bound(lexed, steps, n);
    crate::output::lemma_well_nested_depths(steps);
    let b = replay(lexed, steps, n);
    let run = trivia_run(lexed, b.pos);
    lemma_trivia_run_bound(lexed, b.pos);
    lemma_level_tokens(b.out, lexed, b.pos, run, 1);
    lemma_level_push(b.out + raw_tokens(lexed, b.pos, run), StrStepModel::Exit, 1);
}

/// Token accounting, step by step: the builder has passed as many
/// significant tokens of the table as the steps so far span.
proof fn lemma_replay_counts(lexed: Table, steps: Seq<StepModel>, n: int)
    requires
        lexed.wf(),
        well_nested(steps),
        unit_tokens(steps),
        tokens_spanned(steps) <= sig_count(lexed, lexed.len()),
        0 <= n <= steps.len(),
    ensures
        replay_fits(lexed, steps, n),
        0 <= replay(lexed, steps, n).pos <= lexed.len(),
        n >= 1 ==> !(replay(lexed, steps, n).state is PendingEnter),
        n >= 1 && steps[n - 1] is Exit ==> replay(lexed, steps, n).state is PendingExit,
        sig_count(lexed, replay(lexed, steps, n).pos) == tokens_spanned(steps.take(n)),
    decreases n,
{
    if n == 0 {
        assert(steps.take(0) =~= Seq::<StepModel>::empty());
    } else {
        lemma_replay_counts(lexed, steps, n - 1);
        let b = replay(lexed, steps, n - 1);
        let run = trivia_run(lexed, b.pos);
        lemma_trivia_run_bound(lexed, b.pos);
        lemma_sig_count_trivia(lexed, b.pos, run);
        assert(steps.take(n).drop_last() =~= steps.take(n - 1));
        assert(steps.take(n).last() == steps[n - 1]);
        lemma_spanned_prefix(steps, n);
        if n == 1 {
            assert(steps[0] is Enter);
        }
        match steps[n - 1] {
            StepModel::Token { kind, n_input_tokens } => {
                let at = b.pos + run;
                assert(n_input_tokens == 1);
                if at == lexed.len() {
                    assert(false);
                } else {
                    assert(!lexed.kinds[at].trivia());
                    assert(sig_count(lexed, at + 1) == sig_count(lexed, at) + 1);
                }
            },
            _ => {},
        }
    }
}

/// Whatever a parse yields can be merged: a well-nested sequence of steps
/// whose tokens each span one token of the input, and together not more
/// than the table holds, fits the table. The merge reaches the end of the
/// table exactly if the steps span all its significant tokens.
pub proof fn lemma_mergeable(lexed: Table, steps: Seq<StepModel>)
    requires
        lexed.wf(),
        well_nested(steps),
        unit_tokens(steps),
        tokens_spanned(steps) <= sig_count(lexed, lexed.len()),
    ensures
        mergeable(lexed, steps),
        (merged_end(lexed, steps) == lexed.len()) == (tokens_spanned(steps) == sig_count(
            lexed,
            lexed.len(),
        )),
{
    let n = steps.len() as int;
    lemma_replay_counts(lexed, steps, n);
    crate::output::lemma_well_nested_depths(steps);
    assert(steps.take(n) =~= steps);
    let b = replay(lexed, steps, n);
    let run = trivia_run(lexed, b.pos);
    lemma_trivia_run_bound(lexed, b.pos);
    lemma_sig_count_trivia(lexed, b.pos, run);
    let at = b.pos + run;
    if at < lexed.len() {
        lemma_sig_count_grows(lexed, at + 1, lexed.len());
    }
}

/// If the builder can take `n` steps, it can take fewer.
pub proof fn lemma_fits_prefix(lexed: Table, steps: Seq<StepModel>, m: int, n: int)
    requires
        0 <= m <= n <= steps.len(),
        replay_fits(lexed, steps, n),
    ensures
        replay_fits(lexed, steps, m),
    decreases n - m,
{
    if m < n {
        lemma_fits_prefix(lexed, steps, m, n - 1);
    }
}

/// The machine that merges the steps of a parse with the token table.
struct Builder<'b> {
    lexed: &'b LexedStr<'b>,
    pos: usize,
    state: State,
    sink: Vec<StrStep<'b>>,
}

impl<'b> Builder<'b> {
    spec fn model(&self) -> BuilderModel {
        BuilderModel { pos: self.pos as int, state: self.state, out: str_steps_view(self.sink@) }
    }

    spec fn inv(&self) -> bool {
        self.lexed.wf() && self.pos <= self.lexed@.len()
    }

    /// Hands a step out.
    fn emit(&mut self, step: StrStep<'b>)
        ensures
            final(self).lexed == old(self).lexed,
            final(self).pos == old(self).pos,
            final(self).state == old(self).state,
            final(self).model().out == old(self).model().out.push(step@),
    {
        self.sink.push(step);
        assert(str_steps_view(self.sink@) =~= str_steps_view(old(self).sink@).push(step@));
    }

    /// Releases an `Exit` that was held back.
    fn release(&mut self)
        ensures
            final(self).lexed == old(self).lexed,
            final(self).pos == old(self).pos,
            final(self).state == old(self).state,
            final(self).model().out == released(old(self).model()),
    {
        match self.state {
            State::PendingExit => self.emit(StrStep::Exit),
            _ => {},
        }
    }

    fn token(&mut self, kind: SyntaxKind, n_tokens: u8)
        requires
            old(self).inv(),
            step_fits(
                old(self).lexed@,
                old(self).model(),
                StepModel::Token { kind, n_input_tokens: n_tokens },
            ),
        ensures
            final(self).inv(),
            final(self).lexed == old(self).lexed,
            final(self).model() == after_token(
                old(self).lexed@,
                old(self).model(),
                kind,
                n_tokens as int,
            ),
    {
        self.release();
        self.state = State::Normal;
        self.eat_trivias();
        self.do_token(kind, n_tokens as usize);
    }

    fn enter(&mut self, kind: SyntaxKind)
        requires
            old(self).inv(),
        ensures
            final(self).inv(),
            final(self).lexed == old(self).lexed,
            final(self).model() == after_enter(old(self).lexed@, old(self).model(), kind),
    {
        match self.state {
            State::PendingEnter => {
                self.state = State::Normal;
                self.emit(StrStep::Enter { kind });
                // No need to attach trivias to previous node: there is no
                // previous node.
                return ;
            },
            _ => {},
        }
        self.release();
        self.state = State::Normal;

        let n_trivias = self.count_trivias();
        let leading_trivias = self.leading_trivias(n_trivias);
        let n_attached_trivias = n_attached_trivias(kind, leading_trivias.as_slice());
        self.eat_n_trivias(n_trivias - n_attached_trivias);
        self.emit(StrStep::Enter { kind });
        self.eat_n_trivias(n_attached_trivias);
    }

    fn exit(&mut self)
        requires
            old(self).inv(),
            !(old(self).state is PendingEnter),
        ensures
            final(self).inv(),
            final(self).lexed == old(self).lexed,
            final(self).model() == after_exit(old(self).model()),
    {
        self.release();
        self.state = State::PendingExit;
    }

    /// The number of trivia tokens that stand at the cursor.
    fn count_trivias(&self) -> (n: usize)
        requires
            self.inv(),
        ensures
            n == trivia_run(self.lexed@, self.pos as int),
            self.pos + n <= self.lexed@.len(),
    {
        let len = self.lexed.len();
        let mut n: usize = 0;
        proof {
            lemma_trivia_run_bound(self.lexed@, self.pos as int);
        }
        while self.pos + n < len && self.lexed.kind(self.pos + n).is_trivia()
            invariant
                self.inv(),
                len == self.lexed@.len(),
                self.pos + n <= len,
                trivia_run(self.lexed@, self.pos as int) == n + trivia_run(
                    self.lexed@,
                    self.pos + n,
                ),
            decreases len - self.pos - n,
        {
            n += 1;
        }
        n
    }

    /// The `n` trivia tokens at the cursor, the last one first.
    fn leading_trivias(&self, n: usize) -> (trivias: Vec<(SyntaxKind, &'b str)>)
        requires
            self.inv(),
            self.pos + n <= self.lexed@.len(),
        ensures
            trivia_models(trivias@) == trivia_window(self.lexed@, self.pos as int, n as int),
    {
        let mut trivias: Vec<(SyntaxKind, &'b str)> = Vec::new();
        let mut i: usize = 0;
        while i < n
            invariant
                self.inv(),
                self.pos + n <= self.lexed@.len(),
                i <= n,
                trivias@.len() == i,
                forall|k: int|
                    0 <= k < i ==> (#[trigger] trivias@[k]).0 == self.lexed@.kinds[self.pos + n - 1
                        - k] && trivias@[k].1.spec_bytes() == self.lexed@.token_bytes(
                        self.pos + n - 1 - k,
                    ),
            decreases n - i,
        {
            proof {
                self.lexed.lemma_len_fits();
            }
            let it = self.pos + (n - 1 - i);
            trivias.push((self.lexed.kind(it), self.lexed.text(it)));
            i += 1;
        }
        assert(trivia_models(trivias@) =~= trivia_window(self.lexed@, self.pos as int, n as int));
        trivias
    }

    fn eat_trivias(&mut self)
        requires
            old(self).inv(),
        ensures
            final(self).inv(),
            final(self).lexed == old(self).lexed,
            final(self).state == old(self).state,
            final(self).pos == old(self).pos + trivia_run(old(self).lexed@, old(self).pos as int),
            final(self).model().out == old(self).model().out + raw_tokens(
                old(self).lexed@,
                old(self).pos as int,
                trivia_run(old(self).lexed@, old(self).pos as int),
            ),
    {
        let ghost start = self.pos as int;
        let ghost run = trivia_run(self.lexed@, start);
        let ghost before = self.model().out;
        proof {
            lemma_trivia_run_bound(self.lexed@, start);
            assert(before + raw_tokens(self.lexed@, start, 0) =~= before);
        }
        while self.pos < self.lexed.len()
            invariant
                self.inv(),
                self.lexed == old(self).lexed,
                self.state == old(self).state,
                start <= self.pos <= start + run,
                run == trivia_run(self.lexed@, start),
                run == (self.pos - start) + trivia_run(self.lexed@, self.pos as int),
                self.model().out == before + raw_tokens(self.lexed@, start, self.pos - start),
            ensures
                self.inv(),
                self.lexed == old(self).lexed,
                self.state == old(self).state,
                self.pos == start + run,
                self.model().out == before + raw_tokens(self.lexed@, start, run),
            decreases self.lexed@.len() - self.pos,
        {
            let kind = self.lexed.kind(self.pos);
            if !kind.is_trivia() {
                break ;
            }
            let ghost done = self.pos - start;
            self.do_token(kind, 1);
            proof {
                lemma_trivia_run_bound(self.lexed@, self.pos as int);
                assert(before + raw_tokens(self.lexed@, start, done + 1) =~= (before + raw_tokens(
                    self.lexed@,
                    start,
                    done,
                )).push(
                    StrStepModel::Token {
                        kind,
                        text: self.lexed@.range_bytes(start + done, start + done + 1),
                    },
                ));
            }
        }
    }

    fn eat_n_trivias(&mut self, n: usize)
        requires
            old(self).inv(),
            old(self).pos + n <= old(self).lexed@.len(),
        ensures
            final(self).inv(),
            final(self).lexed == old(self).lexed,
            final(self).state == old(self).state,
            final(self).pos == old(self).pos + n,
            final(self).model().out == old(self).model().out + raw_tokens(
                old(self).lexed@,
                old(self).pos as int,
                n as int,
            ),
    {
        let ghost start = self.pos as int;
        let ghost before = self.model().out;
        proof {
            assert(before + raw_tokens(self.lexed@, start, 0) =~= before);
        }
        let mut i: usize = 0;
        while i < n
            invariant
                self.inv(),
                self.lexed == old(self).lexed,
                self.state == old(self).state,
                i <= n,
                start + n <= self.lexed@.len(),
                self.pos == start + i,
                self.model().out == before + raw_tokens(self.lexed@, start, i as int),
            decreases n - i,
        {
            let kind = self.lexed.kind(self.pos);
            self.do_token(kind, 1);
            proof {
                assert(before + raw_tokens(self.lexed@, start, i + 1) =~= (before + raw_tokens(
                    self.lexed@,
                    start,
                    i as int,
                )).push(
                    StrStepModel::Token {
                        kind,
                        text: self.lexed@.range_bytes(start + i, start + i + 1),
                    },
                ));
            }
            i += 1;
        }
    }

    fn do_token(&mut self, kind: SyntaxKind, n_tokens: usize)
        requires
            old(self).inv(),
            n_tokens >= 1,
            old(self).pos + n_tokens <= old(self).lexed@.len(),
        ensures
            final(self).inv(),
            final(self).lexed == old(self).lexed,
            final(self).state == old(self).state,
            final(self).pos == old(self).pos + n_tokens,
            final(self).model().out == old(self).model().out.push(
                StrStepModel::Token {
                    kind,
                    text: old(self).lexed@.range_bytes(
                        old(self).pos as int,
                        old(self).pos + n_tokens,
                    ),
                },
            ),
    {
        proof {
            self.lexed.lemma_len_fits();
        }
        let text = self.lexed.range_text(self.pos..self.pos + n_tokens);
        self.pos += n_tokens;
        self.emit(StrStep::Token { kind, text });
    }
}

} // verus!
