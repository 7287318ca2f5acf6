//! The events that the parser logs, and the pass that turns a log into the
//! steps of a tree.

use vstd::prelude::*;

use crate::output::{
    closes, delta, leaves, tokens_spanned, unit_tokens, well_nested, Output, StepModel,
};
use crate::syntax_kind::SyntaxKind;

verus! {

/// One entry of the parser's log.
///
/// `Start` opens a node; its kind is the tombstone until the node is
/// completed, and stays the tombstone if the node is abandoned.
/// `forward_parent` is the distance to a later `Start` that is to become this
/// node's parent although it was logged after it.
#[derive(Debug, Clone, PartialEq, Eq)]
pub enum Event {
    Start { kind: SyntaxKind, forward_parent: Option<u32> },
    Finish,
    Token { kind: SyntaxKind, n_raw_tokens: u8 },
    Error { msg: String },
}

/// The mathematical value of an [`Event`].
pub enum EventModel {
    Start { kind: SyntaxKind, forward_parent: Option<u32> },
    Finish,
    Token { kind: SyntaxKind, n_raw_tokens: u8 },
    Error { msg: Seq<char> },
}

impl View for Event {
    type V = EventModel;

    open spec fn view(&self) -> EventModel {
        match *self {
            Event::Start { kind, forward_parent } => EventModel::Start { kind, forward_parent },
            Event::Finish => EventModel::Finish,
            Event::Token { kind, n_raw_tokens } => EventModel::Token { kind, n_raw_tokens },
            Event::Error { msg } => EventModel::Error { msg: msg@ },
        }
    }
}

/// The placeholder that a freshly opened marker logs.
pub open spec fn tombstone() -> EventModel {
    EventModel::Start { kind: SyntaxKind::TOMBSTONE, forward_parent: None }
}

/// The values of the events of a log.
pub open spec fn log_view(events: Seq<Event>) -> Seq<EventModel> {
    Seq::new(events.len(), |i: int| events[i]@)
}

impl Event {
    /// The placeholder `Start` of a node that is not, or not yet, a node.
    pub fn tombstone() -> (e: Event)
        ensures
            e@ == tombstone(),
    {
        Event::Start { kind: SyntaxKind::TOMBSTONE, forward_parent: None }
    }
}

/// Whether event `i` opens a node with a real kind.
pub open spec fn opens_node(log: Seq<EventModel>, i: int) -> bool {
    log[i] is Start && log[i]->Start_kind != SyntaxKind::TOMBSTONE
}

/// The forward parent of event `i` points at a later `Start` inside the log.
pub open spec fn link_ok(log: Seq<EventModel>, i: int) -> bool {
    match log[i] {
        EventModel::Start { forward_parent: Some(d), .. } => d >= 1 && i + d < log.len() && log[i
            + d] is Start,
        _ => true,
    }
}

/// Every forward parent of the log points at a later `Start` inside the log.
pub open spec fn links_ok(log: Seq<EventModel>) -> bool {
    forall|i: int| 0 <= i < log.len() ==> #[trigger] link_ok(log, i)
}

/// The positions on the forward-parent chain that starts at `i`, `i` first.
pub open spec fn chain(log: Seq<EventModel>, i: int) -> Seq<int>
    decreases log.len() - i,
{
    if 0 <= i < log.len() {
        match log[i] {
            EventModel::Start { forward_parent: Some(d), .. } => if d >= 1 && i + d < log.len() {
                seq![i] + chain(log, i + d)
            } else {
                seq![i]
            },
            _ => seq![i],
        }
    } else {
        Seq::empty()
    }
}

/// The log with the given positions turned into tombstones.
pub open spec fn cleared(log: Seq<EventModel>, at: Seq<int>) -> Seq<EventModel> {
    Seq::new(
        log.len(),
        |j: int|
            if at.contains(j) {
                tombstone()
            } else {
                log[j]
            },
    )
}

/// The nodes that the given `Start` positions open, the last position first.
/// Tombstones open nothing.
pub open spec fn enters(log: Seq<EventModel>, at: Seq<int>) -> Seq<StepModel>
    decreases at.len(),
{
    if at.len() == 0 {
        Seq::empty()
    } else {
        let last = at.last();
        let head = if opens_node(log, last) {
            seq![StepModel::Enter { kind: log[last]->Start_kind }]
        } else {
            Seq::empty()
        };
        head + enters(log, at.drop_last())
    }
}

/// The steps that the log yields from position `i` on.
///
/// A `Start` opens its whole forward-parent chain, outermost ancestor first,
/// and leaves tombstones behind so that no node of the chain opens again.
pub open spec fn process_from(log: Seq<EventModel>, i: int) -> Seq<StepModel>
    decreases log.len() - i,
{
    if 0 <= i < log.len() {
        match log[i] {
            EventModel::Start { .. } => enters(log, chain(log, i)) + process_from(
                cleared(log, chain(log, i)),
                i + 1,
            ),
            EventModel::Finish => seq![StepModel::Exit] + process_from(log, i + 1),
            EventModel::Token { kind, n_raw_tokens } => seq![
                StepModel::Token { kind, n_input_tokens: n_raw_tokens },
            ] + process_from(log, i + 1),
            EventModel::Error { msg } => seq![StepModel::Error { msg }] + process_from(log, i + 1),
        }
    } else {
        Seq::empty()
    }
}

/// The step sequence of a whole log.
pub open spec fn linearize(log: Seq<EventModel>) -> Seq<StepModel> {
    process_from(log, 0)
}

/// The positions of a chain lie at or after its start, inside the log, and on `Start` events.
pub proof fn lemma_chain_positions(log: Seq<EventModel>, i: int)
    requires
        links_ok(log),
        0 <= i < log.len(),
        log[i] is Start,
    ensures
        chain(log, i).len() >= 1,
        chain(log, i)[0] == i,
        forall|k: int|
            0 <= k < chain(log, i).len() ==> i <= (#[trigger] chain(log, i)[k]) < log.len()
                && log[chain(log, i)[k]] is Start,
        forall|k: int| 1 <= k < chain(log, i).len() ==> i < #[trigger] chain(log, i)[k],
    decreases log.len() - i,
{
    assert(link_ok(log, i));
    match log[i] {
        EventModel::Start { forward_parent: Some(d), .. } => {
            if d >= 1 {
                lemma_chain_positions(log, i + d);
                let rest = chain(log, i + d);
                assert forall|k: int| 0 <= k < chain(log, i).len() implies i <= (
                #[trigger] chain(log, i)[k]) < log.len() && log[chain(log, i)[k]] is Start by {
                    if k > 0 {
                        assert(chain(log, i)[k] == rest[k - 1]);
                    }
                }
                assert forall|k: int| 1 <= k < chain(log, i).len() implies i < #[trigger] chain(
                    log,
                    i,
                )[k] by {
                    assert(chain(log, i)[k] == rest[k - 1]);
                }
            }
        },
        _ => {},
    }
}

/// Clearing `Start` positions keeps every forward parent of the log in order.
pub proof fn lemma_cleared_links_ok(log: Seq<EventModel>, at: Seq<int>)
    requires
        links_ok(log),
        forall|k: int|
            0 <= k < at.len() ==> 0 <= (#[trigger] at[k]) < log.len() && log[at[k]] is Start,
    ensures
        links_ok(cleared(log, at)),
        cleared(log, at).len() == log.len(),
{
    let out = cleared(log, at);
    assert forall|i: int| 0 <= i < out.len() implies #[trigger] link_ok(out, i) by {
        assert(link_ok(log, i));
        if !at.contains(i) {
            match log[i] {
                EventModel::Start { forward_parent: Some(d), .. } => {
                    let j = i + d;
                    if at.contains(j) {
                        assert(out[j] == tombstone());
                    } else {
                        assert(out[j] == log[j]);
                    }
                },
                _ => {},
            }
        }
    }
}

/// The positions of a chain are strictly increasing.
pub proof fn lemma_chain_increasing(log: Seq<EventModel>, i: int)
    requires
        links_ok(log),
        0 <= i < log.len(),
        log[i] is Start,
    ensures
        forall|a: int, b: int|
            0 <= a < b < chain(log, i).len() ==> chain(log, i)[a] < chain(log, i)[b],
    decreases log.len() - i,
{
    assert(link_ok(log, i));
    lemma_chain_positions(log, i);
    match log[i] {
        EventModel::Start { forward_parent: Some(d), .. } => {
            let rest = chain(log, i + d);
            lemma_chain_increasing(log, i + d);
            lemma_chain_positions(log, i + d);
            assert forall|a: int, b: int| 0 <= a < b < chain(log, i).len() implies chain(log, i)[a]
                < chain(log, i)[b] by {
                assert(chain(log, i)[b] == rest[b - 1]);
                if a > 0 {
                    assert(chain(log, i)[a] == rest[a - 1]);
                }
            }
        },
        _ => {},
    }
}

/// The change of nesting depth that an event causes where it stands in the log.
pub open spec fn event_delta(e: EventModel) -> int {
    match e {
        EventModel::Start { kind, .. } => if kind != SyntaxKind::TOMBSTONE {
            1
        } else {
            0
        },
        EventModel::Finish => -1,
        _ => 0,
    }
}

/// Started at `depth`, the events from `i` on never act at depth 0 and end at depth 0.
pub open spec fn log_closes(log: Seq<EventModel>, i: int, depth: int) -> bool
    decreases log.len() - i,
{
    if 0 <= i < log.len() {
        depth >= 1 && log_closes(log, i + 1, depth + event_delta(log[i]))
    } else {
        depth == 0
    }
}

/// The log opens one real node first, closes it last, and logs everything else in between.
pub open spec fn log_nested(log: Seq<EventModel>) -> bool {
    &&& log.len() > 0
    &&& opens_node(log, 0)
    &&& log_closes(log, 1, 1)
}

/// The depth that a run of events reaches when it starts at `depth`, or
/// `None` if one of its events would act at depth 0.
pub open spec fn level(run: Seq<EventModel>, depth: int) -> Option<int>
    decreases run.len(),
{
    if run.len() == 0 {
        Some(depth)
    } else if depth < 1 {
        None
    } else {
        level(run.drop_first(), depth + event_delta(run[0]))
    }
}

/// The level of two runs in a row is the level of the second, started where
/// the first one ends.
pub proof fn lemma_level_concat(a: Seq<EventModel>, b: Seq<EventModel>, depth: int)
    ensures
        level(a + b, depth) == match level(a, depth) {
            Some(mid) => level(b, mid),
            None => None,
        },
    decreases a.len(),
{
    if a.len() == 0 {
        assert(a + b =~= b);
    } else {
        assert((a + b).drop_first() =~= a.drop_first() + b);
        assert((a + b)[0] == a[0]);
        if depth >= 1 {
            lemma_level_concat(a.drop_first(), b, depth + event_delta(a[0]));
        }
    }
}

/// A token or a diagnostic keeps the level.
pub proof fn lemma_level_leaf(e: EventModel, depth: int)
    requires
        e is Token || e is Error,
        depth >= 1,
    ensures
        level(seq![e], depth) == Some(depth),
{
    let run = seq![e];
    assert(run.drop_first() =~= Seq::<EventModel>::empty());
    assert(level(run.drop_first(), depth) == Some(depth));
}

/// A real node around a run that keeps the level keeps the level.
pub proof fn lemma_level_node(kind: SyntaxKind, inner: Seq<EventModel>, depth: int)
    requires
        kind != SyntaxKind::TOMBSTONE,
        depth >= 1,
        level(inner, depth + 1) == Some(depth + 1),
    ensures
        level(
            seq![EventModel::Start { kind, forward_parent: None }] + inner + seq![
                EventModel::Finish,
            ],
            depth,
        ) == Some(depth),
{
    let open = seq![EventModel::Start { kind, forward_parent: None }];
    let close = seq![EventModel::Finish];
    assert(open.drop_first() =~= Seq::<EventModel>::empty());
    assert(level(open.drop_first(), depth + 1) == Some(depth + 1));
    assert(level(open, depth) == Some(depth + 1));
    assert(close.drop_first() =~= Seq::<EventModel>::empty());
    assert(level(close.drop_first(), depth) == Some(depth));
    assert(level(close, depth + 1) == Some(depth));
    lemma_level_concat(open, inner, depth);
    lemma_level_concat(open + inner, close, depth);
}

/// A log closes from `i` on exactly if the run of its events from `i` on
/// reaches level 0.
pub proof fn lemma_level_closes(log: Seq<EventModel>, i: int, depth: int)
    requires
        0 <= i <= log.len(),
    ensures
        log_closes(log, i, depth) == (level(log.skip(i), depth) == Some(0int)),
    decreases log.len() - i,
{
    if i < log.len() {
        lemma_level_closes(log, i + 1, depth + event_delta(log[i]));
        assert(log.skip(i).drop_first() =~= log.skip(i + 1));
        assert(log.skip(i)[0] == log[i]);
    } else {
        assert(log.skip(i) =~= Seq::<EventModel>::empty());
    }
}

/// The tokens and diagnostics of the log from `i` on, as steps, in order.
pub open spec fn leaf_steps(log: Seq<EventModel>, i: int) -> Seq<StepModel>
    decreases log.len() - i,
{
    if 0 <= i < log.len() {
        match log[i] {
            EventModel::Token { kind, n_raw_tokens } => seq![
                StepModel::Token { kind, n_input_tokens: n_raw_tokens },
            ] + leaf_steps(log, i + 1),
            EventModel::Error { msg } => seq![StepModel::Error { msg }] + leaf_steps(log, i + 1),
            _ => leaf_steps(log, i + 1),
        }
    } else {
        Seq::empty()
    }
}

/// The number of real nodes among the given positions.
pub open spec fn real_count(log: Seq<EventModel>, at: Seq<int>) -> int
    decreases at.len(),
{
    if at.len() == 0 {
        0
    } else {
        real_count(log, at.drop_last()) + if opens_node(log, at.last()) {
            1int
        } else {
            0int
        }
    }
}

/// Opening positions yields one `Enter` for each real node among them.
proof fn lemma_enters_shape(log: Seq<EventModel>, at: Seq<int>)
    ensures
        enters(log, at).len() == real_count(log, at),
        forall|k: int| 0 <= k < enters(log, at).len() ==> (#[trigger] enters(log, at)[k]) is Enter,
        leaves(enters(log, at)) == Seq::<StepModel>::empty(),
        at.len() > 0 && opens_node(log, at[0]) ==> enters(log, at).len() >= 1 && enters(
            log,
            at,
        ).last() == (StepModel::Enter { kind: log[at[0]]->Start_kind }),
    decreases at.len(),
{
    if at.len() > 0 {
        let rest = at.drop_last();
        lemma_enters_shape(log, rest);
        let head = if opens_node(log, at.last()) {
            seq![StepModel::Enter { kind: log[at.last()]->Start_kind }]
        } else {
            Seq::empty()
        };
        crate::output::lemma_leaves_concat(head, enters(log, rest));
        assert(leaves(head) =~= Seq::<StepModel>::empty()) by {
            if head.len() > 0 {
                assert(head[0] is Enter);
                assert(head.drop_first() =~= Seq::<StepModel>::empty());
                assert(leaves(head.drop_first()) =~= Seq::<StepModel>::empty());
            }
        }
        if rest.len() > 0 {
            assert(rest[0] == at[0]);
        }
    }
}

/// The count of real nodes, taken from the front.
proof fn lemma_real_count_front(log: Seq<EventModel>, at: Seq<int>)
    requires
        at.len() > 0,
    ensures
        real_count(log, at) == real_count(log, at.drop_first()) + if opens_node(log, at[0]) {
            1int
        } else {
            0int
        },
    decreases at.len(),
{
    if at.len() == 1 {
        assert(at.drop_last() =~= Seq::<int>::empty());
        assert(at.drop_first() =~= Seq::<int>::empty());
    } else {
        lemma_real_count_front(log, at.drop_last());
        assert(at.drop_last().drop_first() =~= at.drop_first().drop_last());
        assert(at.drop_first().last() == at.last());
        assert(at.drop_last()[0] == at[0]);
    }
}

/// Whether a log closes from `i` on depends only on the log from `i` on.
proof fn lemma_log_closes_suffix(a: Seq<EventModel>, b: Seq<EventModel>, i: int, depth: int)
    requires
        a.len() == b.len(),
        0 <= i,
        forall|k: int| i <= k < a.len() ==> a[k] == b[k],
    ensures
        log_closes(a, i, depth) == log_closes(b, i, depth),
    decreases a.len() - i,
{
    if i < a.len() {
        lemma_log_closes_suffix(a, b, i + 1, depth + event_delta(a[i]));
    }
}

/// Turning a `Start` at or after `i` into a tombstone, and starting one level
/// deeper if it was a real node, keeps the log closing.
proof fn lemma_clear_one(log: Seq<EventModel>, i: int, depth: int, j: int)
    requires
        0 <= i <= j < log.len(),
        log[j] is Start,
        log_closes(log, i, depth),
    ensures
        log_closes(log.update(j, tombstone()), i, depth + event_delta(log[j])),
    decreases j - i,
{
    let other = log.update(j, tombstone());
    if i == j {
        lemma_log_closes_suffix(other, log, j + 1, depth + event_delta(log[j]));
    } else {
        lemma_clear_one(log, i + 1, depth + event_delta(log[i]), j);
    }
}

/// Clearing increasing `Start` positions at or after `i`, and starting deeper
/// by the number of real nodes among them, keeps the log closing.
proof fn lemma_clear_path(log: Seq<EventModel>, i: int, depth: int, at: Seq<int>)
    requires
        0 <= i,
        forall|k: int|
            0 <= k < at.len() ==> i <= (#[trigger] at[k]) < log.len() && log[at[k]] is Start,
        forall|a: int, b: int| 0 <= a < b < at.len() ==> at[a] < at[b],
        log_closes(log, i, depth),
    ensures
        log_closes(cleared(log, at), i, depth + real_count(log, at)),
    decreases at.len(),
{
    if at.len() == 0 {
        assert(cleared(log, at) =~= log);
    } else {
        let rest = at.drop_last();
        let j = at.last();
        assert forall|k: int| 0 <= k < rest.len() implies i <= (#[trigger] rest[k]) < log.len()
            && log[rest[k]] is Start by {
            assert(rest[k] == at[k]);
        }
        lemma_clear_path(log, i, depth, rest);
        let mid = cleared(log, rest);
        assert(!rest.contains(j)) by {
            if rest.contains(j) {
                let k = choose|k: int| 0 <= k < rest.len() && rest[k] == j;
                assert(at[k] < at[at.len() - 1]);
            }
        }
        assert(mid[j] == log[j]);
        lemma_clear_one(mid, i, depth + real_count(log, rest), j);
        assert(mid.update(j, tombstone()) =~= cleared(log, at)) by {
            assert forall|x: int| 0 <= x < log.len() implies mid.update(j, tombstone())[x]
                == cleared(log, at)[x] by {
                if x == j {
                    assert(at[at.len() - 1] == x);
                } else if rest.contains(x) {
                    let k = choose|k: int| 0 <= k < rest.len() && rest[k] == x;
                    assert(at[k] == x);
                } else if at.contains(x) {
                    let k = choose|k: int| 0 <= k < at.len() && at[k] == x;
                    assert(rest[k] == x);
                }
            }
        }
    }
}

/// A log that closes from `i` on yields steps that close from the same depth.
proof fn lemma_process_closes(log: Seq<EventModel>, i: int, depth: int)
    requires
        links_ok(log),
        0 <= i,
        log_closes(log, i, depth),
    ensures
        closes(process_from(log, i), depth),
    decreases log.len() - i,
{
    if i < log.len() {
        let next = depth + event_delta(log[i]);
        match log[i] {
            EventModel::Start { .. } => {
                lemma_opening_closes(log, i, next);
                let path = chain(log, i);
                lemma_chain_positions(log, i);
                lemma_cleared_links_ok(log, path);
                let after = cleared(log, path);
                lemma_process_closes(after, i + 1, depth + real_count(log, path));
                lemma_enters_shape(log, path);
                crate::output::lemma_closes_after_enters(
                    enters(log, path),
                    process_from(after, i + 1),
                    depth,
                );
            },
            _ => {
                lemma_process_closes(log, i + 1, next);
                let steps = process_from(log, i);
                assert(steps.drop_first() =~= process_from(log, i + 1));
                assert(delta(steps[0]) == event_delta(log[i]));
            },
        }
    }
}

/// After the chain of the `Start` at `i` is opened and cleared, the rest of
/// the log closes from the depth that the opened nodes reach.
proof fn lemma_opening_closes(log: Seq<EventModel>, i: int, next: int)
    requires
        links_ok(log),
        0 <= i < log.len(),
        log[i] is Start,
        log_closes(log, i + 1, next),
    ensures
        log_closes(
            cleared(log, chain(log, i)),
            i + 1,
            next - event_delta(log[i]) + real_count(log, chain(log, i)),
        ),
{
    let path = chain(log, i);
    lemma_chain_positions(log, i);
    lemma_chain_increasing(log, i);
    let rest = path.drop_first();
    assert forall|k: int| 0 <= k < rest.len() implies i + 1 <= (#[trigger] rest[k]) < log.len()
        && log[rest[k]] is Start by {
        assert(rest[k] == path[k + 1]);
    }
    assert forall|a: int, b: int| 0 <= a < b < rest.len() implies rest[a] < rest[b] by {
        assert(rest[a] == path[a + 1] && rest[b] == path[b + 1]);
    }
    lemma_clear_path(log, i + 1, next, rest);
    lemma_real_count_front(log, path);
    let partly = cleared(log, rest);
    let wholly = cleared(log, path);
    assert forall|k: int| i + 1 <= k < log.len() implies wholly[k] == partly[k] by {
        if rest.contains(k) {
            let x = choose|x: int| 0 <= x < rest.len() && rest[x] == k;
            assert(path[x + 1] == k);
        } else if path.contains(k) {
            let x = choose|x: int| 0 <= x < path.len() && path[x] == k;
            assert(x > 0);
            assert(rest[x - 1] == k);
        }
    }
    lemma_log_closes_suffix(wholly, partly, i + 1, next + real_count(log, rest));
}

/// Balanced nesting: a log that opens one real node first and closes it last
/// yields exactly one tree, whatever its forward parents move.
pub proof fn lemma_process_well_nested(log: Seq<EventModel>)
    requires
        links_ok(log),
        log_nested(log),
    ensures
        well_nested(linearize(log)),
{
    let path = chain(log, 0);
    lemma_chain_positions(log, 0);
    lemma_opening_closes(log, 0, 1);
    lemma_cleared_links_ok(log, path);
    let after = cleared(log, path);
    let opened = enters(log, path);
    lemma_enters_shape(log, path);
    lemma_process_closes(after, 1, real_count(log, path));
    let rest = process_from(after, 1);
    assert(opened[0] is Enter);
    assert forall|k: int| 0 <= k < opened.drop_first().len() implies (
    #[trigger] opened.drop_first()[k]) is Enter by {
        assert(opened.drop_first()[k] == opened[k + 1]);
    }
    crate::output::lemma_closes_after_enters(opened.drop_first(), rest, 1);
    assert(linearize(log).drop_first() =~= opened.drop_first() + rest);
}

/// The leaves of a log from `i` on depend only on its tokens and diagnostics.
proof fn lemma_leaf_steps_cleared(log: Seq<EventModel>, at: Seq<int>, i: int)
    requires
        0 <= i,
        forall|k: int|
            0 <= k < at.len() ==> 0 <= (#[trigger] at[k]) < log.len() && log[at[k]] is Start,
    ensures
        leaf_steps(cleared(log, at), i) == leaf_steps(log, i),
    decreases log.len() - i,
{
    if i < log.len() {
        lemma_leaf_steps_cleared(log, at, i + 1);
    }
}

/// Order of leaves: the steps hold the tokens and diagnostics of the log, all
/// of them and in the order in which they were logged.
pub proof fn lemma_process_leaves(log: Seq<EventModel>, i: int)
    requires
        links_ok(log),
        0 <= i,
    ensures
        leaves(process_from(log, i)) == leaf_steps(log, i),
    decreases log.len() - i,
{
    if i < log.len() {
        match log[i] {
            EventModel::Start { .. } => {
                let path = chain(log, i);
                lemma_chain_positions(log, i);
                lemma_cleared_links_ok(log, path);
                let after = cleared(log, path);
                lemma_process_leaves(after, i + 1);
                lemma_leaf_steps_cleared(log, path, i + 1);
                lemma_enters_shape(log, path);
                crate::output::lemma_leaves_concat(enters(log, path), process_from(after, i + 1));
                assert(Seq::<StepModel>::empty() + leaf_steps(log, i + 1) =~= leaf_steps(
                    log,
                    i + 1,
                ));
            },
            _ => {
                lemma_process_leaves(log, i + 1);
                let steps = process_from(log, i);
                assert(steps.drop_first() =~= process_from(log, i + 1));
            },
        }
    }
}

/// The number of input tokens that an event consumes.
pub open spec fn consumed_by(e: EventModel) -> int {
    match e {
        EventModel::Token { n_raw_tokens, .. } => n_raw_tokens as int,
        _ => 0,
    }
}

/// The number of input tokens that the events from `i` on consume.
pub open spec fn consumed_from(log: Seq<EventModel>, i: int) -> int
    decreases log.len() - i,
{
    if 0 <= i < log.len() {
        consumed_by(log[i]) + consumed_from(log, i + 1)
    } else {
        0
    }
}

/// The number of input tokens that the log consumes.
pub open spec fn consumed(log: Seq<EventModel>) -> int {
    consumed_from(log, 0)
}

/// Every token event consumes exactly one token of the input.
pub open spec fn unit_events(log: Seq<EventModel>) -> bool {
    forall|i: int|
        0 <= i < log.len() && (#[trigger] log[i]) is Token ==> log[i]->Token_n_raw_tokens == 1
}

/// One more event consumes what it consumes on top of the log.
pub proof fn lemma_consumed_push(log: Seq<EventModel>, e: EventModel, i: int)
    requires
        0 <= i <= log.len(),
    ensures
        consumed_from(log.push(e), i) == consumed_from(log, i) + consumed_by(e),
    decreases log.len() - i,
{
    let grown = log.push(e);
    if i < log.len() {
        lemma_consumed_push(log, e, i + 1);
        assert(grown[i] == log[i]);
    } else {
        assert(grown[i] == e);
        assert(consumed_from(grown, i + 1) == 0);
    }
}

/// An event rewritten into one that consumes as much leaves the sum as it is.
pub proof fn lemma_consumed_update(log: Seq<EventModel>, at: int, e: EventModel, i: int)
    requires
        0 <= at < log.len(),
        0 <= i,
        consumed_by(e) == consumed_by(log[at]),
    ensures
        consumed_from(log.update(at, e), i) == consumed_from(log, i),
    decreases log.len() - i,
{
    if i < log.len() {
        lemma_consumed_update(log, at, e, i + 1);
    }
}

/// Without its last event the log consumes what it consumed less that event's share.
pub proof fn lemma_consumed_drop_last(log: Seq<EventModel>)
    requires
        log.len() > 0,
    ensures
        consumed(log.drop_last()) == consumed(log) - consumed_by(log.last()),
{
    lemma_consumed_push(log.drop_last(), log.last(), 0);
    assert(log.drop_last().push(log.last()) =~= log);
}

/// Clearing `Start` positions changes nothing of what the log consumes.
proof fn lemma_consumed_cleared(log: Seq<EventModel>, at: Seq<int>, i: int)
    requires
        0 <= i,
        forall|k: int|
            0 <= k < at.len() ==> 0 <= (#[trigger] at[k]) < log.len() && log[at[k]] is Start,
    ensures
        consumed_from(cleared(log, at), i) == consumed_from(log, i),
    decreases log.len() - i,
{
    if i < log.len() {
        lemma_consumed_cleared(log, at, i + 1);
    }
}

/// The nodes that positions open span no tokens and hold no token step.
proof fn lemma_enters_no_tokens(log: Seq<EventModel>, at: Seq<int>)
    ensures
        tokens_spanned(enters(log, at)) == 0,
        unit_tokens(enters(log, at)),
{
    lemma_enters_shape(log, at);
    lemma_no_tokens(enters(log, at));
}

/// Steps none of which is a token span no tokens.
proof fn lemma_no_tokens(steps: Seq<StepModel>)
    requires
        forall|k: int| 0 <= k < steps.len() ==> !((#[trigger] steps[k]) is Token),
    ensures
        tokens_spanned(steps) == 0,
    decreases steps.len(),
{
    if steps.len() > 0 {
        assert(!(steps[steps.len() - 1] is Token));
        lemma_no_tokens(steps.drop_last());
    }
}

/// Token accounting: the steps span exactly the input tokens that the log
/// consumes, and where every token event consumes one token, every token
/// step spans one.
pub proof fn lemma_process_spans(log: Seq<EventModel>, i: int)
    requires
        links_ok(log),
        0 <= i,
    ensures
        tokens_spanned(process_from(log, i)) == consumed_from(log, i),
        unit_events(log) ==> unit_tokens(process_from(log, i)),
    decreases log.len() - i,
{
    if i < log.len() {
        match log[i] {
            EventModel::Start { .. } => {
                let path = chain(log, i);
                lemma_chain_positions(log, i);
                lemma_cleared_links_ok(log, path);
                let after = cleared(log, path);
                lemma_process_spans(after, i + 1);
                lemma_consumed_cleared(log, path, i + 1);
                lemma_enters_no_tokens(log, path);
                crate::output::lemma_spanned_concat(enters(log, path), process_from(after, i + 1));
                if unit_events(log) {
                    assert(unit_events(after)) by {
                        assert forall|k: int| 0 <= k < after.len() && (#[trigger] after[k]) is Token
                            implies after[k]->Token_n_raw_tokens == 1 by {
                            assert(after[k] == log[k]);
                        }
                    }
                    lemma_unit_concat(enters(log, path), process_from(after, i + 1));
                }
            },
            _ => {
                lemma_process_spans(log, i + 1);
                let first = seq![process_from(log, i)[0]];
                let rest = process_from(log, i + 1);
                assert(process_from(log, i) =~= first + rest);
                crate::output::lemma_spanned_concat(first, rest);
                assert(first.drop_last() =~= Seq::<StepModel>::empty());
                assert(tokens_spanned(first.drop_last()) == 0);
                if unit_events(log) {
                    assert(log[i] is Token ==> log[i]->Token_n_raw_tokens == 1);
                    lemma_unit_concat(first, rest);
                }
            },
        }
    }
}

/// Steps in a row have unit tokens if both parts have.
proof fn lemma_unit_concat(a: Seq<StepModel>, b: Seq<StepModel>)
    requires
        unit_tokens(a),
        unit_tokens(b),
    ensures
        unit_tokens(a + b),
{
    assert forall|k: int| 0 <= k < (a + b).len() && (#[trigger] (a + b)[k]) is Token implies (a
        + b)[k]->Token_n_input_tokens == 1 by {
        if k < a.len() {
            assert((a + b)[k] == a[k]);
        } else {
            assert((a + b)[k] == b[k - a.len()]);
        }
    }
}

/// Forward-parent resolution: where the scan reaches a real node whose forward
/// parent is a real node without a forward parent of its own, the parent opens
/// immediately before the node, so that it directly contains it, and opens
/// nowhere else.
pub proof fn lemma_forward_parent_wraps(log: Seq<EventModel>, i: int)
    requires
        links_ok(log),
        0 <= i < log.len(),
        opens_node(log, i),
        log[i]->Start_forward_parent is Some,
        opens_node(log, i + log[i]->Start_forward_parent->0),
        log[i + log[i]->Start_forward_parent->0]->Start_forward_parent is None,
    ensures
        process_from(log, i) == seq![
            StepModel::Enter { kind: log[i + log[i]->Start_forward_parent->0]->Start_kind },
            StepModel::Enter { kind: log[i]->Start_kind },
        ] + process_from(cleared(log, seq![i, i + log[i]->Start_forward_parent->0]), i + 1),
{
    let j = i + log[i]->Start_forward_parent->0;
    assert(link_ok(log, i));
    assert(chain(log, j) =~= seq![j]);
    let path = chain(log, i);
    assert(path =~= seq![i, j]);
    assert(path.drop_last() =~= seq![i]);
    let one = seq![i];
    assert(one.drop_last() =~= Seq::<int>::empty());
    assert(one.last() == i);
    assert(enters(log, one.drop_last()) =~= Seq::<StepModel>::empty());
    assert(enters(log, one) =~= seq![StepModel::Enter { kind: log[i]->Start_kind }]);
    assert(path.last() == j);
    assert(enters(log, path) =~= seq![
        StepModel::Enter { kind: log[j]->Start_kind },
        StepModel::Enter { kind: log[i]->Start_kind },
    ]);
}

/// The steps of an event that stands where it belongs: a real `Start` opens
/// its node, a tombstone opens nothing, and every other event is its step.
pub open spec fn plain_step(e: EventModel) -> Seq<StepModel> {
    match e {
        EventModel::Start { kind, .. } => if kind != SyntaxKind::TOMBSTONE {
            seq![StepModel::Enter { kind }]
        } else {
            Seq::empty()
        },
        EventModel::Finish => seq![StepModel::Exit],
        EventModel::Token { kind, n_raw_tokens } => seq![
            StepModel::Token { kind, n_input_tokens: n_raw_tokens },
        ],
        EventModel::Error { msg } => seq![StepModel::Error { msg }],
    }
}

/// The steps of the events from `from` up to `to`, each taken where it stands.
pub open spec fn plain_steps(log: Seq<EventModel>, from: int, to: int) -> Seq<StepModel>
    decreases to - from,
{
    if 0 <= from < to <= log.len() {
        plain_step(log[from]) + plain_steps(log, from + 1, to)
    } else {
        Seq::empty()
    }
}

/// No event from `from` up to `to` has a forward parent.
pub open spec fn unlinked(log: Seq<EventModel>, from: int, to: int) -> bool {
    forall|j: int|
        from <= j < to && (#[trigger] log[j]) is Start ==> log[j]->Start_forward_parent is None
}

/// Where no event has a forward parent, the steps follow the log event by event.
pub proof fn lemma_process_unlinked(log: Seq<EventModel>, from: int, to: int)
    requires
        links_ok(log),
        0 <= from <= to <= log.len(),
        unlinked(log, from, to),
    ensures
        process_from(log, from) == plain_steps(log, from, to) + process_from(log, to),
    decreases to - from,
{
    if from < to {
        lemma_process_unlinked(log, from + 1, to);
        let rest = plain_steps(log, from + 1, to) + process_from(log, to);
        match log[from] {
            EventModel::Start { kind, .. } => {
                let path = chain(log, from);
                assert(path =~= seq![from]);
                assert(path.drop_last() =~= Seq::<int>::empty());
                assert(enters(log, path.drop_last()) =~= Seq::<StepModel>::empty());
                assert(enters(log, path) =~= plain_step(log[from]));
                let after = cleared(log, path);
                lemma_cleared_links_ok(log, path);
                lemma_process_suffix(after, log, from + 1);
                assert(process_from(log, from) =~= plain_step(log[from]) + rest);
            },
            _ => {
                assert(process_from(log, from) =~= plain_step(log[from]) + rest);
            },
        }
        assert(plain_steps(log, from, to) + process_from(log, to) =~= plain_step(log[from]) + rest);
    } else {
        assert(plain_steps(log, from, to) + process_from(log, to) =~= process_from(log, to));
    }
}

/// Forward-parent resolution in a whole log: where the events before a real
/// node have no forward parents, and the node names a later real node as its
/// forward parent, the steps are those of the events before, then the parent
/// opening, then the node opening inside it, then what the rest of the log
/// yields once both have opened. The parent opens nowhere else, and by
/// [`lemma_process_leaves`] the tokens and diagnostics keep their order.
pub proof fn lemma_precede_wraps(log: Seq<EventModel>, i: int)
    requires
        links_ok(log),
        0 <= i < log.len(),
        unlinked(log, 0, i),
        opens_node(log, i),
        log[i]->Start_forward_parent is Some,
        opens_node(log, i + log[i]->Start_forward_parent->0),
        log[i + log[i]->Start_forward_parent->0]->Start_forward_parent is None,
    ensures
        linearize(log) == plain_steps(log, 0, i) + seq![
            StepModel::Enter { kind: log[i + log[i]->Start_forward_parent->0]->Start_kind },
            StepModel::Enter { kind: log[i]->Start_kind },
        ] + process_from(cleared(log, seq![i, i + log[i]->Start_forward_parent->0]), i + 1),
{
    lemma_process_unlinked(log, 0, i);
    lemma_forward_parent_wraps(log, i);
    let j = i + log[i]->Start_forward_parent->0;
    let opening = seq![
        StepModel::Enter { kind: log[j]->Start_kind },
        StepModel::Enter { kind: log[i]->Start_kind },
    ];
    let rest = process_from(cleared(log, seq![i, j]), i + 1);
    assert(plain_steps(log, 0, i) + (opening + rest) =~= plain_steps(log, 0, i) + opening + rest);
}

/// Takes the event at `i` out of the log and leaves a tombstone in its place.
fn take_event(events: &mut Vec<Event>, i: usize) -> (e: Event)
    requires
        i < old(events)@.len(),
    ensures
        e == old(events)@[i as int],
        final(events)@.len() == old(events)@.len(),
        log_view(final(events)@) == log_view(old(events)@).update(i as int, tombstone()),
{
    let mut e = Event::tombstone();
    core::mem::swap(&mut events[i], &mut e);
    assert(log_view(events@) =~= log_view(old(events)@).update(i as int, tombstone()));
    e
}

/// Turns the parser's log into the step sequence of the tree it describes.
///
/// Abandoned nodes open nothing, so what they would have held falls to the
/// nearest real ancestor. A node with a forward parent is opened only after
/// its whole chain of ancestors, outermost first. Tokens and diagnostics keep
/// their order.
pub fn process(events: Vec<Event>) -> (res: Output)
    requires
        links_ok(log_view(events@)),
    ensures
        res@ == linearize(log_view(events@)),
{
    let mut events = events;
    let mut res = Output::default();
    let mut forward_parents: Vec<SyntaxKind> = Vec::new();
    let ghost given = log_view(events@);
    let mut i: usize = 0;
    while i < events.len()
        invariant
            i <= events@.len(),
            events@.len() == given.len(),
            links_ok(log_view(events@)),
            forward_parents@.len() == 0,
            res@ + process_from(log_view(events@), i as int) == linearize(given),
        decreases events@.len() - i,
    {
        let ghost log = log_view(events@);
        let ghost before = res@;
        match take_event(&mut events, i) {
            Event::Start { kind, forward_parent } => {
                let ghost path = chain(log, i as int);
                proof {
                    lemma_chain_positions(log, i as int);
                    assert(link_ok(log, i as int));
                }
                forward_parents.push(kind);
                let mut idx = i;
                let mut fp = forward_parent;
                let ghost mut seen: Seq<int> = seq![i as int];
                while fp.is_some()
                    invariant
                        i <= idx < log.len(),
                        events@.len() == log.len(),
                        links_ok(log),
                        path == chain(log, i as int),
                        seen.len() >= 1,
                        seen.len() == forward_parents@.len(),
                        seen.last() == idx,
                        forall|k: int| 0 <= k < seen.len() ==> i <= (#[trigger] seen[k]) <= idx,
                        forall|k: int|
                            0 <= k < seen.len() ==> log[#[trigger] seen[k]] is Start
                                && forward_parents@[k] == log[seen[k]]->Start_kind,
                        log[idx as int] is Start,
                        fp == log[idx as int]->Start_forward_parent,
                        path == seen.drop_last() + chain(log, idx as int),
                        log_view(events@) == cleared(log, seen),
                    decreases log.len() - idx,
                {
                    proof {
                        assert(link_ok(log, idx as int));
                    }
                    let fwd = fp.unwrap();
                    let ghost prev = idx as int;
                    assert(log[prev]->Start_forward_parent == Some(fwd));
                    assert(fwd >= 1 && prev + fwd < log.len() && log[prev + fwd] is Start);
                    assert(events@.len() == events.len());
                    idx += fwd as usize;
                    let ghost taken = log_view(events@);
                    proof {
                        assert(!seen.contains(idx as int));
                        assert(taken[idx as int] == log[idx as int]);
                    }
                    fp =
                    match take_event(&mut events, idx) {
                        Event::Start { kind, forward_parent } => {
                            forward_parents.push(kind);
                            forward_parent
                        },
                        _ => None,
                    };
                    proof {
                        let grown = seen.push(idx as int);
                        assert(grown.drop_last() =~= seen);
                        assert(chain(log, prev) == seq![prev] + chain(log, idx as int));
                        assert(seen.drop_last() + chain(log, prev) =~= grown.drop_last() + chain(
                            log,
                            idx as int,
                        ));
                        assert(log_view(events@) =~= cleared(log, grown)) by {
                            assert forall|j: int| 0 <= j < log.len() implies log_view(events@)[j]
                                == cleared(log, grown)[j] by {
                                if j == idx {
                                    assert(grown.last() == j);
                                    assert(grown.contains(j));
                                } else if seen.contains(j) {
                                    let k = choose|k: int| 0 <= k < seen.len() && seen[k] == j;
                                    assert(grown[k] == j);
                                    assert(grown.contains(j));
                                } else {
                                    if grown.contains(j) {
                                        let k = choose|k: int|
                                            0 <= k < grown.len() && grown[k] == j;
                                        if k < seen.len() {
                                            assert(seen[k] == j);
                                        }
                                    }
                                }
                            }
                        }
                        seen = grown;
                    }
                }
                proof {
                    assert(chain(log, idx as int) =~= seq![idx as int]);
                    assert(seen =~= seen.drop_last() + seq![idx as int]);
                    assert(seen == path);
                    lemma_cleared_links_ok(log, path);
                }
                let ghost total = forward_parents@;
                let ghost mid = res@;
                proof {
                    assert(path.take(path.len() as int) =~= path);
                    assert(total.take(total.len() as int) =~= total);
                }
                while forward_parents.len() > 0
                    invariant
                        forward_parents@.len() <= path.len(),
                        total.len() == path.len(),
                        forward_parents@ == total.take(forward_parents@.len() as int),
                        forall|k: int|
                            0 <= k < path.len() ==> 0 <= (#[trigger] path[k]) < log.len()
                                && log[path[k]] is Start && total[k] == log[path[k]]->Start_kind,
                        mid == before,
                        res@ + enters(log, path.take(forward_parents@.len() as int)) == mid
                            + enters(log, path),
                    decreases forward_parents@.len(),
                {
                    let ghost n = forward_parents@.len() as int;
                    let ghost shown = res@;
                    let kind = forward_parents.pop().unwrap();
                    proof {
                        let part = path.take(n);
                        assert(part.last() == path[n - 1]);
                        assert(part.drop_last() =~= path.take(n - 1));
                        assert(kind == log[path[n - 1]]->Start_kind);
                        assert(forward_parents@ =~= total.take(n - 1));
                    }
                    if kind != SyntaxKind::TOMBSTONE {
                        res.enter_node(kind);
                        proof {
                            let part = path.take(n);
                            assert(res@ + enters(log, path.take(n - 1)) =~= shown + (seq![
                                StepModel::Enter { kind },
                            ] + enters(log, part.drop_last())));
                        }
                    }
                }
                proof {
                    assert(path.take(0) =~= Seq::<int>::empty());
                    assert(res@ + enters(log, path.take(0)) =~= res@);
                    assert(res@ + process_from(cleared(log, path), i + 1) =~= before + (enters(
                        log,
                        path,
                    ) + process_from(cleared(log, path), i + 1)));
                }
            },
            Event::Finish => {
                res.leave_node();
                proof {
                    lemma_restore(log, i as int);
                    assert(res@ + process_from(log, i + 1) =~= before + (seq![StepModel::Exit]
                        + process_from(log, i + 1)));
                }
            },
            Event::Token { kind, n_raw_tokens } => {
                res.token(kind, n_raw_tokens);
                proof {
                    lemma_restore(log, i as int);
                    assert(res@ + process_from(log, i + 1) =~= before + (seq![
                        StepModel::Token { kind, n_input_tokens: n_raw_tokens },
                    ] + process_from(log, i + 1)));
                }
            },
            Event::Error { msg } => {
                let ghost text = msg@;
                res.error(msg);
                proof {
                    lemma_restore(log, i as int);
                    assert(res@ + process_from(log, i + 1) =~= before + (seq![
                        StepModel::Error { msg: text },
                    ] + process_from(log, i + 1)));
                }
            },
        }
        i += 1;
    }
    assert(res@ + process_from(log_view(events@), i as int) =~= res@);
    res
}

/// What the log yields after position `i` does not depend on the event at `i`.
proof fn lemma_restore(log: Seq<EventModel>, i: int)
    requires
        0 <= i < log.len(),
        links_ok(log),
    ensures
        process_from(log.update(i, tombstone()), i + 1) == process_from(log, i + 1),
        links_ok(log.update(i, tombstone())),
{
    let other = log.update(i, tombstone());
    assert forall|k: int| 0 <= k < other.len() implies #[trigger] link_ok(other, k) by {
        assert(link_ok(log, k));
    }
    lemma_process_suffix(other, log, i + 1);
}

/// The chain from `i` depends only on the log from `i` on.
proof fn lemma_chain_suffix(a: Seq<EventModel>, b: Seq<EventModel>, i: int)
    requires
        a.len() == b.len(),
        forall|k: int| i <= k < a.len() ==> a[k] == b[k],
        0 <= i,
    ensures
        chain(a, i) == chain(b, i),
    decreases a.len() - i,
{
    if i < a.len() {
        match a[i] {
            EventModel::Start { forward_parent: Some(d), .. } => {
                if d >= 1 && i + d < a.len() {
                    lemma_chain_suffix(a, b, i + d);
                }
            },
            _ => {},
        }
    }
}

/// The nodes that positions open depend only on the events at those positions.
proof fn lemma_enters_agree(a: Seq<EventModel>, b: Seq<EventModel>, at: Seq<int>)
    requires
        forall|k: int| 0 <= k < at.len() ==> a[#[trigger] at[k]] == b[at[k]],
    ensures
        enters(a, at) == enters(b, at),
    decreases at.len(),
{
    if at.len() > 0 {
        assert(a[at[at.len() - 1]] == b[at[at.len() - 1]]);
        assert forall|k: int| 0 <= k < at.drop_last().len() implies a[#[trigger] at.drop_last()[k]]
            == b[at.drop_last()[k]] by {
            assert(at.drop_last()[k] == at[k]);
        }
        lemma_enters_agree(a, b, at.drop_last());
    }
}

/// What a log yields from `i` on depends only on the log from `i` on.
proof fn lemma_process_suffix(a: Seq<EventModel>, b: Seq<EventModel>, i: int)
    requires
        a.len() == b.len(),
        forall|k: int| i <= k < a.len() ==> a[k] == b[k],
        0 <= i,
        links_ok(a),
        links_ok(b),
    ensures
        process_from(a, i) == process_from(b, i),
    decreases a.len() - i,
{
    if i < a.len() {
        match a[i] {
            EventModel::Start { .. } => {
                lemma_chain_suffix(a, b, i);
                lemma_chain_positions(a, i);
                lemma_chain_positions(b, i);
                let path = chain(a, i);
                lemma_enters_agree(a, b, path);
                lemma_cleared_links_ok(a, path);
                lemma_cleared_links_ok(b, path);
                lemma_process_suffix(cleared(a, path), cleared(b, path), i + 1);
            },
            _ => {
                lemma_process_suffix(a, b, i + 1);
            },
        }
    }
}

} // verus!
