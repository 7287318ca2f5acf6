//! The parser engine: lookahead, the event log, markers and indentation blocks.

use vstd::prelude::*;
use vstd::string::StringExecFns;

use crate::event::{
    consumed, consumed_by, lemma_consumed_drop_last, lemma_consumed_push, lemma_consumed_update,
    link_ok, links_ok, log_view, tombstone, Event, EventModel,
};
use crate::input::{token_at, Input, Token};
use crate::syntax_kind::SyntaxKind;

verus! {

/// `drop_bomb::DropBomb`, carried as an opaque value.
#[verifier::external_type_specification]
#[verifier::external_body]
pub struct ExDropBomb(drop_bomb::DropBomb);

/// `drop_bomb::DropBomb::new` with the message of an unresolved marker. The
/// bomb panics when it is dropped without having been defused; nothing else
/// is claimed of it.
#[verifier::external_body]
fn arm_bomb() -> (bomb: drop_bomb::DropBomb) {
    drop_bomb::DropBomb::new("Marker must be either completed or abandoned")
}

/// `drop_bomb::DropBomb::defuse`: after the call, dropping the bomb is silent.
/// The bomb is opaque here, so the contract claims nothing.
pub assume_specification[ drop_bomb::DropBomb::defuse ](bomb: &mut drop_bomb::DropBomb)
;

/// The number of lookaheads without progress after which the parser counts as stuck.
pub const PARSER_STEP_LIMIT: u32 = 15_000_000;

/// The state of one parse: a cursor into the input, the log of events, the
/// stack of indentation thresholds and the count of lookaheads since the last
/// consumed token.
pub struct Parser<'t> {
    input: &'t Input,
    pos: usize,
    events: Vec<Event>,
    steps: u32,
    indentation_blocks: Vec<u32>,
    pending: Ghost<Set<int>>,
}

/// The handle of a node that has been opened and is neither completed nor
/// abandoned yet.
///
/// A marker must be resolved by exactly one of [`Marker::complete`],
/// [`Marker::abandon`] and [`CompletedMarker::extend_to`], each of which
/// takes it by value. The parser keeps count of the unresolved markers, and
/// [`Parser::finish`] asks that none is left. A marker that is dropped
/// unresolved sets off the bomb it carries.
pub struct Marker {
    pos: u32,
    bomb: drop_bomb::DropBomb,
}

/// The handle of a completed node: the positions of its `Start` and past its
/// `Finish`, and its kind.
pub struct CompletedMarker {
    start_pos: u32,
    end_pos: u32,
    kind: SyntaxKind,
}

/// Every unresolved marker stands on a placeholder of the log that nothing has touched.
pub open spec fn placeholders_ok(pending: Set<int>, log: Seq<EventModel>) -> bool {
    forall|pos: int| #[trigger]
        pending.contains(pos) ==> 0 <= pos < log.len() && log[pos] == tombstone()
}

/// Whether some event of the log names position `pos` as its forward parent.
pub open spec fn is_forward_parent(log: Seq<EventModel>, pos: int) -> bool {
    exists|i: int|
        0 <= i < log.len() && (#[trigger] log[i]) is Start && log[i]->Start_forward_parent
            == Some((pos - i) as u32) && 0 < pos - i <= u32::MAX
}

impl<'t> Parser<'t> {
    /// The tokens of the input.
    pub closed spec fn tokens(&self) -> Seq<Token> {
        self.input@
    }

    /// The index of the current token.
    pub closed spec fn cursor(&self) -> int {
        self.pos as int
    }

    /// The events logged so far.
    pub closed spec fn log(&self) -> Seq<EventModel> {
        log_view(self.events@)
    }

    /// The number of lookaheads since the last consumed token.
    pub closed spec fn ticks(&self) -> int {
        self.steps as int
    }

    /// The stack of indentation thresholds, the innermost last.
    pub closed spec fn blocks(&self) -> Seq<u32> {
        self.indentation_blocks@
    }

    /// The log positions of the markers that are still unresolved.
    pub closed spec fn pending(&self) -> Set<int> {
        self.pending@
    }

    /// The kind of the current token.
    pub open spec fn current_kind(&self) -> SyntaxKind {
        token_at(self.tokens(), self.cursor()).kind
    }

    /// The invariant of the parser: the cursor is inside the input and has
    /// passed exactly the tokens that the log consumes, every forward parent
    /// of the log points at a later `Start`, there is a current indentation
    /// block, and every unresolved marker stands on its untouched placeholder.
    pub open spec fn wf(&self) -> bool {
        &&& 0 <= self.cursor() <= self.tokens().len()
        &&& consumed(self.log()) == self.cursor()
        &&& links_ok(self.log())
        &&& self.blocks().len() >= 1
        &&& 0 <= self.ticks() <= PARSER_STEP_LIMIT
        &&& placeholders_ok(self.pending(), self.log())
    }

    /// Whether `other` differs from `self` at most in the log, the unresolved
    /// markers and the lookahead count.
    pub open spec fn same_place(&self, other: &Parser<'t>) -> bool {
        &&& self.tokens() == other.tokens()
        &&& self.cursor() == other.cursor()
        &&& self.blocks() == other.blocks()
    }

    /// A parser at the start of `input`, with an empty log and the ground
    /// indentation block at column 0.
    pub fn new(input: &'t Input) -> (p: Parser<'t>)
        ensures
            p.wf(),
            p.tokens() == input@,
            p.cursor() == 0,
            p.log() == Seq::<EventModel>::empty(),
            p.ticks() == 0,
            p.blocks() == seq![0u32],
            p.pending() == Set::<int>::empty(),
    {
        let mut indentation_blocks: Vec<u32> = Vec::new();
        indentation_blocks.push(0);
        let p = Parser {
            input,
            pos: 0,
            events: Vec::new(),
            steps: 0,
            indentation_blocks,
            pending: Ghost(Set::empty()),
        };
        assert(p.log() =~= Seq::<EventModel>::empty());
        assert(p.blocks() =~= seq![0u32]);
        p
    }

    /// Ends the parse and hands out the log. Every marker must have been resolved.
    pub fn finish(self) -> (events: Vec<Event>)
        requires
            self.wf(),
            self.pending() =~= Set::<int>::empty(),
        ensures
            log_view(events@) == self.log(),
            links_ok(log_view(events@)),
    {
        self.events
    }

    /// The current token. Counts as one lookahead.
    pub fn current(&mut self) -> (t: Token)
        requires
            old(self).wf(),
            old(self).ticks() < PARSER_STEP_LIMIT,
        ensures
            t == token_at(old(self).tokens(), old(self).cursor()),
            final(self).wf(),
            old(self).same_place(final(self)),
            final(self).log() == old(self).log(),
            final(self).pending() == old(self).pending(),
            final(self).ticks() == old(self).ticks() + 1,
    {
        self.nth(0)
    }

    /// The token `n` places after the current one, for `n` up to 3. Counts as
    /// one lookahead.
    pub fn nth(&mut self, n: usize) -> (t: Token)
        requires
            old(self).wf(),
            n <= 3,
            old(self).ticks() < PARSER_STEP_LIMIT,
        ensures
            t == token_at(old(self).tokens(), old(self).cursor() + n),
            final(self).wf(),
            old(self).same_place(final(self)),
            final(self).log() == old(self).log(),
            final(self).pending() == old(self).pending(),
            final(self).ticks() == old(self).ticks() + 1,
    {
        self.steps = self.steps + 1;
        self.token_ahead(n)
    }

    /// The token `n` places after the current one, without counting a lookahead.
    fn token_ahead(&self, n: usize) -> (t: Token)
        requires
            self.cursor() <= self.tokens().len(),
        ensures
            t == token_at(self.tokens(), self.cursor() + n),
    {
        if n >= self.input.len() - self.pos {
            Token { kind: SyntaxKind::EOF, col: 0 }
        } else {
            self.input.token(self.pos + n)
        }
    }

    /// Whether the current token is of the given kind. Counts as no lookahead.
    pub fn at(&self, kind: SyntaxKind) -> (r: bool)
        requires
            self.wf(),
        ensures
            r == (self.current_kind() == kind),
    {
        self.nth_at(0, kind)
    }

    /// Whether the token `n` places ahead is of the given kind.
    fn nth_at(&self, n: usize, kind: SyntaxKind) -> (r: bool)
        requires
            self.wf(),
        ensures
            r == (token_at(self.tokens(), self.cursor() + n).kind == kind),
    {
        self.token_ahead(n).kind == kind
    }

    /// Appends an event that has no forward parent.
    fn push_event(&mut self, event: Event)
        requires
            links_ok(old(self).log()),
            placeholders_ok(old(self).pending(), old(self).log()),
            event@ is Start ==> event@->Start_forward_parent is None,
        ensures
            links_ok(final(self).log()),
            placeholders_ok(final(self).pending(), final(self).log()),
            consumed(final(self).log()) == consumed(old(self).log()) + consumed_by(event@),
            old(self).same_place(final(self)),
            final(self).log() == old(self).log().push(event@),
            final(self).pending() == old(self).pending(),
            final(self).ticks() == old(self).ticks(),
    {
        self.events.push(event);
        proof {
            assert(self.log() =~= old(self).log().push(event@));
            lemma_consumed_push(old(self).log(), event@, 0);
            assert forall|i: int| 0 <= i < self.log().len() implies #[trigger] link_ok(
                self.log(),
                i,
            ) by {
                if i < old(self).log().len() {
                    assert(link_ok(old(self).log(), i));
                }
            }
        }
    }

    /// Opens a node: logs its placeholder and hands out the marker that must
    /// later complete or abandon it.
    pub fn start(&mut self) -> (m: Marker)
        requires
            old(self).wf(),
            old(self).log().len() < u32::MAX,
        ensures
            final(self).wf(),
            old(self).same_place(final(self)),
            final(self).log() == old(self).log().push(tombstone()),
            final(self).pending() == old(self).pending().insert(m.position()),
            final(self).ticks() == old(self).ticks(),
            m.position() == old(self).log().len(),
    {
        let pos = self.events.len() as u32;
        self.push_event(Event::tombstone());
        proof {
            self.pending@ = self.pending@.insert(pos as int);
        }
        Marker::new(pos)
    }

    /// Consumes the current token, which must be of the given kind and a
    /// token of the input: past the end of the input there is nothing to consume.
    pub fn bump(&mut self, kind: SyntaxKind)
        requires
            old(self).wf(),
            old(self).cursor() < old(self).tokens().len(),
            old(self).current_kind() == kind,
        ensures
            final(self).wf(),
            final(self).tokens() == old(self).tokens(),
            final(self).blocks() == old(self).blocks(),
            final(self).pending() == old(self).pending(),
            final(self).cursor() == old(self).cursor() + 1,
            final(self).ticks() == 0,
            final(self).log() == old(self).log().push(
                EventModel::Token { kind, n_raw_tokens: 1 },
            ),
    {
        let eaten = self.eat(kind);
        assert(eaten);
    }

    /// Consumes the current token if it is of the given kind, and says
    /// whether it did. Without a match nothing changes. Past the end of the
    /// input there is nothing to consume, so the end of the input cannot be
    /// eaten there.
    pub fn eat(&mut self, kind: SyntaxKind) -> (eaten: bool)
        requires
            old(self).wf(),
            kind != SyntaxKind::EOF || old(self).cursor() < old(self).tokens().len(),
        ensures
            eaten == (old(self).current_kind() == kind),
            final(self).wf(),
            final(self).tokens() == old(self).tokens(),
            final(self).blocks() == old(self).blocks(),
            final(self).pending() == old(self).pending(),
            eaten ==> {
                &&& final(self).cursor() == old(self).cursor() + 1
                &&& final(self).ticks() == 0
                &&& final(self).log() == old(self).log().push(
                    EventModel::Token { kind, n_raw_tokens: 1 },
                )
            },
            !eaten ==> {
                &&& final(self).cursor() == old(self).cursor()
                &&& final(self).ticks() == old(self).ticks()
                &&& final(self).log() == old(self).log()
            },
    {
        if !self.at(kind) {
            return false;
        }
        let n_raw_tokens: u8 = 1;

        self.do_bump(kind, n_raw_tokens);
        true
    }

    /// Moves the cursor over `n_raw_tokens` tokens of the input and logs them
    /// as one token of the given kind. Resets the lookahead count.
    pub fn do_bump(&mut self, kind: SyntaxKind, n_raw_tokens: u8)
        requires
            old(self).wf(),
            old(self).cursor() + n_raw_tokens <= old(self).tokens().len(),
        ensures
            final(self).wf(),
            final(self).tokens() == old(self).tokens(),
            final(self).blocks() == old(self).blocks(),
            final(self).pending() == old(self).pending(),
            final(self).cursor() == old(self).cursor() + n_raw_tokens,
            final(self).ticks() == 0,
            final(self).log() == old(self).log().push(EventModel::Token { kind, n_raw_tokens }),
    {
        proof {
            self.input.lemma_len_fits();
        }
        self.pos += n_raw_tokens as usize;
        self.steps = 0;
        self.push_event(Event::Token { kind, n_raw_tokens });
    }

    /// Consumes the current token whatever its kind. Does nothing at the end
    /// of the input. Counts as one lookahead.
    pub fn bump_any(&mut self)
        requires
            old(self).wf(),
            old(self).ticks() < PARSER_STEP_LIMIT,
        ensures
            final(self).wf(),
            final(self).tokens() == old(self).tokens(),
            final(self).blocks() == old(self).blocks(),
            final(self).pending() == old(self).pending(),
            old(self).current_kind() == SyntaxKind::EOF ==> {
                &&& final(self).cursor() == old(self).cursor()
                &&& final(self).ticks() == old(self).ticks() + 1
                &&& final(self).log() == old(self).log()
            },
            old(self).current_kind() != SyntaxKind::EOF ==> {
                &&& final(self).cursor() == old(self).cursor() + 1
                &&& final(self).ticks() == 0
                &&& final(self).log() == old(self).log().push(
                    EventModel::Token { kind: old(self).current_kind(), n_raw_tokens: 1 },
                )
            },
    {
        let kind = self.nth(0).kind;
        if kind == SyntaxKind::EOF {
            return ;
        }
        self.do_bump(kind, 1);
    }

    /// Logs a diagnostic. Consumes nothing.
    pub fn error(&mut self, message: &str)
        requires
            old(self).wf(),
        ensures
            final(self).wf(),
            old(self).same_place(final(self)),
            final(self).pending() == old(self).pending(),
            final(self).ticks() == old(self).ticks(),
            final(self).log() == old(self).log().push(EventModel::Error { msg: message@ }),
    {
        let msg = message.to_owned();
        self.push_event(Event::Error { msg });
    }

    /// Consumes the current token if it is of the given kind; otherwise logs
    /// that the kind was expected and consumes nothing.
    pub fn expect(&mut self, kind: SyntaxKind) -> (found: bool)
        requires
            old(self).wf(),
            kind != SyntaxKind::EOF || old(self).cursor() < old(self).tokens().len(),
        ensures
            found == (old(self).current_kind() == kind),
            final(self).wf(),
            final(self).tokens() == old(self).tokens(),
            final(self).blocks() == old(self).blocks(),
            final(self).pending() == old(self).pending(),
            found ==> {
                &&& final(self).cursor() == old(self).cursor() + 1
                &&& final(self).ticks() == 0
                &&& final(self).log() == old(self).log().push(
                    EventModel::Token { kind, n_raw_tokens: 1 },
                )
            },
            !found ==> {
                &&& final(self).cursor() == old(self).cursor()
                &&& final(self).ticks() == old(self).ticks()
                &&& final(self).log() == old(self).log().push(
                    EventModel::Error { msg: expected_message(kind) },
                )
            },
    {
        if self.eat(kind) {
            return true;
        }
        let mut message = String::from_str("expected ");
        message.append(kind.debug_name());
        self.error(message.as_str());
        false
    }

    /// Makes the column of the current token the innermost indentation
    /// threshold and returns it. Counts as one lookahead.
    pub fn new_indent_block(&mut self) -> (col: u32)
        requires
            old(self).wf(),
            old(self).ticks() < PARSER_STEP_LIMIT,
        ensures
            col == token_at(old(self).tokens(), old(self).cursor()).col,
            final(self).wf(),
            final(self).tokens() == old(self).tokens(),
            final(self).cursor() == old(self).cursor(),
            final(self).log() == old(self).log(),
            final(self).pending() == old(self).pending(),
            final(self).ticks() == old(self).ticks() + 1,
            final(self).blocks() == old(self).blocks().push(col),
    {
        let col = self.current().col;
        self.indentation_blocks.push(col);
        col
    }

    /// Removes the innermost indentation threshold. The ground block stays.
    pub fn drop_indent_block(&mut self)
        requires
            old(self).wf(),
            old(self).blocks().len() >= 2,
        ensures
            final(self).wf(),
            final(self).tokens() == old(self).tokens(),
            final(self).cursor() == old(self).cursor(),
            final(self).log() == old(self).log(),
            final(self).pending() == old(self).pending(),
            final(self).ticks() == old(self).ticks(),
            final(self).blocks() == old(self).blocks().drop_last(),
    {
        self.indentation_blocks.pop();
    }

    /// The innermost indentation threshold and the number of blocks below it.
    pub fn get_current_indent_block(&self) -> (r: (u32, usize))
        requires
            self.wf(),
        ensures
            r.0 == self.blocks().last(),
            r.1 == self.blocks().len() - 1,
    {
        let depth = self.indentation_blocks.len() - 1;
        (self.indentation_blocks[depth], depth)
    }

    /// The indentation threshold at `index` of the stack, the ground block at 0.
    pub fn get_indent_block(&self, index: usize) -> (col: u32)
        requires
            index < self.blocks().len(),
        ensures
            col == self.blocks()[index as int],
    {
        self.indentation_blocks[index]
    }
}

/// The diagnostic that `expect` logs for a missing token of the given kind.
pub open spec fn expected_message(kind: SyntaxKind) -> Seq<char> {
    "expected "@ + kind.name()
}

impl Marker {
    /// The log position of the node's `Start`.
    pub closed spec fn position(&self) -> int {
        self.pos as int
    }

    fn new(pos: u32) -> (m: Marker)
        ensures
            m.position() == pos,
    {
        Marker { pos, bomb: arm_bomb() }
    }

    /// Completes the node with the given kind: writes the kind into its
    /// `Start`, logs the matching `Finish`, and resolves the marker.
    pub fn complete(self, p: &mut Parser<'_>, kind: SyntaxKind) -> (done: CompletedMarker)
        requires
            old(p).wf(),
            old(p).pending().contains(self.position()),
            old(p).log().len() < u32::MAX,
        ensures
            final(p).wf(),
            old(p).same_place(final(p)),
            final(p).ticks() == old(p).ticks(),
            final(p).pending() == old(p).pending().remove(self.position()),
            final(p).log() == old(p).log().update(
                self.position(),
                EventModel::Start { kind, forward_parent: None },
            ).push(EventModel::Finish),
            done.start() == self.position(),
            done.end() == old(p).log().len() + 1,
            done.spec_kind() == kind,
    {
        let mut marker = self;
        marker.bomb.defuse();

        let idx = marker.pos as usize;
        match &mut p.events[idx] {
            Event::Start { kind: slot, .. } => {
                *slot = kind;
            },
            _ => {},
        }
        proof {
            p.pending@ = p.pending@.remove(idx as int);
            let now = p.log();
            assert(now =~= old(p).log().update(
                idx as int,
                EventModel::Start { kind, forward_parent: None },
            ));
            assert forall|i: int| 0 <= i < now.len() implies #[trigger] link_ok(now, i) by {
                assert(link_ok(old(p).log(), i));
            }
            lemma_consumed_update(
                old(p).log(),
                idx as int,
                EventModel::Start { kind, forward_parent: None },
                0,
            );
        }
        p.push_event(Event::Finish);
        assert(p.log().len() == p.events@.len());
        let end_pos = p.events.len() as u32;
        CompletedMarker::new(marker.pos, end_pos, kind)
    }

    /// Abandons the node, so that what was logged for it falls to its parent.
    /// A placeholder that is still the last event is removed; otherwise it
    /// stays in the log as a tombstone.
    pub fn abandon(self, p: &mut Parser<'_>)
        requires
            old(p).wf(),
            old(p).pending().contains(self.position()),
            self.position() == old(p).log().len() - 1 ==> !is_forward_parent(
                old(p).log(),
                self.position(),
            ),
        ensures
            final(p).wf(),
            old(p).same_place(final(p)),
            final(p).ticks() == old(p).ticks(),
            final(p).pending() == old(p).pending().remove(self.position()),
            final(p).log() == if self.position() == old(p).log().len() - 1 {
                old(p).log().drop_last()
            } else {
                old(p).log()
            },
    {
        let mut marker = self;
        marker.bomb.defuse();
        let idx = marker.pos as usize;
        proof {
            p.pending@ = p.pending@.remove(idx as int);
        }
        if idx == p.events.len() - 1 {
            p.events.pop();
            proof {
                let before = old(p).log();
                let now = p.log();
                assert(now =~= before.drop_last());
                lemma_consumed_drop_last(before);
                assert forall|i: int| 0 <= i < now.len() implies #[trigger] link_ok(now, i) by {
                    assert(link_ok(before, i));
                    match before[i] {
                        EventModel::Start { forward_parent: Some(d), .. } => {
                            if i + d == idx {
                                assert(before[i]->Start_forward_parent == Some((idx - i) as u32));
                                assert(is_forward_parent(before, idx as int));
                            }
                        },
                        _ => {},
                    }
                }
            }
        }
    }
}

impl CompletedMarker {
    /// The log position of the node's `Start`.
    pub closed spec fn start(&self) -> int {
        self.start_pos as int
    }

    /// The log position after the node's `Finish`.
    pub closed spec fn end(&self) -> int {
        self.end_pos as int
    }

    /// The kind with which the node was completed.
    pub closed spec fn spec_kind(&self) -> SyntaxKind {
        self.kind
    }

    fn new(start_pos: u32, end_pos: u32, kind: SyntaxKind) -> (done: Self)
        ensures
            done.start() == start_pos,
            done.end() == end_pos,
            done.spec_kind() == kind,
    {
        CompletedMarker { start_pos, end_pos, kind }
    }

    /// Opens a node that becomes the parent of this completed node although it
    /// is logged after it: the new placeholder goes to the end of the log,
    /// and this node's `Start` records the distance to it.
    pub fn precede(self, p: &mut Parser<'_>) -> (m: Marker)
        requires
            old(p).wf(),
            old(p).log().len() < u32::MAX,
            self.start() < old(p).log().len(),
            old(p).log()[self.start()] is Start,
            !old(p).pending().contains(self.start()),
        ensures
            final(p).wf(),
            old(p).same_place(final(p)),
            final(p).ticks() == old(p).ticks(),
            final(p).pending() == old(p).pending().insert(m.position()),
            m.position() == old(p).log().len(),
            final(p).log() == old(p).log().push(tombstone()).update(
                self.start(),
                EventModel::Start {
                    kind: old(p).log()[self.start()]->Start_kind,
                    forward_parent: Some((old(p).log().len() - self.start()) as u32),
                },
            ),
    {
        let new_pos = p.start();
        let idx = self.start_pos as usize;
        let ghost before = p.log();
        let distance = new_pos.pos - self.start_pos;
        assert(p.log().len() == p.events@.len());
        match &mut p.events[idx] {
            Event::Start { forward_parent, .. } => {
                *forward_parent = Some(distance);
            },
            _ => {},
        }
        proof {
            let now = p.log();
            assert(now =~= before.update(
                idx as int,
                EventModel::Start {
                    kind: before[idx as int]->Start_kind,
                    forward_parent: Some(distance),
                },
            ));
            assert forall|i: int| 0 <= i < now.len() implies #[trigger] link_ok(now, i) by {
                assert(link_ok(before, i));
            }
            lemma_consumed_update(
                before,
                idx as int,
                EventModel::Start {
                    kind: before[idx as int]->Start_kind,
                    forward_parent: Some(distance),
                },
                0,
            );
        }
        new_pos
    }

    /// Grows this completed node to the left: the earlier, still unresolved
    /// marker `m` is resolved, and its placeholder records this node's `Start`
    /// as its forward parent, so that the node opens where `m` was opened.
    pub fn extend_to(self, p: &mut Parser<'_>, m: Marker) -> (done: CompletedMarker)
        requires
            old(p).wf(),
            old(p).pending().contains(m.position()),
            m.position() < self.start() < old(p).log().len(),
            old(p).log()[self.start()] is Start,
        ensures
            final(p).wf(),
            old(p).same_place(final(p)),
            final(p).ticks() == old(p).ticks(),
            final(p).pending() == old(p).pending().remove(m.position()),
            final(p).log() == old(p).log().update(
                m.position(),
                EventModel::Start {
                    kind: SyntaxKind::TOMBSTONE,
                    forward_parent: Some((self.start() - m.position()) as u32),
                },
            ),
            done.start() == self.start(),
            done.end() == self.end(),
            done.spec_kind() == self.spec_kind(),
    {
        let mut marker = m;
        marker.bomb.defuse();
        let idx = marker.pos as usize;
        let distance = self.start_pos - marker.pos;
        assert(p.log().len() == p.events@.len());
        match &mut p.events[idx] {
            Event::Start { forward_parent, .. } => {
                *forward_parent = Some(distance);
            },
            _ => {},
        }
        proof {
            p.pending@ = p.pending@.remove(idx as int);
            let before = old(p).log();
            let now = p.log();
            assert(now =~= before.update(
                idx as int,
                EventModel::Start { kind: SyntaxKind::TOMBSTONE, forward_parent: Some(distance) },
            ));
            assert forall|i: int| 0 <= i < now.len() implies #[trigger] link_ok(now, i) by {
                assert(link_ok(before, i));
            }
            lemma_consumed_update(
                before,
                idx as int,
                EventModel::Start { kind: SyntaxKind::TOMBSTONE, forward_parent: Some(distance) },
                0,
            );
        }
        self
    }

    /// The kind with which the node was completed.
    pub fn kind(&self) -> (kind: SyntaxKind)
        ensures
            kind == self.spec_kind(),
    {
        self.kind
    }
}

} // verus!
