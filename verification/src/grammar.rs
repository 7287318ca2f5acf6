//! The grammar: what every rule logs, as a function of the tokens, and the
//! recursive-descent functions that log it.

use vstd::prelude::*;

use crate::event::{
    lemma_level_concat, lemma_level_leaf, lemma_level_node, level, log_nested, unit_events,
    EventModel,
};
use crate::input::{token_at, Token};
use crate::parser::{expected_message, is_forward_parent, Marker, Parser, PARSER_STEP_LIMIT};
use crate::syntax_kind::SyntaxKind;

verus! {

/// What a rule of the grammar does when it is applied at some token: the
/// events it logs, the token at which it stops, the lookahead count it leaves
/// behind, and the highest count at which it looked ahead.
pub struct Parsed {
    pub events: Seq<EventModel>,
    pub pos: int,
    pub ticks: int,
    pub peak: int,
}

/// The rules that a block can repeat.
#[derive(Clone, Copy, Debug, PartialEq, Eq, Structural)]
pub enum Rule {
    /// A value binding or a nested module.
    Item,
}

/// The kind of the token at `pos`.
pub open spec fn kind_at(tokens: Seq<Token>, pos: int) -> SyntaxKind {
    token_at(tokens, pos).kind
}

/// The column of the token at `pos`.
pub open spec fn col_at(tokens: Seq<Token>, pos: int) -> u32 {
    token_at(tokens, pos).col
}

/// The larger of two counts.
pub open spec fn higher(a: int, b: int) -> int {
    if a >= b {
        a
    } else {
        b
    }
}

/// A `Start` event of a completed node.
pub open spec fn start_of(kind: SyntaxKind) -> EventModel {
    EventModel::Start { kind, forward_parent: None }
}

/// The event of one consumed token.
pub open spec fn token_of(kind: SyntaxKind) -> EventModel {
    EventModel::Token { kind, n_raw_tokens: 1 }
}

/// The event of a diagnostic.
pub open spec fn error_of(msg: Seq<char>) -> EventModel {
    EventModel::Error { msg }
}

/// A name: an identifier wrapped in a `NAME` node. Where there is no
/// identifier, a diagnostic, and nothing is consumed.
pub open spec fn name_rule(tokens: Seq<Token>, pos: int, ticks: int) -> Parsed {
    if kind_at(tokens, pos) == SyntaxKind::IDENT {
        Parsed {
            events: seq![
                start_of(SyntaxKind::NAME),
                token_of(SyntaxKind::IDENT),
                EventModel::Finish,
            ],
            pos: pos + 1,
            ticks: 0,
            peak: 0,
        }
    } else {
        Parsed { events: seq![error_of("expected a name"@)], pos, ticks, peak: 0 }
    }
}

/// The events of an optional `=` at `pos`.
pub open spec fn optional_eq(tokens: Seq<Token>, pos: int) -> Seq<EventModel> {
    if kind_at(tokens, pos) == SyntaxKind::EQ {
        seq![token_of(SyntaxKind::EQ)]
    } else {
        Seq::empty()
    }
}

/// The events of a required `=` at `pos`.
pub open spec fn required_eq(tokens: Seq<Token>, pos: int) -> Seq<EventModel> {
    if kind_at(tokens, pos) == SyntaxKind::EQ {
        seq![token_of(SyntaxKind::EQ)]
    } else {
        seq![error_of(expected_message(SyntaxKind::EQ))]
    }
}

/// The position after an `=` at `pos`, or `pos` itself where there is none.
pub open spec fn after_eq(tokens: Seq<Token>, pos: int) -> int {
    if kind_at(tokens, pos) == SyntaxKind::EQ {
        pos + 1
    } else {
        pos
    }
}

/// A value binding at `pos`, where the keyword `let` stands: the keyword, a
/// name and an optional `=`, wrapped in a `LET_DECL` node.
pub open spec fn let_rule(tokens: Seq<Token>, pos: int) -> Parsed {
    let name = name_rule(tokens, pos + 1, 0);
    Parsed {
        events: seq![start_of(SyntaxKind::LET_DECL), token_of(SyntaxKind::LET_KW)] + name.events
            + optional_eq(tokens, name.pos) + seq![EventModel::Finish],
        pos: after_eq(tokens, name.pos),
        ticks: 0,
        peak: 0,
    }
}

/// The events with which every module begins: the keyword, a name and the required `=`.
pub open spec fn module_head(tokens: Seq<Token>, pos: int) -> Seq<EventModel> {
    let name = name_rule(tokens, pos + 1, 0);
    seq![start_of(SyntaxKind::MODULE), token_of(SyntaxKind::MODULE_KW)] + name.events
        + required_eq(tokens, name.pos)
}

/// The position at which the body of the module at `pos` would begin.
pub open spec fn module_body_pos(tokens: Seq<Token>, pos: int) -> int {
    after_eq(tokens, name_rule(tokens, pos + 1, 0).pos)
}

/// A nested module at `pos`, where the keyword `module` stands. Its body
/// must begin at a column greater than that of the keyword; where it does
/// not, a diagnostic is logged and the module is closed without a body.
pub open spec fn module_rule(tokens: Seq<Token>, pos: int, ticks: int) -> Parsed
    decreases tokens.len() - pos, 0int,
{
    let body = module_body_pos(tokens, pos);
    if kind_at(tokens, pos) != SyntaxKind::MODULE_KW {
        Parsed { events: Seq::empty(), pos, ticks, peak: 0 }
    } else if col_at(tokens, body) <= col_at(tokens, pos) {
        Parsed {
            events: module_head(tokens, pos) + seq![
                error_of("module should contain at least one item"@),
                EventModel::Finish,
            ],
            pos: body,
            ticks: 1,
            peak: ticks,
        }
    } else {
        let contents = contents_rule(tokens, body, 1);
        Parsed {
            events: module_head(tokens, pos) + contents.events + seq![EventModel::Finish],
            pos: contents.pos,
            ticks: contents.ticks,
            peak: higher(ticks, contents.peak),
        }
    }
}

/// The body of a module: the items that begin at the column of its first token.
pub open spec fn contents_rule(tokens: Seq<Token>, pos: int, ticks: int) -> Parsed
    decreases tokens.len() - pos, 3int,
{
    let items = many_rule(Rule::Item, tokens, pos, col_at(tokens, pos), ticks + 1);
    Parsed {
        events: items.events,
        pos: items.pos,
        ticks: items.ticks,
        peak: higher(ticks, items.peak),
    }
}

/// The longest run of applications of `rule`, each at a token whose column is `block`.
pub open spec fn many_rule(
    rule: Rule,
    tokens: Seq<Token>,
    pos: int,
    block: u32,
    ticks: int,
) -> Parsed
    decreases tokens.len() - pos, 2int,
{
    if kind_at(tokens, pos) == SyntaxKind::EOF {
        Parsed { events: Seq::empty(), pos, ticks, peak: 0 }
    } else if col_at(tokens, pos) != block {
        Parsed { events: Seq::empty(), pos, ticks: ticks + 1, peak: ticks }
    } else {
        let first = item_rule(tokens, pos, ticks + 1);
        if first.pos <= pos || first.pos > tokens.len() {
            first
        } else {
            let rest = many_rule(rule, tokens, first.pos, block, first.ticks);
            Parsed {
                events: first.events + rest.events,
                pos: rest.pos,
                ticks: rest.ticks,
                peak: higher(ticks, higher(first.peak, rest.peak)),
            }
        }
    }
}

/// An item at `pos`: a value binding, a nested module, or, for any other
/// token, one diagnostic and the token skipped.
pub open spec fn item_rule(tokens: Seq<Token>, pos: int, ticks: int) -> Parsed
    decreases tokens.len() - pos, 1int,
{
    let kind = kind_at(tokens, pos);
    if kind == SyntaxKind::LET_KW {
        let binding = let_rule(tokens, pos);
        Parsed { events: binding.events, pos: binding.pos, ticks: 0, peak: ticks }
    } else if kind == SyntaxKind::MODULE_KW {
        let module = module_rule(tokens, pos, ticks + 1);
        Parsed {
            events: module.events,
            pos: module.pos,
            ticks: module.ticks,
            peak: higher(ticks, module.peak),
        }
    } else if kind == SyntaxKind::EOF {
        Parsed { events: seq![error_of("expected item"@)], pos, ticks: ticks + 2, peak: ticks + 1 }
    } else {
        Parsed {
            events: seq![error_of("expected item"@), token_of(kind)],
            pos: pos + 1,
            ticks: 0,
            peak: ticks + 1,
        }
    }
}

/// A source file: the items at the column of the first token, wrapped in a `MODULE` node.
pub open spec fn source_file_rule(tokens: Seq<Token>) -> Parsed {
    let contents = contents_rule(tokens, 0, 0);
    Parsed {
        events: seq![start_of(SyntaxKind::MODULE)] + contents.events + seq![EventModel::Finish],
        pos: contents.pos,
        ticks: contents.ticks,
        peak: contents.peak,
    }
}

/// Whether the parser can apply a rule with result `r`, of whose events
/// `logged` stand in the log already: the log has room for the others, and no
/// lookahead of the rule finds the parser stuck.
pub open spec fn fits(p: &Parser<'_>, r: Parsed, logged: int) -> bool {
    &&& p.log().len() - logged + r.events.len() <= u32::MAX
    &&& r.peak < PARSER_STEP_LIMIT
}

/// Whether `after` is `before` with the rule result `r` applied on top of the
/// first `kept` events of its log.
pub open spec fn applied(before: &Parser<'_>, after: &Parser<'_>, r: Parsed, kept: int) -> bool {
    &&& after.wf()
    &&& after.tokens() == before.tokens()
    &&& after.blocks() == before.blocks()
    &&& after.log() == before.log().take(kept) + r.events
    &&& after.cursor() == r.pos
    &&& after.ticks() == r.ticks
}

/// A freshly opened marker is no forward parent: nothing was logged after it.
proof fn lemma_fresh_marker_unlinked(log: Seq<EventModel>)
    requires
        crate::event::links_ok(log),
    ensures
        !is_forward_parent(log.push(crate::event::tombstone()), log.len() as int),
{
    let grown = log.push(crate::event::tombstone());
    if is_forward_parent(grown, log.len() as int) {
        let i = choose|i: int|
            0 <= i < grown.len() && (#[trigger] grown[i]) is Start
                && grown[i]->Start_forward_parent == Some((log.len() - i) as u32) && 0 < log.len()
                - i <= u32::MAX;
        assert(crate::event::link_ok(log, i));
    }
}

/// Parses a source file: a `MODULE` node around the items of the top level.
pub fn source_file(p: &mut Parser<'_>)
    requires
        old(p).wf(),
        old(p).cursor() == 0,
        old(p).ticks() == 0,
        old(p).pending() =~= Set::<int>::empty(),
        fits(old(p), source_file_rule(old(p).tokens()), 0),
    ensures
        applied(old(p), final(p), source_file_rule(old(p).tokens()), old(p).log().len() as int),
        final(p).pending() == Set::<int>::empty(),
{
    let m = p.start();
    module_contents(p);
    m.complete(p, SyntaxKind::MODULE);
    proof {
        let before = old(p).log();
        assert(before.take(before.len() as int) =~= before);
        assert(p.log() =~= before + source_file_rule(p.tokens()).events);
        assert(p.pending() =~= Set::<int>::empty());
    }
}

/// Parses a name.
pub fn name(p: &mut Parser<'_>)
    requires
        old(p).wf(),
        fits(old(p), name_rule(old(p).tokens(), old(p).cursor(), old(p).ticks()), 0),
    ensures
        applied(
            old(p),
            final(p),
            name_rule(old(p).tokens(), old(p).cursor(), old(p).ticks()),
            old(p).log().len() as int,
        ),
        final(p).pending() == old(p).pending(),
{
    let ghost before = p.log();
    let ghost rule = name_rule(p.tokens(), p.cursor(), p.ticks());
    proof {
        assert(before.take(before.len() as int) =~= before);
    }
    if p.at(SyntaxKind::IDENT) {
        let m = p.start();
        p.bump(SyntaxKind::IDENT);
        m.complete(p, SyntaxKind::NAME);
        proof {
            assert(p.log() =~= before + rule.events);
            assert(p.pending() =~= old(p).pending());
        }
    } else {
        p.error("expected a name");
        proof {
            assert(p.log() =~= before + rule.events);
        }
    }
}

/// Parses the body of a module: opens an indentation block at the column of
/// the current token, parses the items that begin at that column, and closes
/// the block.
pub fn module_contents(p: &mut Parser<'_>)
    requires
        old(p).wf(),
        fits(old(p), contents_rule(old(p).tokens(), old(p).cursor(), old(p).ticks()), 0),
    ensures
        applied(
            old(p),
            final(p),
            contents_rule(old(p).tokens(), old(p).cursor(), old(p).ticks()),
            old(p).log().len() as int,
        ),
        final(p).pending() == old(p).pending(),
    decreases old(p).tokens().len() - old(p).cursor(), 4int,
{
    p.new_indent_block();

    p.many_same(Rule::Item);

    p.drop_indent_block();
    proof {
        assert(p.blocks() =~= old(p).blocks());
    }
}

/// Applies a rule at the current token.
pub fn apply(rule: Rule, p: &mut Parser<'_>)
    requires
        old(p).wf(),
        fits(old(p), item_rule(old(p).tokens(), old(p).cursor(), old(p).ticks()), 0),
    ensures
        applied(
            old(p),
            final(p),
            item_rule(old(p).tokens(), old(p).cursor(), old(p).ticks()),
            old(p).log().len() as int,
        ),
        final(p).pending() == old(p).pending(),
    decreases old(p).tokens().len() - old(p).cursor(), 2int,
{
    match rule {
        Rule::Item => item(p),
    }
}

/// Parses one item. An unrecognized token yields exactly one diagnostic and
/// is skipped, so that every item that does not stand at the end of the input
/// consumes at least one token.
pub fn item(p: &mut Parser<'_>)
    requires
        old(p).wf(),
        fits(old(p), item_rule(old(p).tokens(), old(p).cursor(), old(p).ticks()), 0),
    ensures
        applied(
            old(p),
            final(p),
            item_rule(old(p).tokens(), old(p).cursor(), old(p).ticks()),
            old(p).log().len() as int,
        ),
        final(p).pending() == old(p).pending(),
    decreases old(p).tokens().len() - old(p).cursor(), 1int,
{
    let ghost before = p.log();
    proof {
        assert(before.take(before.len() as int) =~= before);
    }
    let m = p.start();
    proof {
        assert(p.log().take(before.len() as int) =~= before);
        assert(p.log().drop_last() =~= before);
    }

    match p.current().kind {
        SyntaxKind::LET_KW => {
            let_(p, m);
            proof {
                assert(p.pending() =~= old(p).pending());
            }
        },
        SyntaxKind::MODULE_KW => {
            module(p, m);
            proof {
                assert(p.pending() =~= old(p).pending());
            }
        },
        _ => {
            proof {
                lemma_fresh_marker_unlinked(before);
            }
            m.abandon(p);
            p.error("expected item");
            p.bump_any();
            proof {
                assert(p.pending() =~= old(p).pending());
                assert(p.log() =~= before + item_rule(
                    p.tokens(),
                    old(p).cursor(),
                    old(p).ticks(),
                ).events);
            }
        },
    }
}

/// Parses a value binding whose node `m` has been opened at the keyword.
pub fn let_(p: &mut Parser<'_>, m: Marker)
    requires
        old(p).wf(),
        old(p).pending().contains(m.position()),
        m.position() == old(p).log().len() - 1,
        old(p).current_kind() == SyntaxKind::LET_KW,
        fits(old(p), let_rule(old(p).tokens(), old(p).cursor()), 1),
    ensures
        applied(
            old(p),
            final(p),
            let_rule(old(p).tokens(), old(p).cursor()),
            old(p).log().len() - 1,
        ),
        final(p).pending() == old(p).pending().remove(m.position()),
{
    let ghost before = p.log();
    let ghost rule = let_rule(p.tokens(), p.cursor());
    p.bump(SyntaxKind::LET_KW);

    name(p);

    // What follows the `=` is not part of the grammar yet.
    p.eat(SyntaxKind::EQ);

    m.complete(p, SyntaxKind::LET_DECL);
    proof {
        assert(p.log() =~= before.take(before.len() - 1) + rule.events);
    }
}

/// Parses a nested module whose node `m` has been opened at the keyword.
pub fn module(p: &mut Parser<'_>, m: Marker)
    requires
        old(p).wf(),
        old(p).pending().contains(m.position()),
        m.position() == old(p).log().len() - 1,
        old(p).current_kind() == SyntaxKind::MODULE_KW,
        fits(old(p), module_rule(old(p).tokens(), old(p).cursor(), old(p).ticks()), 1),
    ensures
        applied(
            old(p),
            final(p),
            module_rule(old(p).tokens(), old(p).cursor(), old(p).ticks()),
            old(p).log().len() - 1,
        ),
        final(p).pending() == old(p).pending().remove(m.position()),
    decreases old(p).tokens().len() - old(p).cursor(), 0int,
{
    let ghost before = p.log();
    let ghost rule = module_rule(p.tokens(), p.cursor(), p.ticks());
    let ghost head = module_head(p.tokens(), p.cursor());
    let block = p.new_indent_block();
    p.bump(SyntaxKind::MODULE_KW);

    name(p);

    p.expect(SyntaxKind::EQ);
    proof {
        assert(p.log() =~= before.take(before.len() - 1) + seq![crate::event::tombstone()]
            + head.skip(1));
    }

    if p.current().col <= block {
        p.error("module should contain at least one item");
        m.complete(p, SyntaxKind::MODULE);
        p.drop_indent_block();
        proof {
            assert(p.blocks() =~= old(p).blocks());
            assert(p.log() =~= before.take(before.len() - 1) + rule.events);
        }
        return ;
    }
    let ghost at_body = p.log();

    module_contents(p);

    m.complete(p, SyntaxKind::MODULE);
    p.drop_indent_block();
    proof {
        assert(p.blocks() =~= old(p).blocks());
        assert(at_body.take(at_body.len() as int) =~= at_body);
        assert(p.log() =~= before.take(before.len() - 1) + rule.events);
    }
}

impl<'t> Parser<'t> {
    /// Applies `rule` again and again, exactly while input remains and the
    /// current token stands at the column of the innermost indentation block.
    pub fn many_same(&mut self, rule: Rule)
        requires
            old(self).wf(),
            fits(
                old(self),
                many_rule(
                    rule,
                    old(self).tokens(),
                    old(self).cursor(),
                    old(self).blocks().last(),
                    old(self).ticks(),
                ),
                0,
            ),
        ensures
            applied(
                old(self),
                final(self),
                many_rule(
                    rule,
                    old(self).tokens(),
                    old(self).cursor(),
                    old(self).blocks().last(),
                    old(self).ticks(),
                ),
                old(self).log().len() as int,
            ),
            final(self).pending() == old(self).pending(),
        decreases old(self).tokens().len() - old(self).cursor(), 3int,
    {
        let (block, _) = self.get_current_indent_block();
        let ghost before = self.log();
        let ghost whole = many_rule(rule, self.tokens(), self.cursor(), block, self.ticks());
        proof {
            assert(before.take(before.len() as int) =~= before);
            assert(before + Seq::<EventModel>::empty() =~= before);
        }
        let ghost mut done: Seq<EventModel> = Seq::empty();
        while !self.at(SyntaxKind::EOF)
            invariant_except_break
                ({
                    let rest = many_rule(rule, self.tokens(), self.cursor(), block, self.ticks());
                    &&& whole.events == done + rest.events
                    &&& whole.pos == rest.pos
                    &&& whole.ticks == rest.ticks
                    &&& rest.peak <= whole.peak
                }),
            invariant
                self.wf(),
                self.tokens() == old(self).tokens(),
                self.blocks() == old(self).blocks(),
                self.pending() == old(self).pending(),
                block == old(self).blocks().last(),
                old(self).cursor() <= self.cursor(),
                self.log() == before + done,
                whole == many_rule(
                    rule,
                    old(self).tokens(),
                    old(self).cursor(),
                    block,
                    old(self).ticks(),
                ),
                before.len() + whole.events.len() <= u32::MAX,
                whole.peak < PARSER_STEP_LIMIT,
            ensures
                self.wf(),
                self.tokens() == old(self).tokens(),
                self.blocks() == old(self).blocks(),
                self.pending() == old(self).pending(),
                self.log() == before + whole.events,
                self.cursor() == whole.pos,
                self.ticks() == whole.ticks,
            decreases self.tokens().len() - self.cursor(),
        {
            let ghost here = self.cursor();
            let ghost rest = many_rule(rule, self.tokens(), self.cursor(), block, self.ticks());
            proof {
                lemma_item_advances(self.tokens(), here, self.ticks() + 1);
                assert(rest.peak >= self.ticks());
            }
            if self.current().col != block {
                proof {
                    assert(done + rest.events =~= done);
                }
                break ;
            }
            let ghost first = item_rule(self.tokens(), here, self.ticks());
            proof {
                lemma_item_advances(self.tokens(), here, self.ticks());
            }
            let ghost logged = self.log();
            apply(rule, self);
            proof {
                assert(logged.take(logged.len() as int) =~= logged);
                let next = many_rule(rule, self.tokens(), self.cursor(), block, self.ticks());
                assert(done + (first.events + next.events) =~= (done + first.events) + next.events);
                assert(before + (done + first.events) =~= (before + done) + first.events);
                done = done + first.events;
            }
        }
        proof {
            let rest = many_rule(rule, self.tokens(), self.cursor(), block, self.ticks());
            if self.current_kind() == SyntaxKind::EOF {
                assert(done + rest.events =~= done);
            }
        }
    }
}

/// An item that does not stand at the end of the input consumes at least one
/// token, and no rule moves past the end of the input.
pub proof fn lemma_item_advances(tokens: Seq<Token>, pos: int, ticks: int)
    requires
        0 <= pos <= tokens.len(),
    ensures
        pos <= item_rule(tokens, pos, ticks).pos <= tokens.len(),
        kind_at(tokens, pos) != SyntaxKind::EOF ==> pos < item_rule(tokens, pos, ticks).pos,
    decreases tokens.len() - pos, 1int,
{
    let kind = kind_at(tokens, pos);
    if kind == SyntaxKind::MODULE_KW {
        lemma_module_advances(tokens, pos, ticks + 1);
    }
}

/// A module consumes at least its keyword and does not move past the end of the input.
pub proof fn lemma_module_advances(tokens: Seq<Token>, pos: int, ticks: int)
    requires
        0 <= pos <= tokens.len(),
        kind_at(tokens, pos) == SyntaxKind::MODULE_KW,
    ensures
        pos < module_rule(tokens, pos, ticks).pos <= tokens.len(),
    decreases tokens.len() - pos, 0int,
{
    let body = module_body_pos(tokens, pos);
    if col_at(tokens, body) > col_at(tokens, pos) {
        lemma_many_advances(Rule::Item, tokens, body, col_at(tokens, body), 2);
    }
}

/// A run of items moves forward only, and not past the end of the input.
pub proof fn lemma_many_advances(rule: Rule, tokens: Seq<Token>, pos: int, block: u32, ticks: int)
    requires
        0 <= pos <= tokens.len(),
    ensures
        pos <= many_rule(rule, tokens, pos, block, ticks).pos <= tokens.len(),
    decreases tokens.len() - pos, 2int,
{
    if kind_at(tokens, pos) != SyntaxKind::EOF && col_at(tokens, pos) == block {
        lemma_item_advances(tokens, pos, ticks + 1);
        let first = item_rule(tokens, pos, ticks + 1);
        lemma_many_advances(rule, tokens, first.pos, block, first.ticks);
    }
}

/// A name keeps the nesting level.
proof fn lemma_name_level(tokens: Seq<Token>, pos: int, ticks: int, depth: int)
    requires
        depth >= 1,
    ensures
        level(name_rule(tokens, pos, ticks).events, depth) == Some(depth),
{
    if kind_at(tokens, pos) == SyntaxKind::IDENT {
        let inner = seq![token_of(SyntaxKind::IDENT)];
        lemma_level_leaf(token_of(SyntaxKind::IDENT), depth + 1);
        lemma_level_node(SyntaxKind::NAME, inner, depth);
        assert(name_rule(tokens, pos, ticks).events =~= seq![start_of(SyntaxKind::NAME)] + inner
            + seq![EventModel::Finish]);
    } else {
        lemma_level_leaf(error_of("expected a name"@), depth);
    }
}

/// A value binding keeps the nesting level.
proof fn lemma_let_level(tokens: Seq<Token>, pos: int, depth: int)
    requires
        depth >= 1,
    ensures
        level(let_rule(tokens, pos).events, depth) == Some(depth),
{
    let name = name_rule(tokens, pos + 1, 0);
    let keyword = seq![token_of(SyntaxKind::LET_KW)];
    let eq = optional_eq(tokens, name.pos);
    let inner = keyword + name.events + eq;
    lemma_level_leaf(token_of(SyntaxKind::LET_KW), depth + 1);
    lemma_name_level(tokens, pos + 1, 0, depth + 1);
    if kind_at(tokens, name.pos) == SyntaxKind::EQ {
        lemma_level_leaf(token_of(SyntaxKind::EQ), depth + 1);
    }
    lemma_level_concat(keyword, name.events, depth + 1);
    lemma_level_concat(keyword + name.events, eq, depth + 1);
    lemma_level_node(SyntaxKind::LET_DECL, inner, depth);
    assert(let_rule(tokens, pos).events =~= seq![start_of(SyntaxKind::LET_DECL)] + inner + seq![
        EventModel::Finish,
    ]);
}

/// A module keeps the nesting level.
proof fn lemma_module_level(tokens: Seq<Token>, pos: int, ticks: int, depth: int)
    requires
        depth >= 1,
        0 <= pos <= tokens.len(),
        kind_at(tokens, pos) == SyntaxKind::MODULE_KW,
    ensures
        level(module_rule(tokens, pos, ticks).events, depth) == Some(depth),
    decreases tokens.len() - pos, 0int,
{
    let name = name_rule(tokens, pos + 1, 0);
    let keyword = seq![token_of(SyntaxKind::MODULE_KW)];
    let eq = required_eq(tokens, name.pos);
    let body = module_body_pos(tokens, pos);
    lemma_level_leaf(token_of(SyntaxKind::MODULE_KW), depth + 1);
    lemma_name_level(tokens, pos + 1, 0, depth + 1);
    lemma_level_leaf(eq[0], depth + 1);
    assert(eq =~= seq![eq[0]]);
    lemma_level_concat(keyword, name.events, depth + 1);
    lemma_level_concat(keyword + name.events, eq, depth + 1);
    let opening = keyword + name.events + eq;
    let tail = if col_at(tokens, body) <= col_at(tokens, pos) {
        seq![error_of("module should contain at least one item"@)]
    } else {
        contents_rule(tokens, body, 1).events
    };
    if col_at(tokens, body) <= col_at(tokens, pos) {
        lemma_level_leaf(tail[0], depth + 1);
    } else {
        lemma_many_level(Rule::Item, tokens, body, col_at(tokens, body), 2, depth + 1);
    }
    lemma_level_concat(opening, tail, depth + 1);
    lemma_level_node(SyntaxKind::MODULE, opening + tail, depth);
    assert(module_rule(tokens, pos, ticks).events =~= seq![start_of(SyntaxKind::MODULE)] + (opening
        + tail) + seq![EventModel::Finish]);
}

/// An item keeps the nesting level.
proof fn lemma_item_level(tokens: Seq<Token>, pos: int, ticks: int, depth: int)
    requires
        depth >= 1,
        0 <= pos <= tokens.len(),
    ensures
        level(item_rule(tokens, pos, ticks).events, depth) == Some(depth),
    decreases tokens.len() - pos, 1int,
{
    let kind = kind_at(tokens, pos);
    if kind == SyntaxKind::LET_KW {
        lemma_let_level(tokens, pos, depth);
    } else if kind == SyntaxKind::MODULE_KW {
        lemma_module_level(tokens, pos, ticks + 1, depth);
    } else {
        let report = seq![error_of("expected item"@)];
        lemma_level_leaf(error_of("expected item"@), depth);
        if kind != SyntaxKind::EOF {
            lemma_level_leaf(token_of(kind), depth);
            lemma_level_concat(report, seq![token_of(kind)], depth);
            assert(item_rule(tokens, pos, ticks).events =~= report + seq![token_of(kind)]);
        }
    }
}

/// A run of items keeps the nesting level.
proof fn lemma_many_level(
    rule: Rule,
    tokens: Seq<Token>,
    pos: int,
    block: u32,
    ticks: int,
    depth: int,
)
    requires
        depth >= 1,
        0 <= pos <= tokens.len(),
    ensures
        level(many_rule(rule, tokens, pos, block, ticks).events, depth) == Some(depth),
    decreases tokens.len() - pos, 2int,
{
    if kind_at(tokens, pos) != SyntaxKind::EOF && col_at(tokens, pos) == block {
        let first = item_rule(tokens, pos, ticks + 1);
        lemma_item_level(tokens, pos, ticks + 1, depth);
        lemma_item_advances(tokens, pos, ticks + 1);
        let rest = many_rule(rule, tokens, first.pos, block, first.ticks);
        lemma_many_level(rule, tokens, first.pos, block, first.ticks, depth);
        lemma_level_concat(first.events, rest.events, depth);
    }
}

/// Totality of the grammar: whatever the tokens, the log of a source file
/// opens one `MODULE` node first, closes it last, and holds everything else
/// inside it.
pub proof fn lemma_source_file_nested(tokens: Seq<Token>)
    ensures
        log_nested(source_file_rule(tokens).events),
{
    let inner = contents_rule(tokens, 0, 0).events;
    let log = source_file_rule(tokens).events;
    lemma_many_level(Rule::Item, tokens, 0, col_at(tokens, 0), 1, 1);
    let close = seq![EventModel::Finish];
    assert(close.drop_first() =~= Seq::<EventModel>::empty());
    assert(level(close.drop_first(), 0) == Some(0int));
    assert(level(close, 1) == Some(0int));
    lemma_level_concat(inner, close, 1);
    assert(log.skip(1) =~= inner + close);
    crate::event::lemma_level_closes(log, 1, 1);
}

/// The most tokens for which every parse is known to fit: its log has room
/// and the parser never counts as stuck.
pub const MAX_TOKENS: usize = 14_999_995;

/// Events in a row consume one token each if those of both parts do.
proof fn lemma_unit_events_concat(a: Seq<EventModel>, b: Seq<EventModel>)
    requires
        unit_events(a),
        unit_events(b),
    ensures
        unit_events(a + b),
{
    assert forall|k: int| 0 <= k < (a + b).len() && (#[trigger] (a + b)[k]) is Token implies (a
        + b)[k]->Token_n_raw_tokens == 1 by {
        if k < a.len() {
            assert((a + b)[k] == a[k]);
        } else {
            assert((a + b)[k] == b[k - a.len()]);
        }
    }
}

/// The events with which a module begins are at most six, and consume one token each.
proof fn lemma_module_head_bounds(tokens: Seq<Token>, pos: int)
    requires
        0 <= pos < tokens.len(),
    ensures
        pos + 1 <= module_body_pos(tokens, pos) <= tokens.len(),
        module_head(tokens, pos).len() + 2 <= 6 * (module_body_pos(tokens, pos) - pos) + 2,
        module_head(tokens, pos).len() <= 6,
        unit_events(module_head(tokens, pos)),
{
}

/// What an item costs: at most six events for each token it consumes, all
/// of them consuming one token; a lookahead count that ends no higher than
/// the number of tokens consumed plus 1; and no lookahead at a count higher
/// than the count at entry plus 2 or the number of tokens consumed plus 4.
pub proof fn lemma_item_bounds(tokens: Seq<Token>, pos: int, ticks: int)
    requires
        0 <= pos < tokens.len(),
        kind_at(tokens, pos) != SyntaxKind::EOF,
        0 <= ticks,
    ensures
        pos < item_rule(tokens, pos, ticks).pos <= tokens.len(),
        item_rule(tokens, pos, ticks).events.len() <= 6 * (item_rule(tokens, pos, ticks).pos - pos),
        0 <= item_rule(tokens, pos, ticks).ticks <= item_rule(tokens, pos, ticks).pos - pos + 1,
        item_rule(tokens, pos, ticks).peak <= higher(
            ticks + 2,
            item_rule(tokens, pos, ticks).pos - pos + 4,
        ),
        unit_events(item_rule(tokens, pos, ticks).events),
    decreases tokens.len() - pos, 1int,
{
    let kind = kind_at(tokens, pos);
    if kind == SyntaxKind::MODULE_KW {
        lemma_module_bounds(tokens, pos, ticks + 1);
    }
}

/// What a module costs; see [`lemma_item_bounds`].
pub proof fn lemma_module_bounds(tokens: Seq<Token>, pos: int, ticks: int)
    requires
        0 <= pos < tokens.len(),
        kind_at(tokens, pos) == SyntaxKind::MODULE_KW,
        0 <= ticks,
    ensures
        pos < module_rule(tokens, pos, ticks).pos <= tokens.len(),
        module_rule(tokens, pos, ticks).events.len() <= 6 * (module_rule(tokens, pos, ticks).pos
            - pos),
        0 <= module_rule(tokens, pos, ticks).ticks <= module_rule(tokens, pos, ticks).pos - pos + 1,
        module_rule(tokens, pos, ticks).peak <= higher(
            ticks + 1,
            module_rule(tokens, pos, ticks).pos - pos + 4,
        ),
        unit_events(module_rule(tokens, pos, ticks).events),
    decreases tokens.len() - pos, 0int,
{
    let body = module_body_pos(tokens, pos);
    let head = module_head(tokens, pos);
    lemma_module_head_bounds(tokens, pos);
    if col_at(tokens, body) <= col_at(tokens, pos) {
        let tail = seq![
            error_of("module should contain at least one item"@),
            EventModel::Finish,
        ];
        lemma_unit_events_concat(head, tail);
    } else {
        lemma_many_bounds(Rule::Item, tokens, body, col_at(tokens, body), 2);
        let inner = contents_rule(tokens, body, 1).events;
        lemma_unit_events_concat(head, inner);
        lemma_unit_events_concat(head + inner, seq![EventModel::Finish]);
    }
}

/// What a run of items costs; see [`lemma_item_bounds`].
pub proof fn lemma_many_bounds(rule: Rule, tokens: Seq<Token>, pos: int, block: u32, ticks: int)
    requires
        0 <= pos <= tokens.len(),
        0 <= ticks,
    ensures
        pos <= many_rule(rule, tokens, pos, block, ticks).pos <= tokens.len(),
        many_rule(rule, tokens, pos, block, ticks).events.len() <= 6 * (many_rule(
            rule,
            tokens,
            pos,
            block,
            ticks,
        ).pos - pos),
        0 <= many_rule(rule, tokens, pos, block, ticks).ticks,
        many_rule(rule, tokens, pos, block, ticks).pos == pos ==> many_rule(
            rule,
            tokens,
            pos,
            block,
            ticks,
        ).ticks <= ticks + 1,
        kind_at(tokens, pos) == SyntaxKind::EOF ==> many_rule(
            rule,
            tokens,
            pos,
            block,
            ticks,
        ).ticks == ticks,
        many_rule(rule, tokens, pos, block, ticks).pos > pos ==> many_rule(
            rule,
            tokens,
            pos,
            block,
            ticks,
        ).ticks <= many_rule(rule, tokens, pos, block, ticks).pos - pos + 2,
        many_rule(rule, tokens, pos, block, ticks).peak <= higher(
            ticks + 3,
            many_rule(rule, tokens, pos, block, ticks).pos - pos + 4,
        ),
        unit_events(many_rule(rule, tokens, pos, block, ticks).events),
    decreases tokens.len() - pos, 2int,
{
    if kind_at(tokens, pos) != SyntaxKind::EOF && col_at(tokens, pos) == block {
        lemma_item_bounds(tokens, pos, ticks + 1);
        let first = item_rule(tokens, pos, ticks + 1);
        lemma_many_bounds(rule, tokens, first.pos, block, first.ticks);
        let rest = many_rule(rule, tokens, first.pos, block, first.ticks);
        lemma_unit_events_concat(first.events, rest.events);
    }
}

/// Every input of at most [`MAX_TOKENS`] tokens can be parsed as a source
/// file: the log has room for the events, and the parser never counts as stuck.
pub proof fn lemma_source_file_fits(tokens: Seq<Token>)
    requires
        tokens.len() <= MAX_TOKENS,
    ensures
        source_file_rule(tokens).events.len() <= u32::MAX,
        source_file_rule(tokens).peak < PARSER_STEP_LIMIT,
{
    lemma_many_bounds(Rule::Item, tokens, 0, col_at(tokens, 0), 1);
}

/// A source file consumes one token of the input with every token event,
/// and stops inside the input.
pub proof fn lemma_source_file_unit(tokens: Seq<Token>)
    ensures
        unit_events(source_file_rule(tokens).events),
        0 <= source_file_rule(tokens).pos <= tokens.len(),
{
    lemma_many_bounds(Rule::Item, tokens, 0, col_at(tokens, 0), 1);
    let inner = contents_rule(tokens, 0, 0).events;
    let open = seq![start_of(SyntaxKind::MODULE)];
    lemma_unit_events_concat(open, inner);
    lemma_unit_events_concat(open + inner, seq![EventModel::Finish]);
}

/// Error recovery: at a token that begins no item, an item logs exactly one
/// diagnostic, consumes exactly that token, and leaves the lookahead count at 0.
pub proof fn lemma_unrecognized_item(tokens: Seq<Token>, pos: int, ticks: int)
    requires
        kind_at(tokens, pos) != SyntaxKind::LET_KW,
        kind_at(tokens, pos) != SyntaxKind::MODULE_KW,
        kind_at(tokens, pos) != SyntaxKind::EOF,
    ensures
        item_rule(tokens, pos, ticks).events == seq![
            error_of("expected item"@),
            token_of(kind_at(tokens, pos)),
        ],
        item_rule(tokens, pos, ticks).pos == pos + 1,
        item_rule(tokens, pos, ticks).ticks == 0,
{
}

} // verus!
