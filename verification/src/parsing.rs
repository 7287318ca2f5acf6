//! The whole way from a source text to its tree and its diagnostics.

use vstd::prelude::*;
use vstd::string::StringSliceAdditionalSpecFns;

use crate::event::linearize;
use crate::grammar::{source_file_rule, MAX_TOKENS};
use crate::input::Token;
use crate::lexed_str::{table_of, LexedStr, Table};
use crate::output::{well_nested, Output, StepModel};
use crate::shortcuts::{
    merged, merged_end, mergeable, significant, str_delta, str_level, str_steps_view,
    str_well_nested, texts, StrStep, StrStepModel,
};
use crate::syntax_error::{errors_view, SyntaxError, SyntaxErrorModel};
use crate::syntax_node::{
    green_trace, open_nodes, single_tree, text_total, tree_deltas, SyntaxTreeBuilder, TreeStep,
};
use crate::TopEntryPoint;

verus! {

/// The longest source text, in bytes, for which every parse is known to fit.
pub const MAX_TEXT_LEN: usize = 14_999_995;

/// The call on the tree builder that a step stands for; a diagnostic stands for none.
pub open spec fn tree_step(step: StrStepModel) -> Seq<TreeStep> {
    match step {
        StrStepModel::Token { kind, text } => seq![
            TreeStep::Leaf { kind: kind.code() as u16, text },
        ],
        StrStepModel::Enter { kind } => seq![TreeStep::Open { kind: kind.code() as u16 }],
        StrStepModel::Exit => seq![TreeStep::Close],
        StrStepModel::Error { .. } => Seq::empty(),
    }
}

/// The calls on the tree builder that the steps stand for, in order.
pub open spec fn tree_steps(out: Seq<StrStepModel>) -> Seq<TreeStep>
    decreases out.len(),
{
    if out.len() == 0 {
        Seq::empty()
    } else {
        tree_steps(out.drop_last()) + tree_step(out.last())
    }
}

/// The diagnostic that a step stands for: one at its offset for a
/// diagnostic step, none for any other.
pub open spec fn tree_error(step: StrStepModel) -> Seq<SyntaxErrorModel> {
    match step {
        StrStepModel::Error { msg, pos } => seq![
            SyntaxErrorModel { message: msg, start: pos, end: pos },
        ],
        _ => Seq::empty(),
    }
}

/// The diagnostics among the steps, in order.
pub open spec fn tree_errors(out: Seq<StrStepModel>) -> Seq<SyntaxErrorModel>
    decreases out.len(),
{
    if out.len() == 0 {
        Seq::empty()
    } else {
        tree_errors(out.drop_last()) + tree_error(out.last())
    }
}

/// The lexical errors of a table as diagnostics, each for the bytes of its token.
pub open spec fn lexical_errors(table: Table) -> Seq<SyntaxErrorModel> {
    Seq::new(
        table.errors.len(),
        |i: int|
            SyntaxErrorModel {
                message: table.errors[i].1,
                start: table.starts[table.errors[i].0] as int,
                end: table.starts[table.errors[i].0 + 1] as int,
            },
    )
}

/// The significant tokens of a source text, each with its column.
pub open spec fn input_of(bytes: Seq<u8>) -> Seq<Token> {
    let table = table_of(bytes);
    significant(table.kinds, table.starts, table.len())
}

/// The steps of the tree of a source text, without trivia.
pub open spec fn parse_steps(bytes: Seq<u8>) -> Seq<StepModel> {
    linearize(source_file_rule(input_of(bytes)).events)
}

/// The steps of the tree of a source text, with trivia and texts.
pub open spec fn text_steps(bytes: Seq<u8>) -> Seq<StrStepModel> {
    merged(table_of(bytes), parse_steps(bytes))
}

/// Whether the parse of a source text consumes every significant token.
pub open spec fn parsed_whole(bytes: Seq<u8>) -> bool {
    source_file_rule(input_of(bytes)).pos == input_of(bytes).len()
}

/// Builds the tree that the steps of a parse describe, over the table they
/// were parsed from. Returns the tree, the diagnostics of the parse followed
/// by the lexical errors, and whether the tree reaches the end of the table.
pub fn build_tree(lexed: LexedStr<'_>, parser_output: Output) -> (res: (
    rowan::GreenNode,
    Vec<SyntaxError>,
    bool,
))
    requires
        lexed.wf(),
        well_nested(parser_output@),
        mergeable(lexed@, parser_output@),
    ensures
        green_trace(res.0) == tree_steps(merged(lexed@, parser_output@)),
        errors_view(res.1@) == tree_errors(merged(lexed@, parser_output@)) + lexical_errors(lexed@),
        res.2 == (merged_end(lexed@, parser_output@) == lexed@.len()),
{
    let mut builder = SyntaxTreeBuilder::default();
    let (steps, is_eof) = lexed.intersperse_trivia(&parser_output);
    let ghost all = str_steps_view(steps@);
    proof {
        crate::shortcuts::lemma_merged_nested(lexed@, parser_output@);
        crate::shortcuts::lemma_merged_lossless(lexed@, parser_output@);
        assert(all.take(0) =~= Seq::<StrStepModel>::empty());
    }
    let mut i: usize = 0;
    while i < steps.len()
        invariant
            i <= steps@.len(),
            all == str_steps_view(steps@),
            str_well_nested(all),
            crate::shortcuts::offsets_fit(all),
            texts(all).len() <= u32::MAX,
            builder.trace() == tree_steps(all.take(i as int)),
            builder.diagnostics() == tree_errors(all.take(i as int)),
            text_total(builder.trace()) == texts(all.take(i as int)).len(),
            i >= 1 ==> {
                &&& builder.trace().len() >= 1
                &&& builder.trace()[0] is Open
                &&& crate::output::walk(tree_deltas(builder.trace().drop_first()), 1) == str_level(
                    all.take(i as int),
                )
                &&& str_level(all.take(i as int)) == Some(open_nodes(builder.trace()))
            },
        decreases steps@.len() - i,
    {
        let ghost before = all.take(i as int);
        let ghost trace = builder.trace();
        proof {
            assert(all.take(i + 1).drop_last() =~= before);
            assert(all.take(i + 1).last() == all[i as int]);
            assert(all[i as int] == steps@[i as int]@);
            crate::shortcuts::lemma_texts_prefix(all, i + 1);
            crate::shortcuts::lemma_texts_push(before, all[i as int]);
            assert(before.push(all[i as int]) =~= all.take(i + 1));
            crate::shortcuts::lemma_prefix_level(all, i + 1);
            if i >= 1 {
                crate::shortcuts::lemma_prefix_level(all, i as int);
                crate::shortcuts::lemma_level_push(
                    before,
                    all[i as int],
                    str_level(before)->0,
                );
            } else {
                assert(all.take(1).drop_first() =~= Seq::<StrStepModel>::empty());
                assert(crate::shortcuts::str_deltas(all.take(1).drop_first()) =~= Seq::<
                    int,
                >::empty());
            }
        }
        match &steps[i] {
            StrStep::Token { kind, text } => builder.token(*kind, text),
            StrStep::Enter { kind } => builder.start_node(*kind),
            StrStep::Exit => builder.finish_node(),
            StrStep::Error { msg, pos } => {
                let message = (*msg).to_owned();
                builder.error(message, *pos as u32);
            },
        }
        proof {
            let now = builder.trace();
            assert(now == trace + tree_step(all[i as int]));
            if !(all[i as int] is Error) {
                let step = tree_step(all[i as int])[0];
                assert(now =~= trace.push(step));
                assert(now.drop_last() =~= trace);
                assert(now.last() == step);
                assert(open_nodes(now) == open_nodes(trace) + crate::syntax_node::tree_delta(step));
                assert(crate::syntax_node::tree_delta(step) == str_delta(all[i as int]));
                if i >= 1 {
                    lemma_trace_push(trace, step, str_level(before)->0);
                } else {
                    assert(now.drop_first() =~= Seq::<TreeStep>::empty());
                    assert(tree_deltas(now.drop_first()) =~= Seq::<int>::empty());
                    assert(trace.len() == 0);
                    assert(open_nodes(trace) == 0);
                    assert(all[0] is Enter);
                    assert(str_level(all.take(1)) == Some(1int));
                }
            } else {
                assert(now =~= trace);
            }
        }
        i += 1;
    }
    proof {
        assert(all.take(all.len() as int) =~= all);
        assert(all.len() >= 1);
    }

    let (node, mut errors) = builder.finish_raw();
    let lex_errors = lexed.errors();
    let ghost parse_errors = errors_view(errors@);
    proof {
        assert(parse_errors + lexical_errors(lexed@).take(0) =~= parse_errors);
    }
    let mut k: usize = 0;
    while k < lex_errors.len()
        invariant
            lexed.wf(),
            k <= lex_errors@.len(),
            lex_errors@.len() == lexed@.errors.len(),
            forall|j: int|
                0 <= j < lex_errors@.len() ==> (#[trigger] lex_errors@[j]).0 == lexed@.errors[j].0
                    && lex_errors@[j].1@ == lexed@.errors[j].1,
            errors_view(errors@) == parse_errors + lexical_errors(lexed@).take(k as int),
        decreases lex_errors@.len() - k,
    {
        let (token, err) = lex_errors[k];
        assert(lexed@.errors[k as int].0 == token);
        let text_range = lexed.text_range(token);
        let ghost sofar = errors_view(errors@);
        errors.push(
            SyntaxError::new(err.to_owned(), text_range.start as u32, text_range.end as u32),
        );
        proof {
            assert(errors_view(errors@) =~= sofar.push(lexical_errors(lexed@)[k as int]));
            assert(lexical_errors(lexed@).take(k + 1) =~= lexical_errors(lexed@).take(
                k as int,
            ).push(lexical_errors(lexed@)[k as int]));
        }
        k += 1;
    }
    proof {
        assert(lexical_errors(lexed@).take(k as int) =~= lexical_errors(lexed@));
    }

    (node, errors, is_eof)
}

/// One more call made inside the root changes the depth of the trace by what it opens or closes.
proof fn lemma_trace_push(trace: Seq<TreeStep>, step: TreeStep, mid: int)
    requires
        trace.len() >= 1,
        crate::output::walk(tree_deltas(trace.drop_first()), 1) == Some(mid),
        mid >= 1,
    ensures
        crate::output::walk(tree_deltas(trace.push(step).drop_first()), 1) == Some(
            mid + crate::syntax_node::tree_delta(step),
        ),
{
    let before = tree_deltas(trace.drop_first());
    let change = crate::syntax_node::tree_delta(step);
    crate::output::lemma_walk_one(change, mid);
    crate::output::lemma_walk_concat(before, seq![change], 1);
    assert(tree_deltas(trace.push(step).drop_first()) =~= before + seq![change]);
}

/// Parses a source text into its syntax tree.
///
/// The tree is the one that the steps of the text describe: exactly one
/// root, and in it every token that the parse reaches, trivia included, with
/// its exact text. Where the parse consumes every significant token, the
/// texts of the tree are the source text, byte for byte. The diagnostics are
/// those of the parse, each at its byte offset.
pub fn parse_text(text: &str) -> (res: (rowan::GreenNode, Vec<SyntaxError>))
    requires
        text.spec_bytes().len() <= u32::MAX,
        TopEntryPoint::SourceFile.accepts(input_of(text.spec_bytes())),
    ensures
        green_trace(res.0) == tree_steps(text_steps(text.spec_bytes())),
        errors_view(res.1@) == tree_errors(text_steps(text.spec_bytes())),
        str_well_nested(text_steps(text.spec_bytes())),
        texts(text_steps(text.spec_bytes())).is_prefix_of(text.spec_bytes()),
        parsed_whole(text.spec_bytes()) ==> texts(text_steps(text.spec_bytes()))
            == text.spec_bytes(),
{
    let lexed = LexedStr::new(text);
    let parser_input = lexed.to_input();
    let parser_output = TopEntryPoint::SourceFile.parse(&parser_input);
    proof {
        let table = lexed@;
        let steps = parser_output@;
        crate::shortcuts::lemma_significant_len(table, table.len());
        crate::shortcuts::lemma_mergeable(table, steps);
        crate::shortcuts::lemma_merged_nested(table, steps);
        crate::shortcuts::lemma_merged_lossless(table, steps);
        assert(lexical_errors(table) =~= Seq::<SyntaxErrorModel>::empty());
        assert(tree_errors(merged(table, steps)) + lexical_errors(table) =~= tree_errors(
            merged(table, steps),
        ));
    }
    let (node, errors, _eof) = build_tree(lexed, parser_output);
    (node, errors)
}

/// Parses a source text of at most [`MAX_TEXT_LEN`] bytes into its syntax
/// tree, and returns `None` for a longer one.
pub fn try_parse_text(text: &str) -> (res: Option<(rowan::GreenNode, Vec<SyntaxError>)>)
    ensures
        res is Some == (text.spec_bytes().len() <= MAX_TEXT_LEN),
        match res {
            Some((tree, errors)) => {
                &&& green_trace(tree) == tree_steps(text_steps(text.spec_bytes()))
                &&& errors_view(errors@) == tree_errors(text_steps(text.spec_bytes()))
                &&& str_well_nested(text_steps(text.spec_bytes()))
                &&& texts(text_steps(text.spec_bytes())).is_prefix_of(text.spec_bytes())
                &&& parsed_whole(text.spec_bytes()) ==> texts(text_steps(text.spec_bytes()))
                    == text.spec_bytes()
            },
            None => true,
        },
{
    if text.as_bytes().len() > MAX_TEXT_LEN {
        return None;
    }
    proof {
        lemma_input_len(text.spec_bytes());
        crate::grammar::lemma_source_file_fits(input_of(text.spec_bytes()));
    }
    Some(parse_text(text))
}

/// A source text has no more significant tokens than bytes.
pub proof fn lemma_input_len(bytes: Seq<u8>)
    requires
        bytes.len() <= u32::MAX,
    ensures
        input_of(bytes).len() <= bytes.len(),
{
    let table = table_of(bytes);
    lemma_significant_bound(table.kinds, table.starts, table.len());
    crate::lexer::lemma_token_count(bytes, 0);
}

/// Among `n` entries of a table at most `n` are significant.
proof fn lemma_significant_bound(kinds: Seq<crate::SyntaxKind>, starts: Seq<u32>, n: int)
    requires
        0 <= n,
    ensures
        significant(kinds, starts, n).len() <= n,
    decreases n,
{
    if n > 0 && n <= kinds.len() {
        lemma_significant_bound(kinds, starts, n - 1);
    }
}

} // verus!
