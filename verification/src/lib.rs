//! A front end for a small indentation-sensitive language: from source text
//! to a lossless syntax tree.
//!
//! The text passes through these stages, each a function of the one before:
//!
//! 1. [`lexer::tokenize`] splits the text into raw tokens that cover it entirely.
//! 2. [`LexedStr`] resolves their kinds, records their offsets and closes the
//!    table with an end-of-input entry.
//! 3. [`LexedStr::to_input`] drops the trivia and tags every remaining token
//!    with its column.
//! 4. [`parser::Parser`] and the rules of [`grammar`] log the events of a
//!    recursive-descent parse, in which blocks are delimited by indentation.
//! 5. [`event::process`] turns the log into a well-nested sequence of steps.
//! 6. [`LexedStr::intersperse_trivia`] puts the trivia back between the steps,
//!    and [`parsing::build_tree`] builds the tree from them.

pub mod event;
pub mod grammar;
pub mod input;
pub mod lexed_str;
pub mod lexer;
pub mod output;
pub mod parser;
pub mod parsing;
pub mod shortcuts;
pub mod syntax_error;
pub mod syntax_kind;
pub mod syntax_node;
pub mod trivia;

use vstd::prelude::*;

pub use crate::input::Input;
pub use crate::lexed_str::LexedStr;
pub use crate::output::{Output, Step};
pub use crate::shortcuts::StrStep;
pub use crate::syntax_kind::SyntaxKind;

verus! {

/// The constructs at which a parse can begin.
pub enum TopEntryPoint {
    /// A whole source file.
    SourceFile,
}

impl TopEntryPoint {
    /// The tokens can be parsed: the log of the parse has room for its events
    /// and no lookahead of it finds the parser stuck.
    pub open spec fn accepts(&self, tokens: Seq<crate::input::Token>) -> bool {
        &&& crate::grammar::source_file_rule(tokens).events.len() <= u32::MAX
        &&& crate::grammar::source_file_rule(tokens).peak < crate::parser::PARSER_STEP_LIMIT
    }

    /// Parses the input from this entry point and returns the steps of its tree.
    ///
    /// The steps are those of the log that the grammar yields; they always
    /// describe exactly one tree.
    pub fn parse(&self, input: &Input) -> (res: Output)
        requires
            self.accepts(input@),
        ensures
            res@ == crate::event::linearize(crate::grammar::source_file_rule(input@).events),
            crate::output::well_nested(res@),
            crate::output::unit_tokens(res@),
            crate::output::tokens_spanned(res@) == crate::grammar::source_file_rule(input@).pos,
            0 <= crate::grammar::source_file_rule(input@).pos <= input@.len(),
    {
        let mut p = crate::parser::Parser::new(input);
        match self {
            TopEntryPoint::SourceFile => crate::grammar::source_file(&mut p),
        }
        let events = p.finish();
        proof {
            let log = crate::grammar::source_file_rule(input@).events;
            assert(Seq::<crate::event::EventModel>::empty().take(0) + log =~= log);
            crate::grammar::lemma_source_file_nested(input@);
            crate::grammar::lemma_source_file_unit(input@);
            crate::event::lemma_process_well_nested(log);
            crate::event::lemma_process_spans(log, 0);
        }
        crate::event::process(events)
    }
}

} // verus!
