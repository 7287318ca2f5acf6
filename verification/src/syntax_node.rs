//! The builder of the green tree.

use vstd::prelude::*;
use vstd::string::StringSliceAdditionalSpecFns;

use crate::output::walk;
use crate::syntax_error::{errors_view, SyntaxError, SyntaxErrorModel};
use crate::syntax_kind::SyntaxKind;

verus! {

/// `rowan::GreenNodeBuilder`, carried as an opaque value; what it holds is
/// spoken of through [`builder_trace`].
#[verifier::external_type_specification]
#[verifier::external_body]
pub struct ExGreenNodeBuilder<'cache>(rowan::GreenNodeBuilder<'cache>);

/// `rowan::GreenNode`, carried as an opaque value; what it holds is spoken of
/// through [`green_trace`].
#[verifier::external_type_specification]
#[verifier::external_body]
pub struct ExGreenNode(rowan::GreenNode);

/// One call made on a tree builder: a node opened, a token added, or the
/// innermost open node closed. Kinds are raw codes.
pub enum TreeStep {
    Open { kind: u16 },
    Leaf { kind: u16, text: Seq<u8> },
    Close,
}

/// The calls that built what a `rowan::GreenNodeBuilder` holds, in order.
pub uninterp spec fn builder_trace(builder: rowan::GreenNodeBuilder<'static>) -> Seq<TreeStep>;

/// The calls that built a `rowan::GreenNode`, in order: the walk of the tree
/// that opens every node before its children and closes it after them.
pub uninterp spec fn green_trace(green: rowan::GreenNode) -> Seq<TreeStep>;

/// The change of the number of open nodes that a call causes.
pub open spec fn tree_delta(step: TreeStep) -> int {
    match step {
        TreeStep::Open { .. } => 1,
        TreeStep::Close => -1,
        TreeStep::Leaf { .. } => 0,
    }
}

/// The changes of the number of open nodes along a trace.
pub open spec fn tree_deltas(trace: Seq<TreeStep>) -> Seq<int> {
    Seq::new(trace.len(), |i: int| tree_delta(trace[i]))
}

/// The number of nodes that a trace leaves open.
pub open spec fn open_nodes(trace: Seq<TreeStep>) -> int
    decreases trace.len(),
{
    if trace.len() == 0 {
        0
    } else {
        open_nodes(trace.drop_last()) + tree_delta(trace.last())
    }
}

/// The number of bytes of text that a trace holds.
pub open spec fn text_total(trace: Seq<TreeStep>) -> int
    decreases trace.len(),
{
    if trace.len() == 0 {
        0
    } else {
        text_total(trace.drop_last()) + match trace.last() {
            TreeStep::Leaf { text, .. } => text.len() as int,
            _ => 0,
        }
    }
}

/// The trace is that of exactly one tree: it opens the root first, makes
/// every other call inside the root, and closes the root last.
pub open spec fn single_tree(trace: Seq<TreeStep>) -> bool {
    &&& trace.len() > 0
    &&& trace[0] is Open
    &&& walk(tree_deltas(trace.drop_first()), 1) == Some(0int)
}

/// `rowan::GreenNodeBuilder::new`: a builder on which no call has been made.
#[verifier::external_body]
fn builder_new() -> (builder: rowan::GreenNodeBuilder<'static>)
    ensures
        builder_trace(builder) == Seq::<TreeStep>::empty(),
{
    rowan::GreenNodeBuilder::new()
}

/// `rowan::GreenNodeBuilder::token`: adds a token to the innermost open node.
/// The lengths of all texts are summed in 32 bits, so the sum must fit.
#[verifier::external_body]
fn builder_token(builder: &mut rowan::GreenNodeBuilder<'static>, kind: u16, text: &str)
    requires
        text_total(builder_trace(*old(builder))) + text.spec_bytes().len() <= u32::MAX,
    ensures
        builder_trace(*final(builder)) == builder_trace(*old(builder)).push(
            TreeStep::Leaf { kind, text: text.spec_bytes() },
        ),
{
    builder.token(rowan::SyntaxKind(kind), text)
}

/// `rowan::GreenNodeBuilder::start_node`: opens a node inside the innermost open node.
#[verifier::external_body]
fn builder_start_node(builder: &mut rowan::GreenNodeBuilder<'static>, kind: u16)
    ensures
        builder_trace(*final(builder)) == builder_trace(*old(builder)).push(
            TreeStep::Open { kind },
        ),
{
    builder.start_node(rowan::SyntaxKind(kind))
}

/// `rowan::GreenNodeBuilder::finish_node`: closes the innermost open node. It
/// panics where no node is open.
#[verifier::external_body]
fn builder_finish_node(builder: &mut rowan::GreenNodeBuilder<'static>)
    requires
        open_nodes(builder_trace(*old(builder))) >= 1,
    ensures
        builder_trace(*final(builder)) == builder_trace(*old(builder)).push(TreeStep::Close),
{
    builder.finish_node()
}

/// `rowan::GreenNodeBuilder::finish`: the tree that was built. It panics
/// unless the calls built exactly one node at the top.
#[verifier::external_body]
fn builder_finish(builder: rowan::GreenNodeBuilder<'static>) -> (green: rowan::GreenNode)
    requires
        single_tree(builder_trace(builder)),
    ensures
        green_trace(green) == builder_trace(builder),
{
    builder.finish()
}

/// Builds a syntax tree call by call and collects the diagnostics that go with it.
pub struct SyntaxTreeBuilder {
    errors: Vec<SyntaxError>,
    inner: rowan::GreenNodeBuilder<'static>,
}

impl Default for SyntaxTreeBuilder {
    fn default() -> (builder: SyntaxTreeBuilder)
        ensures
            builder.trace() == Seq::<TreeStep>::empty(),
            builder.diagnostics() == Seq::<SyntaxErrorModel>::empty(),
    {
        let builder = SyntaxTreeBuilder { errors: Vec::new(), inner: builder_new() };
        assert(builder.diagnostics() =~= Seq::<SyntaxErrorModel>::empty());
        builder
    }
}

impl SyntaxTreeBuilder {
    /// The calls made so far that build the tree.
    pub closed spec fn trace(&self) -> Seq<TreeStep> {
        builder_trace(self.inner)
    }

    /// The diagnostics collected so far.
    pub closed spec fn diagnostics(&self) -> Seq<SyntaxErrorModel> {
        errors_view(self.errors@)
    }

    /// Hands out the tree and the diagnostics. The calls must have built exactly one tree.
    pub fn finish_raw(self) -> (res: (rowan::GreenNode, Vec<SyntaxError>))
        requires
            single_tree(self.trace()),
        ensures
            green_trace(res.0) == self.trace(),
            errors_view(res.1@) == self.diagnostics(),
    {
        let green = builder_finish(self.inner);
        (green, self.errors)
    }

    /// Adds a token with its text to the innermost open node.
    pub fn token(&mut self, kind: SyntaxKind, text: &str)
        requires
            text_total(old(self).trace()) + text.spec_bytes().len() <= u32::MAX,
        ensures
            final(self).trace() == old(self).trace().push(
                TreeStep::Leaf { kind: kind.code() as u16, text: text.spec_bytes() },
            ),
            final(self).diagnostics() == old(self).diagnostics(),
    {
        let kind = kind.to_raw();
        builder_token(&mut self.inner, kind, text);
    }

    /// Opens a node inside the innermost open node.
    pub fn start_node(&mut self, kind: SyntaxKind)
        ensures
            final(self).trace() == old(self).trace().push(
                TreeStep::Open { kind: kind.code() as u16 },
            ),
            final(self).diagnostics() == old(self).diagnostics(),
    {
        let kind = kind.to_raw();
        builder_start_node(&mut self.inner, kind);
    }

    /// Closes the innermost open node.
    pub fn finish_node(&mut self)
        requires
            open_nodes(old(self).trace()) >= 1,
        ensures
            final(self).trace() == old(self).trace().push(TreeStep::Close),
            final(self).diagnostics() == old(self).diagnostics(),
    {
        builder_finish_node(&mut self.inner);
    }

    /// Collects a diagnostic for the byte offset `text_pos`.
    pub fn error(&mut self, error: String, text_pos: u32)
        ensures
            final(self).trace() == old(self).trace(),
            final(self).diagnostics() == old(self).diagnostics().push(
                SyntaxErrorModel { message: error@, start: text_pos as int, end: text_pos as int },
            ),
    {
        self.errors.push(SyntaxError::new_at_offset(error, text_pos));
        assert(self.diagnostics() =~= old(self).diagnostics().push(
            SyntaxErrorModel { message: error@, start: text_pos as int, end: text_pos as int },
        ));
    }
}

} // verus!
