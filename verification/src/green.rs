//! The green tree and its builder, both from `rowan`, and what this crate
//! relies on about them.

use vstd::prelude::*;
use vstd::string::StringSliceAdditionalSpecFns;

verus! {

/// One call made on a tree builder. A tree written in pre-order, with a
/// `Finish` closing each node, is a sequence of these.
pub enum TreeStep {
    /// A node of the given raw kind opens.
    Start(u16),
    /// A leaf of the given raw kind, with the bytes of its text.
    Token(u16, Seq<u8>),
    /// The innermost open node closes.
    Finish,
}

/// `rowan::GreenNode`, a finished tree. Nothing inside it is looked at
/// here.
#[verifier::external_type_specification]
#[verifier::external_body]
pub struct ExGreenNode(rowan::GreenNode);

/// `rowan::GreenNodeBuilder`, the builder of a tree. Nothing inside it is
/// looked at here.
#[verifier::external_type_specification]
#[verifier::external_body]
pub struct ExGreenNodeBuilder<'cache>(rowan::GreenNodeBuilder<'cache>);

/// The calls that a builder has taken so far, oldest first.
pub uninterp spec fn builder_steps(builder: rowan::GreenNodeBuilder<'static>) -> Seq<TreeStep>;

/// A finished tree written as the calls that build it: its nodes and leaves
/// in pre-order, each node closed by a `Finish`.
pub uninterp spec fn green_steps(node: rowan::GreenNode) -> Seq<TreeStep>;

/// `rowan::GreenNodeBuilder::new`: a builder that has taken no call.
#[verifier::external_body]
pub(crate) fn builder_new() -> (builder: rowan::GreenNodeBuilder<'static>)
    ensures
        builder_steps(builder).len() == 0,
{
    rowan::GreenNodeBuilder::new()
}

/// `rowan::GreenNodeBuilder::start_node`: records the opening of a node.
#[verifier::external_body]
pub(crate) fn builder_start_node(builder: &mut rowan::GreenNodeBuilder<'static>, raw: u16)
    ensures
        builder_steps(*final(builder)) == builder_steps(*old(builder)).push(TreeStep::Start(raw)),
{
    builder.start_node(rowan::SyntaxKind(raw))
}

/// `rowan::GreenNodeBuilder::token`: records a leaf with its text.
#[verifier::external_body]
pub(crate) fn builder_token(builder: &mut rowan::GreenNodeBuilder<'static>, raw: u16, text: &str)
    ensures
        builder_steps(*final(builder)) == builder_steps(*old(builder)).push(
            TreeStep::Token(raw, text.spec_bytes()),
        ),
{
    builder.token(rowan::SyntaxKind(raw), text)
}

/// `rowan::GreenNodeBuilder::finish_node`: records the closing of the
/// innermost open node. It panics when no node is open, and it adds up the
/// lengths of the leaves of the node in 32 bits, which fails where they
/// hold more bytes than that; `requires` leaves both out.
#[verifier::external_body]
pub(crate) fn builder_finish_node(builder: &mut rowan::GreenNodeBuilder<'static>)
    requires
        depth(builder_steps(*old(builder))) >= 1,
        leaf_bytes(builder_steps(*old(builder))).len() <= u32::MAX,
    ensures
        builder_steps(*final(builder)) == builder_steps(*old(builder)).push(TreeStep::Finish),
{
    builder.finish_node()
}

/// `rowan::GreenNodeBuilder::finish`: hands out the tree that the calls
/// built. It panics unless the calls built exactly one thing and that thing
/// is a node, no leaf; `requires` asks for both.
#[verifier::external_body]
pub(crate) fn builder_finish(builder: rowan::GreenNodeBuilder<'static>) -> (node: rowan::GreenNode)
    requires
        is_tree(builder_steps(builder)),
    ensures
        green_steps(node) == builder_steps(builder),
{
    builder.finish()
}

/// How much one step adds to the number of open nodes.
pub open spec fn step_delta(step: TreeStep) -> int {
    match step {
        TreeStep::Start(_) => 1,
        TreeStep::Token(_, _) => 0,
        TreeStep::Finish => -1,
    }
}

/// The number of nodes that are open after `steps`.
pub open spec fn depth(steps: Seq<TreeStep>) -> int
    decreases steps.len(),
{
    if steps.len() == 0 {
        0
    } else {
        depth(steps.drop_last()) + step_delta(steps.last())
    }
}

/// `steps` writes exactly one node: the first step opens the root,
/// something stays open until the last step, and the last step closes the
/// root.
pub open spec fn is_tree(steps: Seq<TreeStep>) -> bool {
    &&& steps.len() > 0
    &&& steps[0] is Start
    &&& depth(steps) == 0
    &&& forall|k: int| 0 < k < steps.len() ==> depth(#[trigger] steps.take(k)) >= 1
}

/// The bytes of the leaves of `steps`, in order.
pub open spec fn leaf_bytes(steps: Seq<TreeStep>) -> Seq<u8>
    decreases steps.len(),
{
    if steps.len() == 0 {
        Seq::empty()
    } else {
        match steps.last() {
            TreeStep::Token(_, text) => leaf_bytes(steps.drop_last()) + text,
            _ => leaf_bytes(steps.drop_last()),
        }
    }
}

} // verus!
