//! Errors of the kernel.
use vstd::prelude::*;

verus! {

/// What can go wrong in expansion, propagation, compilation and moves.
#[derive(Clone, Debug, PartialEq, Eq)]
pub enum KernelError {
    /// An input slot and the output slot feeding it carry different kinds.
    SlotKindMismatch,
    /// A required input slot has no contents.
    RequiredSlotEmpty,
    /// An input slot of kind `Unknown` was met.
    UnknownSlotKind,
    /// The upstream output slot has no entry at this position.
    MissingOutput { nth: usize },
    /// Argument sorts do not form the range `0..k`.
    SortGap,
    /// The relation graph of a workflow has a cycle.
    WorkflowCyclic,
    /// No node has the id asked for.
    NoSuchNode,
    /// No slot has the descriptor asked for.
    NoSuchSlot,
    /// No package material, template or output family has this descriptor.
    NoSuchMaterial { descriptor: String },
    /// No output collector has this descriptor.
    NoSuchCollector { descriptor: String },
    /// No move is registered under the id asked for.
    NoSuchMove,
    /// A template refers to another template.
    UnsupportedRefChain,
    /// A collector's target does not fit the output slot it serves.
    MismatchedCollectTarget,
    /// A binding's kind does not fit the slot it is bound to.
    MismatchedInputKind,
    /// A text id has no stored value.
    MissingText,
    /// A snapshot move has no user id.
    MissingUserId,
    /// A template could not be rendered.
    TemplateFailed,
    /// A sub-node count does not fit in a machine word.
    CountOverflow,
}

} // verus!
