//! The error kinds the engine surfaces. All are fatal; none is silently
//! recovered from.

use vstd::prelude::*;

use crate::ast::{PlanKind, PlanType};

verus! {

/// An engine error. Compilation errors carry the position of the offending
/// plan element and, where useful, its kind.
#[derive(Debug)]
pub enum PipeError {
    /// The pipeline text does not match the grammar; the position is the
    /// byte offset at which parsing stopped.
    ParseError { at: usize },
    /// No factory is registered for the kind at this position.
    UnknownNode { index: usize, kind: PlanKind },
    /// The node requires a batch engine other than the rolling context's.
    IncompatibleBatch { index: usize, kind: PlanKind },
    /// The node requires a stream form other than the rolling context's.
    IncompatibleStream { index: usize, kind: PlanKind },
    /// The node requires a model the rolling context does not supply.
    MissingModel { index: usize, kind: PlanKind },
    /// The node requires models while the rolling context supplies none.
    ImplicitModel { index: usize, kind: PlanKind },
    /// A second source appeared.
    DuplicateSrc { index: usize, kind: PlanKind },
    /// A second sink appeared.
    DuplicateSink { index: usize, kind: PlanKind },
    /// A node other than a source appeared before any source.
    LinkBeforeSrc { index: usize, kind: PlanKind },
    /// A node appeared after the sink.
    LinkAfterSink { index: usize, kind: PlanKind },
    /// A factory produced an implementation of the wrong role.
    NodeKindMismatch { index: usize, expected: PlanType, given: PlanType },
    /// A node's `build` failed.
    BuildError { index: usize },
    /// A node's `call` or a store's `save` failed mid-stream.
    CallError,
    /// Columnar-to-stream conversion met an unsupported column type.
    FormatUnsupported,
    /// A store read or write failed.
    StoreIoError,
    /// No source was seen.
    NoSrc,
    /// No sink was seen.
    NoSink,
}

impl PipeError {
    /// A short, stable name for the error kind.
    pub fn kind_name(&self) -> (r: &'static str)
        ensures
            self matches PipeError::ParseError { .. } ==> r@ == "parse error"@,
            self matches PipeError::UnknownNode { .. } ==> r@ == "unknown node"@,
            self matches PipeError::IncompatibleBatch { .. } ==> r@ == "incompatible batch"@,
            self matches PipeError::IncompatibleStream { .. } ==> r@ == "incompatible stream"@,
            self matches PipeError::MissingModel { .. } ==> r@ == "missing model"@,
            self matches PipeError::ImplicitModel { .. } ==> r@ == "implicit model is not allowed"@,
            self matches PipeError::DuplicateSrc { .. } ==> r@ == "duplicated src"@,
            self matches PipeError::DuplicateSink { .. } ==> r@ == "duplicated sink"@,
            self matches PipeError::LinkBeforeSrc { .. } ==> r@ == "cannot link before src"@,
            self matches PipeError::LinkAfterSink { .. } ==> r@ == "cannot link after sink"@,
            self matches PipeError::NodeKindMismatch { .. } ==> r@ == "unexpected node"@,
            self matches PipeError::BuildError { .. } ==> r@ == "failed to build node"@,
            self matches PipeError::CallError ==> r@ == "failed to call node"@,
            self matches PipeError::FormatUnsupported ==> r@ == "data type not supported"@,
            self matches PipeError::StoreIoError ==> r@ == "store i/o error"@,
            self matches PipeError::NoSrc ==> r@ == "no src"@,
            self matches PipeError::NoSink ==> r@ == "no sink"@,
    {
        match self {
            PipeError::ParseError { .. } => "parse error",
            PipeError::UnknownNode { .. } => "unknown node",
            PipeError::IncompatibleBatch { .. } => "incompatible batch",
            PipeError::IncompatibleStream { .. } => "incompatible stream",
            PipeError::MissingModel { .. } => "missing model",
            PipeError::ImplicitModel { .. } => "implicit model is not allowed",
            PipeError::DuplicateSrc { .. } => "duplicated src",
            PipeError::DuplicateSink { .. } => "duplicated sink",
            PipeError::LinkBeforeSrc { .. } => "cannot link before src",
            PipeError::LinkAfterSink { .. } => "cannot link after sink",
            PipeError::NodeKindMismatch { .. } => "unexpected node",
            PipeError::BuildError { .. } => "failed to build node",
            PipeError::CallError => "failed to call node",
            PipeError::FormatUnsupported => "data type not supported",
            PipeError::StoreIoError => "store i/o error",
            PipeError::NoSrc => "no src",
            PipeError::NoSink => "no sink",
        }
    }
}

} // verus!
