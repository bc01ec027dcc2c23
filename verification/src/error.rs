//! The failures that editing operations report.

use vstd::prelude::*;

verus! {

/// Why an operation on the document, the registry or the runtime failed.
#[derive(Debug, Clone, Copy, PartialEq, Eq, Structural)]
pub enum EditorError {
    /// A type name was looked up in the registry and is not registered.
    UnregisteredType,
    /// A bag was patched with a bag of another type.
    TypeMismatch,
    /// A persisted value does not have the shape that decoding expects.
    SerializationFailure,
    /// A referenced asset could not be resolved.
    AssetResolutionFailure,
    /// An entity id is not present in the document or the identity map.
    IndexOutOfRange,
}

} // verus!
