use vstd::prelude::*;

verus! {

/// What can end a transfer, or an operation on the registry, in failure.
#[derive(Debug, Clone, Copy, PartialEq, Eq, Structural)]
pub enum Error {
    /// The source answered with a status outside `200..300`.
    SourceStatus(u16),
    /// Every candidate name for the persisted file already exists.
    PersistenceExhausted,
    /// An identifier was registered twice.
    RegistryMisuse,
}

} // verus!
