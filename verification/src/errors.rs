//! Typed failures of the store. The in-memory engine can fail only on
//! decoding a malformed document and on a uniqueness violation; engine
//! transport failures belong to the layer that owns a real connection.

use vstd::prelude::*;

verus! {

/// A failure surfaced by the store.
#[derive(Clone, Copy, PartialEq, Eq, Structural, Debug)]
pub enum StoreError {
    /// A stored document is missing a required field or a field has the
    /// wrong shape.
    Decoding,
    /// A physical insert collided with the uniqueness index on the
    /// primary-key field.
    Conflict,
}

} // verus!
