//! Constant propagation over a typed, first-order language of prime-field
//! expressions, as it runs ahead of flattening to rank-1 constraint systems.
//!
//! The crate models the language (field elements, booleans, fixed-length
//! field arrays), a per-function environment of known literals, and the
//! propagation pass itself, together with proofs of its governing laws:
//! idempotence, preservation of expression semantics, the literal-only
//! environment invariant, array-shape preservation, and opacity of
//! function-call boundaries.

use vstd::prelude::*;

pub mod error;
pub mod field;
pub mod component;
pub mod environment;
pub mod laws;
pub mod propagation;
pub mod proof_system;
pub mod semantics;
pub mod typed_absy;

verus! {

} // verus!
