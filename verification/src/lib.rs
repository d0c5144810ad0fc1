//! A version-constraint matching engine: parses constraint expressions such as
//! `>=1.2,!=1.5.*` or `1.7.*|^0\..*$` and decides whether a concrete version
//! string satisfies them.

use vstd::prelude::*;

pub mod compop;
pub mod constraint;
pub mod errors;
pub mod matcher;
pub mod tree;
pub mod rx;
pub mod version;

pub use constraint::{ConstraintSpec, Spec, SpecRegistry};
pub use errors::SpecError;

verus! {

} // verus!
