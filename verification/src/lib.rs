//! Content-addressed directory manifests: exclusion matching, content
//! fingerprints, manifest construction, verification (drift detection),
//! and a lossless text codec for the manifest itself.

pub mod codec;
pub mod digest;
pub mod errors;
pub mod fleet;
pub mod laws;
pub mod manifest;
pub mod pattern;
pub mod verify;
pub mod walk;

use vstd::prelude::*;

verus! {

} // verus!
