use vstd::prelude::*;

verus! {

/// Integer coordinate type shared by vectors, cuboids and grids.
///
/// The build-wide configuration (see `crate::config`) selects a nominal
/// 32- or 64-bit coordinate width; the verified core stores coordinates in
/// the 64-bit type, which is wide enough for either selection.
pub type TransformInt = i64;

} // verus!
