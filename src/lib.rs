use vstd::prelude::*;

/// The register-level call convention between a user program and its supervisor.
pub mod abi;
/// Load addresses: build profiles, their base and step, and the address of each program.
pub mod placement;
/// Byte-wise lexicographic order on program names, and sorted insertion.
pub mod order;
/// Finding the user programs in a directory listing.
pub mod discover;
/// The image table: where each embedded program's bytes begin and end.
pub mod table;
/// The assembly source that embeds the programs behind the image table.
pub mod artifact;
/// The list of programs to build, each with its load address.
pub mod plan;
/// Laws of the packaging run as a whole: profile, plan, table and artifact together.
pub mod package;

verus! {

} // verus!
