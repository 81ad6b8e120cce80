//! Verified core of the para desktop preview.
//!
//! Paths are text read by the rules that `std::path` follows on the platform
//! the program runs on: the functions that read paths take `windows`, which
//! selects the Windows rules (`winpath`) over the Unix ones (`paths`).
use vstd::prelude::*;

pub mod agent;
pub mod display;
pub mod frontmatter;
pub mod order;
pub mod paths;
pub mod tabs;
pub mod text;
pub mod tree;
pub mod vault;
pub mod winpath;

verus! {
}
