//! The verified core of a desktop launcher for `dsh web`: locating dsh,
//! building its launch command, the readiness probe, the supervised
//! lifecycle, session-archive maintenance, and the data of the right
//! sidebar. Reading files, running programs and talking to the network are
//! left to the caller; the library decides from what they return.
use vstd::prelude::*;

pub mod archive;
pub mod base64;
pub mod candidate;
pub mod file_tree;
pub mod git_diff;
pub mod http;
pub mod inject;
pub mod json;
pub mod launch;
pub mod locate;
pub mod logging;
pub mod paths;
pub mod preview;
pub mod supervise;
pub mod text;

verus! {

} // verus!
