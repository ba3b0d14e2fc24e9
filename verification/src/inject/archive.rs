//! The archive feature's script: the archive buttons and the archived
//! sessions panel, kept as fragments by concern.
use crate::inject::{join_fragments, joined};
use crate::text::string_views;
use vstd::prelude::*;

verus! {

/// The archive feature's script: its fragments (constants, styles,
/// overrides, targets, confirmation, execution, panel, danger zone, start-up)
/// joined in order.
pub fn js_module(fragments: &Vec<String>) -> (r: String)
    ensures
        r@ == joined(string_views(fragments@)),
{
    join_fragments(fragments)
}

} // verus!
