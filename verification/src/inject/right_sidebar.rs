//! The right sidebar's script: Git changes, the file tree and the file
//! preview, kept as fragments by concern.
use crate::inject::{join_fragments, joined};
use crate::text::string_views;
use vstd::prelude::*;

verus! {

/// The right sidebar's script: its fragments (constants, styles, state, git,
/// file tree, modal, markdown, highlighting, sidebar) joined in order.
pub fn js_module(fragments: &Vec<String>) -> (r: String)
    ensures
        r@ == joined(string_views(fragments@)),
{
    join_fragments(fragments)
}

} // verus!
