//! Server side: imports of style sheets are dropped.
use vstd::prelude::*;

use crate::text::{ends_with, has_suffix};

verus! {

/// A source that is not a style sheet: it ends in none of `.css`, `.scss`, `.sass`.
pub open spec fn spec_is_style(source: Seq<char>) -> bool {
    !has_suffix(source, ".css"@) && !has_suffix(source, ".scss"@) && !has_suffix(source, ".sass"@)
}

/// Whether an import of `source` is kept on the server (it is not a style sheet).
pub fn is_style(source: &str) -> (r: bool)
    ensures
        r == spec_is_style(source@),
{
    !ends_with(source, ".css") && !ends_with(source, ".scss") && !ends_with(source, ".sass")
}

/// Drops the imports of style sheets from a module.
pub struct RemoveStylesVisitor {}

impl Default for RemoveStylesVisitor {
    fn default() -> (r: Self) {
        RemoveStylesVisitor {  }
    }
}

impl RemoveStylesVisitor {
    /// Whether a statement of the module stays: an import (given by its source) stays
    /// when it is not a style sheet; any other statement stays.
    pub fn keeps_item(&self, import_source: Option<&str>) -> (r: bool)
        ensures
            r == match import_source {
                Some(s) => spec_is_style(s@),
                None => true,
            },
    {
        match import_source {
            Some(s) => is_style(s),
            None => true,
        }
    }
}

} // verus!
