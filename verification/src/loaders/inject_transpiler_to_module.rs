//! The `$transpiler` specifier imported from `nullstack`: added to the default import of
//! `nullstack` when there is one, else imported by a declaration of its own.
use vstd::prelude::*;

use crate::text::{eq_ascii_case, eq_ignore_ascii_case};

verus! {

/// Whether `$transpiler` is imported yet.
pub struct InjectTranspilerVisitor {
    pub has_import: bool,
}

impl Default for InjectTranspilerVisitor {
    fn default() -> (r: Self)
        ensures
            !r.has_import,
    {
        InjectTranspilerVisitor { has_import: false }
    }
}

impl InjectTranspilerVisitor {
    /// An import declaration with this source, whose first specifier is a default one
    /// or not; the result says whether `$transpiler` is to be added to its specifiers.
    pub fn on_import_decl(&mut self, src: &str, first_is_default: bool) -> (add: bool)
        ensures
            add == (!old(self).has_import && eq_ascii_case(src@, "nullstack"@) && first_is_default),
            final(self).has_import == (old(self).has_import || add),
    {
        if !self.has_import && eq_ignore_ascii_case(src, "nullstack") && first_is_default {
            self.has_import = true;
            true
        } else {
            false
        }
    }

    /// Whether a declaration importing `$transpiler` must be put first in the module.
    pub fn needs_import(&self) -> (r: bool)
        ensures
            r == !self.has_import,
    {
        !self.has_import
    }
}

} // verus!
