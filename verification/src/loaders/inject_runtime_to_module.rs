//! The `import $runtime from "nullstack/runtime"` put first in a module that lacks it.
use vstd::prelude::*;

use crate::text::str_eq;

verus! {

/// Whether the module already binds `$runtime` by a default import.
pub struct InjectTranspilerVisitor {
    pub has_runtime: bool,
}

impl Default for InjectTranspilerVisitor {
    fn default() -> (r: Self)
        ensures
            !r.has_runtime,
    {
        InjectTranspilerVisitor { has_runtime: false }
    }
}

impl InjectTranspilerVisitor {
    /// A default import specifier binding `local`.
    pub fn on_import_default_specifier(&mut self, local: &str)
        ensures
            final(self).has_runtime == (old(self).has_runtime || local@ == "$runtime"@),
    {
        if str_eq(local, "$runtime") {
            self.has_runtime = true;
        }
    }

    /// Whether the runtime import must be put first in the module.
    pub fn needs_runtime_import(&self) -> (r: bool)
        ensures
            r == !self.has_runtime,
    {
        !self.has_runtime
    }
}

} // verus!
