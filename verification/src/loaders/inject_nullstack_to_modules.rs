//! The `import Nullstack from 'nullstack'` put first in a module that lacks it.
use vstd::prelude::*;

use crate::text::{eq_ascii_case, eq_ignore_ascii_case};

verus! {

/// Whether the module imports `nullstack` (in any ASCII case), and whether imports are
/// being looked for.
pub struct InjectNullstackVisitor {
    pub imports_nullstack: bool,
    pub seeking_import: bool,
}

impl Default for InjectNullstackVisitor {
    fn default() -> (r: Self)
        ensures
            !r.imports_nullstack,
            !r.seeking_import,
    {
        InjectNullstackVisitor { imports_nullstack: false, seeking_import: false }
    }
}

impl InjectNullstackVisitor {
    /// A module starts: imports are looked for; the result is the previous setting, to
    /// give back to `exit_module`.
    pub fn enter_module(&mut self) -> (previous: bool)
        ensures
            previous == old(self).seeking_import,
            final(self).seeking_import,
            final(self).imports_nullstack == old(self).imports_nullstack,
    {
        let previous = self.seeking_import;
        self.seeking_import = true;
        previous
    }

    /// An import declaration with this source.
    pub fn on_import_decl(&mut self, src: &str)
        ensures
            final(self).imports_nullstack == (old(self).imports_nullstack || eq_ascii_case(src@, "nullstack"@)),
            final(self).seeking_import == old(self).seeking_import,
    {
        if eq_ignore_ascii_case(src, "nullstack") {
            self.imports_nullstack = true;
        }
    }

    /// The module ends: the result says whether the import must be put first; the
    /// previous setting of the search is restored.
    pub fn exit_module(&mut self, previous: bool) -> (inject: bool)
        ensures
            inject == !old(self).imports_nullstack,
            final(self).seeking_import == previous,
            final(self).imports_nullstack == old(self).imports_nullstack,
    {
        self.seeking_import = previous;
        !self.imports_nullstack
    }
}

} // verus!
