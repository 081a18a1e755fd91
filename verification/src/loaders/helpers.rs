//! Identifiers and their places in the source, as plain values.
use vstd::prelude::*;

use crate::text::to_owned;

verus! {

/// Where an identifier stands: its byte range and the number of its syntax context.
#[derive(Clone, Copy, Debug, PartialEq, Eq, Structural)]
pub struct SpanInfo {
    pub lo: u32,
    pub hi: u32,
    pub ctxt: u32,
}

/// An identifier: its name and where it stands.
pub struct IdentInfo {
    pub sym: String,
    pub span: SpanInfo,
}

impl IdentInfo {
    /// A copy of the identifier.
    pub fn duplicate(&self) -> (r: IdentInfo)
        ensures
            r.sym@ == self.sym@,
            r.span == self.span,
    {
        IdentInfo { sym: self.sym.clone(), span: self.span }
    }
}

/// The identifier `$transpiler`, at no place, in syntax context 69.
pub fn transpiler_ident() -> (i: IdentInfo)
    ensures
        i.sym@ == "$transpiler"@,
        i.span == (SpanInfo { lo: 0, hi: 0, ctxt: 69 }),
{
    IdentInfo { sym: to_owned("$transpiler"), span: SpanInfo { lo: 0, hi: 0, ctxt: 69 } }
}

} // verus!
