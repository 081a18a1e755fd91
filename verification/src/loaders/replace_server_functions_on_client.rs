//! Client side: a server function becomes `static name = $runtime.invoke("name", this.hash)`,
//! and a private one (its name starts with `_`) is dropped.
use vstd::prelude::*;

use crate::text::{has_prefix, starts_with, to_owned};

verus! {

/// Replaces the server functions of the classes of a module.
pub struct ReplaceServerFunctionVisitor {}

impl Default for ReplaceServerFunctionVisitor {
    fn default() -> (r: Self) {
        ReplaceServerFunctionVisitor {  }
    }
}

/// A static async method: a server function.
pub open spec fn is_server_function(is_method: bool, is_static: bool, is_async: bool) -> bool {
    is_method && is_static && is_async
}

impl ReplaceServerFunctionVisitor {
    /// Whether a class member stays: a server function with a plain name starting with
    /// `_` is dropped.
    pub fn keeps_member(&self, is_method: bool, is_static: bool, is_async: bool, name: Option<&str>) -> (r: bool)
        ensures
            r == !(is_server_function(is_method, is_static, is_async) && match name {
                Some(n) => has_prefix(n@, "_"@),
                None => false,
            }),
    {
        proof {
            reveal_strlit("_");
        }
        if is_method && is_static && is_async {
            if let Some(n) = name {
                if starts_with(n, "_") {
                    return false;
                }
            }
        }
        true
    }

    /// The name under which a class member is replaced by an `invoke` property: that of
    /// a server function with a plain name; `None` leaves the member as it is.
    pub fn invoke_name(&self, is_method: bool, is_static: bool, is_async: bool, name: Option<&str>) -> (r: Option<String>)
        ensures
            match r {
                Some(s) => is_server_function(is_method, is_static, is_async) && name is Some && s@ == name->0@,
                None => !is_server_function(is_method, is_static, is_async) || name is None,
            },
    {
        if is_method && is_static && is_async {
            if let Some(n) = name {
                return Some(to_owned(n));
            }
        }
        None
    }
}

} // verus!
