//! `ref={a.b}` and `bind={a.b}` become `{object: a, property: "b"}` (or the computed or
//! private key in place of `"b"`).
use vstd::prelude::*;

use crate::text::str_eq;

verus! {

/// The attributes whose member expressions are rewritten.
pub open spec fn spec_is_reference_attribute(name: Seq<char>) -> bool {
    name == "ref"@ || name == "bind"@
}

/// The key of a member expression.
pub enum MemberPropKind {
    Ident(String),
    PrivateName,
    Computed,
}

/// What stands for the key as the `property` of the object: a string literal with the
/// name, the private name as an identifier, or the computed expression itself.
pub enum PropertyValue {
    StringLiteral(String),
    PrivateIdentifier,
    ComputedExpression,
}

/// Rewrites the references bound to elements.
pub struct ReplaceRefVisitor {
    inside_reference: bool,
}

impl View for ReplaceRefVisitor {
    type V = bool;

    /// Whether the walk is inside the value of a reference attribute.
    closed spec fn view(&self) -> bool {
        self.inside_reference
    }
}

impl Default for ReplaceRefVisitor {
    fn default() -> (r: Self)
        ensures
            !r@,
    {
        ReplaceRefVisitor { inside_reference: false }
    }
}

impl ReplaceRefVisitor {
    /// Whether an attribute with this name binds a reference.
    pub fn is_reference_attribute(name: &str) -> (r: bool)
        ensures
            r == spec_is_reference_attribute(name@),
    {
        str_eq(name, "ref") || str_eq(name, "bind")
    }

    /// An attribute with a plain name (`None` otherwise), whose value is a member
    /// expression or not: the result says whether its value is rewritten; the caller
    /// walks it and then calls `exit_attribute`.
    pub fn enter_attribute(&mut self, name: Option<&str>, value_is_member: bool) -> (r: bool)
        ensures
            r == (value_is_member && match name {
                Some(n) => spec_is_reference_attribute(n@),
                None => false,
            }),
            final(self)@ == (r || old(self)@),
    {
        if let Some(n) = name {
            if value_is_member && Self::is_reference_attribute(n) {
                self.inside_reference = true;
                return true;
            }
        }
        false
    }

    /// The attribute's value has been walked.
    pub fn exit_attribute(&mut self)
        ensures
            !final(self)@,
    {
        self.inside_reference = false;
    }

    /// Whether an expression container met now is replaced by the object.
    pub fn rewrites_container(&self) -> (r: bool)
        ensures
            r == self@,
    {
        self.inside_reference
    }

    /// What stands for the key of the member expression as the `property`.
    pub fn property_value(prop: MemberPropKind) -> (v: PropertyValue)
        ensures
            match prop {
                MemberPropKind::Ident(n) => v matches PropertyValue::StringLiteral(s) && s@ == n@,
                MemberPropKind::PrivateName => v is PrivateIdentifier,
                MemberPropKind::Computed => v is ComputedExpression,
            },
    {
        match prop {
            MemberPropKind::Ident(n) => PropertyValue::StringLiteral(n),
            MemberPropKind::PrivateName => PropertyValue::PrivateIdentifier,
            MemberPropKind::Computed => PropertyValue::ComputedExpression,
        }
    }
}

} // verus!
