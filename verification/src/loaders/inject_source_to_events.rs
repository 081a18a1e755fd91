//! `source={this}` given to the elements that bind an event.
use vstd::prelude::*;

use crate::text::{eq_ascii_case, eq_ignore_ascii_case, has_prefix, starts_with};

verus! {

/// Whether an attribute name is `source`, in any ASCII case.
pub open spec fn is_source_attribute(name: Option<Seq<char>>) -> bool {
    name matches Some(n) && eq_ascii_case(n, "source"@)
}

/// Whether an attribute name starts with `on`.
pub open spec fn is_event_attribute(name: Option<Seq<char>>) -> bool {
    name matches Some(n) && has_prefix(n, "on"@)
}

pub open spec fn names_view(v: Seq<Option<String>>) -> Seq<Option<Seq<char>>> {
    v.map_values(|o: Option<String>| match o {
        Some(s) => Some(s@),
        None => None,
    })
}

/// An element needs `source` when one of its attributes is an event and none is
/// `source` already.
pub open spec fn spec_should_inject(attrs: Seq<Option<Seq<char>>>) -> bool {
    &&& forall|i: int| 0 <= i < attrs.len() ==> !is_source_attribute(#[trigger] attrs[i])
    &&& exists|i: int| 0 <= i < attrs.len() && is_event_attribute(#[trigger] attrs[i])
}

/// Adds `source={this}` to the elements with event attributes.
pub struct InjectSourceVisitor {}

impl Default for InjectSourceVisitor {
    fn default() -> (r: Self) {
        InjectSourceVisitor {  }
    }
}

impl InjectSourceVisitor {
    /// Whether an element, given the names of its attributes (`None` for a spread or a
    /// namespaced name), gets `source={this}`.
    pub fn should_inject_source_attribute(&self, attrs: &Vec<Option<String>>) -> (r: bool)
        ensures
            r == spec_should_inject(names_view(attrs@)),
    {
        let ghost a = names_view(attrs@);
        let mut has_event = false;
        let mut i: usize = 0;
        while i < attrs.len()
            invariant
                i <= attrs.len(),
                a == names_view(attrs@),
                forall|j: int| 0 <= j < i ==> !is_source_attribute(#[trigger] a[j]),
                has_event == exists|j: int| 0 <= j < i && is_event_attribute(#[trigger] a[j]),
            decreases attrs.len() - i,
        {
            proof {
                reveal_strlit("source");
                reveal_strlit("on");
            }
            if let Some(name) = &attrs[i] {
                assert(a[i as int] == Some(name@));
                if eq_ignore_ascii_case(name.as_str(), "source") {
                    return false;
                }
                if starts_with(name.as_str(), "on") {
                    has_event = true;
                }
            } else {
                assert(a[i as int] is None);
            }
            i = i + 1;
        }
        has_event
    }
}

/// Law: once `source` is added to an element, the element needs it no more.
pub proof fn law_source_added_once(attrs: Seq<Option<Seq<char>>>)
    ensures
        !spec_should_inject(attrs.push(Some("source"@))),
{
    let a = attrs.push(Some("source"@));
    let i = attrs.len() as int;
    assert(a[i] == Some("source"@));
    assert(eq_ascii_case("source"@, "source"@));
    assert(is_source_attribute(a[i]));
}

} // verus!
