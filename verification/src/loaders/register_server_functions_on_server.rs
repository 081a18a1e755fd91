//! Server side: each server function is registered with `$runtime.register(Class, "name")`,
//! and each class that has one with `$runtime.register(Class)`.
use vstd::prelude::*;

use crate::loaders::helpers::{IdentInfo, SpanInfo};
use crate::text::{has_prefix, starts_with, to_owned};

verus! {

/// One registration: of a class's server function when `function_name` is given, else of
/// the class itself.
pub struct Registration {
    pub class_name: IdentInfo,
    pub function_name: Option<String>,
}

pub open spec fn registration_view(r: Registration) -> (Seq<char>, SpanInfo, Option<Seq<char>>) {
    (
        r.class_name.sym@,
        r.class_name.span,
        match r.function_name {
            Some(f) => Some(f@),
            None => None,
        },
    )
}

pub open spec fn registry_view(v: Seq<Registration>) -> Seq<(Seq<char>, SpanInfo, Option<Seq<char>>)> {
    v.map_values(|r: Registration| registration_view(r))
}

/// The state of the visitor, as plain values.
pub struct RegisterModel {
    pub registry: Seq<(Seq<char>, SpanInfo, Option<Seq<char>>)>,
    pub current_class: Option<(Seq<char>, SpanInfo)>,
    pub has_server_function: bool,
}

/// Collects the registrations of a module's classes and server functions.
pub struct RegisterServerFunctionVisitor {
    registry: Vec<Registration>,
    current_class: Option<IdentInfo>,
    has_server_function: bool,
}

impl View for RegisterServerFunctionVisitor {
    type V = RegisterModel;

    closed spec fn view(&self) -> RegisterModel {
        RegisterModel {
            registry: registry_view(self.registry@),
            current_class: match self.current_class {
                Some(c) => Some((c.sym@, c.span)),
                None => None,
            },
            has_server_function: self.has_server_function,
        }
    }
}

/// No function registered has a name starting with `_`.
pub open spec fn register_wf(m: RegisterModel) -> bool {
    forall|i: int| 0 <= i < m.registry.len() && (#[trigger] m.registry[i]).2 is Some
        ==> !has_prefix(m.registry[i].2->0, "_"@)
}

impl Default for RegisterServerFunctionVisitor {
    fn default() -> (r: Self)
        ensures
            r@ == (RegisterModel { registry: Seq::empty(), current_class: None, has_server_function: false }),
            register_wf(r@),
    {
        let r = RegisterServerFunctionVisitor { registry: Vec::new(), current_class: None, has_server_function: false };
        assert(registry_view(r.registry@) =~= Seq::empty());
        r
    }
}

/// Whether a class member is a server function to register: a static async method with
/// a plain name that does not start with `_`.
pub open spec fn spec_is_registered(is_method: bool, is_static: bool, is_async: bool, name: Option<Seq<char>>) -> bool {
    is_method && is_static && is_async && (name matches Some(n) && !has_prefix(n, "_"@))
}

impl RegisterServerFunctionVisitor {
    /// A named class starts.
    pub fn enter_class(&mut self, class_name: IdentInfo)
        ensures
            final(self)@ == (RegisterModel {
                current_class: Some((class_name.sym@, class_name.span)),
                has_server_function: false,
                ..old(self)@
            }),
            register_wf(old(self)@) ==> register_wf(final(self)@),
    {
        self.has_server_function = false;
        self.current_class = Some(class_name);
    }

    /// A member of the current class: a server function with a plain name not starting
    /// with `_` is registered, and any server function marks the class to register.
    pub fn on_class_member(&mut self, is_method: bool, is_static: bool, is_async: bool, name: Option<&str>)
        ensures
            final(self)@.current_class == old(self)@.current_class,
            final(self)@.has_server_function == (old(self)@.has_server_function || (is_method && is_static
                && is_async && old(self)@.current_class is Some)),
            final(self)@.registry == if spec_is_registered(
                is_method,
                is_static,
                is_async,
                match name { Some(n) => Some(n@), None => None },
            ) && old(self)@.current_class is Some {
                old(self)@.registry.push(
                    ((old(self)@.current_class->0).0, (old(self)@.current_class->0).1, Some(name->0@)),
                )
            } else {
                old(self)@.registry
            },
            register_wf(old(self)@) ==> register_wf(final(self)@),
    {
        proof {
            reveal_strlit("_");
        }
        if is_method && is_static && is_async && self.current_class.is_some() {
            self.has_server_function = true;
        }
        if is_method && is_static && is_async {
            if let (Some(c), Some(n)) = (&self.current_class, name) {
                if !starts_with(n, "_") {
                    let r = Registration { class_name: c.duplicate(), function_name: Some(to_owned(n)) };
                    let ghost v0 = self.registry@;
                    let ghost m0 = self@;
                    self.registry.push(r);
                    assert(registry_view(self.registry@) =~= registry_view(v0).push(registration_view(r)));
                    proof {
                        let t = self@.registry;
                        assert(!has_prefix(n@, "_"@));
                        if register_wf(m0) {
                            assert forall|i: int| 0 <= i < t.len() && (#[trigger] t[i]).2 is Some implies !has_prefix(t[i].2->0, "_"@) by {
                                if i < v0.len() {
                                    assert(t[i] == registry_view(v0)[i]);
                                }
                            }
                        }
                    }
                }
            }
        }
    }

    /// The class ends; it is registered itself when it has a server function.
    pub fn exit_class(&mut self, class_name: IdentInfo)
        ensures
            final(self)@ == (RegisterModel {
                registry: if old(self)@.has_server_function {
                    old(self)@.registry.push((class_name.sym@, class_name.span, None))
                } else {
                    old(self)@.registry
                },
                current_class: None,
                has_server_function: false,
            }),
            register_wf(old(self)@) ==> register_wf(final(self)@),
    {
        let ghost m0 = self@;
        if self.has_server_function {
            let r = Registration { class_name, function_name: None };
            let ghost v0 = self.registry@;
            let ghost rv = registration_view(r);
            self.registry.push(r);
            assert(registry_view(self.registry@) =~= registry_view(v0).push(rv));
            proof {
                let t = self@.registry;
                if register_wf(m0) {
                    assert forall|i: int| 0 <= i < t.len() && (#[trigger] t[i]).2 is Some implies !has_prefix(t[i].2->0, "_"@) by {
                        if i < v0.len() {
                            assert(t[i] == registry_view(v0)[i]);
                        }
                    }
                }
            }
        }
        self.current_class = None;
        self.has_server_function = false;
    }

    /// The registrations to append to the module, in the order they were found.
    pub fn registrations(&self) -> (r: Vec<Registration>)
        ensures
            registry_view(r@) == self@.registry,
    {
        let mut r: Vec<Registration> = Vec::new();
        let mut i: usize = 0;
        while i < self.registry.len()
            invariant
                i <= self.registry.len(),
                r@.len() == i,
                forall|k: int| 0 <= k < i ==> #[trigger] registration_view(r@[k]) == registration_view(self.registry@[k]),
            decreases self.registry.len() - i,
        {
            let e = &self.registry[i];
            let f = match &e.function_name {
                Some(f) => Some(f.clone()),
                None => None,
            };
            r.push(Registration { class_name: e.class_name.duplicate(), function_name: f });
            i = i + 1;
        }
        assert(registry_view(r@) =~= self@.registry);
        r
    }
}

} // verus!
