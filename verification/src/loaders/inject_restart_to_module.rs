//! Hot restart of an entry point: `$runtime.restart(module, "<path>")` appended, where the
//! path is that of the module passed to `Nullstack.start`.
use vstd::prelude::*;

use crate::loaders::inject_accept_to_module::opt_view;
use crate::text::{str_eq, to_owned};

verus! {

/// How an import specifier binds its local name.
#[derive(Clone, Copy, Debug, PartialEq, Eq, Structural)]
pub enum ImportKind {
    Named,
    Default,
    Namespace,
}

/// An import specifier: its kind and the local name it binds.
pub struct ImportSpec {
    pub kind: ImportKind,
    pub local: String,
}

pub open spec fn specs_view(v: Seq<ImportSpec>) -> Seq<(ImportKind, Seq<char>)> {
    v.map_values(|s: ImportSpec| (s.kind, s.local@))
}

/// The state of the visitor, as plain values.
pub struct RestartModel {
    pub nullstack: Option<Seq<char>>,
    pub starter: Option<Seq<char>>,
    pub starter_path: Option<Seq<char>>,
}

/// Finds, over passes of a module, the local name of `nullstack`'s default import, the
/// name passed to its `start`, and the source that name is imported from.
pub struct InjectRestartVisitor {
    nullstack: Option<String>,
    starter: Option<String>,
    starter_path: Option<String>,
}

impl View for InjectRestartVisitor {
    type V = RestartModel;

    closed spec fn view(&self) -> RestartModel {
        RestartModel {
            nullstack: opt_view(self.nullstack),
            starter: opt_view(self.starter),
            starter_path: opt_view(self.starter_path),
        }
    }
}

impl Default for InjectRestartVisitor {
    fn default() -> (r: Self)
        ensures
            r@ == (RestartModel { nullstack: None, starter: None, starter_path: None }),
            restart_wf(r@),
    {
        InjectRestartVisitor { nullstack: None, starter: None, starter_path: None }
    }
}

/// The local name of the last default specifier, if any.
pub open spec fn last_default(specs: Seq<(ImportKind, Seq<char>)>) -> Option<Seq<char>>
    decreases specs.len(),
{
    if specs.len() == 0 {
        None
    } else if specs.last().0 == ImportKind::Default {
        Some(specs.last().1)
    } else {
        last_default(specs.drop_last())
    }
}

/// The search for the starter among the specifiers of an import from `src`: the
/// specifiers are read in order; one binding `starter` sets the path to `src`, and the
/// search stops at the first specifier after which a path is known.
pub open spec fn find_starter(
    path: Option<Seq<char>>,
    specs: Seq<(ImportKind, Seq<char>)>,
    starter: Seq<char>,
    src: Seq<char>,
) -> Option<Seq<char>>
    decreases specs.len(),
{
    if specs.len() == 0 {
        path
    } else {
        let p = if specs[0].1 == starter {
            Some(src)
        } else {
            path
        };
        if p is Some {
            p
        } else {
            find_starter(p, specs.drop_first(), starter, src)
        }
    }
}

/// The state after an import declaration from `src` with these specifiers.
pub open spec fn spec_on_import(m: RestartModel, src: Seq<char>, specs: Seq<(ImportKind, Seq<char>)>) -> RestartModel {
    if m.nullstack is None {
        if src == "nullstack"@ {
            match last_default(specs) {
                Some(n) => RestartModel { nullstack: Some(n), ..m },
                None => m,
            }
        } else {
            m
        }
    } else {
        match m.starter {
            Some(s) => RestartModel { starter_path: find_starter(m.starter_path, specs, s, src), ..m },
            None => m,
        }
    }
}

/// Law: only an import whose source is exactly `nullstack` names nullstack, by its last
/// default specifier; an import from any other source (`nullstack/runtime` among them)
/// leaves the name unknown, and a known name never changes.
pub proof fn law_nullstack_name(m: RestartModel, src: Seq<char>, specs: Seq<(ImportKind, Seq<char>)>)
    ensures
        m.nullstack is None && src != "nullstack"@ ==> spec_on_import(m, src, specs).nullstack is None,
        m.nullstack is None && src == "nullstack"@ ==> spec_on_import(m, src, specs).nullstack == last_default(specs),
        m.nullstack is Some ==> spec_on_import(m, src, specs).nullstack == m.nullstack,
        spec_on_import(m, src, specs).starter == m.starter,
{
}

/// The state after a call: `<nullstack>.start(<name>, ...)` makes `<name>` the starter.
pub open spec fn spec_on_call(
    m: RestartModel,
    callee_object: Option<Seq<char>>,
    callee_property: Option<Seq<char>>,
    first_argument: Option<Seq<char>>,
) -> RestartModel {
    match (m.nullstack, callee_object, callee_property, first_argument) {
        (Some(n), Some(o), Some(p), Some(a)) => if o == n && p == "start"@ {
            RestartModel { starter: Some(a), ..m }
        } else {
            m
        },
        _ => m,
    }
}

/// A restart path is known only once a starter is, and a starter only once the local
/// name of `nullstack` is.
pub open spec fn restart_wf(m: RestartModel) -> bool {
    &&& (m.starter_path is Some ==> m.starter is Some)
    &&& (m.starter is Some ==> m.nullstack is Some)
}

impl InjectRestartVisitor {
    /// A call expression. `callee_object` and `callee_property` are the names when the
    /// callee is `<name>.<name>`; `first_argument` is the name when the first argument
    /// is an identifier.
    pub fn on_call_expr(
        &mut self,
        callee_object: Option<&str>,
        callee_property: Option<&str>,
        first_argument: Option<&str>,
    )
        ensures
            final(self)@ == spec_on_call(
                old(self)@,
                match callee_object { Some(o) => Some(o@), None => None },
                match callee_property { Some(p) => Some(p@), None => None },
                match first_argument { Some(a) => Some(a@), None => None },
            ),
            restart_wf(old(self)@) ==> restart_wf(final(self)@),
    {
        if let (Some(n), Some(o), Some(p), Some(a)) = (&self.nullstack, callee_object, callee_property, first_argument) {
            if str_eq(o, n.as_str()) && str_eq(p, "start") {
                self.starter = Some(to_owned(a));
            }
        }
    }

    /// An import declaration from `src` with these specifiers.
    pub fn on_import_decl(&mut self, src: &str, specifiers: &Vec<ImportSpec>)
        ensures
            final(self)@ == spec_on_import(old(self)@, src@, specs_view(specifiers@)),
            restart_wf(old(self)@) ==> restart_wf(final(self)@),
    {
        proof {
            lemma_on_import_wf(self@, src@, specs_view(specifiers@));
        }
        let ghost specs = specs_view(specifiers@);
        if self.nullstack.is_none() {
            if str_eq(src, "nullstack") {
                let mut i: usize = 0;
                while i < specifiers.len()
                    invariant
                        i <= specifiers.len(),
                        specs == specs_view(specifiers@),
                        opt_view(self.nullstack) == last_default(specs.take(i as int)),
                        self.starter == old(self).starter,
                        self.starter_path == old(self).starter_path,
                    decreases specifiers.len() - i,
                {
                    assert(specs.take(i + 1).drop_last() == specs.take(i as int));
                    if specifiers[i].kind == ImportKind::Default {
                        self.nullstack = Some(specifiers[i].local.clone());
                    }
                    i = i + 1;
                }
                assert(specs.take(specs.len() as int) == specs);
            }
        } else if let Some(s) = &self.starter {
            let s = s.clone();
            let mut i: usize = 0;
            assert(specs.skip(0) == specs);
            while i < specifiers.len()
                invariant
                    i <= specifiers.len(),
                    specs == specs_view(specifiers@),
                    self.starter == old(self).starter,
                    self.nullstack == old(self).nullstack,
                    old(self)@.starter == Some(s@),
                    old(self).nullstack is Some,
                    find_starter(old(self)@.starter_path, specs, s@, src@) == find_starter(
                        opt_view(self.starter_path),
                        specs.skip(i as int),
                        s@,
                        src@,
                    ),
                    i > 0 ==> self.starter_path is None,
                decreases specifiers.len() - i,
            {
                assert(specs.skip(i as int).drop_first() == specs.skip(i + 1));
                assert(specs.skip(i as int)[0] == specs[i as int]);
                let ghost pb = opt_view(self.starter_path);
                if str_eq(specifiers[i].local.as_str(), s.as_str()) {
                    self.starter_path = Some(to_owned(src));
                }
                if self.starter_path.is_some() {
                    assert(find_starter(pb, specs.skip(i as int), s@, src@) == opt_view(self.starter_path));
                    return;
                }
                i = i + 1;
            }
            assert(specs.skip(specs.len() as int).len() == 0);
        }
    }

    /// Whether a member expression `<object>.<property>` stops the transform: the
    /// pattern `Nullstack.start` outside a call is refused.
    pub fn member_expr_aborts(object: Option<&str>, property: Option<&str>) -> (r: bool)
        ensures
            r == (match (object, property) {
                (Some(o), Some(p)) => o@ == "Nullstack"@ && p@ == "start"@,
                _ => false,
            }),
    {
        match (object, property) {
            (Some(o), Some(p)) => str_eq(o, "Nullstack") && str_eq(p, "start"),
            _ => false,
        }
    }

    /// The path of the restart call that ends the module, when the starter's source is
    /// known.
    pub fn restart_path(&self) -> (p: Option<String>)
        ensures
            opt_view(p) == self@.starter_path,
    {
        match &self.starter_path {
            Some(p) => Some(p.clone()),
            None => None,
        }
    }
}

/// An import keeps the order in which the names become known.
pub proof fn lemma_on_import_wf(m: RestartModel, src: Seq<char>, specs: Seq<(ImportKind, Seq<char>)>)
    ensures
        restart_wf(m) ==> restart_wf(spec_on_import(m, src, specs)),
{
}

} // verus!
