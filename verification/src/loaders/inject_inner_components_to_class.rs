//! Inner components: a capitalised tag inside a `render...` method that names nothing in
//! scope is the class's own `render<Name>` method, so a constant binding it is injected.
use vstd::prelude::*;

use crate::assoc::{
    assoc_insert, key_index, keys_unique, lemma_assoc_insert_unique, lemma_key_index, lemma_key_index_all,
    lemma_key_index_found, lemma_key_index_step,
};
use crate::loaders::helpers::SpanInfo;
use crate::text::{concat_str, contains_str, first_is_uppercase, has_prefix, starts_uppercase, starts_with, strings_view, to_owned};

verus! {

/// The list with `sym` added at the end when it starts with an uppercase letter and is
/// not in the list yet.
pub open spec fn spec_push_if_uppercase(v: Seq<Seq<char>>, sym: Seq<char>) -> Seq<Seq<char>> {
    if starts_uppercase(sym) && !v.contains(sym) {
        v.push(sym)
    } else {
        v
    }
}

/// Adds `sym` to the list when it starts with an uppercase letter and is not there yet.
pub fn push_if_uppercase(vec: &mut Vec<String>, sym: &str)
    ensures
        strings_view(final(vec)@) == spec_push_if_uppercase(strings_view(old(vec)@), sym@),
{
    if first_is_uppercase(sym) && !contains_str(vec, sym) {
        let ghost v0 = vec@;
        vec.push(to_owned(sym));
        assert(strings_view(vec@) =~= strings_view(v0).push(sym@));
    }
}

/// A tag found inside a render method, where it was first seen.
pub struct InnerTag {
    pub name: String,
    pub span: SpanInfo,
}

/// A constant to inject at the top of a render method: `const name = this.function_name`.
pub struct InnerConstant {
    pub name: String,
    pub function_name: String,
    pub span: SpanInfo,
}

/// A statement at the top of a module, by what it binds: the local names of an import,
/// the names of a variable declaration (`None` for a destructuring pattern), a function
/// declaration (with whether it is only `declare`d), or anything else.
pub enum ModuleItemShape {
    Import(Vec<String>),
    Variables(Vec<Option<String>>),
    Function { name: String, declare: bool },
    Other,
}

/// The names that a top-level statement binds in the module.
pub open spec fn item_bindings(item: ModuleItemShape) -> Seq<Seq<char>> {
    match item {
        ModuleItemShape::Import(locals) => strings_view(locals@),
        ModuleItemShape::Variables(names) => bound_names(names@),
        ModuleItemShape::Function { name, declare } => if declare {
            Seq::empty()
        } else {
            seq![name@]
        },
        ModuleItemShape::Other => Seq::empty(),
    }
}

/// The plain names among the names of a variable declaration.
pub open spec fn bound_names(names: Seq<Option<String>>) -> Seq<Seq<char>>
    decreases names.len(),
{
    if names.len() == 0 {
        Seq::empty()
    } else {
        bound_names(names.drop_last()) + match names.last() {
            Some(n) => seq![n@],
            None => Seq::empty(),
        }
    }
}

/// Each name pushed in turn.
pub open spec fn push_all(v: Seq<Seq<char>>, names: Seq<Seq<char>>) -> Seq<Seq<char>>
    decreases names.len(),
{
    if names.len() == 0 {
        v
    } else {
        spec_push_if_uppercase(push_all(v, names.drop_last()), names.last())
    }
}

/// The state of the visitor, as plain values.
pub struct InnerModel {
    pub outter_idents: Seq<Seq<char>>,
    pub inner_idents: Seq<Seq<char>>,
    pub inner_tags: Seq<(Seq<char>, SpanInfo)>,
    pub is_inside_class: bool,
    pub is_inside_method: bool,
    pub is_inside_tag: bool,
}

/// Finds the tags inside render methods that name no identifier in scope.
pub struct InjectInnerComponentVisitor {
    outter_idents: Vec<String>,
    inner_idents: Vec<String>,
    inner_tags: Vec<InnerTag>,
    is_inside_class: bool,
    is_inside_method: bool,
    is_inside_tag: bool,
}

pub open spec fn tags_view(v: Seq<InnerTag>) -> Seq<(Seq<char>, SpanInfo)> {
    v.map_values(|t: InnerTag| (t.name@, t.span))
}

impl View for InjectInnerComponentVisitor {
    type V = InnerModel;

    closed spec fn view(&self) -> InnerModel {
        InnerModel {
            outter_idents: strings_view(self.outter_idents@),
            inner_idents: strings_view(self.inner_idents@),
            inner_tags: tags_view(self.inner_tags@),
            is_inside_class: self.is_inside_class,
            is_inside_method: self.is_inside_method,
            is_inside_tag: self.is_inside_tag,
        }
    }
}

/// The state after an identifier is met. Outside a class it is a name of the module.
/// In a tag's name, an uppercase name unknown to the module and to the method is an
/// inner tag (its place updated when it is one already). Elsewhere in a render method
/// it is a name of the method.
pub open spec fn spec_on_ident(m: InnerModel, sym: Seq<char>, span: SpanInfo) -> InnerModel {
    if !m.is_inside_class {
        InnerModel { outter_idents: spec_push_if_uppercase(m.outter_idents, sym), ..m }
    } else if m.is_inside_tag && !m.outter_idents.contains(sym) && !m.inner_idents.contains(sym)
        && starts_uppercase(sym) {
        InnerModel { inner_tags: assoc_insert(m.inner_tags, sym, span), ..m }
    } else if m.is_inside_method {
        InnerModel { inner_idents: spec_push_if_uppercase(m.inner_idents, sym), ..m }
    } else {
        m
    }
}

/// The name of the method that renders the inner component `name`.
pub open spec fn render_function_name(name: Seq<char>) -> Seq<char> {
    "render"@ + name
}

/// The constants for the inner tags, in the order in which they stand in the method:
/// each tag is put first in turn, so the last one found comes first.
pub open spec fn spec_inner_constants(tags: Seq<(Seq<char>, SpanInfo)>) -> Seq<(Seq<char>, Seq<char>, SpanInfo)> {
    Seq::new(
        tags.len(),
        |i: int|
            {
                let t = tags[tags.len() - 1 - i];
                (t.0, render_function_name(t.0), t.1)
            },
    )
}

pub open spec fn constants_view(v: Seq<InnerConstant>) -> Seq<(Seq<char>, Seq<char>, SpanInfo)> {
    v.map_values(|c: InnerConstant| (c.name@, c.function_name@, c.span))
}

/// No name is listed twice, and each listed name starts with an uppercase letter.
pub open spec fn names_wf(v: Seq<Seq<char>>) -> bool {
    &&& forall|i: int, j: int| 0 <= i < v.len() && 0 <= j < v.len() && i != j ==> #[trigger] v[i] != #[trigger] v[j]
    &&& forall|i: int| 0 <= i < v.len() ==> starts_uppercase(#[trigger] v[i])
}

/// The lists of names of the module and of the method hold no name twice, and only
/// uppercase names; no tag is found twice, and each starts with an uppercase letter.
pub open spec fn inner_wf(m: InnerModel) -> bool {
    &&& names_wf(m.outter_idents)
    &&& names_wf(m.inner_idents)
    &&& keys_unique(m.inner_tags)
    &&& forall|i: int| 0 <= i < m.inner_tags.len() ==> starts_uppercase(#[trigger] m.inner_tags[i].0)
}

/// Law: a name bound by the module, or already used in the method, never becomes an
/// inner tag.
pub proof fn law_bound_names_are_not_inner(m: InnerModel, sym: Seq<char>, span: SpanInfo)
    requires
        m.outter_idents.contains(sym) || m.inner_idents.contains(sym),
        key_index(m.inner_tags, sym) == -1,
    ensures
        key_index(spec_on_ident(m, sym, span).inner_tags, sym) == -1,
{
}

/// Pushing keeps the list free of repeats and of lowercase names.
pub proof fn lemma_push_if_uppercase_wf(v: Seq<Seq<char>>, sym: Seq<char>)
    requires
        names_wf(v),
    ensures
        names_wf(spec_push_if_uppercase(v, sym)),
        spec_push_if_uppercase(v, sym).contains(sym) <==> starts_uppercase(sym),
{
    let w = spec_push_if_uppercase(v, sym);
    if starts_uppercase(sym) && !v.contains(sym) {
        assert(w[v.len() as int] == sym);
        assert forall|i: int, j: int| 0 <= i < w.len() && 0 <= j < w.len() && i != j implies #[trigger] w[i] != #[trigger] w[j] by {
            if i < v.len() && j < v.len() {
                assert(w[i] == v[i] && w[j] == v[j]);
            } else if i < v.len() {
                assert(w[i] == v[i]);
                assert(v.contains(v[i]));
            } else {
                assert(w[j] == v[j]);
                assert(v.contains(v[j]));
            }
        }
        assert forall|i: int| 0 <= i < w.len() implies starts_uppercase(#[trigger] w[i]) by {
            if i < v.len() {
                assert(w[i] == v[i]);
            }
        }
    } else if v.contains(sym) {
        let k = choose|k: int| 0 <= k < v.len() && v[k] == sym;
        assert(starts_uppercase(v[k]));
    }
}

impl Default for InjectInnerComponentVisitor {
    fn default() -> (r: Self)
        ensures
            r@.outter_idents.len() == 0,
            r@.inner_idents.len() == 0,
            r@.inner_tags.len() == 0,
            !r@.is_inside_class && !r@.is_inside_method && !r@.is_inside_tag,
    {
        InjectInnerComponentVisitor::new()
    }
}

impl InjectInnerComponentVisitor {
    /// A visitor with nothing found yet.
    pub fn new() -> (r: Self)
        ensures
            r@ == (InnerModel {
                outter_idents: Seq::empty(),
                inner_idents: Seq::empty(),
                inner_tags: Seq::empty(),
                is_inside_class: false,
                is_inside_method: false,
                is_inside_tag: false,
            }),
            inner_wf(r@),
    {
        let r = InjectInnerComponentVisitor {
            outter_idents: Vec::new(),
            inner_idents: Vec::new(),
            inner_tags: Vec::new(),
            is_inside_class: false,
            is_inside_method: false,
            is_inside_tag: false,
        };
        assert(strings_view(r.outter_idents@) =~= Seq::empty());
        assert(strings_view(r.inner_idents@) =~= Seq::empty());
        assert(tags_view(r.inner_tags@) =~= Seq::empty());
        assert(keys_unique(r@.inner_tags));
        r
    }

    /// Whether a statement of the module stays: a function declared with `declare`
    /// (a type declaration only) is dropped.
    pub fn keeps_module_item(is_declared_function: bool) -> (r: bool)
        ensures
            r == !is_declared_function,
    {
        !is_declared_function
    }

    /// A name bound by the module itself (an import, a variable, a function).
    pub fn record_outer(&mut self, sym: &str)
        ensures
            final(self)@ == (InnerModel {
                outter_idents: spec_push_if_uppercase(old(self)@.outter_idents, sym@),
                ..old(self)@
            }),
            inner_wf(old(self)@) ==> inner_wf(final(self)@),
    {
        proof {
            if inner_wf(self@) {
                lemma_push_if_uppercase_wf(self@.outter_idents, sym@);
            }
        }
        push_if_uppercase(&mut self.outter_idents, sym);
    }

    fn record_all(&mut self, names: &Vec<String>)
        ensures
            final(self)@ == (InnerModel {
                outter_idents: push_all(old(self)@.outter_idents, strings_view(names@)),
                ..old(self)@
            }),
            inner_wf(old(self)@) ==> inner_wf(final(self)@),
    {
        let ghost nv = strings_view(names@);
        let mut i: usize = 0;
        while i < names.len()
            invariant
                i <= names.len(),
                nv == strings_view(names@),
                self@ == (InnerModel { outter_idents: push_all(old(self)@.outter_idents, nv.take(i as int)), ..old(self)@ }),
                inner_wf(old(self)@) ==> inner_wf(self@),
            decreases names.len() - i,
        {
            assert(nv.take(i + 1).drop_last() =~= nv.take(i as int));
            assert(nv.take(i + 1).last() == names@[i as int]@);
            self.record_outer(names[i].as_str());
            i = i + 1;
        }
        assert(nv.take(names.len() as int) =~= nv);
    }

    /// A top-level statement of the module: the names it binds become names of the
    /// module; the result says whether the statement is to be walked for more.
    pub fn on_module_item(&mut self, item: &ModuleItemShape) -> (walk: bool)
        ensures
            walk == (*item is Other),
            final(self)@ == (InnerModel {
                outter_idents: push_all(old(self)@.outter_idents, item_bindings(*item)),
                ..old(self)@
            }),
            inner_wf(old(self)@) ==> inner_wf(final(self)@),
    {
        match item {
            ModuleItemShape::Import(locals) => {
                self.record_all(locals);
                assert(item_bindings(*item) == strings_view(locals@));
                false
            },
            ModuleItemShape::Variables(names) => {
                let mut plain: Vec<String> = Vec::new();
                let mut i: usize = 0;
                while i < names.len()
                    invariant
                        i <= names.len(),
                        strings_view(plain@) == bound_names(names@.take(i as int)),
                    decreases names.len() - i,
                {
                    assert(names@.take(i + 1).drop_last() =~= names@.take(i as int));
                    assert(names@.take(i + 1).last() == names@[i as int]);
                    if let Some(n) = &names[i] {
                        let ghost p0 = plain@;
                        plain.push(n.clone());
                        assert(strings_view(plain@) =~= strings_view(p0) + seq![n@]);
                    } else {
                        assert(bound_names(names@.take(i + 1)) =~= bound_names(names@.take(i as int)));
                    }
                    i = i + 1;
                }
                assert(names@.take(names.len() as int) =~= names@);
                self.record_all(&plain);
                false
            },
            ModuleItemShape::Function { name, declare } => {
                if !*declare {
                    let ghost v0 = self@.outter_idents;
                    proof {
                        assert(seq![name@].drop_last() =~= Seq::<Seq<char>>::empty());
                        assert(push_all(v0, Seq::empty()) == v0);
                        assert(push_all(v0, seq![name@]) == spec_push_if_uppercase(v0, name@));
                    }
                    self.record_outer(name.as_str());
                } else {
                    assert(push_all(self@.outter_idents, Seq::empty()) == self@.outter_idents);
                }
                false
            },
            ModuleItemShape::Other => {
                assert(push_all(self@.outter_idents, Seq::empty()) == self@.outter_idents);
                true
            },
        }
    }

    fn find_tag(&self, name: &str) -> (r: Option<usize>)
        ensures
            match r {
                Some(i) => i == key_index(self@.inner_tags, name@) && i < self.inner_tags.len(),
                None => key_index(self@.inner_tags, name@) == -1,
            },
    {
        let ghost ts = self@.inner_tags;
        let mut i: usize = 0;
        while i < self.inner_tags.len()
            invariant
                i <= self.inner_tags.len(),
                ts == self@.inner_tags,
                ts.len() == self.inner_tags.len(),
                key_index(ts.take(i as int), name@) == -1,
            decreases self.inner_tags.len() - i,
        {
            proof {
                lemma_key_index_step(ts, name@, i as int);
            }
            if crate::text::str_eq(self.inner_tags[i].name.as_str(), name) {
                proof {
                    assert(ts[i as int].0 == name@);
                    lemma_key_index_found(ts, name@, i as int);
                }
                return Some(i);
            }
            i = i + 1;
        }
        proof {
            lemma_key_index_all(ts, name@);
        }
        None
    }

    /// An identifier, with the place where it stands.
    pub fn on_ident(&mut self, sym: &str, span: SpanInfo)
        ensures
            final(self)@ == spec_on_ident(old(self)@, sym@, span),
            inner_wf(old(self)@) ==> inner_wf(final(self)@),
    {
        if !self.is_inside_class {
            self.record_outer(sym);
        } else if self.is_inside_tag && !contains_str(&self.outter_idents, sym) && !contains_str(
            &self.inner_idents,
            sym,
        ) && first_is_uppercase(sym) {
            let ghost ts = self@.inner_tags;
            let ghost m0 = self@;
            let tag = InnerTag { name: to_owned(sym), span };
            match self.find_tag(sym) {
                Some(i) => {
                    self.inner_tags.set(i, tag);
                    assert(tags_view(self.inner_tags@) =~= ts.update(i as int, (sym@, span)));
                },
                None => {
                    self.inner_tags.push(tag);
                    assert(tags_view(self.inner_tags@) =~= ts.push((sym@, span)));
                },
            }
            proof {
                if inner_wf(m0) {
                    lemma_assoc_insert_unique(ts, sym@, span);
                    lemma_key_index(ts, sym@);
                    let t = self@.inner_tags;
                    assert forall|i: int| 0 <= i < t.len() implies starts_uppercase(#[trigger] t[i].0) by {
                        if i < ts.len() && i != key_index(ts, sym@) {
                            assert(t[i] == ts[i]);
                        }
                    }
                }
            }
        } else if self.is_inside_method {
            proof {
                if inner_wf(self@) {
                    lemma_push_if_uppercase_wf(self@.inner_idents, sym@);
                }
            }
            push_if_uppercase(&mut self.inner_idents, sym);
        }
    }

    /// A class starts; its name, when it has one, is a name of the module.
    pub fn enter_class(&mut self, name: Option<&str>)
        ensures
            final(self)@ == (InnerModel {
                outter_idents: match name {
                    Some(n) => spec_push_if_uppercase(old(self)@.outter_idents, n@),
                    None => old(self)@.outter_idents,
                },
                is_inside_class: true,
                ..old(self)@
            }),
            inner_wf(old(self)@) ==> inner_wf(final(self)@),
    {
        if let Some(n) = name {
            self.record_outer(n);
        }
        self.is_inside_class = true;
    }

    /// The class ends.
    pub fn exit_class(&mut self)
        ensures
            final(self)@ == (InnerModel { is_inside_class: false, ..old(self)@ }),
    {
        self.is_inside_class = false;
    }

    /// Whether a method with this name renders (its name starts with `render`).
    pub fn is_render_method(name: &str) -> (r: bool)
        ensures
            r == has_prefix(name@, "render"@),
    {
        starts_with(name, "render")
    }

    /// A render method starts.
    pub fn enter_render_method(&mut self)
        ensures
            final(self)@ == (InnerModel { is_inside_method: true, ..old(self)@ }),
    {
        self.is_inside_method = true;
    }

    /// The render method ends: the constants to put at the top of its body, in their
    /// final order; the names and tags of the method are forgotten.
    pub fn exit_render_method(&mut self) -> (cs: Vec<InnerConstant>)
        ensures
            constants_view(cs@) == spec_inner_constants(old(self)@.inner_tags),
            inner_wf(old(self)@) ==> forall|i: int, j: int|
                0 <= i < cs@.len() && 0 <= j < cs@.len() && i != j ==> #[trigger] cs@[i].name@ != #[trigger] cs@[j].name@,
            inner_wf(old(self)@) ==> forall|i: int| 0 <= i < cs@.len() ==> starts_uppercase(#[trigger] cs@[i].name@),
            final(self)@ == (InnerModel {
                is_inside_method: false,
                inner_idents: Seq::empty(),
                inner_tags: Seq::empty(),
                ..old(self)@
            }),
            inner_wf(old(self)@) ==> inner_wf(final(self)@),
    {
        self.is_inside_method = false;
        let ghost tags = self@.inner_tags;
        let mut cs: Vec<InnerConstant> = Vec::new();
        let n = self.inner_tags.len();
        let mut k: usize = 0;
        while k < n
            invariant
                n == self.inner_tags.len(),
                tags == tags_view(self.inner_tags@),
                k <= n,
                cs@.len() == k,
                forall|i: int| 0 <= i < k ==> #[trigger] constants_view(cs@)[i] == spec_inner_constants(tags)[i],
            decreases n - k,
        {
            let t = &self.inner_tags[n - 1 - k];
            proof {
                reveal_strlit("render");
            }
            let c = InnerConstant {
                name: t.name.clone(),
                function_name: concat_str("render", t.name.as_str()),
                span: t.span,
            };
            let ghost cs0 = cs@;
            cs.push(c);
            assert forall|i: int| 0 <= i < k + 1 implies #[trigger] constants_view(cs@)[i] == spec_inner_constants(tags)[i] by {
                if i < k {
                    assert(cs@[i] == cs0[i]);
                    assert(constants_view(cs0)[i] == spec_inner_constants(tags)[i]);
                }
            }
            k = k + 1;
        }
        assert(constants_view(cs@) =~= spec_inner_constants(tags));
        proof {
            if inner_wf(old(self)@) {
                assert forall|i: int, j: int| 0 <= i < cs@.len() && 0 <= j < cs@.len() && i != j implies #[trigger] cs@[i].name@ != #[trigger] cs@[j].name@ by {
                    assert(constants_view(cs@)[i] == spec_inner_constants(tags)[i]);
                    assert(constants_view(cs@)[j] == spec_inner_constants(tags)[j]);
                    assert(tags[tags.len() - 1 - i].0 != tags[tags.len() - 1 - j].0);
                }
                assert forall|i: int| 0 <= i < cs@.len() implies starts_uppercase(#[trigger] cs@[i].name@) by {
                    assert(constants_view(cs@)[i] == spec_inner_constants(tags)[i]);
                    assert(starts_uppercase(tags[tags.len() - 1 - i].0));
                }
            }
        }
        self.inner_idents = Vec::new();
        self.inner_tags = Vec::new();
        assert(strings_view(self.inner_idents@) =~= Seq::empty());
        assert(tags_view(self.inner_tags@) =~= Seq::empty());
        assert(keys_unique(self@.inner_tags));
        cs
    }

    /// An opening tag starts; its name is walked as a tag name only inside a render
    /// method, and the result says whether the tag is walked at all.
    pub fn enter_opening_element(&mut self) -> (walk: bool)
        ensures
            walk == old(self)@.is_inside_method,
            walk ==> final(self)@ == (InnerModel { is_inside_tag: true, ..old(self)@ }),
            !walk ==> final(self)@ == old(self)@,
    {
        if self.is_inside_method {
            self.is_inside_tag = true;
            true
        } else {
            false
        }
    }

    /// The tag's name has been walked.
    pub fn exit_tag_name(&mut self)
        ensures
            final(self)@ == (InnerModel { is_inside_tag: false, ..old(self)@ }),
    {
        self.is_inside_tag = false;
    }
}

} // verus!
