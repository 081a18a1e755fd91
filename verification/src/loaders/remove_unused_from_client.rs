//! Client side: imports whose bindings the module never uses are dropped.
use vstd::prelude::*;

use crate::text::str_eq;

verus! {

/// An identifier as the module holds it: its name, the number of its syntax context, the
/// number of that context's outer mark, and its byte range.
pub struct UsedIdent {
    pub sym: String,
    pub ctxt: u32,
    pub outer_mark: u32,
    pub lo: u32,
    pub hi: u32,
}

/// An identifier as plain values.
pub struct IdentKey {
    pub sym: Seq<char>,
    pub ctxt: u32,
    pub outer_mark: u32,
    pub lo: u32,
    pub hi: u32,
}

pub open spec fn key_of(i: UsedIdent) -> IdentKey {
    IdentKey { sym: i.sym@, ctxt: i.ctxt, outer_mark: i.outer_mark, lo: i.lo, hi: i.hi }
}

pub open spec fn keys_view(v: Seq<UsedIdent>) -> Seq<IdentKey> {
    v.map_values(|i: UsedIdent| key_of(i))
}

/// The same occurrence: same name, same outer mark, same place.
pub open spec fn spec_is_equal(a: IdentKey, b: IdentKey) -> bool {
    a.sym == b.sym && a.outer_mark == b.outer_mark && a.hi == b.hi && a.lo == b.lo
}

/// The same binding: same name in the same syntax context.
pub open spec fn same_binding(a: IdentKey, b: IdentKey) -> bool {
    a.sym == b.sym && a.ctxt == b.ctxt
}

/// Whether an occurrence is in the rejected list.
pub open spec fn is_rejected(x: IdentKey, reject: Seq<IdentKey>) -> bool {
    exists|j: int| 0 <= j < reject.len() && spec_is_equal(x, #[trigger] reject[j])
}

/// The occurrences of `list`, in order, that are not rejected.
pub open spec fn spec_allow_list(list: Seq<IdentKey>, reject: Seq<IdentKey>) -> Seq<IdentKey>
    decreases list.len(),
{
    if list.len() == 0 {
        Seq::empty()
    } else {
        spec_allow_list(list.drop_last(), reject) + if is_rejected(list.last(), reject) {
            Seq::empty()
        } else {
            seq![list.last()]
        }
    }
}

/// Whether an import stays: it binds nothing (a side-effect import such as a style
/// sheet), or it binds `$runtime`, or one of its bindings is used.
pub open spec fn spec_keeps_import(allowed: Seq<IdentKey>, specifiers: Seq<IdentKey>) -> bool {
    ||| specifiers.len() == 0
    ||| exists|i: int| 0 <= i < specifiers.len() && (#[trigger] specifiers[i]).sym == "$runtime"@
    ||| exists|i: int, j: int|
        0 <= i < specifiers.len() && 0 <= j < allowed.len() && same_binding(#[trigger] specifiers[i], #[trigger] allowed[j])
}

/// Law: an import that binds something, and not `$runtime`, stays only when one of its
/// bindings is used: some allowed identifier has the same name and the same syntax
/// context as one of its specifiers. A use of the same name in another context (a local
/// that shadows the import) does not keep it; a use in the same context does.
pub proof fn law_keeps_import(allowed: Seq<IdentKey>, specifiers: Seq<IdentKey>)
    requires
        specifiers.len() > 0,
        forall|i: int| 0 <= i < specifiers.len() ==> (#[trigger] specifiers[i]).sym != "$runtime"@,
    ensures
        spec_keeps_import(allowed, specifiers) <==> exists|i: int, j: int|
            0 <= i < specifiers.len() && 0 <= j < allowed.len() && (#[trigger] specifiers[i]).sym == (#[trigger] allowed[j]).sym
                && specifiers[i].ctxt == allowed[j].ctxt,
{
}

/// Whether two occurrences are the same one.
pub fn is_equal(a: &UsedIdent, b: &UsedIdent) -> (r: bool)
    ensures
        r == spec_is_equal(key_of(*a), key_of(*b)),
{
    if !str_eq(a.sym.as_str(), b.sym.as_str()) {
        return false;
    }
    a.outer_mark == b.outer_mark && a.hi == b.hi && a.lo == b.lo
}

fn duplicate(a: &UsedIdent) -> (r: UsedIdent)
    ensures
        key_of(r) == key_of(*a),
{
    UsedIdent { sym: a.sym.clone(), ctxt: a.ctxt, outer_mark: a.outer_mark, lo: a.lo, hi: a.hi }
}

fn rejected(x: &UsedIdent, reject: &Vec<UsedIdent>) -> (r: bool)
    ensures
        r == is_rejected(key_of(*x), keys_view(reject@)),
{
    let ghost rv = keys_view(reject@);
    let mut j: usize = 0;
    while j < reject.len()
        invariant
            j <= reject.len(),
            rv == keys_view(reject@),
            forall|k: int| 0 <= k < j ==> !spec_is_equal(key_of(*x), #[trigger] rv[k]),
        decreases reject.len() - j,
    {
        if is_equal(x, &reject[j]) {
            assert(spec_is_equal(key_of(*x), rv[j as int]));
            return true;
        }
        j = j + 1;
    }
    false
}

/// The identifiers of `list` that no entry of `reject` is the same occurrence as.
pub fn allow_list(list: &Vec<UsedIdent>, reject: &Vec<UsedIdent>) -> (r: Vec<UsedIdent>)
    ensures
        keys_view(r@) == spec_allow_list(keys_view(list@), keys_view(reject@)),
{
    let ghost lv = keys_view(list@);
    let mut r: Vec<UsedIdent> = Vec::new();
    let mut i: usize = 0;
    while i < list.len()
        invariant
            i <= list.len(),
            lv == keys_view(list@),
            keys_view(r@) == spec_allow_list(lv.take(i as int), keys_view(reject@)),
        decreases list.len() - i,
    {
        assert(lv.take(i + 1).drop_last() == lv.take(i as int));
        assert(lv.take(i + 1).last() == lv[i as int]);
        if !rejected(&list[i], reject) {
            let ghost r0 = r@;
            let d = duplicate(&list[i]);
            r.push(d);
            assert(keys_view(r@) =~= keys_view(r0).push(lv[i as int]));
        } else {
            assert(spec_allow_list(lv.take(i + 1), keys_view(reject@)) =~= spec_allow_list(lv.take(i as int), keys_view(reject@)));
        }
        i = i + 1;
    }
    assert(lv.take(lv.len() as int) == lv);
    r
}

/// The state of the visitor, as plain values.
pub struct UnusedModel {
    pub reject_list: Seq<IdentKey>,
    pub ident_list: Seq<IdentKey>,
}

/// Collects the identifiers of a module, and those that do not count as uses of an
/// import: import bindings themselves, method names, member properties and names
/// declared by variables.
pub struct RemoveUnusedVisitor {
    reject_list: Vec<UsedIdent>,
    ident_list: Vec<UsedIdent>,
}

impl View for RemoveUnusedVisitor {
    type V = UnusedModel;

    closed spec fn view(&self) -> UnusedModel {
        UnusedModel { reject_list: keys_view(self.reject_list@), ident_list: keys_view(self.ident_list@) }
    }
}

impl Default for RemoveUnusedVisitor {
    fn default() -> (r: Self)
        ensures
            r@ == (UnusedModel { reject_list: Seq::empty(), ident_list: Seq::empty() }),
    {
        let r = RemoveUnusedVisitor { reject_list: Vec::new(), ident_list: Vec::new() };
        assert(keys_view(r.reject_list@) =~= Seq::empty());
        assert(keys_view(r.ident_list@) =~= Seq::empty());
        r
    }
}

impl RemoveUnusedVisitor {
    /// An identifier that is not a use: the binding of an import specifier, the name of
    /// a method, the property of a member expression, or a name a variable declares.
    pub fn reject(&mut self, ident: UsedIdent)
        ensures
            final(self)@ == (UnusedModel { reject_list: old(self)@.reject_list.push(key_of(ident)), ..old(self)@ }),
    {
        let ghost v0 = self.reject_list@;
        self.reject_list.push(ident);
        assert(keys_view(self.reject_list@) =~= keys_view(v0).push(key_of(ident)));
    }

    /// Any identifier of the module.
    pub fn on_ident(&mut self, ident: UsedIdent)
        ensures
            final(self)@ == (UnusedModel { ident_list: old(self)@.ident_list.push(key_of(ident)), ..old(self)@ }),
    {
        let ghost v0 = self.ident_list@;
        self.ident_list.push(ident);
        assert(keys_view(self.ident_list@) =~= keys_view(v0).push(key_of(ident)));
    }

    /// The identifiers that count as uses.
    pub fn allowed(&self) -> (r: Vec<UsedIdent>)
        ensures
            keys_view(r@) == spec_allow_list(self@.ident_list, self@.reject_list),
    {
        allow_list(&self.ident_list, &self.reject_list)
    }

    /// Whether an import with these bindings stays, given the uses.
    pub fn keeps_import(allowed: &Vec<UsedIdent>, specifiers: &Vec<UsedIdent>) -> (r: bool)
        ensures
            r == spec_keeps_import(keys_view(allowed@), keys_view(specifiers@)),
    {
        if specifiers.len() == 0 {
            return true;
        }
        let ghost av = keys_view(allowed@);
        let ghost sv = keys_view(specifiers@);
        let mut i: usize = 0;
        while i < specifiers.len()
            invariant
                i <= specifiers.len(),
                av == keys_view(allowed@),
                sv == keys_view(specifiers@),
                forall|a: int| 0 <= a < i ==> (#[trigger] sv[a]).sym != "$runtime"@,
            decreases specifiers.len() - i,
        {
            if str_eq(specifiers[i].sym.as_str(), "$runtime") {
                assert(sv[i as int].sym == "$runtime"@);
                return true;
            }
            i = i + 1;
        }
        let mut i: usize = 0;
        while i < specifiers.len()
            invariant
                i <= specifiers.len(),
                av == keys_view(allowed@),
                sv == keys_view(specifiers@),
                forall|a: int| 0 <= a < specifiers.len() ==> (#[trigger] sv[a]).sym != "$runtime"@,
                forall|a: int, b: int| 0 <= a < i && 0 <= b < av.len() ==> !same_binding(#[trigger] sv[a], #[trigger] av[b]),
            decreases specifiers.len() - i,
        {
            let mut j: usize = 0;
            while j < allowed.len()
                invariant
                    i < specifiers.len(),
                    j <= allowed.len(),
                    av == keys_view(allowed@),
                    sv == keys_view(specifiers@),
                    forall|a: int, b: int| 0 <= a < i && 0 <= b < av.len() ==> !same_binding(#[trigger] sv[a], #[trigger] av[b]),
                    forall|b: int| 0 <= b < j ==> !same_binding(sv[i as int], #[trigger] av[b]),
                decreases allowed.len() - j,
            {
                if str_eq(specifiers[i].sym.as_str(), allowed[j].sym.as_str()) && specifiers[i].ctxt == allowed[j].ctxt {
                    assert(same_binding(sv[i as int], av[j as int]));
                    return true;
                }
                j = j + 1;
            }
            i = i + 1;
        }
        false
    }
}

/// Law: the uses are the occurrences of the list that are not rejected, in order: each
/// use is such an occurrence, each such occurrence is a use, and taking the uses again
/// changes nothing.
pub proof fn law_allow_list(list: Seq<IdentKey>, reject: Seq<IdentKey>)
    ensures
        forall|i: int| 0 <= i < spec_allow_list(list, reject).len() ==> list.contains(
            #[trigger] spec_allow_list(list, reject)[i],
        ) && !is_rejected(spec_allow_list(list, reject)[i], reject),
        forall|i: int| 0 <= i < list.len() && !is_rejected(#[trigger] list[i], reject) ==> spec_allow_list(
            list,
            reject,
        ).contains(list[i]),
        spec_allow_list(spec_allow_list(list, reject), reject) == spec_allow_list(list, reject),
    decreases list.len(),
{
    if list.len() > 0 {
        let d = list.drop_last();
        law_allow_list(d, reject);
        let a = spec_allow_list(list, reject);
        let ad = spec_allow_list(d, reject);
        assert forall|i: int| 0 <= i < a.len() implies list.contains(#[trigger] a[i]) && !is_rejected(a[i], reject) by {
            if i < ad.len() {
                assert(a[i] == ad[i]);
                let j = choose|j: int| 0 <= j < d.len() && d[j] == ad[i];
                assert(list[j] == d[j]);
            } else {
                assert(a[i] == list.last());
                assert(list[list.len() - 1] == list.last());
            }
        }
        assert forall|i: int| 0 <= i < list.len() && !is_rejected(#[trigger] list[i], reject) implies a.contains(list[i]) by {
            if i < d.len() {
                assert(list[i] == d[i]);
                let j = choose|j: int| 0 <= j < ad.len() && ad[j] == d[i];
                assert(a[j] == ad[j]);
            } else {
                assert(a[a.len() - 1] == list.last());
            }
        }
        lemma_allow_list_fixed(a, reject);
    }
}

proof fn lemma_allow_list_fixed(l: Seq<IdentKey>, reject: Seq<IdentKey>)
    requires
        forall|i: int| 0 <= i < l.len() ==> !is_rejected(#[trigger] l[i], reject),
    ensures
        spec_allow_list(l, reject) == l,
    decreases l.len(),
{
    if l.len() > 0 {
        let d = l.drop_last();
        assert forall|i: int| 0 <= i < d.len() implies !is_rejected(#[trigger] d[i], reject) by {
            assert(d[i] == l[i]);
        }
        lemma_allow_list_fixed(d, reject);
        assert(!is_rejected(l[l.len() - 1], reject));
        assert(spec_allow_list(l, reject) =~= d.push(l.last()));
        assert(d.push(l.last()) =~= l);
    } else {
        assert(spec_allow_list(l, reject) =~= l);
    }
}

} // verus!
