//! Lazy routes: a component imported by default and used only as the tag of elements
//! that have a `route` attribute is loaded on demand, through
//! `const Name = $runtime.lazy("<hash>", () => import("<path>"))` in place of its import.
use vstd::prelude::*;

use crate::loaders::{hash, spec_hash};
use crate::loaders::inject_accept_to_module::opt_view;
use crate::loaders::inject_source_to_events::names_view;
use crate::text::{chars_of, first_is_uppercase, push_char, starts_uppercase, str_eq};

verus! {

/// The separators of a path: `/`, and also `\` when `both` is set.
pub open spec fn is_sep(c: char, both: bool) -> bool {
    c == '/' || (both && c == '\\')
}

/// The pieces of `s` between separators, as `str::split` gives them (one more piece
/// than there are separators).
pub open spec fn split_sep(s: Seq<char>, both: bool) -> Seq<Seq<char>>
    decreases s.len(),
{
    if s.len() == 0 {
        seq![Seq::empty()]
    } else {
        let r = split_sep(s.drop_last(), both);
        if is_sep(s.last(), both) {
            r.push(Seq::empty())
        } else {
            r.update(r.len() - 1, r.last().push(s.last()))
        }
    }
}

/// The pieces that are not empty, in order.
pub open spec fn nonempty(p: Seq<Seq<char>>) -> Seq<Seq<char>>
    decreases p.len(),
{
    if p.len() == 0 {
        Seq::empty()
    } else if p.last().len() == 0 {
        nonempty(p.drop_last())
    } else {
        nonempty(p.drop_last()).push(p.last())
    }
}

/// The components with the last one removed; none when there is no component left.
pub open spec fn parent(cs: Seq<Seq<char>>) -> Option<Seq<Seq<char>>> {
    if cs.len() == 0 {
        None
    } else {
        Some(cs.drop_last())
    }
}

/// One piece of an import path applied to the components reached so far: `.` goes to
/// the parent, `..` to the parent's parent, an empty piece changes no component (it
/// only leaves a separator at the end, see `trailing_separator`), and any other piece
/// is appended.
pub open spec fn resolve_step(c: Option<Seq<Seq<char>>>, piece: Seq<char>) -> Option<Seq<Seq<char>>> {
    match c {
        None => None,
        Some(cs) => if piece == seq!['.'] {
            parent(cs)
        } else if piece == seq!['.', '.'] {
            match parent(cs) {
                Some(p) => parent(p),
                None => None,
            }
        } else if piece.len() == 0 {
            Some(cs)
        } else {
            Some(cs.push(piece))
        },
    }
}

/// All the pieces applied in order.
pub open spec fn resolve_all(c: Option<Seq<Seq<char>>>, pieces: Seq<Seq<char>>) -> Option<Seq<Seq<char>>>
    decreases pieces.len(),
{
    if pieces.len() == 0 {
        c
    } else {
        resolve_step(resolve_all(c, pieces.drop_last()), pieces.last())
    }
}

/// Components joined by `/`.
pub open spec fn join_components(cs: Seq<Seq<char>>) -> Seq<char>
    decreases cs.len(),
{
    if cs.len() == 0 {
        Seq::empty()
    } else if cs.len() == 1 {
        cs[0]
    } else {
        join_components(cs.drop_last()) + seq!['/'] + cs.last()
    }
}

/// Whether the written path ends with a separator: joining an empty piece (the last
/// piece is empty) to a path with components leaves one.
pub open spec fn trailing_separator(cs: Seq<Seq<char>>, pieces: Seq<Seq<char>>) -> Seq<char> {
    if pieces.len() > 0 && pieces.last().len() == 0 && cs.len() > 0 {
        seq!['/']
    } else {
        Seq::empty()
    }
}

/// The path of an import, from the path of the importing file: the file's path is read
/// as components separated by `/` or `\` (a leading separator kept as the root), and
/// the import's pieces separated by `/` are applied to it; the result is written with
/// `/`, ending with one when the import's path ends with one. None when a piece goes
/// above the first component.
pub open spec fn spec_resolve_path(current: Seq<char>, target: Seq<char>) -> Option<Seq<char>> {
    let rooted = current.len() > 0 && is_sep(current[0], true);
    let pieces = split_sep(target, false);
    match resolve_all(Some(nonempty(split_sep(current, true))), pieces) {
        Some(cs) => Some(
            if rooted {
                seq!['/'] + join_components(cs)
            } else {
                join_components(cs)
            } + trailing_separator(cs, pieces),
        ),
        None => None,
    }
}

pub open spec fn pieces_view(v: Seq<Vec<char>>) -> Seq<Seq<char>> {
    v.map_values(|x: Vec<char>| x@)
}

/// The pieces of `s` between separators.
fn split_pieces(s: &Vec<char>, both: bool) -> (r: Vec<Vec<char>>)
    ensures
        pieces_view(r@) == split_sep(s@, both),
{
    let mut done: Vec<Vec<char>> = Vec::new();
    let mut cur: Vec<char> = Vec::new();
    let mut i: usize = 0;
    assert(s@.take(0) =~= Seq::<char>::empty());
    assert(pieces_view(done@).push(cur@) =~= split_sep(s@.take(0), both));
    while i < s.len()
        invariant
            i <= s.len(),
            pieces_view(done@).push(cur@) == split_sep(s@.take(i as int), both),
        decreases s.len() - i,
    {
        let c = s[i];
        let ghost prev = split_sep(s@.take(i as int), both);
        assert(s@.take(i + 1).drop_last() =~= s@.take(i as int));
        assert(s@.take(i + 1).last() == c);
        if c == '/' || (both && c == '\\') {
            let ghost d0 = done@;
            let ghost c0 = cur@;
            done.push(cur);
            cur = Vec::new();
            assert(pieces_view(done@) =~= pieces_view(d0).push(c0));
            assert(pieces_view(done@).push(cur@) =~= prev.push(Seq::empty()));
        } else {
            cur.push(c);
            assert(pieces_view(done@).push(cur@) =~= prev.update(prev.len() - 1, prev.last().push(c)));
        }
        i = i + 1;
    }
    assert(s@.take(s.len() as int) =~= s@);
    let ghost d0 = done@;
    let ghost c0 = cur@;
    done.push(cur);
    assert(pieces_view(done@) =~= pieces_view(d0).push(c0));
    done
}

/// The pieces that are not empty.
fn nonempty_pieces(p: &Vec<Vec<char>>) -> (r: Vec<Vec<char>>)
    ensures
        pieces_view(r@) == nonempty(pieces_view(p@)),
{
    let ghost pv = pieces_view(p@);
    let mut out: Vec<Vec<char>> = Vec::new();
    let mut i: usize = 0;
    while i < p.len()
        invariant
            i <= p.len(),
            pv == pieces_view(p@),
            pieces_view(out@) == nonempty(pv.take(i as int)),
        decreases p.len() - i,
    {
        assert(pv.take(i + 1).drop_last() =~= pv.take(i as int));
        assert(pv.take(i + 1).last() == pv[i as int]);
        if p[i].len() > 0 {
            let x = p[i].clone();
            assert(x@ == pv[i as int]);
            let ghost o0 = out@;
            out.push(x);
            assert(pieces_view(out@) =~= pieces_view(o0).push(pv[i as int]));
        }
        i = i + 1;
    }
    assert(pv.take(p.len() as int) =~= pv);
    out
}

fn is_dot(p: &Vec<char>) -> (r: bool)
    ensures
        r == (p@ == seq!['.']),
{
    if p.len() == 1 && p[0] == '.' {
        assert(p@ =~= seq!['.']);
        true
    } else {
        false
    }
}

fn is_dot_dot(p: &Vec<char>) -> (r: bool)
    ensures
        r == (p@ == seq!['.', '.']),
{
    if p.len() == 2 && p[0] == '.' && p[1] == '.' {
        assert(p@ =~= seq!['.', '.']);
        true
    } else {
        false
    }
}

/// Resolves the path of an import from the path of the importing file; `None` when
/// the import goes above the first component of the file's path.
pub fn resolve_path(current_path: &str, target_path: &str) -> (r: Option<String>)
    ensures
        opt_view(r) == spec_resolve_path(current_path@, target_path@),
{
    let cur = chars_of(current_path);
    let tgt = chars_of(target_path);
    let rooted = cur.len() > 0 && (cur[0] == '/' || cur[0] == '\\');
    let mut comps = nonempty_pieces(&split_pieces(&cur, true));
    let pieces = split_pieces(&tgt, false);
    let ghost pv = pieces_view(pieces@);
    let ghost start = Some(pieces_view(comps@));
    assert(cur@ == current_path@ && tgt@ == target_path@);
    let mut i: usize = 0;
    while i < pieces.len()
        invariant
            i <= pieces.len(),
            pv == pieces_view(pieces@),
            pv == split_sep(target_path@, false),
            start == Some(nonempty(split_sep(current_path@, true))),
            resolve_all(start, pv.take(i as int)) == Some(pieces_view(comps@)),
        decreases pieces.len() - i,
    {
        assert(pv.take(i + 1).drop_last() =~= pv.take(i as int));
        assert(pv.take(i + 1).last() == pv[i as int]);
        let ghost c0 = pieces_view(comps@);
        if is_dot(&pieces[i]) {
            if comps.len() == 0 {
                proof {
                    assert(resolve_all(start, pv.take(i + 1)) is None);
                    lemma_resolve_none_stays(start, pv, i as int + 1);
                    assert(pv.take(pv.len() as int) =~= pv);
                }
                return None;
            }
            comps.pop();
            assert(pieces_view(comps@) =~= c0.drop_last());
        } else if is_dot_dot(&pieces[i]) {
            if comps.len() < 2 {
                proof {
                    assert(resolve_all(start, pv.take(i + 1)) is None);
                    lemma_resolve_none_stays(start, pv, i as int + 1);
                    assert(pv.take(pv.len() as int) =~= pv);
                }
                return None;
            }
            comps.pop();
            comps.pop();
            assert(pieces_view(comps@) =~= c0.drop_last().drop_last());
        } else if pieces[i].len() > 0 {
            let x = pieces[i].clone();
            assert(x@ == pv[i as int]);
            comps.push(x);
            assert(pieces_view(comps@) =~= c0.push(pv[i as int]));
        }
        i = i + 1;
    }
    assert(pv.take(pv.len() as int) =~= pv);
    let mut out = String::new();
    if rooted {
        push_char(&mut out, '/');
    }
    let ghost base = out@;
    let ghost cv = pieces_view(comps@);
    let mut k: usize = 0;
    while k < comps.len()
        invariant
            k <= comps.len(),
            cv == pieces_view(comps@),
            out@ == base + join_components(cv.take(k as int)),
        decreases comps.len() - k,
    {
        assert(cv.take(k + 1).drop_last() =~= cv.take(k as int));
        assert(cv.take(k + 1).last() == cv[k as int]);
        if k > 0 {
            push_char(&mut out, '/');
        }
        let mut j: usize = 0;
        let ghost before = out@;
        while j < comps[k].len()
            invariant
                k < comps.len(),
                j <= comps@[k as int].len(),
                out@ == before + comps@[k as int]@.take(j as int),
            decreases comps@[k as int].len() - j,
        {
            push_char(&mut out, comps[k][j]);
            assert(comps@[k as int]@.take(j + 1) =~= comps@[k as int]@.take(j as int).push(comps@[k as int]@[j as int]));
            j = j + 1;
        }
        assert(comps@[k as int]@.take(j as int) =~= comps@[k as int]@);
        proof {
            if k == 0 {
                assert(cv.take(1) =~= seq![cv[0]]);
                assert(join_components(cv.take(0)) =~= Seq::<char>::empty());
                assert(out@ =~= base + join_components(cv.take(1)));
            } else {
                assert(out@ =~= base + join_components(cv.take(k + 1)));
            }
        }
        k = k + 1;
    }
    assert(cv.take(cv.len() as int) =~= cv);
    let ghost written = out@;
    proof {
        if rooted {
            assert(written =~= seq!['/'] + join_components(cv));
        } else {
            assert(written =~= join_components(cv));
        }
    }
    proof {
        lemma_split_len(target_path@, false);
    }
    let last = pieces.len() - 1;
    if pieces[last].len() == 0 && comps.len() > 0 {
        push_char(&mut out, '/');
    }
    assert(pv.last() == pieces@[last as int]@);
    assert(out@ =~= written + trailing_separator(cv, pv));
    Some(out)
}

/// There is always at least one piece.
proof fn lemma_split_len(s: Seq<char>, both: bool)
    ensures
        split_sep(s, both).len() >= 1,
    decreases s.len(),
{
    if s.len() > 0 {
        lemma_split_len(s.drop_last(), both);
    }
}

/// Once the resolution has failed it stays failed.
proof fn lemma_resolve_none_stays(start: Option<Seq<Seq<char>>>, pv: Seq<Seq<char>>, i: int)
    requires
        0 <= i <= pv.len(),
        resolve_all(start, pv.take(i)) is None,
    ensures
        resolve_all(start, pv) is None,
    decreases pv.len() - i,
{
    if i < pv.len() {
        assert(pv.take(i + 1).drop_last() =~= pv.take(i));
        lemma_resolve_none_stays(start, pv, i + 1);
    } else {
        assert(pv.take(i) =~= pv);
    }
}

/// An import declaration at the head of a module: its source, how many specifiers it
/// has, and the local name of its default specifier when the first is one.
pub struct LeadingImport {
    pub source: String,
    pub specifier_count: usize,
    pub default_local: Option<String>,
}

/// The name an import could be loaded lazily under: the local name of its only
/// specifier, when that is a default one starting with an uppercase letter.
pub open spec fn spec_candidate(specifier_count: nat, default_local: Option<Seq<char>>) -> Option<Seq<char>> {
    match default_local {
        Some(n) => if specifier_count == 1 && starts_uppercase(n) {
            Some(n)
        } else {
            None
        },
        None => None,
    }
}

/// Law: only an import with exactly one specifier, a default one whose local name
/// starts with an uppercase letter, can be loaded lazily, and then under that name; an
/// import with no specifier or with several (`import A, { b } from ..`) never is.
pub proof fn law_candidate(specifier_count: nat, default_local: Option<Seq<char>>)
    ensures
        specifier_count != 1 ==> spec_candidate(specifier_count, default_local) is None,
        default_local is None ==> spec_candidate(specifier_count, default_local) is None,
        spec_candidate(specifier_count, default_local) is Some ==> specifier_count == 1
            && default_local == spec_candidate(specifier_count, default_local)
            && starts_uppercase(default_local->0),
        specifier_count == 1 && default_local is Some && starts_uppercase(default_local->0)
            ==> spec_candidate(specifier_count, default_local) == default_local,
{
}

/// The candidate of each leading import.
pub open spec fn statements_view(v: Seq<(Option<String>, String)>) -> Seq<Option<Seq<char>>> {
    v.map_values(|e: (Option<String>, String)| opt_view(e.0))
}

/// The source of each leading import.
pub open spec fn sources_view(v: Seq<(Option<String>, String)>) -> Seq<Seq<char>> {
    v.map_values(|e: (Option<String>, String)| e.1@)
}

/// The state of the visitor, as plain values.
pub struct LazyModel {
    pub module_statements: Seq<Option<Seq<char>>>,
    pub sources: Seq<Seq<char>>,
    pub is_dev: bool,
    pub file_path: Seq<char>,
    pub completed_lookup: bool,
}

/// Finds the leading imports that can be loaded lazily, then gives their replacements.
pub struct ReplaceLazyVisitor {
    leading: Vec<(Option<String>, String)>,
    is_dev: bool,
    file_path: String,
    completed_lookup: bool,
}

impl View for ReplaceLazyVisitor {
    type V = LazyModel;

    closed spec fn view(&self) -> LazyModel {
        LazyModel {
            module_statements: statements_view(self.leading@),
            sources: sources_view(self.leading@),
            is_dev: self.is_dev,
            file_path: self.file_path@,
            completed_lookup: self.completed_lookup,
        }
    }
}

/// One of the attributes is named `route`.
pub open spec fn has_route(attrs: Seq<Option<Seq<char>>>) -> bool {
    exists|i: int| 0 <= i < attrs.len() && attrs[i] == Some("route"@)
}

/// Each leading import has its source, and each candidate starts with an uppercase letter.
pub open spec fn lazy_wf(m: LazyModel) -> bool {
    &&& m.module_statements.len() == m.sources.len()
    &&& forall|i: int| 0 <= i < m.module_statements.len() && #[trigger] m.module_statements[i] is Some
        ==> starts_uppercase(m.module_statements[i]->0)
}

impl ReplaceLazyVisitor {
    #[verifier::type_invariant]
    spec fn well_formed(self) -> bool {
        lazy_wf(self@)
    }
}

/// Ruling out keeps the candidates well formed.
proof fn lemma_rule_out_wf(m: LazyModel, sym: Seq<char>)
    requires
        lazy_wf(m),
    ensures
        lazy_wf(LazyModel { module_statements: rule_out(m.module_statements, sym), ..m }),
{
    let st = m.module_statements;
    let i = first_candidate(st, sym);
    if i >= 0 {
        lemma_first_candidate_range(st, sym);
        let t = st.update(i, None);
        assert forall|k: int| 0 <= k < t.len() && #[trigger] t[k] is Some implies starts_uppercase(t[k]->0) by {
            assert(t[k] == st[k]);
        }
    }
}

proof fn lemma_first_candidate_range(st: Seq<Option<Seq<char>>>, sym: Seq<char>)
    ensures
        -1 <= first_candidate(st, sym) < st.len(),
    decreases st.len(),
{
    if st.len() > 0 {
        lemma_first_candidate_range(st.drop_last(), sym);
    }
}

/// The position of the first candidate named `sym`, or -1.
pub open spec fn first_candidate(st: Seq<Option<Seq<char>>>, sym: Seq<char>) -> int
    decreases st.len(),
{
    if st.len() == 0 {
        -1
    } else {
        let r = first_candidate(st.drop_last(), sym);
        if r >= 0 {
            r
        } else if st.last() == Some(sym) {
            st.len() - 1
        } else {
            -1
        }
    }
}

/// The candidates with the first one named `sym` ruled out.
pub open spec fn rule_out(st: Seq<Option<Seq<char>>>, sym: Seq<char>) -> Seq<Option<Seq<char>>> {
    let i = first_candidate(st, sym);
    if i >= 0 {
        st.update(i, None)
    } else {
        st
    }
}

/// A lazy import: `const constant_name = $runtime.lazy(file_hash, () => import(import_path))`.
pub struct LazyImport {
    pub constant_name: String,
    pub file_hash: String,
    pub import_path: String,
}

/// The replacement of each leading import, given the file's path: for a candidate, the
/// hash of the imported file's resolved path and the import's own path.
pub open spec fn spec_lazy_import(m: LazyModel, i: int) -> Option<(Seq<char>, Seq<char>, Seq<char>)> {
    match m.module_statements[i] {
        Some(name) => Some((name, spec_hash(spec_resolve_path(m.file_path, m.sources[i])->0, m.is_dev), m.sources[i])),
        None => None,
    }
}

/// Every candidate's import path resolves.
pub open spec fn all_resolve(m: LazyModel) -> bool {
    forall|i: int| 0 <= i < m.module_statements.len() && #[trigger] m.module_statements[i] is Some
        ==> spec_resolve_path(m.file_path, m.sources[i]) is Some
}

pub open spec fn lazy_view(v: Seq<Option<LazyImport>>) -> Seq<Option<(Seq<char>, Seq<char>, Seq<char>)>> {
    v.map_values(|o: Option<LazyImport>| match o {
        Some(l) => Some((l.constant_name@, l.file_hash@, l.import_path@)),
        None => None,
    })
}

impl Default for ReplaceLazyVisitor {
    fn default() -> (r: Self)
        ensures
            r@.module_statements.len() == 0,
            r@.sources.len() == 0,
            !r@.is_dev,
            r@.file_path.len() == 0,
            !r@.completed_lookup,
    {
        ReplaceLazyVisitor::new(String::new(), false)
    }
}

impl ReplaceLazyVisitor {
    /// A visitor for the file at `file_path`.
    pub fn new(file_path: String, is_dev: bool) -> (r: Self)
        ensures
            r@ == (LazyModel {
                module_statements: Seq::empty(),
                sources: Seq::empty(),
                is_dev,
                file_path: file_path@,
                completed_lookup: false,
            }),
    {
        let leading: Vec<(Option<String>, String)> = Vec::new();
        assert(statements_view(leading@) =~= Seq::empty());
        assert(sources_view(leading@) =~= Seq::empty());
        ReplaceLazyVisitor { leading, is_dev, file_path, completed_lookup: false }
    }

    /// The module's leading imports (those before its first other statement): each one
    /// is recorded with its candidate name.
    pub fn begin_module(&mut self, imports: &Vec<LeadingImport>)
        ensures
            final(self)@.module_statements == old(self)@.module_statements + Seq::new(
                imports@.len(),
                |i: int| spec_candidate(imports@[i].specifier_count as nat, opt_view(imports@[i].default_local)),
            ),
            final(self)@.sources == old(self)@.sources + Seq::new(imports@.len(), |i: int| imports@[i].source@),
            final(self)@.is_dev == old(self)@.is_dev,
            final(self)@.file_path == old(self)@.file_path,
            final(self)@.completed_lookup == old(self)@.completed_lookup,
            forall|k: int| 0 <= k < imports@.len() && imports@[k].specifier_count != 1
                ==> #[trigger] final(self)@.module_statements[old(self)@.module_statements.len() + k] is None,
    {
        proof {
            use_type_invariant(&*self);
        }
        let ghost st0 = self@.module_statements;
        let ghost so0 = self@.sources;
        let mut leading: Vec<(Option<String>, String)> = Vec::new();
        std::mem::swap(&mut leading, &mut self.leading);
        let mut i: usize = 0;
        while i < imports.len()
            invariant
                i <= imports.len(),
                statements_view(leading@) == st0 + Seq::new(
                    i as nat,
                    |k: int| spec_candidate(imports@[k].specifier_count as nat, opt_view(imports@[k].default_local)),
                ),
                sources_view(leading@) == so0 + Seq::new(i as nat, |k: int| imports@[k].source@),
                lazy_wf(LazyModel { module_statements: statements_view(leading@), sources: sources_view(leading@), ..old(self)@ }),
            decreases imports.len() - i,
        {
            let imp = &imports[i];
            let cand = match &imp.default_local {
                Some(n) => if imp.specifier_count == 1 && first_is_uppercase(n.as_str()) {
                    Some(n.clone())
                } else {
                    None
                },
                None => None,
            };
            let ghost lv = leading@;
            leading.push((cand, imp.source.clone()));
            assert(statements_view(leading@) =~= statements_view(lv).push(opt_view(cand)));
            assert(sources_view(leading@) =~= sources_view(lv).push(imp.source@));
            assert(statements_view(leading@) =~= st0 + Seq::new(
                (i + 1) as nat,
                |k: int| spec_candidate(imports@[k].specifier_count as nat, opt_view(imports@[k].default_local)),
            ));
            assert(sources_view(leading@) =~= so0 + Seq::new((i + 1) as nat, |k: int| imports@[k].source@));
            proof {
                let st = statements_view(leading@);
                assert forall|k: int| 0 <= k < st.len() && #[trigger] st[k] is Some implies starts_uppercase(st[k]->0) by {
                    if k < st.len() - 1 {
                        assert(st[k] == statements_view(lv)[k]);
                    }
                }
            }
            i = i + 1;
        }
        std::mem::swap(&mut leading, &mut self.leading);
    }

    fn find_candidate(&self, sym: &str) -> (r: Option<usize>)
        ensures
            match r {
                Some(i) => i == first_candidate(self@.module_statements, sym@) && i < self.leading.len(),
                None => first_candidate(self@.module_statements, sym@) == -1,
            },
    {
        let ghost st = self@.module_statements;
        let mut i: usize = 0;
        while i < self.leading.len()
            invariant
                i <= self.leading.len(),
                st == self@.module_statements,
                st.len() == self.leading.len(),
                first_candidate(st.take(i as int), sym@) == -1,
            decreases self.leading.len() - i,
        {
            assert(st.take(i + 1).drop_last() =~= st.take(i as int));
            assert(st.take(i + 1).last() == st[i as int]);
            if let Some(n) = &self.leading[i].0 {
                if str_eq(n.as_str(), sym) {
                    proof {
                        lemma_first_candidate_found(st, sym@, i as int);
                    }
                    return Some(i);
                }
            }
            i = i + 1;
        }
        assert(st.take(st.len() as int) =~= st);
        None
    }

    fn rule_out_candidate(&mut self, sym: &str)
        ensures
            final(self)@ == (LazyModel { module_statements: rule_out(old(self)@.module_statements, sym@), ..old(self)@ }),
    {
        proof {
            use_type_invariant(&*self);
            lemma_rule_out_wf(self@, sym@);
        }
        if let Some(i) = self.find_candidate(sym) {
            let mut leading: Vec<(Option<String>, String)> = Vec::new();
            std::mem::swap(&mut leading, &mut self.leading);
            let ghost lv = leading@;
            let source = leading[i].1.clone();
            leading.set(i, (None, source));
            assert(statements_view(leading@) =~= statements_view(lv).update(i as int, None));
            assert(sources_view(leading@) =~= sources_view(lv));
            std::mem::swap(&mut leading, &mut self.leading);
        }
    }

    /// An identifier outside the import declarations and outside tag names. While the
    /// module is looked up, it rules out the first candidate with its name; once the
    /// lookup is complete, the result says whether it names a lazy import (its place
    /// is then forgotten).
    pub fn on_ident(&mut self, sym: &str) -> (reset_span: bool)
        ensures
            !old(self)@.completed_lookup ==> !reset_span && final(self)@ == (LazyModel {
                module_statements: rule_out(old(self)@.module_statements, sym@),
                ..old(self)@
            }),
            old(self)@.completed_lookup ==> final(self)@ == old(self)@ && reset_span == (first_candidate(
                old(self)@.module_statements,
                sym@,
            ) >= 0),
    {
        if !self.completed_lookup {
            self.rule_out_candidate(sym);
            false
        } else {
            self.find_candidate(sym).is_some()
        }
    }

    /// An element met while the module is looked up, by its tag name when that is an
    /// identifier, and the names of its attributes (`None` for those without a plain
    /// name): a candidate used as the tag of an element without a `route` attribute is
    /// ruled out.
    pub fn on_element(&mut self, tag: Option<&str>, attrs: &Vec<Option<String>>)
        ensures
            final(self)@ == match tag {
                Some(t) => if !old(self)@.completed_lookup && !has_route(names_view(attrs@)) {
                    LazyModel { module_statements: rule_out(old(self)@.module_statements, t@), ..old(self)@ }
                } else {
                    old(self)@
                },
                None => old(self)@,
            },
    {
        if let Some(t) = tag {
            if !self.completed_lookup && !Self::has_route_attribute(attrs) {
                self.rule_out_candidate(t);
            }
        }
    }

    /// Whether one of the attributes is named `route`.
    pub fn has_route_attribute(attrs: &Vec<Option<String>>) -> (r: bool)
        ensures
            r == has_route(names_view(attrs@)),
    {
        let ghost a = names_view(attrs@);
        let mut i: usize = 0;
        while i < attrs.len()
            invariant
                i <= attrs.len(),
                a == names_view(attrs@),
                forall|j: int| 0 <= j < i ==> #[trigger] a[j] != Some("route"@),
            decreases attrs.len() - i,
        {
            if let Some(n) = &attrs[i] {
                if str_eq(n.as_str(), "route") {
                    assert(a[i as int] == Some("route"@));
                    return true;
                }
            }
            i = i + 1;
        }
        false
    }

    /// Whether the children of elements (their tag names and attributes) are walked
    /// with `on_ident`: only once the lookup is complete.
    pub fn walks_element_children(&self) -> (r: bool)
        ensures
            r == self@.completed_lookup,
    {
        self.completed_lookup
    }

    /// The lookup of the module is complete.
    pub fn complete_lookup(&mut self)
        ensures
            final(self)@ == (LazyModel { completed_lookup: true, ..old(self)@ }),
    {
        proof {
            use_type_invariant(&*self);
        }
        self.completed_lookup = true;
    }

    /// The replacement of each leading import, in order: a lazy import for each
    /// remaining candidate, none for the others. `None` when the path of a candidate
    /// cannot be resolved from the file's path.
    pub fn lazy_imports(&self) -> (r: Option<Vec<Option<LazyImport>>>)
        ensures
            r is Some <==> all_resolve(self@),
            r is Some ==> lazy_view(r->0@) == Seq::new(
                self@.module_statements.len(),
                |i: int| spec_lazy_import(self@, i),
            ),
            r is Some ==> forall|i: int| 0 <= i < r->0@.len() && #[trigger] r->0@[i] is Some
                ==> starts_uppercase(r->0@[i]->0.constant_name@),
    {
        proof {
            use_type_invariant(self);
        }
        let ghost m = self@;
        let mut out: Vec<Option<LazyImport>> = Vec::new();
        let mut i: usize = 0;
        while i < self.leading.len()
            invariant
                m == self@,
                m.module_statements.len() == m.sources.len(),
                i <= self.leading.len(),
                out@.len() == i,
                forall|k: int| 0 <= k < i ==> #[trigger] lazy_view(out@)[k] == spec_lazy_import(m, k),
                forall|k: int| 0 <= k < i && #[trigger] m.module_statements[k] is Some
                    ==> spec_resolve_path(m.file_path, m.sources[k]) is Some,
            decreases self.leading.len() - i,
        {
            let ghost o0 = out@;
            match &self.leading[i].0 {
                Some(name) => {
                    assert(m.module_statements[i as int] == Some(name@));
                    let resolved = match resolve_path(self.file_path.as_str(), self.leading[i].1.as_str()) {
                        Some(p) => p,
                        None => {
                            assert(!all_resolve(m));
                            return None;
                        },
                    };
                    let l = LazyImport {
                        constant_name: name.clone(),
                        file_hash: hash(resolved.as_str(), self.is_dev),
                        import_path: self.leading[i].1.clone(),
                    };
                    out.push(Some(l));
                },
                None => {
                    out.push(None);
                },
            }
            assert forall|k: int| 0 <= k < i + 1 implies #[trigger] lazy_view(out@)[k] == spec_lazy_import(m, k) by {
                if k < i {
                    assert(out@[k] == o0[k]);
                    assert(lazy_view(o0)[k] == spec_lazy_import(m, k));
                }
            }
            i = i + 1;
        }
        assert(lazy_view(out@) =~= Seq::new(m.module_statements.len(), |k: int| spec_lazy_import(m, k)));
        assert forall|k: int| 0 <= k < out@.len() && #[trigger] out@[k] is Some implies starts_uppercase(out@[k]->0.constant_name@) by {
            assert(lazy_view(out@)[k] == spec_lazy_import(m, k));
            assert(m.module_statements[k] is Some);
        }
        Some(out)
    }
}

proof fn lemma_first_candidate_found(st: Seq<Option<Seq<char>>>, sym: Seq<char>, i: int)
    requires
        0 <= i < st.len(),
        first_candidate(st.take(i), sym) == -1,
        st[i] == Some(sym),
    ensures
        first_candidate(st, sym) == i,
    decreases st.len(),
{
    if i < st.len() - 1 {
        assert(st.drop_last().take(i) =~= st.take(i));
        lemma_first_candidate_found(st.drop_last(), sym, i);
    } else {
        assert(st.drop_last() =~= st.take(i));
    }
}

proof fn lemma_split_after_sep(a: Seq<char>, b: Seq<char>, both: bool)
    requires
        forall|i: int| 0 <= i < b.len() ==> !is_sep(#[trigger] b[i], both),
    ensures
        split_sep(a + seq!['/'] + b, both) == split_sep(a, both).push(b),
    decreases b.len(),
{
    let s = a + seq!['/'] + b;
    if b.len() == 0 {
        assert(s.drop_last() =~= a);
        assert(s.last() == '/');
        assert(b =~= Seq::<char>::empty());
    } else {
        let bd = b.drop_last();
        assert forall|i: int| 0 <= i < bd.len() implies !is_sep(#[trigger] bd[i], both) by {
            assert(bd[i] == b[i]);
        }
        lemma_split_after_sep(a, bd, both);
        assert(s.drop_last() =~= a + seq!['/'] + bd);
        assert(s.last() == b.last());
        assert(!is_sep(b[b.len() - 1], both));
        let r = split_sep(a, both).push(bd);
        assert(bd.push(b.last()) =~= b);
        assert(r.last() == bd);
        assert(r.update(r.len() - 1, r.last().push(b.last())) =~= split_sep(a, both).push(b));
    }
}

/// Law: an import of `./name` from a file resolves to `name` beside the file: the
/// file's last component is replaced by `name`.
pub proof fn law_resolve_sibling(current: Seq<char>, name: Seq<char>)
    requires
        name.len() > 0,
        forall|i: int| 0 <= i < name.len() ==> #[trigger] name[i] != '/',
        name != seq!['.'],
        name != seq!['.', '.'],
        nonempty(split_sep(current, true)).len() > 0,
    ensures
        resolve_all(Some(nonempty(split_sep(current, true))), split_sep(seq!['.', '/'] + name, false)) == Some(
            nonempty(split_sep(current, true)).drop_last().push(name),
        ),
        spec_resolve_path(current, seq!['.', '/'] + name) == Some(
            if current.len() > 0 && is_sep(current[0], true) {
                seq!['/'] + join_components(nonempty(split_sep(current, true)).drop_last().push(name))
            } else {
                join_components(nonempty(split_sep(current, true)).drop_last().push(name))
            },
        ),
{
    let dot = seq!['.'];
    assert(seq!['.', '/'] + name =~= dot + seq!['/'] + name);
    assert forall|i: int| 0 <= i < name.len() implies !is_sep(#[trigger] name[i], false) by {}
    lemma_split_after_sep(dot, name, false);
    assert(dot.drop_last() =~= Seq::<char>::empty());
    let e = split_sep(Seq::<char>::empty(), false);
    assert(split_sep(dot, false) == e.update(e.len() - 1, e.last().push('.')));
    assert(split_sep(dot, false) =~= seq![dot]);
    let pieces = seq![dot, name];
    assert(split_sep(dot + seq!['/'] + name, false) =~= pieces);
    assert(pieces.drop_last() =~= seq![dot]);
    assert(seq![dot].drop_last() =~= Seq::<Seq<char>>::empty());
    let cs = nonempty(split_sep(current, true));
    assert(seq![dot].last() == dot);
    assert(resolve_all(Some(cs), Seq::<Seq<char>>::empty()) == Some(cs));
    assert(resolve_all(Some(cs), seq![dot]) == resolve_step(Some(cs), dot));
    assert(pieces.last() == name);
}

} // verus!
