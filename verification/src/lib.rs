//! The Nullstack transform: which loaders rewrite a module, in which order, and the
//! decisions each loader takes while a module is walked.
use vstd::prelude::*;

pub mod assoc;
pub mod loaders;
pub mod text;

use crate::text::{chars_of, str_eq, string_of};

verus! {

/// The options the transform is configured with.
pub struct NullstackPluginOptions {
    pub development: bool,
    pub client: bool,
    pub template: bool,
}

impl Default for NullstackPluginOptions {
    fn default() -> (r: Self)
        ensures
            !r.development && !r.client && !r.template,
    {
        NullstackPluginOptions { development: false, client: false, template: false }
    }
}

/// A loader, as one pass over the module.
#[derive(Clone, Copy, Debug, PartialEq, Eq, Structural)]
pub enum Pass {
    InjectAccept,
    ReplaceLazy,
    ReplaceRef,
    InjectSource,
    InjectHash,
    InjectInnerComponent,
    ReplaceServerFunction,
    RemoveUnused,
    RemoveStyles,
    RegisterServerFunction,
    InjectRuntime,
    InjectRestart,
}

/// The entry points of an application: the server and client scripts.
pub open spec fn is_entry_point(file_path: Seq<char>) -> bool {
    file_path == "server.js"@ || file_path == "server.ts"@ || file_path == "client.js"@ || file_path == "client.ts"@
}

/// The passes over a module. A template gets, in development, the hot reload and the
/// lazy routes; then the references, the event sources, the class hashes and the inner
/// components; then, on the client, the server functions replaced and the unused
/// imports dropped, or, on the server, the styles dropped and the server functions
/// registered. An entry point in development gets the runtime and the hot restart.
pub open spec fn spec_passes(options: NullstackPluginOptions, file_path: Seq<char>) -> Seq<Pass> {
    if options.template {
        (if options.development {
            seq![Pass::InjectAccept, Pass::ReplaceLazy]
        } else {
            Seq::empty()
        }) + seq![Pass::ReplaceRef, Pass::InjectSource, Pass::InjectHash, Pass::InjectInnerComponent] + if options.client {
            seq![Pass::ReplaceServerFunction, Pass::RemoveUnused]
        } else {
            seq![Pass::RemoveStyles, Pass::RegisterServerFunction]
        }
    } else if options.development && is_entry_point(file_path) {
        seq![Pass::InjectRuntime, Pass::InjectRestart]
    } else {
        Seq::empty()
    }
}

/// The passes over the module at `file_path` (relative to the project).
pub fn transform_passes(options: &NullstackPluginOptions, file_path: &str) -> (p: Vec<Pass>)
    ensures
        p@ == spec_passes(*options, file_path@),
{
    let mut p: Vec<Pass> = Vec::new();
    if options.template {
        if options.development {
            p.push(Pass::InjectAccept);
            p.push(Pass::ReplaceLazy);
        }
        p.push(Pass::ReplaceRef);
        p.push(Pass::InjectSource);
        p.push(Pass::InjectHash);
        p.push(Pass::InjectInnerComponent);
        if options.client {
            p.push(Pass::ReplaceServerFunction);
            p.push(Pass::RemoveUnused);
        } else {
            p.push(Pass::RemoveStyles);
            p.push(Pass::RegisterServerFunction);
        }
    } else if options.development && (str_eq(file_path, "server.js") || str_eq(file_path, "server.ts")
        || str_eq(file_path, "client.js") || str_eq(file_path, "client.ts")) {
        p.push(Pass::InjectRuntime);
        p.push(Pass::InjectRestart);
    }
    assert(p@ =~= spec_passes(*options, file_path@));
    p
}

/// `s` with every occurrence of `pat` removed, from left to right (as
/// `str::replace(pat, "")`); unchanged when `pat` is empty.
pub open spec fn remove_all(s: Seq<char>, pat: Seq<char>) -> Seq<char>
    decreases s.len(),
{
    if pat.len() == 0 || s.len() == 0 {
        s
    } else if pat.len() <= s.len() && s.take(pat.len() as int) == pat {
        remove_all(s.skip(pat.len() as int), pat)
    } else {
        seq![s[0]] + remove_all(s.skip(1), pat)
    }
}

/// The path of a file relative to the project: the project directory removed from its
/// absolute path, then the first character (the separator) dropped. `None` when
/// nothing is left.
pub open spec fn spec_relative_file_path(absolute: Seq<char>, cwd: Seq<char>) -> Option<Seq<char>> {
    let r = remove_all(absolute, cwd);
    if r.len() == 0 {
        None
    } else {
        Some(r.skip(1))
    }
}

fn matches_at(s: &Vec<char>, i: usize, pat: &Vec<char>) -> (r: bool)
    requires
        i <= s.len(),
    ensures
        r == (pat@.len() <= s@.skip(i as int).len() && s@.skip(i as int).take(pat@.len() as int) == pat@),
{
    if pat.len() > s.len() - i {
        return false;
    }
    let mut k: usize = 0;
    while k < pat.len()
        invariant
            i + pat.len() <= s.len(),
            k <= pat.len(),
            forall|j: int| 0 <= j < k ==> s@[i + j] == pat@[j],
        decreases pat.len() - k,
    {
        if s[i + k] != pat[k] {
            assert(s@.skip(i as int).take(pat@.len() as int)[k as int] != pat@[k as int]);
            return false;
        }
        k = k + 1;
    }
    assert(s@.skip(i as int).take(pat@.len() as int) =~= pat@);
    true
}

/// The path of a file relative to the project directory `cwd`.
pub fn relative_file_path(absolute: &str, cwd: &str) -> (r: Option<String>)
    ensures
        match r {
            Some(p) => spec_relative_file_path(absolute@, cwd@) == Some(p@),
            None => spec_relative_file_path(absolute@, cwd@) is None,
        },
{
    let s = chars_of(absolute);
    let pat = chars_of(cwd);
    let mut out: Vec<char> = Vec::new();
    let mut i: usize = 0;
    assert(s@.skip(0) =~= s@);
    assert(out@ + remove_all(s@.skip(0), pat@) =~= remove_all(s@, pat@));
    while i < s.len()
        invariant
            i <= s.len(),
            s@ == absolute@,
            pat@ == cwd@,
            out@ + remove_all(s@.skip(i as int), pat@) == remove_all(s@, pat@),
        decreases s.len() - i,
    {
        if pat.len() > 0 && matches_at(&s, i, &pat) {
            assert(s@.skip(i as int).skip(pat@.len() as int) =~= s@.skip(i + pat.len()));
            i = i + pat.len();
        } else {
            assert(s@.skip(i as int).skip(1) =~= s@.skip(i + 1));
            assert(s@.skip(i as int)[0] == s@[i as int]);
            out.push(s[i]);
            assert(out@ + remove_all(s@.skip(i + 1), pat@) =~= remove_all(s@, pat@));
            i = i + 1;
        }
    }
    assert(s@.skip(s.len() as int).len() == 0);
    assert(out@ + remove_all(s@.skip(i as int), pat@) =~= out@);
    if out.len() == 0 {
        None
    } else {
        Some(string_of(&out, 1, out.len()))
    }
}

/// Law: a template gets the class hashes; on the client it drops unused imports and on
/// the server it drops the style sheets, never both; an entry point gets no loader of
/// a template.
pub proof fn law_passes(options: NullstackPluginOptions, file_path: Seq<char>)
    ensures
        spec_passes(options, file_path).contains(Pass::InjectHash) <==> options.template,
        spec_passes(options, file_path).contains(Pass::RemoveUnused) <==> options.template && options.client,
        spec_passes(options, file_path).contains(Pass::RemoveStyles) <==> options.template && !options.client,
        spec_passes(options, file_path).contains(Pass::InjectRestart) <==> !options.template && options.development
            && is_entry_point(file_path),
{
    let p = spec_passes(options, file_path);
    if options.template {
        let head: Seq<Pass> = if options.development {
            seq![Pass::InjectAccept, Pass::ReplaceLazy]
        } else {
            Seq::empty()
        };
        let n = head.len() as int;
        assert(p[n + 2] == Pass::InjectHash);
        if options.client {
            assert(p[n + 5] == Pass::RemoveUnused);
            assert(!p.contains(Pass::RemoveStyles));
        } else {
            assert(p[n + 4] == Pass::RemoveStyles);
            assert(!p.contains(Pass::RemoveUnused));
        }
        assert(!p.contains(Pass::InjectRestart));
    } else if options.development && is_entry_point(file_path) {
        assert(p[1] == Pass::InjectRestart);
    }
}

/// Law: a template in development begins with the hot reload and then the lazy routes,
/// on the client and on the server alike; nothing else gets either.
pub proof fn law_development_template_passes(options: NullstackPluginOptions, file_path: Seq<char>)
    ensures
        spec_passes(options, file_path).contains(Pass::InjectAccept) <==> options.template && options.development,
        spec_passes(options, file_path).contains(Pass::ReplaceLazy) <==> options.template && options.development,
        options.template && options.development ==> spec_passes(options, file_path).len() == 8
            && spec_passes(options, file_path)[0] == Pass::InjectAccept
            && spec_passes(options, file_path)[1] == Pass::ReplaceLazy,
        options.template && !options.development ==> spec_passes(options, file_path).len() == 6,
{
    let p = spec_passes(options, file_path);
    if options.template && options.development {
        assert(p[0] == Pass::InjectAccept);
        assert(p[1] == Pass::ReplaceLazy);
    } else if options.template {
        assert(!p.contains(Pass::InjectAccept));
        assert(!p.contains(Pass::ReplaceLazy));
    } else if options.development && is_entry_point(file_path) {
        assert(!p.contains(Pass::InjectAccept));
        assert(!p.contains(Pass::ReplaceLazy));
    }
}

/// Law: a file under the project directory gets its path below that directory, when
/// the rest of its path does not hold the directory's name again.
pub proof fn law_relative_file_path(cwd: Seq<char>, rel: Seq<char>)
    requires
        cwd.len() > 0,
        remove_all(seq!['/'] + rel, cwd) == seq!['/'] + rel,
    ensures
        spec_relative_file_path(cwd + seq!['/'] + rel, cwd) == Some(rel),
{
    let t = seq!['/'] + rel;
    let s = cwd + t;
    assert(cwd + seq!['/'] + rel =~= s);
    assert(s.take(cwd.len() as int) =~= cwd);
    assert(s.skip(cwd.len() as int) =~= t);
    assert(remove_all(s, cwd) == remove_all(t, cwd));
    assert(t.skip(1) =~= rel);
}

} // verus!
