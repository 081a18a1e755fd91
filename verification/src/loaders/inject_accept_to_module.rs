//! Hot reload: the `$runtime.accept(module, path, {klasses, dependencies})` call appended
//! to a module; besides, a fingerprint of the server functions that each class's
//! `initiate` depends on.
use vstd::prelude::*;

use crate::assoc::{
    assoc_insert, key_index, keys_unique, lemma_assoc_insert_unique, lemma_key_index,
    lemma_key_index_all, lemma_key_index_found, lemma_key_index_step, lemma_update_value_unique,
};
use crate::loaders::{all_hex, hex_bytes, law_hex_bytes, push_hex_bytes};
use crate::text::{clone_strings, contains_str, str_eq, strings_view, to_owned, utf8_bytes};

verus! {

/// The digest that `md5::compute` gives for some bytes.
pub uninterp spec fn md5_digest(data: Seq<u8>) -> Seq<u8>;

/// Calls `md5::compute`; its `Digest` holds sixteen bytes.
#[verifier::external_body]
fn md5_compute(data: &[u8]) -> (d: Vec<u8>)
    ensures
        d@ == md5_digest(data@),
        d@.len() == 16,
{
    md5::compute(data).0.to_vec()
}

/// The kind of an expression, one per variant of the expression syntax tree.
#[derive(Clone, Copy, Debug, PartialEq, Eq, Structural)]
pub enum ExprKind {
    This,
    Array,
    Object,
    Function,
    Unary,
    Update,
    Bin,
    Assign,
    Member,
    SuperProp,
    Cond,
    Call,
    New,
    Sequence,
    Ident,
    Lit,
    Tpl,
    TaggedTpl,
    Arrow,
    Class,
    Yield,
    MetaProp,
    Await,
    Paren,
    JSXMember,
    JSXNamespacedName,
    JSXEmpty,
    JSXElement,
    JSXFragment,
    TsTypeAssertion,
    TsConstAssertion,
    TsNonNull,
    TsAs,
    TsInstantiation,
    TsSatisfies,
    PrivateName,
    OptChain,
    Invalid,
}

/// The byte that stands for each kind of expression in a server function's fingerprint.
pub open spec fn spec_expr_code(k: ExprKind) -> u8 {
    match k {
        ExprKind::This => 1,
        ExprKind::Array => 2,
        ExprKind::Object => 3,
        ExprKind::Function => 4,
        ExprKind::Unary => 5,
        ExprKind::Update => 6,
        ExprKind::Bin => 7,
        ExprKind::Assign => 8,
        ExprKind::Member => 9,
        ExprKind::SuperProp => 10,
        ExprKind::Cond => 11,
        ExprKind::Call => 12,
        ExprKind::New => 13,
        ExprKind::Sequence => 14,
        ExprKind::Ident => 15,
        ExprKind::Lit => 16,
        ExprKind::Tpl => 17,
        ExprKind::TaggedTpl => 18,
        ExprKind::Arrow => 19,
        ExprKind::Class => 20,
        ExprKind::Yield => 21,
        ExprKind::MetaProp => 22,
        ExprKind::Await => 23,
        ExprKind::Paren => 24,
        ExprKind::JSXMember => 25,
        ExprKind::JSXNamespacedName => 26,
        ExprKind::JSXEmpty => 27,
        ExprKind::JSXElement => 28,
        ExprKind::JSXFragment => 29,
        ExprKind::TsTypeAssertion => 30,
        ExprKind::TsConstAssertion => 31,
        ExprKind::TsNonNull => 32,
        ExprKind::TsAs => 33,
        ExprKind::TsInstantiation => 34,
        ExprKind::TsSatisfies => 35,
        ExprKind::PrivateName => 36,
        ExprKind::OptChain => 37,
        ExprKind::Invalid => 38,
    }
}

/// The byte for a kind of expression.
pub fn expr_code(k: ExprKind) -> (c: u8)
    ensures
        c == spec_expr_code(k),
{
    match k {
        ExprKind::This => 1,
        ExprKind::Array => 2,
        ExprKind::Object => 3,
        ExprKind::Function => 4,
        ExprKind::Unary => 5,
        ExprKind::Update => 6,
        ExprKind::Bin => 7,
        ExprKind::Assign => 8,
        ExprKind::Member => 9,
        ExprKind::SuperProp => 10,
        ExprKind::Cond => 11,
        ExprKind::Call => 12,
        ExprKind::New => 13,
        ExprKind::Sequence => 14,
        ExprKind::Ident => 15,
        ExprKind::Lit => 16,
        ExprKind::Tpl => 17,
        ExprKind::TaggedTpl => 18,
        ExprKind::Arrow => 19,
        ExprKind::Class => 20,
        ExprKind::Yield => 21,
        ExprKind::MetaProp => 22,
        ExprKind::Await => 23,
        ExprKind::Paren => 24,
        ExprKind::JSXMember => 25,
        ExprKind::JSXNamespacedName => 26,
        ExprKind::JSXEmpty => 27,
        ExprKind::JSXElement => 28,
        ExprKind::JSXFragment => 29,
        ExprKind::TsTypeAssertion => 30,
        ExprKind::TsConstAssertion => 31,
        ExprKind::TsNonNull => 32,
        ExprKind::TsAs => 33,
        ExprKind::TsInstantiation => 34,
        ExprKind::TsSatisfies => 35,
        ExprKind::PrivateName => 36,
        ExprKind::OptChain => 37,
        ExprKind::Invalid => 38,
    }
}

/// A literal, with the text that stands for it. Numbers and big integers carry the text
/// that their `to_string` gives; regular expressions carry their pattern.
pub enum LitValue {
    Str(String),
    Bool(bool),
    Null,
    Num(String),
    BigInt(String),
    Regex(String),
    Other,
}

/// The bytes that a literal adds to a server function's fingerprint.
pub open spec fn spec_lit_bytes(l: LitValue) -> Seq<u8> {
    match l {
        LitValue::Str(s) => vstd::utf8::encode_utf8(s@),
        LitValue::Bool(b) => if b {
            seq![1u8]
        } else {
            seq![0u8]
        },
        LitValue::Null => seq![0u8],
        LitValue::Num(t) => vstd::utf8::encode_utf8(t@),
        LitValue::BigInt(t) => vstd::utf8::encode_utf8(t@),
        LitValue::Regex(t) => vstd::utf8::encode_utf8(t@),
        LitValue::Other => seq![0u8],
    }
}

/// The bytes of a literal.
pub fn lit_bytes(l: &LitValue) -> (b: Vec<u8>)
    ensures
        b@ == spec_lit_bytes(*l),
{
    match l {
        LitValue::Str(s) => utf8_bytes(s.as_str()),
        LitValue::Bool(b) => if *b {
            vec![1u8]
        } else {
            vec![0u8]
        },
        LitValue::Null => vec![0u8],
        LitValue::Num(t) => utf8_bytes(t.as_str()),
        LitValue::BigInt(t) => utf8_bytes(t.as_str()),
        LitValue::Regex(t) => utf8_bytes(t.as_str()),
        LitValue::Other => vec![0u8],
    }
}

/// A static async method and the bytes gathered from its body.
pub struct ServerFunction {
    pub name: String,
    pub bytes: Vec<u8>,
}

/// What is gathered of one class: its server functions and the identifiers that its
/// `initiate` method mentions.
pub struct Class {
    pub server_functions: Vec<ServerFunction>,
    pub initiate_dependencies: Vec<String>,
}

/// A class by its name.
pub struct NamedClass {
    pub name: String,
    pub class: Class,
}

/// The model of a class: server functions by name, and the names `initiate` mentions.
pub struct ClassModel {
    pub server_function_bytes: Seq<(Seq<char>, Seq<u8>)>,
    pub initiate_dependencies: Seq<Seq<char>>,
}

pub open spec fn empty_class() -> ClassModel {
    ClassModel { server_function_bytes: Seq::empty(), initiate_dependencies: Seq::empty() }
}

impl Class {
    pub open spec fn model(self) -> ClassModel {
        ClassModel {
            server_function_bytes: self.server_functions@.map_values(
                |f: ServerFunction| (f.name@, f.bytes@),
            ),
            initiate_dependencies: strings_view(self.initiate_dependencies@),
        }
    }
}

pub open spec fn classes_view(v: Seq<NamedClass>) -> Seq<(Seq<char>, ClassModel)> {
    v.map_values(|c: NamedClass| (c.name@, c.class.model()))
}

/// The bytes of the server functions that `initiate` depends on, in table order.
pub open spec fn initiate_bytes(fs: Seq<(Seq<char>, Seq<u8>)>, deps: Seq<Seq<char>>) -> Seq<u8>
    decreases fs.len(),
{
    if fs.len() == 0 {
        Seq::empty()
    } else {
        initiate_bytes(fs.drop_last(), deps) + if deps.contains(fs.last().0) {
            fs.last().1
        } else {
            Seq::empty()
        }
    }
}

/// The fingerprint of a class: empty when its `initiate` depends on no gathered bytes,
/// else the MD5 digest of those bytes in lower-case hexadecimal.
pub open spec fn spec_initiate_hash(c: ClassModel) -> Seq<char> {
    let b = initiate_bytes(c.server_function_bytes, c.initiate_dependencies);
    if b.len() == 0 {
        Seq::empty()
    } else {
        hex_bytes(md5_digest(b))
    }
}

/// The fingerprint of a class's `initiate` method.
pub fn get_hash(class: &Class) -> (h: String)
    ensures
        h@ == spec_initiate_hash(class.model()),
        h@.len() == 0 || (h@.len() == 32 && all_hex(h@)),
{
    let ghost fs = class.model().server_function_bytes;
    let ghost deps = class.model().initiate_dependencies;
    let mut initiate_hash: Vec<u8> = Vec::new();
    let mut i: usize = 0;
    while i < class.server_functions.len()
        invariant
            i <= class.server_functions.len(),
            fs == class.model().server_function_bytes,
            deps == class.model().initiate_dependencies,
            fs.len() == class.server_functions.len(),
            initiate_hash@ == initiate_bytes(fs.take(i as int), deps),
        decreases class.server_functions.len() - i,
    {
        assert(fs.take(i + 1).drop_last() == fs.take(i as int));
        assert(fs[i as int] == (class.server_functions@[i as int].name@, class.server_functions@[i as int].bytes@));
        if contains_str(&class.initiate_dependencies, class.server_functions[i].name.as_str()) {
            let mut more = class.server_functions[i].bytes.clone();
            assert(more@ =~= class.server_functions@[i as int].bytes@);
            initiate_hash.append(&mut more);
        }
        i = i + 1;
    }
    assert(fs.take(fs.len() as int) == fs);
    let mut h = String::new();
    if initiate_hash.len() == 0 {
        return h;
    }
    let digest = md5_compute(initiate_hash.as_slice());
    push_hex_bytes(&mut h, &digest);
    proof {
        law_hex_bytes(digest@);
        assert(h@ =~= hex_bytes(digest@));
    }
    h
}

/// A class with its fingerprint: the md5 digest, in lower-case hex, of the bytes of the
/// server functions that its `initiate` method mentions (empty when it mentions none).
pub struct ClassHash {
    pub name: String,
    pub initiate: String,
}

/// The arguments of `$runtime.accept`, after `module`: the file path, then an object
/// `{klasses: [..], dependencies: [..]}` with the classes of the module, named in the
/// order in which they were first met, and its import paths.
pub struct AcceptArgs {
    pub file_path: String,
    pub klasses: Vec<String>,
    pub dependencies: Vec<String>,
}

pub open spec fn class_hashes_view(v: Seq<ClassHash>) -> Seq<(Seq<char>, Seq<char>)> {
    v.map_values(|c: ClassHash| (c.name@, c.initiate@))
}

/// Each class with its fingerprint, in table order.
pub open spec fn spec_class_hashes(cs: Seq<(Seq<char>, ClassModel)>) -> Seq<(Seq<char>, Seq<char>)> {
    cs.map_values(|c: (Seq<char>, ClassModel)| (c.0, spec_initiate_hash(c.1)))
}

/// The names of the classes, in table order.
pub open spec fn class_names(cs: Seq<(Seq<char>, ClassModel)>) -> Seq<Seq<char>> {
    cs.map_values(|c: (Seq<char>, ClassModel)| c.0)
}

/// The arguments of the `accept` call: the file path, the class names and the import
/// paths.
pub fn runtime_accept_args(
    classes: &Vec<NamedClass>,
    import_paths: &Vec<String>,
    file_path: &str,
) -> (a: AcceptArgs)
    ensures
        a.file_path@ == file_path@,
        strings_view(a.klasses@) == class_names(classes_view(classes@)),
        strings_view(a.dependencies@) == strings_view(import_paths@),
{
    let mut klasses: Vec<String> = Vec::new();
    let mut i: usize = 0;
    while i < classes.len()
        invariant
            i <= classes.len(),
            klasses@.len() == i,
            forall|k: int| 0 <= k < i ==> #[trigger] klasses@[k]@ == classes@[k].name@,
        decreases classes.len() - i,
    {
        klasses.push(classes[i].name.clone());
        i = i + 1;
    }
    assert(strings_view(klasses@) =~= class_names(classes_view(classes@)));
    AcceptArgs {
        file_path: to_owned(file_path),
        klasses,
        dependencies: clone_strings(import_paths),
    }
}

/// Each class with its fingerprint, in table order.
fn class_hashes(classes: &Vec<NamedClass>) -> (out: Vec<ClassHash>)
    ensures
        class_hashes_view(out@) == spec_class_hashes(classes_view(classes@)),
{
    let mut out: Vec<ClassHash> = Vec::new();
    let mut i: usize = 0;
    while i < classes.len()
        invariant
            i <= classes.len(),
            out@.len() == i,
            forall|k: int| 0 <= k < i ==> #[trigger] out@[k].name@ == classes@[k].name@
                && out@[k].initiate@ == spec_initiate_hash(classes@[k].class.model()),
        decreases classes.len() - i,
    {
        let entry = ClassHash {
            name: classes[i].name.clone(),
            initiate: get_hash(&classes[i].class),
        };
        out.push(entry);
        i = i + 1;
    }
    assert(class_hashes_view(out@) =~= spec_class_hashes(classes_view(classes@)));
    out
}

/// What a class member is to the fingerprint: a server function (a static async
/// method), the `initiate` method, or neither.
#[derive(Clone, Copy, Debug, PartialEq, Eq, Structural)]
pub enum MemberRole {
    ServerFunction,
    Initiate,
    Other,
}

pub open spec fn spec_member_role(is_static: bool, is_async: bool, name: Seq<char>) -> MemberRole {
    if is_static && is_async {
        MemberRole::ServerFunction
    } else if name == "initiate"@ {
        MemberRole::Initiate
    } else {
        MemberRole::Other
    }
}

/// The state of the visitor, as plain values.
pub struct AcceptModel {
    pub import_paths: Seq<Seq<char>>,
    pub file_path: Seq<char>,
    pub inside_initiate: bool,
    pub classes: Seq<(Seq<char>, ClassModel)>,
    pub current_server_function: Option<Seq<char>>,
    pub current_class: Option<Seq<char>>,
}

/// Gathers, while a module is walked, its import paths, its classes, and the bytes of
/// each class's server functions; then gives the `accept` call.
pub struct InjectAcceptVisitor {
    import_paths: Vec<String>,
    file_path: String,
    inside_initiate: bool,
    classes: Vec<NamedClass>,
    current_server_function: Option<String>,
    current_class: Option<String>,
}

pub open spec fn opt_view(o: Option<String>) -> Option<Seq<char>> {
    match o {
        Some(s) => Some(s@),
        None => None,
    }
}

impl View for InjectAcceptVisitor {
    type V = AcceptModel;

    closed spec fn view(&self) -> AcceptModel {
        AcceptModel {
            import_paths: strings_view(self.import_paths@),
            file_path: self.file_path@,
            inside_initiate: self.inside_initiate,
            classes: classes_view(self.classes@),
            current_server_function: opt_view(self.current_server_function),
            current_class: opt_view(self.current_class),
        }
    }
}

/// No class is named twice, and no class names a server function twice.
pub open spec fn accept_wf(m: AcceptModel) -> bool {
    &&& keys_unique(m.classes)
    &&& forall|i: int| 0 <= i < m.classes.len() ==> keys_unique(#[trigger] m.classes[i].1.server_function_bytes)
}

/// The state after some bytes are gathered for the current server function: they are
/// appended to its bytes when there is a current class and server function, both known.
pub open spec fn record_bytes(m: AcceptModel, b: Seq<u8>) -> AcceptModel {
    match (m.current_class, m.current_server_function) {
        (Some(c), Some(f)) => {
            let i = key_index(m.classes, c);
            if i >= 0 {
                let cls = m.classes[i].1;
                let j = key_index(cls.server_function_bytes, f);
                if j >= 0 {
                    let fs = cls.server_function_bytes.update(j, (f, cls.server_function_bytes[j].1 + b));
                    AcceptModel {
                        classes: m.classes.update(i, (c, ClassModel { server_function_bytes: fs, ..cls })),
                        ..m
                    }
                } else {
                    m
                }
            } else {
                m
            }
        },
        _ => m,
    }
}

/// The state after an identifier is met: inside `initiate` its name becomes a dependency
/// of the current class; otherwise its UTF-8 bytes are gathered.
pub open spec fn record_ident(m: AcceptModel, sym: Seq<char>) -> AcceptModel {
    match m.current_class {
        Some(c) => {
            let i = key_index(m.classes, c);
            if i >= 0 && m.inside_initiate {
                let cls = m.classes[i].1;
                AcceptModel {
                    classes: m.classes.update(
                        i,
                        (c, ClassModel { initiate_dependencies: cls.initiate_dependencies.push(sym), ..cls }),
                    ),
                    ..m
                }
            } else if i >= 0 {
                record_bytes(m, vstd::utf8::encode_utf8(sym))
            } else {
                m
            }
        },
        None => m,
    }
}

/// The state after a server function named `name` starts: it is bound to no bytes in
/// the current class (when that class is known), and becomes the current one.
pub open spec fn start_server_function(m: AcceptModel, name: Seq<char>) -> AcceptModel {
    let classes = match m.current_class {
        Some(c) => {
            let i = key_index(m.classes, c);
            if i >= 0 {
                let cls = m.classes[i].1;
                m.classes.update(
                    i,
                    (c, ClassModel {
                        server_function_bytes: assoc_insert(cls.server_function_bytes, name, Seq::empty()),
                        ..cls
                    }),
                )
            } else {
                m.classes
            }
        },
        None => m.classes,
    };
    AcceptModel { classes, current_server_function: Some(name), ..m }
}

impl Default for InjectAcceptVisitor {
    fn default() -> (r: Self)
        ensures
            r@.file_path.len() == 0,
            r@.classes.len() == 0,
            r@.import_paths.len() == 0,
    {
        InjectAcceptVisitor::new(String::new())
    }
}

impl InjectAcceptVisitor {
    /// A visitor for the file at `file_path`.
    pub fn new(file_path: String) -> (r: Self)
        ensures
            r@ == (AcceptModel {
                import_paths: Seq::empty(),
                file_path: file_path@,
                inside_initiate: false,
                classes: Seq::empty(),
                current_server_function: None,
                current_class: None,
            }),
            accept_wf(r@),
    {
        let r = InjectAcceptVisitor {
            import_paths: Vec::new(),
            file_path,
            inside_initiate: false,
            classes: Vec::new(),
            current_server_function: None,
            current_class: None,
        };
        assert(strings_view(r.import_paths@) =~= Seq::empty());
        assert(classes_view(r.classes@) =~= Seq::empty());
        r
    }

    fn find_class(&self, name: &String) -> (r: Option<usize>)
        ensures
            match r {
                Some(i) => i == key_index(self@.classes, name@) && i < self.classes.len(),
                None => key_index(self@.classes, name@) == -1,
            },
    {
        let ghost cs = self@.classes;
        let mut i: usize = 0;
        while i < self.classes.len()
            invariant
                i <= self.classes.len(),
                cs == self@.classes,
                cs.len() == self.classes.len(),
                key_index(cs.take(i as int), name@) == -1,
            decreases self.classes.len() - i,
        {
            proof {
                lemma_key_index_step(cs, name@, i as int);
            }
            if self.classes[i].name == *name {
                proof {
                    lemma_key_index(cs, name@);
                    lemma_key_index(cs.take(i + 1), name@);
                    assert(cs.take(i + 1) =~= cs.subrange(0, i + 1));
                    let k = key_index(cs, name@);
                    if k < i {
                        assert(cs.take(i as int)[k] == cs[k]);
                    }
                    assert(cs[i as int].0 == name@);
                }
                return Some(i);
            }
            i = i + 1;
        }
        proof {
            assert(cs.take(cs.len() as int) =~= cs);
        }
        None
    }

    /// A class starts: it becomes the current class, bound to an empty record.
    pub fn enter_class(&mut self, name: &str)
        ensures
            final(self)@ == (AcceptModel {
                current_class: Some(name@),
                classes: assoc_insert(old(self)@.classes, name@, empty_class()),
                ..old(self)@
            }),
            accept_wf(old(self)@) ==> accept_wf(final(self)@),
    {
        let n = to_owned(name);
        let fresh = NamedClass {
            name: to_owned(name),
            class: Class { server_functions: Vec::new(), initiate_dependencies: Vec::new() },
        };
        assert(fresh.class.model().server_function_bytes =~= Seq::empty());
        assert(fresh.class.model().initiate_dependencies =~= Seq::empty());
        assert(fresh.class.model() == empty_class());
        let ghost before = self@;
        match self.find_class(&n) {
            Some(i) => {
                self.classes.set(i, fresh);
                assert(classes_view(self.classes@) =~= before.classes.update(i as int, (name@, empty_class())));
            },
            None => {
                self.classes.push(fresh);
                assert(classes_view(self.classes@) =~= before.classes.push((name@, empty_class())));
            },
        }
        self.current_class = Some(n);
        proof {
            let t = self@.classes;
            if accept_wf(before) {
                lemma_assoc_insert_unique(before.classes, name@, empty_class());
                lemma_key_index(before.classes, name@);
                assert forall|k: int| 0 <= k < t.len() implies keys_unique(#[trigger] t[k].1.server_function_bytes) by {
                    if k < before.classes.len() && k != key_index(before.classes, name@) {
                        assert(t[k] == before.classes[k]);
                    }
                }
            }
        }
    }

    /// The current class ends.
    pub fn exit_class(&mut self)
        ensures
            final(self)@ == (AcceptModel { current_class: None, ..old(self)@ }),
    {
        self.current_class = None;
    }

    /// An import declaration: its source is recorded.
    pub fn on_import(&mut self, src: &str)
        ensures
            final(self)@ == (AcceptModel { import_paths: old(self)@.import_paths.push(src@), ..old(self)@ }),
    {
        self.import_paths.push(to_owned(src));
        assert(strings_view(self.import_paths@) =~= strings_view(old(self).import_paths@).push(src@));
    }

    fn find_function(&self, i: usize, name: &String) -> (r: Option<usize>)
        requires
            i < self.classes.len(),
        ensures
            match r {
                Some(j) => j == key_index(self@.classes[i as int].1.server_function_bytes, name@)
                    && j < self.classes@[i as int].class.server_functions.len(),
                None => key_index(self@.classes[i as int].1.server_function_bytes, name@) == -1,
            },
    {
        let ghost fs = self@.classes[i as int].1.server_function_bytes;
        let mut j: usize = 0;
        while j < self.classes[i].class.server_functions.len()
            invariant
                i < self.classes.len(),
                j <= self.classes@[i as int].class.server_functions.len(),
                fs == self@.classes[i as int].1.server_function_bytes,
                fs.len() == self.classes@[i as int].class.server_functions.len(),
                key_index(fs.take(j as int), name@) == -1,
            decreases self.classes@[i as int].class.server_functions.len() - j,
        {
            proof {
                lemma_key_index_step(fs, name@, j as int);
            }
            if self.classes[i].class.server_functions[j].name == *name {
                proof {
                    assert(fs[j as int].0 == name@);
                    lemma_key_index_found(fs, name@, j as int);
                }
                return Some(j);
            }
            j = j + 1;
        }
        proof {
            lemma_key_index_all(fs, name@);
        }
        None
    }

    /// Appends bytes to the current server function of the current class.
    fn record(&mut self, b: Vec<u8>)
        ensures
            final(self)@ == record_bytes(old(self)@, b@),
            accept_wf(old(self)@) ==> accept_wf(final(self)@),
    {
        let ghost m = self@;
        let c = match &self.current_class {
            Some(c) => c.clone(),
            None => return,
        };
        let f = match &self.current_server_function {
            Some(f) => f.clone(),
            None => return,
        };
        let i = match self.find_class(&c) {
            Some(i) => i,
            None => return,
        };
        let j = match self.find_function(i, &f) {
            Some(j) => j,
            None => return,
        };
        let mut b = b;
        let ghost b0 = b@;
        let ghost cv = self.classes@;
        let mut entry = self.classes.remove(i);
        let ghost fv = entry.class.server_functions@;
        let mut func = entry.class.server_functions.remove(j);
        func.bytes.append(&mut b);
        let ghost func2 = func;
        entry.class.server_functions.insert(j, func);
        assert(entry.class.server_functions@ =~= fv.update(j as int, func2));
        let ghost entry2 = entry;
        self.classes.insert(i, entry);
        assert(self.classes@ =~= cv.update(i as int, entry2));
        proof {
            let cls = m.classes[i as int].1;
            let fs = cls.server_function_bytes.update(j as int, (f@, cls.server_function_bytes[j as int].1 + b0));
            lemma_key_index(m.classes, c@);
            lemma_key_index(cls.server_function_bytes, f@);
            assert(self.classes@[i as int].class.model().server_function_bytes =~= fs);
            assert(self.classes@[i as int].class.model().initiate_dependencies =~= cls.initiate_dependencies);
            assert(classes_view(self.classes@) =~= m.classes.update(
                i as int,
                (c@, ClassModel { server_function_bytes: fs, ..cls }),
            ));
            if accept_wf(m) {
                lemma_update_value_unique(cls.server_function_bytes, j as int, cls.server_function_bytes[j as int].1 + b0);
                lemma_update_value_unique(m.classes, i as int, ClassModel { server_function_bytes: fs, ..cls });
                let t = self@.classes;
                assert forall|k: int| 0 <= k < t.len() implies keys_unique(#[trigger] t[k].1.server_function_bytes) by {
                    if k != i {
                        assert(t[k] == m.classes[k]);
                    }
                }
            }
        }
    }

    /// An expression inside a server function: the byte for its kind is gathered.
    pub fn on_expr(&mut self, kind: ExprKind)
        ensures
            final(self)@ == record_bytes(old(self)@, seq![spec_expr_code(kind)]),
            accept_wf(old(self)@) ==> accept_wf(final(self)@),
    {
        let b = vec![expr_code(kind)];
        assert(b@ =~= seq![spec_expr_code(kind)]);
        self.record(b);
    }

    /// A literal inside a server function: its bytes are gathered.
    pub fn on_lit(&mut self, lit: &LitValue)
        ensures
            final(self)@ == record_bytes(old(self)@, spec_lit_bytes(*lit)),
            accept_wf(old(self)@) ==> accept_wf(final(self)@),
    {
        let b = lit_bytes(lit);
        self.record(b);
    }

    /// An identifier: a dependency of `initiate`, or bytes of a server function.
    pub fn on_ident(&mut self, sym: &str)
        ensures
            final(self)@ == record_ident(old(self)@, sym@),
            accept_wf(old(self)@) ==> accept_wf(final(self)@),
    {
        let ghost m = self@;
        let c = match &self.current_class {
            Some(c) => c.clone(),
            None => return,
        };
        let i = match self.find_class(&c) {
            Some(i) => i,
            None => return,
        };
        if self.inside_initiate {
            let ghost cv = self.classes@;
            let mut entry = self.classes.remove(i);
            let ghost dv = entry.class.initiate_dependencies@;
            let d = to_owned(sym);
            let ghost d2 = d;
            entry.class.initiate_dependencies.push(d);
            assert(entry.class.initiate_dependencies@ == dv.push(d2));
            assert(entry.class.model().initiate_dependencies =~= strings_view(dv).push(sym@));
            let ghost entry2 = entry;
            self.classes.insert(i, entry);
            assert(self.classes@ =~= cv.update(i as int, entry2));
            proof {
                let cls = m.classes[i as int].1;
                lemma_key_index(m.classes, c@);
                assert(self.classes@[i as int].class.model().server_function_bytes =~= cls.server_function_bytes);
                assert(self.classes@[i as int].class.model().initiate_dependencies =~= cls.initiate_dependencies.push(sym@));
                assert(self.classes@[i as int].class.model() == ClassModel { initiate_dependencies: cls.initiate_dependencies.push(sym@), ..cls });
                assert(classes_view(self.classes@) =~= m.classes.update(
                    i as int,
                    (c@, ClassModel { initiate_dependencies: cls.initiate_dependencies.push(sym@), ..cls }),
                ));
                lemma_key_index(m.classes, c@);
                if accept_wf(m) {
                    lemma_update_value_unique(m.classes, i as int, ClassModel { initiate_dependencies: cls.initiate_dependencies.push(sym@), ..cls });
                    let t = self@.classes;
                    assert forall|k: int| 0 <= k < t.len() implies keys_unique(#[trigger] t[k].1.server_function_bytes) by {
                        if k != i {
                            assert(t[k] == m.classes[k]);
                        }
                    }
                }
            }
        } else {
            self.record(utf8_bytes(sym));
        }
    }

    /// A class method with a plain name: a server function or `initiate` starts.
    /// The caller walks the method again and then calls `exit_method` with the role.
    pub fn enter_method(&mut self, is_static: bool, is_async: bool, name: &str) -> (role: MemberRole)
        ensures
            role == spec_member_role(is_static, is_async, name@),
            role == MemberRole::ServerFunction ==> final(self)@ == start_server_function(old(self)@, name@),
            role == MemberRole::Initiate ==> final(self)@ == (AcceptModel { inside_initiate: true, ..old(self)@ }),
            role == MemberRole::Other ==> final(self)@ == old(self)@,
            accept_wf(old(self)@) ==> accept_wf(final(self)@),
    {
        proof {
            reveal_strlit("initiate");
        }
        if is_static && is_async {
            let ghost m = self@;
            let n = to_owned(name);
            if let Some(c) = &self.current_class {
                let c = c.clone();
                if let Some(i) = self.find_class(&c) {
                    let fresh = ServerFunction { name: to_owned(name), bytes: Vec::new() };
                    let ghost cv = self.classes@;
                    let mut entry = self.classes.remove(i);
                    match self.find_function_in(&entry.class, &n) {
                        Some(j) => {
                            entry.class.server_functions.set(j, fresh);
                        },
                        None => {
                            entry.class.server_functions.push(fresh);
                        },
                    }
                    let ghost entry2 = entry;
                    self.classes.insert(i, entry);
                    assert(self.classes@ =~= cv.update(i as int, entry2));
                    proof {
                        let cls = m.classes[i as int].1;
                        let fs = assoc_insert(cls.server_function_bytes, name@, Seq::<u8>::empty());
                        lemma_key_index(m.classes, c@);
                        assert(self.classes@[i as int].class.model().server_function_bytes =~= fs);
                        assert(self.classes@[i as int].class.model().initiate_dependencies =~= cls.initiate_dependencies);
                        assert(classes_view(self.classes@) =~= m.classes.update(
                            i as int,
                            (c@, ClassModel { server_function_bytes: fs, ..cls }),
                        ));
                        if accept_wf(m) {
                            lemma_assoc_insert_unique(cls.server_function_bytes, name@, Seq::<u8>::empty());
                            lemma_update_value_unique(m.classes, i as int, ClassModel { server_function_bytes: fs, ..cls });
                            let t = self@.classes;
                            assert forall|k: int| 0 <= k < t.len() implies keys_unique(#[trigger] t[k].1.server_function_bytes) by {
                                if k != i {
                                    assert(t[k] == m.classes[k]);
                                }
                            }
                        }
                    }
                }
            }
            self.current_server_function = Some(n);
            MemberRole::ServerFunction
        } else if str_eq(name, "initiate") {
            self.inside_initiate = true;
            MemberRole::Initiate
        } else {
            MemberRole::Other
        }
    }

    fn find_function_in(&self, class: &Class, name: &String) -> (r: Option<usize>)
        ensures
            match r {
                Some(j) => j == key_index(class.model().server_function_bytes, name@)
                    && j < class.server_functions.len(),
                None => key_index(class.model().server_function_bytes, name@) == -1,
            },
    {
        let ghost fs = class.model().server_function_bytes;
        let mut j: usize = 0;
        while j < class.server_functions.len()
            invariant
                j <= class.server_functions.len(),
                fs == class.model().server_function_bytes,
                fs.len() == class.server_functions.len(),
                key_index(fs.take(j as int), name@) == -1,
            decreases class.server_functions.len() - j,
        {
            proof {
                lemma_key_index_step(fs, name@, j as int);
            }
            if class.server_functions[j].name == *name {
                proof {
                    assert(fs[j as int].0 == name@);
                    lemma_key_index_found(fs, name@, j as int);
                }
                return Some(j);
            }
            j = j + 1;
        }
        proof {
            lemma_key_index_all(fs, name@);
        }
        None
    }

    /// The method walked again ends: the role it had is left.
    pub fn exit_method(&mut self, role: MemberRole)
        ensures
            role == MemberRole::ServerFunction ==> final(self)@ == (AcceptModel { current_server_function: None, ..old(self)@ }),
            role == MemberRole::Initiate ==> final(self)@ == (AcceptModel { inside_initiate: false, ..old(self)@ }),
            role == MemberRole::Other ==> final(self)@ == old(self)@,
    {
        match role {
            MemberRole::ServerFunction => {
                self.current_server_function = None;
            },
            MemberRole::Initiate => {
                self.inside_initiate = false;
            },
            MemberRole::Other => {},
        }
    }

    /// The arguments of the `accept` call that ends the module: the file path, the
    /// classes met and the import paths.
    pub fn accept_args(&self) -> (a: AcceptArgs)
        ensures
            a.file_path@ == self@.file_path,
            strings_view(a.klasses@) == class_names(self@.classes),
            strings_view(a.dependencies@) == self@.import_paths,
    {
        runtime_accept_args(&self.classes, &self.import_paths, self.file_path.as_str())
    }

    /// Each class met so far with its fingerprint, in the order in which the classes
    /// were first met.
    pub fn class_fingerprints(&self) -> (out: Vec<ClassHash>)
        ensures
            class_hashes_view(out@) == spec_class_hashes(self@.classes),
    {
        class_hashes(&self.classes)
    }
}

/// Law: outside `initiate`, an identifier met in a server function of the current
/// class adds exactly the UTF-8 bytes of its name to that function's bytes; every other
/// function, every other class and the dependencies of `initiate` stay as they were.
pub proof fn law_ident_bytes(m: AcceptModel, sym: Seq<char>, i: int, j: int)
    requires
        accept_wf(m),
        !m.inside_initiate,
        0 <= i < m.classes.len(),
        m.current_class == Some(m.classes[i].0),
        0 <= j < m.classes[i].1.server_function_bytes.len(),
        m.current_server_function == Some(m.classes[i].1.server_function_bytes[j].0),
    ensures
        ({
            let r = record_ident(m, sym);
            let fs = m.classes[i].1.server_function_bytes;
            let gs = r.classes[i].1.server_function_bytes;
            &&& r.classes.len() == m.classes.len()
            &&& r.classes[i].0 == m.classes[i].0
            &&& r.classes[i].1.initiate_dependencies == m.classes[i].1.initiate_dependencies
            &&& gs.len() == fs.len()
            &&& gs[j].0 == fs[j].0
            &&& gs[j].1 == fs[j].1 + vstd::utf8::encode_utf8(sym)
            &&& forall|k: int| 0 <= k < fs.len() && k != j ==> #[trigger] gs[k] == fs[k]
            &&& forall|k: int| 0 <= k < m.classes.len() && k != i ==> #[trigger] r.classes[k] == m.classes[k]
            &&& r.import_paths == m.import_paths && r.file_path == m.file_path
        }),
{
    let c = m.classes[i].0;
    let fs = m.classes[i].1.server_function_bytes;
    let f = fs[j].0;
    lemma_key_index(m.classes, c);
    lemma_key_index(fs, f);
    assert(keys_unique(fs));
    let ki = key_index(m.classes, c);
    assert(ki == i) by {
        if ki != i {
            assert(m.classes[ki].0 == m.classes[i].0);
        }
    }
    let kj = key_index(fs, f);
    assert(kj == j) by {
        if kj != j {
            assert(fs[kj].0 == fs[j].0);
        }
    }
}

/// Law: the fingerprint of `initiate` depends only on the server functions it mentions:
/// changing the bytes of another one leaves it as it is.
pub proof fn law_initiate_hash_ignores_unused(c: ClassModel, j: int, bytes: Seq<u8>)
    requires
        0 <= j < c.server_function_bytes.len(),
        !c.initiate_dependencies.contains(c.server_function_bytes[j].0),
    ensures
        spec_initiate_hash(ClassModel {
            server_function_bytes: c.server_function_bytes.update(j, (c.server_function_bytes[j].0, bytes)),
            ..c
        }) == spec_initiate_hash(c),
{
    lemma_initiate_bytes_update(c.server_function_bytes, c.initiate_dependencies, j, bytes);
}

proof fn lemma_initiate_bytes_update(fs: Seq<(Seq<char>, Seq<u8>)>, deps: Seq<Seq<char>>, j: int, bytes: Seq<u8>)
    requires
        0 <= j < fs.len(),
        !deps.contains(fs[j].0),
    ensures
        initiate_bytes(fs.update(j, (fs[j].0, bytes)), deps) == initiate_bytes(fs, deps),
    decreases fs.len(),
{
    let gs = fs.update(j, (fs[j].0, bytes));
    if j < fs.len() - 1 {
        lemma_initiate_bytes_update(fs.drop_last(), deps, j, bytes);
        assert(gs.drop_last() =~= fs.drop_last().update(j, (fs[j].0, bytes)));
        assert(gs.last() == fs.last());
    } else {
        assert(gs.drop_last() =~= fs.drop_last());
    }
}

} // verus!
