//! The static `hash` property given to each class: the file's hash joined to the class's.
use vstd::prelude::*;

use crate::loaders::{
    combine_hash, dev_hash, hash, is_separator, law_development_hash, lemma_replace_separators_plain,
    spec_combine_hash, spec_hash,
};

verus! {

/// The file's hash, and whether hashes are readable (development) or checksums.
pub struct HashModel {
    pub file_hash: Seq<char>,
    pub is_dev: bool,
}

/// Gives each class declared in a file the hash that identifies it.
pub struct InjectHashVisitor {
    file_hash: String,
    is_dev: bool,
}

impl View for InjectHashVisitor {
    type V = HashModel;

    closed spec fn view(&self) -> HashModel {
        HashModel { file_hash: self.file_hash@, is_dev: self.is_dev }
    }
}

impl InjectHashVisitor {
    /// A visitor for the file at `file_path`.
    pub fn new(file_path: String, is_dev: bool) -> (r: Self)
        ensures
            r@ == (HashModel { file_hash: spec_hash(file_path@, is_dev), is_dev }),
    {
        InjectHashVisitor { file_hash: hash(file_path.as_str(), is_dev), is_dev }
    }

    /// The value of the static `hash` property of the class named `class_name`.
    pub fn class_hash(&self, class_name: &str) -> (h: String)
        ensures
            h@ == spec_combine_hash(self@.file_hash, spec_hash(class_name@, self@.is_dev), self@.is_dev),
    {
        let class_hash = hash(class_name, self.is_dev);
        combine_hash(self.file_hash.as_str(), class_hash.as_str(), self.is_dev)
    }
}

/// A name that the development hash leaves as it is: no dot and no path separator.
pub open spec fn is_plain_name(s: Seq<char>) -> bool {
    forall|i: int| 0 <= i < s.len() ==> !is_separator(#[trigger] s[i]) && s[i] != '.'
}

/// Law: in development, classes of one file with different plain names get different
/// hashes, each the file's hash, `___`, and the class name.
pub proof fn law_development_class_hashes(file_hash: Seq<char>, a: Seq<char>, b: Seq<char>)
    requires
        is_plain_name(a),
        is_plain_name(b),
    ensures
        spec_combine_hash(file_hash, spec_hash(a, true), true) == file_hash + "___"@ + a,
        a != b ==> spec_combine_hash(file_hash, spec_hash(a, true), true) != spec_combine_hash(
            file_hash,
            spec_hash(b, true),
            true,
        ),
{
    reveal_strlit("___");
    assert(!a.contains('.'));
    assert(!b.contains('.'));
    law_development_hash(a);
    law_development_hash(b);
    lemma_replace_separators_plain(a);
    lemma_replace_separators_plain(b);
    assert(dev_hash(a) == a);
    assert(dev_hash(b) == b);
    assert(seq!['_', '_', '_'] =~= "___"@);
    let x = file_hash + seq!['_', '_', '_'];
    if a != b && x + a == x + b {
        assert((x + a).skip(x.len() as int) =~= a);
        assert((x + b).skip(x.len() as int) =~= b);
    }
}

} // verus!
