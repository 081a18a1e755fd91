//! Tables keyed by names, kept in insertion order: the model of the maps the loaders fill.
use vstd::prelude::*;

verus! {

/// The position of the first entry named `k`, or -1 when there is none.
pub open spec fn key_index<V>(s: Seq<(Seq<char>, V)>, k: Seq<char>) -> int
    decreases s.len(),
{
    if s.len() == 0 {
        -1
    } else {
        let r = key_index(s.drop_last(), k);
        if r >= 0 {
            r
        } else if s.last().0 == k {
            s.len() - 1
        } else {
            -1
        }
    }
}

/// The table with `k` bound to `v`: the entry is replaced in place when `k` is
/// present, and appended otherwise.
pub open spec fn assoc_insert<V>(s: Seq<(Seq<char>, V)>, k: Seq<char>, v: V) -> Seq<(Seq<char>, V)> {
    let i = key_index(s, k);
    if i >= 0 {
        s.update(i, (k, v))
    } else {
        s.push((k, v))
    }
}

/// No name occurs twice in the table.
pub open spec fn keys_unique<V>(s: Seq<(Seq<char>, V)>) -> bool {
    forall|i: int, j: int| 0 <= i < s.len() && 0 <= j < s.len() && i != j ==> #[trigger] s[i].0 != #[trigger] s[j].0
}

/// What `key_index` says of the table.
pub proof fn lemma_key_index<V>(s: Seq<(Seq<char>, V)>, k: Seq<char>)
    ensures
        -1 <= key_index(s, k) < s.len(),
        key_index(s, k) >= 0 ==> s[key_index(s, k)].0 == k,
        key_index(s, k) >= 0 ==> forall|j: int| 0 <= j < key_index(s, k) ==> s[j].0 != k,
        key_index(s, k) == -1 ==> forall|j: int| 0 <= j < s.len() ==> s[j].0 != k,
    decreases s.len(),
{
    if s.len() > 0 {
        let d = s.drop_last();
        lemma_key_index(d, k);
        let r = key_index(s, k);
        if r >= 0 {
            assert forall|j: int| 0 <= j < r implies s[j].0 != k by {
                assert(d[j] == s[j]);
            }
        } else {
            assert forall|j: int| 0 <= j < s.len() implies s[j].0 != k by {
                if j < d.len() {
                    assert(d[j] == s[j]);
                }
            }
        }
    }
}

/// One more entry read: how `key_index` of a longer prefix follows from the shorter one.
pub proof fn lemma_key_index_step<V>(s: Seq<(Seq<char>, V)>, k: Seq<char>, i: int)
    requires
        0 <= i < s.len(),
    ensures
        key_index(s.take(i + 1), k) == if key_index(s.take(i), k) >= 0 {
            key_index(s.take(i), k)
        } else if s[i].0 == k {
            i
        } else {
            -1
        },
{
    assert(s.take(i + 1).drop_last() =~= s.take(i));
}

/// Binding a name keeps the names unique.
pub proof fn lemma_assoc_insert_unique<V>(s: Seq<(Seq<char>, V)>, k: Seq<char>, v: V)
    requires
        keys_unique(s),
    ensures
        keys_unique(assoc_insert(s, k, v)),
        key_index(assoc_insert(s, k, v), k) >= 0,
        assoc_insert(s, k, v)[key_index(assoc_insert(s, k, v), k)] == (k, v),
{
    lemma_key_index(s, k);
    let t = assoc_insert(s, k, v);
    lemma_key_index(t, k);
    if key_index(s, k) >= 0 {
        let p = key_index(s, k);
        assert(t[p].0 == k);
        assert forall|i: int, j: int| 0 <= i < t.len() && 0 <= j < t.len() && i != j implies #[trigger] t[i].0 != #[trigger] t[j].0 by {
            if i != p && j != p {
                assert(t[i] == s[i] && t[j] == s[j]);
            } else if i == p {
                assert(t[j] == s[j]);
            } else {
                assert(t[i] == s[i]);
            }
        }
        assert(t[key_index(t, k)].0 == k);
    } else {
        let p = s.len() as int;
        assert(t[p].0 == k);
        assert forall|i: int, j: int| 0 <= i < t.len() && 0 <= j < t.len() && i != j implies #[trigger] t[i].0 != #[trigger] t[j].0 by {
            if i < s.len() && j < s.len() {
                assert(t[i] == s[i] && t[j] == s[j]);
            }
        }
    }
}

/// Updating the value at a position keeps the names unique when the name stays.
pub proof fn lemma_update_value_unique<V>(s: Seq<(Seq<char>, V)>, i: int, v: V)
    requires
        keys_unique(s),
        0 <= i < s.len(),
    ensures
        keys_unique(s.update(i, (s[i].0, v))),
{
    let t = s.update(i, (s[i].0, v));
    assert forall|a: int, b: int| 0 <= a < t.len() && 0 <= b < t.len() && a != b implies #[trigger] t[a].0 != #[trigger] t[b].0 by {
        assert(t[a].0 == s[a].0 && t[b].0 == s[b].0);
    }
}

/// The first entry named `k` is at `i` when no earlier entry is named `k`.
pub proof fn lemma_key_index_found<V>(s: Seq<(Seq<char>, V)>, k: Seq<char>, i: int)
    requires
        0 <= i < s.len(),
        key_index(s.take(i), k) == -1,
        s[i].0 == k,
    ensures
        key_index(s, k) == i,
{
    lemma_key_index(s, k);
    lemma_key_index(s.take(i), k);
    let r = key_index(s, k);
    if r < i {
        assert(s.take(i)[r] == s[r]);
    }
}

/// Reading the whole table.
pub proof fn lemma_key_index_all<V>(s: Seq<(Seq<char>, V)>, k: Seq<char>)
    ensures
        key_index(s.take(s.len() as int), k) == key_index(s, k),
{
    assert(s.take(s.len() as int) =~= s);
}

} // verus!
