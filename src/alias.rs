//! Tag registries keyed by a three-letter tag and, where there is one, a
//! two-letter alias.
use vstd::prelude::*;
use crate::text::{is_lower_word, seq_lt, lemma_seq_lt_irreflexive};

verus! {

/// The lookup keys of one record: its three-letter tag and its optional
/// two-letter alias.
pub type TagKeys = (Seq<char>, Option<Seq<char>>);

/// `key` names the record whose keys are `k`.
pub open spec fn is_key(k: TagKeys, key: Seq<char>) -> bool {
    k.0 == key || k.1 == Some(key)
}

/// The registry's key invariants: three-letter tags of lowercase letters,
/// strictly ascending; aliases of two lowercase letters, never shared.
pub open spec fn keys_wf(ks: Seq<TagKeys>) -> bool {
    &&& forall|i: int| 0 <= i < ks.len() ==> is_lower_word(#[trigger] ks[i].0, 3)
    &&& forall|i: int|
        0 <= i < ks.len() && (#[trigger] ks[i]).1 is Some ==> is_lower_word(ks[i].1->0, 2)
    &&& forall|i: int, j: int| 0 <= i < j < ks.len() ==> seq_lt(#[trigger] ks[i].0, #[trigger] ks[j].0)
    &&& forall|i: int, j: int|
        0 <= i < j < ks.len() && (#[trigger] ks[i]).1 is Some && (#[trigger] ks[j]).1 is Some
            ==> ks[i].1 != ks[j].1
}

/// The position of the record that `key` names, if any.
pub open spec fn find(ks: Seq<TagKeys>, key: Seq<char>) -> Option<int> {
    if exists|i: int| 0 <= i < ks.len() && is_key(#[trigger] ks[i], key) {
        Some(choose|i: int| 0 <= i < ks.len() && is_key(#[trigger] ks[i], key))
    } else {
        None
    }
}

/// In a well-formed registry no key names two records.
pub proof fn lemma_key_unique(ks: Seq<TagKeys>, i: int, j: int, key: Seq<char>)
    requires
        keys_wf(ks),
        0 <= i < ks.len(),
        0 <= j < ks.len(),
        is_key(ks[i], key),
        is_key(ks[j], key),
    ensures
        i == j,
{
    if i != j {
        let (a, b) = if i < j { (i, j) } else { (j, i) };
        assert(seq_lt(ks[a].0, ks[b].0));
        if ks[a].0 == ks[b].0 {
            lemma_seq_lt_irreflexive(ks[a].0);
        }
        assert(is_lower_word(ks[a].0, 3));
        assert(is_lower_word(ks[b].0, 3));
        if ks[a].1 is Some {
            assert(is_lower_word(ks[a].1->0, 2));
        }
        if ks[b].1 is Some {
            assert(is_lower_word(ks[b].1->0, 2));
        }
    }
}

/// A key that names the record at `i` finds exactly that record.
pub proof fn lemma_find_at(ks: Seq<TagKeys>, i: int, key: Seq<char>)
    requires
        keys_wf(ks),
        0 <= i < ks.len(),
        is_key(ks[i], key),
    ensures
        find(ks, key) == Some(i),
{
    let j = choose|j: int| 0 <= j < ks.len() && is_key(#[trigger] ks[j], key);
    lemma_key_unique(ks, i, j, key);
}

/// In a well-formed registry a record's tag and its alias both find it.
pub proof fn lemma_aliases_agree(ks: Seq<TagKeys>, i: int)
    requires
        keys_wf(ks),
        0 <= i < ks.len(),
    ensures
        find(ks, ks[i].0) == Some(i),
        ks[i].1 matches Some(t) ==> find(ks, t) == Some(i),
{
    lemma_find_at(ks, i, ks[i].0);
    if let Some(t) = ks[i].1 {
        lemma_find_at(ks, i, t);
    }
}

} // verus!
