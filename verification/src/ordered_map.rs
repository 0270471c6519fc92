//! Insertion-ordered maps from names to values, as `indexmap` provides them.
//!
//! Verus sees an `IndexMap` only through the names below, which give its
//! entries as a sequence of (key, value) pairs in the map's order, and through
//! the wrappers, whose contracts say what each `indexmap` method does to that
//! sequence. An `IndexMap` never holds two equal keys, so "the position of a
//! key" below is the first (and only) position whose entry has that key.
use indexmap::IndexMap;
use vstd::prelude::*;
use crate::config::{MeshConfig, MeshConfigView};
use crate::supervisor::{ProcessRecord, ProcessRecordView};

verus! {

#[verifier::external_type_specification]
#[verifier::external_body]
#[verifier::reject_recursive_types(K)]
#[verifier::reject_recursive_types(V)]
#[verifier::reject_recursive_types(S)]
pub struct ExIndexMap<K, V, S>(IndexMap<K, V, S>);

/// Whether some entry of `entries` has the key `key`.
pub open spec fn has_key<V>(entries: Seq<(Seq<char>, V)>, key: Seq<char>) -> bool {
    exists|i: int| 0 <= i < entries.len() && (#[trigger] entries[i]).0 == key
}

/// `i` is the first position whose entry has the key `key`.
pub open spec fn key_position<V>(entries: Seq<(Seq<char>, V)>, key: Seq<char>, i: int) -> bool {
    &&& 0 <= i < entries.len()
    &&& entries[i].0 == key
    &&& forall|j: int| 0 <= j < i ==> (#[trigger] entries[j]).0 != key
}

/// No key occurs twice among `entries`.
pub open spec fn keys_distinct<V>(entries: Seq<(Seq<char>, V)>) -> bool {
    forall|i: int, j: int|
        0 <= i < entries.len() && 0 <= j < entries.len() && i != j ==> (#[trigger] entries[i]).0 != (#[trigger] entries[j]).0
}

/// A key that some entry has has a first position.
pub proof fn lemma_key_position_exists<V>(entries: Seq<(Seq<char>, V)>, key: Seq<char>)
    requires
        has_key(entries, key),
    ensures
        exists|i: int| key_position(entries, key, i),
    decreases entries.len(),
{
    if entries.last().0 == key && !has_key(entries.drop_last(), key) {
        assert(key_position(entries, key, entries.len() - 1)) by {
            assert forall|j: int| 0 <= j < entries.len() - 1 implies (#[trigger] entries[j]).0 != key by {
                if entries[j].0 == key {
                    assert(entries.drop_last()[j] == entries[j]);
                }
            }
        }
    } else {
        let k = choose|k: int| 0 <= k < entries.len() && (#[trigger] entries[k]).0 == key;
        if k == entries.len() - 1 {
            assert(has_key(entries.drop_last(), key));
        } else {
            assert(entries.drop_last()[k] == entries[k]);
        }
        lemma_key_position_exists(entries.drop_last(), key);
        let i = choose|i: int| key_position(entries.drop_last(), key, i);
        assert(key_position(entries, key, i)) by {
            assert forall|j: int| 0 <= j < i implies (#[trigger] entries[j]).0 != key by {
                assert(entries.drop_last()[j] == entries[j]);
            }
        }
    }
}

/// The first position of a key is unique.
pub proof fn lemma_key_position_unique<V>(entries: Seq<(Seq<char>, V)>, key: Seq<char>, i: int, j: int)
    requires
        key_position(entries, key, i),
        key_position(entries, key, j),
    ensures
        i == j,
{
    if i < j {
        assert(entries[i].0 == key);
    } else if j < i {
        assert(entries[j].0 == key);
    }
}

/// With distinct keys, any position that has the key is its first position.
pub proof fn lemma_distinct_key_position<V>(entries: Seq<(Seq<char>, V)>, key: Seq<char>, i: int)
    requires
        keys_distinct(entries),
        0 <= i < entries.len(),
        entries[i].0 == key,
    ensures
        key_position(entries, key, i),
{
    assert forall|j: int| 0 <= j < i implies (#[trigger] entries[j]).0 != key by {
        assert(entries[i].0 != entries[j].0);
    }
}

// ---------------------------------------------------------------------------
// Maps from mesh names to mesh configurations.

/// The entries of a map from mesh names to mesh configurations, in order.
pub uninterp spec fn mesh_map_entries(m: IndexMap<String, MeshConfig>) -> Seq<(Seq<char>, MeshConfigView)>;

/// `IndexMap::new`: the new map has no entries.
#[verifier::external_body]
pub(crate) fn mesh_map_new() -> (m: IndexMap<String, MeshConfig>)
    ensures
        mesh_map_entries(m) == Seq::<(Seq<char>, MeshConfigView)>::empty(),
{
    IndexMap::new()
}

/// `IndexMap::len`: the number of entries.
#[verifier::external_body]
pub(crate) fn mesh_map_len(m: &IndexMap<String, MeshConfig>) -> (n: usize)
    ensures
        n == mesh_map_entries(*m).len(),
{
    m.len()
}

/// `IndexMap::is_empty`: whether there is no entry.
#[verifier::external_body]
pub(crate) fn mesh_map_is_empty(m: &IndexMap<String, MeshConfig>) -> (r: bool)
    ensures
        r == (mesh_map_entries(*m).len() == 0),
{
    m.is_empty()
}

/// `IndexMap::get_index`: the entry at position `i` in the map's order, if any.
#[verifier::external_body]
pub(crate) fn mesh_map_get_index(m: &IndexMap<String, MeshConfig>, i: usize) -> (r: Option<(&String, &MeshConfig)>)
    ensures
        r is Some <==> i < mesh_map_entries(*m).len(),
        r matches Some((k, v)) ==> k@ == mesh_map_entries(*m)[i as int].0 && v@ == mesh_map_entries(*m)[i as int].1,
{
    m.get_index(i)
}

/// `IndexMap::get_index_of`: the position of the key, if an entry has it.
#[verifier::external_body]
pub(crate) fn mesh_map_get_index_of(m: &IndexMap<String, MeshConfig>, key: &str) -> (r: Option<usize>)
    ensures
        r is Some <==> has_key(mesh_map_entries(*m), key@),
        r matches Some(i) ==> key_position(mesh_map_entries(*m), key@, i as int),
{
    m.get_index_of(key)
}

/// `IndexMap::contains_key`: whether an entry has the key.
#[verifier::external_body]
pub(crate) fn mesh_map_contains_key(m: &IndexMap<String, MeshConfig>, key: &str) -> (r: bool)
    ensures
        r == has_key(mesh_map_entries(*m), key@),
{
    m.contains_key(key)
}

/// `IndexMap::insert`: a new key is added last; an existing key keeps its
/// position and gets the new value, and its old value is returned.
#[verifier::external_body]
pub(crate) fn mesh_map_insert(m: &mut IndexMap<String, MeshConfig>, key: String, value: MeshConfig) -> (r: Option<MeshConfig>)
    ensures
        r is None <==> !has_key(mesh_map_entries(*old(m)), key@),
        r is None ==> mesh_map_entries(*final(m)) == mesh_map_entries(*old(m)).push((key@, value@)),
        forall|i: int| #[trigger] key_position(mesh_map_entries(*old(m)), key@, i)
            ==> (r matches Some(prev) && prev@ == mesh_map_entries(*old(m))[i].1
            && mesh_map_entries(*final(m)) == mesh_map_entries(*old(m)).update(i, (key@, value@))),
{
    m.insert(key, value)
}

// ---------------------------------------------------------------------------
// Maps from layer names to binary paths.

/// The entries of a map from layer names to binary paths, in order.
pub uninterp spec fn name_map_entries(m: IndexMap<String, String>) -> Seq<(Seq<char>, Seq<char>)>;

/// `IndexMap::new`: the new map has no entries.
#[verifier::external_body]
pub(crate) fn name_map_new() -> (m: IndexMap<String, String>)
    ensures
        name_map_entries(m) == Seq::<(Seq<char>, Seq<char>)>::empty(),
{
    IndexMap::new()
}

/// `IndexMap::len`: the number of entries.
#[verifier::external_body]
pub(crate) fn name_map_len(m: &IndexMap<String, String>) -> (n: usize)
    ensures
        n == name_map_entries(*m).len(),
{
    m.len()
}

/// `IndexMap::is_empty`: whether there is no entry.
#[verifier::external_body]
pub(crate) fn name_map_is_empty(m: &IndexMap<String, String>) -> (r: bool)
    ensures
        r == (name_map_entries(*m).len() == 0),
{
    m.is_empty()
}

/// `IndexMap::get_index`: the entry at position `i` in the map's order, if any.
#[verifier::external_body]
pub(crate) fn name_map_get_index(m: &IndexMap<String, String>, i: usize) -> (r: Option<(&String, &String)>)
    ensures
        r is Some <==> i < name_map_entries(*m).len(),
        r matches Some((k, v)) ==> k@ == name_map_entries(*m)[i as int].0 && v@ == name_map_entries(*m)[i as int].1,
{
    m.get_index(i)
}

/// `IndexMap::get_index_of`: the position of the key, if an entry has it.
#[verifier::external_body]
pub(crate) fn name_map_get_index_of(m: &IndexMap<String, String>, key: &str) -> (r: Option<usize>)
    ensures
        r is Some <==> has_key(name_map_entries(*m), key@),
        r matches Some(i) ==> key_position(name_map_entries(*m), key@, i as int),
{
    m.get_index_of(key)
}

/// `IndexMap::contains_key`: whether an entry has the key.
#[verifier::external_body]
pub(crate) fn name_map_contains_key(m: &IndexMap<String, String>, key: &str) -> (r: bool)
    ensures
        r == has_key(name_map_entries(*m), key@),
{
    m.contains_key(key)
}

/// `IndexMap::insert`: a new key is added last; an existing key keeps its
/// position and gets the new value, and its old value is returned.
#[verifier::external_body]
pub(crate) fn name_map_insert(m: &mut IndexMap<String, String>, key: String, value: String) -> (r: Option<String>)
    ensures
        r is None <==> !has_key(name_map_entries(*old(m)), key@),
        r is None ==> name_map_entries(*final(m)) == name_map_entries(*old(m)).push((key@, value@)),
        forall|i: int| #[trigger] key_position(name_map_entries(*old(m)), key@, i)
            ==> (r matches Some(prev) && prev@ == name_map_entries(*old(m))[i].1
            && name_map_entries(*final(m)) == name_map_entries(*old(m)).update(i, (key@, value@))),
{
    m.insert(key, value)
}

// ---------------------------------------------------------------------------
// Maps from process names to the records of running processes.

/// The entries of a map from process names to the records of running processes, in order.
pub uninterp spec fn process_map_entries(m: IndexMap<String, ProcessRecord>) -> Seq<(Seq<char>, ProcessRecordView)>;

/// `IndexMap::new`: the new map has no entries.
#[verifier::external_body]
pub(crate) fn process_map_new() -> (m: IndexMap<String, ProcessRecord>)
    ensures
        process_map_entries(m) == Seq::<(Seq<char>, ProcessRecordView)>::empty(),
{
    IndexMap::new()
}

/// `IndexMap::len`: the number of entries.
#[verifier::external_body]
pub(crate) fn process_map_len(m: &IndexMap<String, ProcessRecord>) -> (n: usize)
    ensures
        n == process_map_entries(*m).len(),
{
    m.len()
}

/// `IndexMap::get_index`: the entry at position `i` in the map's order, if any.
#[verifier::external_body]
pub(crate) fn process_map_get_index(m: &IndexMap<String, ProcessRecord>, i: usize) -> (r: Option<(&String, &ProcessRecord)>)
    ensures
        r is Some <==> i < process_map_entries(*m).len(),
        r matches Some((k, v)) ==> k@ == process_map_entries(*m)[i as int].0 && v@ == process_map_entries(*m)[i as int].1,
{
    m.get_index(i)
}

/// `IndexMap::get_index_of`: the position of the key, if an entry has it.
#[verifier::external_body]
pub(crate) fn process_map_get_index_of(m: &IndexMap<String, ProcessRecord>, key: &str) -> (r: Option<usize>)
    ensures
        r is Some <==> has_key(process_map_entries(*m), key@),
        r matches Some(i) ==> key_position(process_map_entries(*m), key@, i as int),
{
    m.get_index_of(key)
}

/// `IndexMap::contains_key`: whether an entry has the key.
#[verifier::external_body]
pub(crate) fn process_map_contains_key(m: &IndexMap<String, ProcessRecord>, key: &str) -> (r: bool)
    ensures
        r == has_key(process_map_entries(*m), key@),
{
    m.contains_key(key)
}

/// `IndexMap::insert`: a new key is added last; an existing key keeps its
/// position and gets the new value, and its old value is returned.
#[verifier::external_body]
pub(crate) fn process_map_insert(m: &mut IndexMap<String, ProcessRecord>, key: String, value: ProcessRecord) -> (r: Option<ProcessRecord>)
    ensures
        r is None <==> !has_key(process_map_entries(*old(m)), key@),
        r is None ==> process_map_entries(*final(m)) == process_map_entries(*old(m)).push((key@, value@)),
        forall|i: int| #[trigger] key_position(process_map_entries(*old(m)), key@, i)
            ==> (r matches Some(prev) && prev@ == process_map_entries(*old(m))[i].1
            && process_map_entries(*final(m)) == process_map_entries(*old(m)).update(i, (key@, value@))),
{
    m.insert(key, value)
}

/// `IndexMap::shift_remove`: removes the entry with the key, keeping the
/// order of the others, and returns its value.
#[verifier::external_body]
pub(crate) fn process_map_shift_remove(m: &mut IndexMap<String, ProcessRecord>, key: &str) -> (r: Option<ProcessRecord>)
    ensures
        r is Some <==> has_key(process_map_entries(*old(m)), key@),
        r is None ==> process_map_entries(*final(m)) == process_map_entries(*old(m)),
        forall|i: int| #[trigger] key_position(process_map_entries(*old(m)), key@, i)
            ==> (r matches Some(v) && v@ == process_map_entries(*old(m))[i].1
            && process_map_entries(*final(m)) == process_map_entries(*old(m)).remove(i)),
{
    m.shift_remove(key)
}

} // verus!
