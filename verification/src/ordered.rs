//! Insertion-ordered maps and sets: the abstract model (association lists and sequences),
//! its lemmas, and the trusted interface to `indexmap`'s `IndexMap` and `IndexSet`.
use vstd::prelude::*;
use indexmap::{IndexMap, IndexSet};
use crate::types::MerkleTreeUpdate;

verus! {

#[verifier::external_type_specification]
#[verifier::external_body]
#[verifier::reject_recursive_types(K)]
#[verifier::reject_recursive_types(V)]
#[verifier::reject_recursive_types(S)]
pub struct ExIndexMap<K, V, S>(IndexMap<K, V, S>);

#[verifier::external_type_specification]
#[verifier::external_body]
#[verifier::reject_recursive_types(T)]
#[verifier::reject_recursive_types(S)]
pub struct ExIndexSet<T, S>(IndexSet<T, S>);

// ---------------------------------------------------------------------------------------
// The model: an insertion-ordered map is a sequence of (key, value) entries.
// ---------------------------------------------------------------------------------------

/// The value stored under `k`: the first entry with that key.
pub open spec fn lookup<K, V>(entries: Seq<(K, V)>, k: K) -> Option<V>
    decreases entries.len(),
{
    if entries.len() == 0 {
        None
    } else if entries[0].0 == k {
        Some(entries[0].1)
    } else {
        lookup(entries.drop_first(), k)
    }
}

/// Insertion: an existing key keeps its place in the order and takes the new value;
/// a new key goes last.
pub open spec fn put<K, V>(entries: Seq<(K, V)>, k: K, v: V) -> Seq<(K, V)>
    decreases entries.len(),
{
    if entries.len() == 0 {
        seq![(k, v)]
    } else if entries[0].0 == k {
        entries.update(0, (k, v))
    } else {
        seq![entries[0]] + put(entries.drop_first(), k, v)
    }
}

/// The keys, in order.
pub open spec fn keys_of<K, V>(entries: Seq<(K, V)>) -> Seq<K> {
    entries.map_values(|e: (K, V)| e.0)
}

/// The values, in order.
pub open spec fn values_of<K, V>(entries: Seq<(K, V)>) -> Seq<V> {
    entries.map_values(|e: (K, V)| e.1)
}

/// Insertion into an insertion-ordered set: a present element leaves the set unchanged.
pub open spec fn set_insert<T>(elems: Seq<T>, x: T) -> Seq<T> {
    if elems.contains(x) {
        elems
    } else {
        elems.push(x)
    }
}

/// A read after an insertion sees the inserted value, and only under the inserted key.
pub proof fn lemma_lookup_put<K, V>(entries: Seq<(K, V)>, k: K, v: V, k2: K)
    ensures
        lookup(put(entries, k, v), k2) == (if k2 == k { Some(v) } else { lookup(entries, k2) }),
    decreases entries.len(),
{
    let p = put(entries, k, v);
    if entries.len() == 0 {
        assert(p.drop_first().len() == 0);
        assert(lookup(p.drop_first(), k2) is None);
    } else if entries[0].0 == k {
        assert(p.drop_first() =~= entries.drop_first());
        assert(p[0] == (k, v));
    } else {
        lemma_lookup_put(entries.drop_first(), k, v, k2);
        assert(p.drop_first() =~= put(entries.drop_first(), k, v));
        assert(p[0] == entries[0]);
    }
}

/// Insertion keeps the keys and their order, adding a new key last.
pub proof fn lemma_keys_put<K, V>(entries: Seq<(K, V)>, k: K, v: V)
    ensures
        keys_of(put(entries, k, v)) == (if lookup(entries, k) is Some {
            keys_of(entries)
        } else {
            keys_of(entries).push(k)
        }),
    decreases entries.len(),
{
    let p = put(entries, k, v);
    if entries.len() == 0 {
        assert(keys_of(p) =~= keys_of(entries).push(k));
    } else if entries[0].0 == k {
        assert(keys_of(p) =~= keys_of(entries));
    } else {
        lemma_keys_put(entries.drop_first(), k, v);
        assert(keys_of(entries) =~= seq![entries[0].0] + keys_of(entries.drop_first()));
        assert(keys_of(p) =~= seq![entries[0].0] + keys_of(put(entries.drop_first(), k, v)));
    }
}

/// A key has a value exactly when it is among the keys.
pub proof fn lemma_lookup_some_iff_key<K, V>(entries: Seq<(K, V)>, k: K)
    ensures
        (lookup(entries, k) is Some) == keys_of(entries).contains(k),
    decreases entries.len(),
{
    if entries.len() > 0 {
        lemma_lookup_some_iff_key(entries.drop_first(), k);
        let ks = keys_of(entries);
        let rest = keys_of(entries.drop_first());
        assert(ks =~= seq![entries[0].0] + rest);
        if entries[0].0 != k {
            if ks.contains(k) {
                let i = choose|i: int| 0 <= i < ks.len() && ks[i] == k;
                assert(i > 0);
                assert(rest[i - 1] == k);
            }
            if rest.contains(k) {
                let j = choose|j: int| 0 <= j < rest.len() && rest[j] == k;
                assert(ks[j + 1] == k);
            }
        } else {
            assert(ks[0] == k);
        }
    }
}

// ---------------------------------------------------------------------------------------
// `IndexMap<Vec<u8>, Vec<u8>>`: the entries of one mapping, key bytes to value bytes.
// ---------------------------------------------------------------------------------------

pub type ValueMap = IndexMap<Vec<u8>, Vec<u8>>;

/// The entries of a `ValueMap`, in insertion order, each key and value by its bytes.
pub uninterp spec fn value_map_entries(m: ValueMap) -> Seq<(Seq<u8>, Seq<u8>)>;

/// `IndexMap::new`: an empty map.
#[verifier::external_body]
pub(crate) fn value_map_new() -> (m: ValueMap)
    ensures
        value_map_entries(m) == Seq::<(Seq<u8>, Seq<u8>)>::empty(),
{
    IndexMap::new()
}

/// `IndexMap::insert`: an existing key keeps its place and takes the new value, a new key
/// is placed last.
#[verifier::external_body]
pub(crate) fn value_map_insert(m: &mut ValueMap, k: Vec<u8>, v: Vec<u8>)
    ensures
        value_map_entries(*final(m)) == put(value_map_entries(*old(m)), k@, v@),
{
    m.insert(k, v);
}

/// `IndexMap::get`: the value stored under the key, if any.
#[verifier::external_body]
pub(crate) fn value_map_get<'a>(m: &'a ValueMap, k: &Vec<u8>) -> (r: Option<&'a Vec<u8>>)
    ensures
        match r {
            Some(v) => lookup(value_map_entries(*m), k@) == Some(v@),
            None => lookup(value_map_entries(*m), k@) is None,
        },
{
    m.get(k)
}

// ---------------------------------------------------------------------------------------
// `IndexMap<u64, ValueMap>`: the mappings of one program, by mapping name.
// ---------------------------------------------------------------------------------------

pub type MappingMap = IndexMap<u64, ValueMap>;

/// The entries of a `MappingMap`, in insertion order, each mapping by its own entries.
pub uninterp spec fn mapping_map_entries(m: MappingMap) -> Seq<(u64, Seq<(Seq<u8>, Seq<u8>)>)>;

/// `IndexMap::get`: the mapping stored under the name, if any.
#[verifier::external_body]
pub(crate) fn mapping_map_get<'a>(m: &'a MappingMap, k: &u64) -> (r: Option<&'a ValueMap>)
    ensures
        match r {
            Some(v) => lookup(mapping_map_entries(*m), *k) == Some(value_map_entries(*v)),
            None => lookup(mapping_map_entries(*m), *k) is None,
        },
{
    m.get(k)
}

/// `IndexMap::entry(k).or_insert(IndexMap::new())`: the mapping stored under `k`, which is
/// first created empty and placed last if `k` was absent; changes made through the returned
/// reference land under `k`.
#[verifier::external_body]
pub(crate) fn mapping_map_entry_or_new(m: &mut MappingMap, k: u64) -> (r: &mut ValueMap)
    ensures
        value_map_entries(*r) == (match lookup(mapping_map_entries(*old(m)), k) {
            Some(e) => e,
            None => Seq::<(Seq<u8>, Seq<u8>)>::empty(),
        }),
        mapping_map_entries(*final(m)) == put(
            mapping_map_entries(*old(m)),
            k,
            value_map_entries(*final(r)),
        ),
{
    m.entry(k).or_insert(IndexMap::new())
}

// ---------------------------------------------------------------------------------------
// `IndexMap<u64, MappingMap>`: the speculative state, by program.
// ---------------------------------------------------------------------------------------

pub type StateMap = IndexMap<u64, MappingMap>;

/// The entries of a `StateMap`, in insertion order, each program by its mappings' entries.
pub uninterp spec fn state_map_entries(m: StateMap) -> Seq<(u64, Seq<(u64, Seq<(Seq<u8>, Seq<u8>)>)>)>;

/// `IndexMap::new`: an empty map.
#[verifier::external_body]
pub(crate) fn state_map_new() -> (m: StateMap)
    ensures
        state_map_entries(m) == Seq::<(u64, Seq<(u64, Seq<(Seq<u8>, Seq<u8>)>)>)>::empty(),
{
    IndexMap::new()
}

/// `IndexMap::get`: the mappings stored under the program, if any.
#[verifier::external_body]
pub(crate) fn state_map_get<'a>(m: &'a StateMap, k: &u64) -> (r: Option<&'a MappingMap>)
    ensures
        match r {
            Some(v) => lookup(state_map_entries(*m), *k) == Some(mapping_map_entries(*v)),
            None => lookup(state_map_entries(*m), *k) is None,
        },
{
    m.get(k)
}

/// `IndexMap::entry(k).or_insert(IndexMap::new())`: the mappings stored under `k`, first
/// created empty and placed last if `k` was absent; changes made through the returned
/// reference land under `k`.
#[verifier::external_body]
pub(crate) fn state_map_entry_or_new(m: &mut StateMap, k: u64) -> (r: &mut MappingMap)
    ensures
        mapping_map_entries(*r) == (match lookup(state_map_entries(*old(m)), k) {
            Some(e) => e,
            None => Seq::<(u64, Seq<(Seq<u8>, Seq<u8>)>)>::empty(),
        }),
        state_map_entries(*final(m)) == put(
            state_map_entries(*old(m)),
            k,
            mapping_map_entries(*final(r)),
        ),
{
    m.entry(k).or_insert(IndexMap::new())
}

// ---------------------------------------------------------------------------------------
// `IndexMap<u64, Vec<(u64, MerkleTreeUpdate)>>`: logged operations, by transaction.
// ---------------------------------------------------------------------------------------

pub type OperationsMap = IndexMap<u64, Vec<(u64, MerkleTreeUpdate)>>;

/// The entries of an `OperationsMap`, in insertion order.
pub uninterp spec fn operations_map_entries(m: OperationsMap) -> Seq<(u64, Seq<(u64, MerkleTreeUpdate)>)>;

/// `IndexMap::new`: an empty map.
#[verifier::external_body]
pub(crate) fn operations_map_new() -> (m: OperationsMap)
    ensures
        operations_map_entries(m) == Seq::<(u64, Seq<(u64, MerkleTreeUpdate)>)>::empty(),
{
    IndexMap::new()
}

/// `IndexMap::contains_key`: whether some entry has the key.
#[verifier::external_body]
pub(crate) fn operations_map_contains_key(m: &OperationsMap, k: &u64) -> (r: bool)
    ensures
        r == (lookup(operations_map_entries(*m), *k) is Some),
{
    m.contains_key(k)
}

/// `IndexMap::insert`: an existing key keeps its place and takes the new value, a new key
/// is placed last.
#[verifier::external_body]
pub(crate) fn operations_map_insert(m: &mut OperationsMap, k: u64, v: Vec<(u64, MerkleTreeUpdate)>)
    ensures
        operations_map_entries(*final(m)) == put(operations_map_entries(*old(m)), k, v@),
{
    m.insert(k, v);
}

/// `IndexMap::len`: the number of entries.
#[verifier::external_body]
pub(crate) fn operations_map_len(m: &OperationsMap) -> (r: usize)
    ensures
        r == operations_map_entries(*m).len(),
{
    m.len()
}

/// `IndexMap::get_index`: the entry at a position of the insertion order.
#[verifier::external_body]
pub(crate) fn operations_map_get_index<'a>(m: &'a OperationsMap, i: usize) -> (r: Option<(&'a u64, &'a Vec<(u64, MerkleTreeUpdate)>)>)
    ensures
        match r {
            Some((k, v)) => i < operations_map_entries(*m).len()
                && operations_map_entries(*m)[i as int] == (*k, v@),
            None => i >= operations_map_entries(*m).len(),
        },
{
    m.get_index(i)
}

// ---------------------------------------------------------------------------------------
// `IndexSet<u64>`: identifiers without repetition, in insertion order.
// ---------------------------------------------------------------------------------------

pub type IdSet = IndexSet<u64>;

/// The elements of an `IdSet`, in insertion order.
pub uninterp spec fn id_set_elems(s: IdSet) -> Seq<u64>;

/// `IndexSet::new`: an empty set.
#[verifier::external_body]
pub(crate) fn id_set_new() -> (s: IdSet)
    ensures
        id_set_elems(s) == Seq::<u64>::empty(),
{
    IndexSet::new()
}

/// `IndexSet::insert`: an element not yet present is placed last; a present one leaves the
/// set as it was. Returns whether the element was new.
#[verifier::external_body]
pub(crate) fn id_set_insert(s: &mut IdSet, x: u64) -> (r: bool)
    ensures
        id_set_elems(*final(s)) == set_insert(id_set_elems(*old(s)), x),
        r == !id_set_elems(*old(s)).contains(x),
{
    s.insert(x)
}

/// `IndexSet::len`: the number of elements.
#[verifier::external_body]
pub(crate) fn id_set_len(s: &IdSet) -> (r: usize)
    ensures
        r == id_set_elems(*s).len(),
{
    s.len()
}

/// `IndexSet::get_index`: the element at a position of the insertion order.
#[verifier::external_body]
pub(crate) fn id_set_get_index(s: &IdSet, i: usize) -> (r: Option<&u64>)
    ensures
        match r {
            Some(x) => i < id_set_elems(*s).len() && *x == id_set_elems(*s)[i as int],
            None => i >= id_set_elems(*s).len(),
        },
{
    s.get_index(i)
}

// ---------------------------------------------------------------------------------------
// `IndexMap<u64, Vec<MerkleTreeUpdate>>`: operations to apply, by program.
// ---------------------------------------------------------------------------------------

pub type ProgramOpsMap = IndexMap<u64, Vec<MerkleTreeUpdate>>;

/// The entries of a `ProgramOpsMap`, in insertion order.
pub uninterp spec fn program_ops_entries(m: ProgramOpsMap) -> Seq<(u64, Seq<MerkleTreeUpdate>)>;

/// `IndexMap::with_capacity`: an empty map.
#[verifier::external_body]
pub(crate) fn program_ops_with_capacity(n: usize) -> (m: ProgramOpsMap)
    ensures
        program_ops_entries(m) == Seq::<(u64, Seq<MerkleTreeUpdate>)>::empty(),
{
    IndexMap::with_capacity(n)
}

/// `IndexMap::entry(k).or_insert(Vec::new())`: the operations stored under `k`, first
/// created empty and placed last if `k` was absent; changes made through the returned
/// reference land under `k`.
#[verifier::external_body]
pub(crate) fn program_ops_entry_or_new(m: &mut ProgramOpsMap, k: u64) -> (r: &mut Vec<MerkleTreeUpdate>)
    ensures
        r@ == (match lookup(program_ops_entries(*old(m)), k) {
            Some(e) => e,
            None => Seq::<MerkleTreeUpdate>::empty(),
        }),
        program_ops_entries(*final(m)) == put(program_ops_entries(*old(m)), k, final(r)@),
{
    m.entry(k).or_insert(Vec::new())
}

/// `IndexMap::len`: the number of entries.
#[verifier::external_body]
pub(crate) fn program_ops_len(m: &ProgramOpsMap) -> (r: usize)
    ensures
        r == program_ops_entries(*m).len(),
{
    m.len()
}

/// `IndexMap::get_index`: the entry at a position of the insertion order.
#[verifier::external_body]
pub(crate) fn program_ops_get_index<'a>(m: &'a ProgramOpsMap, i: usize) -> (r: Option<(&'a u64, &'a Vec<MerkleTreeUpdate>)>)
    ensures
        match r {
            Some((k, v)) => i < program_ops_entries(*m).len()
                && program_ops_entries(*m)[i as int] == (*k, v@),
            None => i >= program_ops_entries(*m).len(),
        },
{
    m.get_index(i)
}

/// `IndexSet::clone`: a set with the same elements in the same order.
#[verifier::external_body]
pub(crate) fn id_set_clone(s: &IdSet) -> (r: IdSet)
    ensures
        id_set_elems(r) == id_set_elems(*s),
{
    s.clone()
}

// ---------------------------------------------------------------------------------------
// `IndexSet<(u8, u64)>`: transmission IDs by their keys (kind tag, identifier).
// ---------------------------------------------------------------------------------------

pub type TransmissionSet = IndexSet<(u8, u64)>;

/// The elements of a `TransmissionSet`, in insertion order.
pub uninterp spec fn transmission_set_elems(s: TransmissionSet) -> Seq<(u8, u64)>;

/// `IndexSet::new`: an empty set.
#[verifier::external_body]
pub(crate) fn transmission_set_new() -> (s: TransmissionSet)
    ensures
        transmission_set_elems(s) == Seq::<(u8, u64)>::empty(),
{
    IndexSet::new()
}

/// `IndexSet::insert`: an element not yet present is placed last; a present one leaves the
/// set as it was. Returns whether the element was new.
#[verifier::external_body]
pub(crate) fn transmission_set_insert(s: &mut TransmissionSet, x: (u8, u64)) -> (r: bool)
    ensures
        transmission_set_elems(*final(s)) == set_insert(transmission_set_elems(*old(s)), x),
        r == !transmission_set_elems(*old(s)).contains(x),
{
    s.insert(x)
}

/// `IndexSet::contains`: whether the element is present.
#[verifier::external_body]
pub(crate) fn transmission_set_contains(s: &TransmissionSet, x: &(u8, u64)) -> (r: bool)
    ensures
        r == transmission_set_elems(*s).contains(*x),
{
    s.contains(x)
}

/// `IndexSet::len`: the number of elements.
#[verifier::external_body]
pub(crate) fn transmission_set_len(s: &TransmissionSet) -> (r: usize)
    ensures
        r == transmission_set_elems(*s).len(),
{
    s.len()
}

} // verus!
