use vstd::prelude::*;

use indexmap::IndexMap;

verus! {

#[verifier::external_type_specification]
#[verifier::external_body]
#[verifier::reject_recursive_types(K)]
#[verifier::reject_recursive_types(V)]
#[verifier::reject_recursive_types(S)]
pub struct ExIndexMap<K, V, S>(indexmap::IndexMap<K, V, S>);

/// The entries of a field-description map, in insertion order.
pub uninterp spec fn description_entries(m: IndexMap<String, String>) -> Seq<(Seq<char>, Seq<char>)>;

/// The index of the first entry whose key is `k`.
pub open spec fn first_key<A>(es: Seq<(Seq<char>, A)>, k: Seq<char>) -> Option<int>
    decreases es.len(),
{
    if es.len() == 0 {
        None
    } else {
        match first_key(es.drop_last(), k) {
            Some(i) => Some(i),
            None => if es.last().0 == k {
                Some(es.len() - 1)
            } else {
                None
            },
        }
    }
}

/// The value stored under `k`, if any.
pub open spec fn lookup<A>(es: Seq<(Seq<char>, A)>, k: Seq<char>) -> Option<A> {
    match first_key(es, k) {
        Some(i) => Some(es[i].1),
        None => None,
    }
}

/// The entries after setting `k` to `v`: in place if `k` is present, else at the end.
pub open spec fn entries_after_insert(
    es: Seq<(Seq<char>, Seq<char>)>,
    k: Seq<char>,
    v: Seq<char>,
) -> Seq<(Seq<char>, Seq<char>)> {
    match first_key(es, k) {
        Some(i) => es.update(i, (k, v)),
        None => es.push((k, v)),
    }
}

/// `first_key` is the first match: no earlier entry has key `k`.
pub proof fn lemma_first_key<A>(es: Seq<(Seq<char>, A)>, k: Seq<char>, i: int)
    requires
        0 <= i <= es.len(),
        forall|j: int| 0 <= j < i ==> #[trigger] es[j].0 != k,
        i < es.len() ==> es[i].0 == k,
    ensures
        first_key(es, k) == if i < es.len() {
            Some(i)
        } else {
            None
        },
    decreases es.len(),
{
    if es.len() > 0 {
        let d = es.drop_last();
        if i < es.len() - 1 {
            lemma_first_key(d, k, i);
        } else {
            assert forall|j: int| 0 <= j < d.len() implies #[trigger] d[j].0 != k by {
                assert(d[j] == es[j]);
            }
            lemma_first_key(d, k, d.len() as int);
        }
    }
}

/// Relies on `IndexMap::new`: a new map is empty.
#[verifier::external_body]
pub(crate) fn new_descriptions() -> (r: IndexMap<String, String>)
    ensures
        description_entries(r) == Seq::<(Seq<char>, Seq<char>)>::empty(),
{
    IndexMap::new()
}

/// Relies on `IndexMap::insert`: an existing key keeps its place and takes the
/// new value; a new key goes last.
#[verifier::external_body]
pub(crate) fn insert_description(m: &mut IndexMap<String, String>, k: String, v: String)
    ensures
        description_entries(*final(m)) == entries_after_insert(
            description_entries(*old(m)),
            k@,
            v@,
        ),
{
    m.insert(k, v);
}

/// Relies on `IndexMap::len`: the number of entries.
#[verifier::external_body]
pub(crate) fn description_count(m: &IndexMap<String, String>) -> (r: usize)
    ensures
        r == description_entries(*m).len(),
{
    m.len()
}

/// Relies on `IndexMap::get_index`: the entry at a position in insertion order.
#[verifier::external_body]
pub(crate) fn description_at(m: &IndexMap<String, String>, i: usize) -> (r: Option<
    (&String, &String),
>)
    ensures
        r is Some <==> i < description_entries(*m).len(),
        r is Some ==> description_entries(*m)[i as int] == ((r->0).0@, (r->0).1@),
{
    m.get_index(i)
}

/// Relies on `IndexMap::contains_key`: whether a key is present.
#[verifier::external_body]
pub(crate) fn has_description(m: &IndexMap<String, String>, k: &str) -> (r: bool)
    ensures
        r == first_key(description_entries(*m), k@) is Some,
{
    m.contains_key(k)
}

} // verus!
