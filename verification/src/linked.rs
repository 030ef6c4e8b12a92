//! Insertion-ordered maps from names to types and to values.
//!
//! The maps are `linked_hash_map::LinkedHashMap`s. What is stated of them here
//! is taken on trust from that crate's source; everything else in the library
//! is proved from these statements.

use vstd::prelude::*;
use linked_hash_map::LinkedHashMap;
use crate::const_value::{field_index, ConstValue, Type, TypeView, ValueView};

verus! {

#[verifier::external_type_specification]
#[verifier::external_body]
#[verifier::reject_recursive_types(K)]
#[verifier::reject_recursive_types(V)]
#[verifier::reject_recursive_types(S)]
pub struct ExLinkedHashMap<K, V, S>(LinkedHashMap<K, V, S>);

/// The entries of a map of named types, the one inserted longest ago first.
pub uninterp spec fn type_entries(m: LinkedHashMap<String, Type>) -> Seq<(Seq<char>, Type)>;

/// The entries of a map of named values, the one inserted longest ago first.
pub uninterp spec fn value_entries(m: LinkedHashMap<String, ConstValue>) -> Seq<
    (Seq<char>, ConstValue),
>;

/// What inserting `name` does to the entries of an insertion-ordered map: an
/// entry of that name leaves its place, and the new entry goes to the end.
pub open spec fn put<T>(entries: Seq<(Seq<char>, T)>, name: Seq<char>, value: T) -> Seq<
    (Seq<char>, T),
> {
    match field_index(entries, name) {
        Some(i) => entries.remove(i).push((name, value)),
        None => entries.push((name, value)),
    }
}

/// The views of named types.
pub open spec fn named_types_view(entries: Seq<(Seq<char>, Type)>) -> Seq<(Seq<char>, TypeView)> {
    Seq::new(entries.len(), |i: int| (entries[i].0, entries[i].1@))
}

/// The views of named values.
pub open spec fn named_values_view(entries: Seq<(Seq<char>, ConstValue)>) -> Seq<
    (Seq<char>, ValueView),
> {
    Seq::new(entries.len(), |i: int| (entries[i].0, entries[i].1@))
}

/// `LinkedHashMap::new`: the new map has no entries.
#[verifier::external_body]
pub(crate) fn new_type_map() -> (r: LinkedHashMap<String, Type>)
    ensures
        type_entries(r) == Seq::<(Seq<char>, Type)>::empty(),
{
    LinkedHashMap::new()
}

/// `LinkedHashMap::insert`: an entry of the same name is replaced and moves to
/// the end of the order; otherwise the new entry is appended.
#[verifier::external_body]
pub(crate) fn insert_type(m: &mut LinkedHashMap<String, Type>, name: String, ty: Type)
    ensures
        type_entries(*final(m)) == put(type_entries(*old(m)), name@, ty),
{
    m.insert(name, ty);
}

/// `LinkedHashMap::into_iter`: the entries are handed out in the map's order,
/// and no two of them have the same name, since the map holds one entry for
/// each key.
#[verifier::external_body]
pub(crate) fn type_map_into_vec(m: LinkedHashMap<String, Type>) -> (r: Vec<(String, Type)>)
    ensures
        r@.len() == type_entries(m).len(),
        forall|i: int|
            0 <= i < r@.len() ==> r@[i].0@ == type_entries(m)[i].0 && r@[i].1 == type_entries(
                m,
            )[i].1,
        forall|i: int, j: int| 0 <= i < j < r@.len() ==> r@[i].0@ != r@[j].0@,
{
    m.into_iter().collect()
}

/// `LinkedHashMap::new`: the new map has no entries.
#[verifier::external_body]
pub(crate) fn new_value_map() -> (r: LinkedHashMap<String, ConstValue>)
    ensures
        value_entries(r) == Seq::<(Seq<char>, ConstValue)>::empty(),
{
    LinkedHashMap::new()
}

/// `LinkedHashMap::insert`: an entry of the same name is replaced and moves to
/// the end of the order; otherwise the new entry is appended.
#[verifier::external_body]
pub(crate) fn insert_value(
    m: &mut LinkedHashMap<String, ConstValue>,
    name: String,
    value: ConstValue,
)
    ensures
        value_entries(*final(m)) == put(value_entries(*old(m)), name@, value),
{
    m.insert(name, value);
}

/// `LinkedHashMap::into_iter`: the entries are handed out in the map's order,
/// and no two of them have the same name, since the map holds one entry for
/// each key.
#[verifier::external_body]
pub(crate) fn value_map_into_vec(m: LinkedHashMap<String, ConstValue>) -> (r: Vec<
    (String, ConstValue),
>)
    ensures
        r@.len() == value_entries(m).len(),
        forall|i: int|
            0 <= i < r@.len() ==> r@[i].0@ == value_entries(m)[i].0 && r@[i].1 == value_entries(
                m,
            )[i].1,
        forall|i: int, j: int| 0 <= i < j < r@.len() ==> r@[i].0@ != r@[j].0@,
{
    m.into_iter().collect()
}

/// Taking views commutes with insertion: the place of an entry depends on the
/// names alone.
pub proof fn lemma_put_types_view(entries: Seq<(Seq<char>, Type)>, name: Seq<char>, ty: Type)
    ensures
        named_types_view(put(entries, name, ty)) == put(named_types_view(entries), name, ty@),
{
    lemma_same_names_same_index(entries, named_types_view(entries), name);
    crate::const_value::lemma_field_index(entries, name);
    assert(named_types_view(put(entries, name, ty)) =~= put(
        named_types_view(entries),
        name,
        ty@,
    ));
}

/// Taking views commutes with insertion: the place of an entry depends on the
/// names alone.
pub proof fn lemma_put_values_view(
    entries: Seq<(Seq<char>, ConstValue)>,
    name: Seq<char>,
    value: ConstValue,
)
    ensures
        named_values_view(put(entries, name, value)) == put(
            named_values_view(entries),
            name,
            value@,
        ),
{
    lemma_same_names_same_index(entries, named_values_view(entries), name);
    crate::const_value::lemma_field_index(entries, name);
    assert(named_values_view(put(entries, name, value)) =~= put(
        named_values_view(entries),
        name,
        value@,
    ));
}

/// Two runs of entries with the same names find a name at the same place.
pub proof fn lemma_same_names_same_index<T, U>(
    a: Seq<(Seq<char>, T)>,
    b: Seq<(Seq<char>, U)>,
    name: Seq<char>,
)
    requires
        a.len() == b.len(),
        forall|i: int| 0 <= i < a.len() ==> a[i].0 == b[i].0,
    ensures
        field_index(a, name) == field_index(b, name),
    decreases a.len(),
{
    if a.len() > 0 && a[0].0 != name {
        lemma_same_names_same_index(a.skip(1), b.skip(1), name);
    }
}

} // verus!
