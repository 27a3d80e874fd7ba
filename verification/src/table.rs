//! Hash tables keyed by text.
//!
//! The tables are `DashMap`s. What a table holds has a name for each type of value; the trait
//! `Stored` leads from the type to its name, so that one function serves all tables.

use crate::text::texts;
use dashmap::DashMap;
use vstd::prelude::*;

verus! {

/// `dashmap::DashMap`, a hash table.
#[verifier::external_type_specification]
#[verifier::external_body]
#[verifier::reject_recursive_types(K)]
#[verifier::reject_recursive_types(V)]
#[verifier::reject_recursive_types(S)]
pub struct ExDashMap<K, V, S>(DashMap<K, V, S>);

/// A type of values that a table keyed by text can hold.
pub trait Stored: Sized {
    /// What a table holds: the value for each key that is in it.
    spec fn table(m: DashMap<String, Self>) -> Map<Seq<char>, Self>;
}

/// `DashMap::insert` sets the value for a key, and gives back the value that the key had.
#[verifier::external_body]
pub(crate) fn table_insert<V: Stored>(m: &mut DashMap<String, V>, key: String, value: V) -> (r:
    Option<V>)
    ensures
        V::table(*final(m)) == V::table(*old(m)).insert(key@, value),
        r == (if V::table(*old(m)).contains_key(key@) {
            Some(V::table(*old(m))[key@])
        } else {
            None
        }),
{
    m.insert(key, value)
}

/// `DashMap::remove` takes the entry for a key out of the table, and gives it back.
#[verifier::external_body]
pub(crate) fn table_remove<V: Stored>(m: &mut DashMap<String, V>, key: &str) -> (r: Option<
    (String, V),
>)
    ensures
        V::table(*final(m)) == V::table(*old(m)).remove(key@),
        match r {
            Some(e) => V::table(*old(m)).contains_key(key@) && e.0@ == key@ && e.1 == V::table(
                *old(m),
            )[key@],
            None => !V::table(*old(m)).contains_key(key@),
        },
{
    m.remove(key)
}

/// `DashMap::get` finds the value for a key; the function given reads it there.
#[verifier::external_body]
pub(crate) fn table_read<V: Stored, R, F: FnOnce(&V) -> R>(
    m: &DashMap<String, V>,
    key: &str,
    read: F,
) -> (r: Option<R>)
    requires
        forall|v: &V| call_requires(read, (v,)),
    ensures
        match r {
            Some(out) => V::table(*m).contains_key(key@) && call_ensures(
                read,
                (&V::table(*m)[key@],),
                out,
            ),
            None => !V::table(*m).contains_key(key@),
        },
{
    m.get(key).map(|entry| read(entry.value()))
}

/// `DashMap::contains_key` tells whether there is a value for a key.
#[verifier::external_body]
pub(crate) fn table_contains<V: Stored>(m: &DashMap<String, V>, key: &str) -> (b: bool)
    ensures
        b == V::table(*m).contains_key(key@),
{
    m.contains_key(key)
}

/// `DashMap::len` is the number of keys.
#[verifier::external_body]
pub(crate) fn table_len<V: Stored>(m: &DashMap<String, V>) -> (n: usize)
    ensures
        n == V::table(*m).dom().len(),
{
    m.len()
}

/// `DashMap::iter` walks over all entries, each once, in an order that is left open; the keys
/// are taken from it.
#[verifier::external_body]
pub(crate) fn table_keys<V: Stored>(m: &DashMap<String, V>) -> (keys: Vec<String>)
    ensures
        texts(keys@).no_duplicates(),
        texts(keys@).to_set() == V::table(*m).dom(),
{
    m.iter().map(|entry| entry.key().clone()).collect()
}

} // verus!
