//! The variable store of a state is an `indexmap::IndexMap` from names to
//! values. Its contents are named by `var_entries`: the (name, value) pairs
//! in the map's order. An `IndexMap` never holds a key twice, so the entry
//! of a name is its first (and only) one, as `crate::table::index_of` finds.
use vstd::prelude::*;

use indexmap::IndexMap;

use crate::parse::eval::Value;
use crate::table::{insert_entry, lookup};

verus! {

#[verifier::external_type_specification]
#[verifier::external_body]
#[verifier::reject_recursive_types(K)]
#[verifier::reject_recursive_types(V)]
#[verifier::reject_recursive_types(S)]
pub struct ExIndexMap<K, V, S>(IndexMap<K, V, S>);

/// The entries of a variable store, in the map's order, each name by its characters.
pub uninterp spec fn var_entries(m: IndexMap<String, Value>) -> Seq<(Seq<char>, Value)>;

/// `IndexMap::new`: a map with no entries.
#[verifier::external_body]
pub fn vars_new() -> (m: IndexMap<String, Value>)
    ensures
        var_entries(m) == Seq::<(Seq<char>, Value)>::empty(),
{
    IndexMap::new()
}

/// `IndexMap::insert`: where the key is present its value is replaced in
/// place and the old value returned; otherwise the entry goes last and
/// `None` is returned.
#[verifier::external_body]
pub fn vars_insert(m: &mut IndexMap<String, Value>, k: String, v: Value) -> (r: Option<Value>)
    ensures
        var_entries(*final(m)) == insert_entry(var_entries(*old(m)), k@, v),
        r == lookup(var_entries(*old(m)), k@),
{
    m.insert(k, v)
}

/// `IndexMap::get`: the value stored under the key, if any.
#[verifier::external_body]
pub fn vars_get<'a>(m: &'a IndexMap<String, Value>, k: &String) -> (r: Option<&'a Value>)
    ensures
        r is None <==> lookup(var_entries(*m), k@) is None,
        r matches Some(v) ==> lookup(var_entries(*m), k@) == Some(*v),
{
    m.get(k)
}

} // verus!
