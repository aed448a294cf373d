//! The hash maps and the hash set of the `im` crate that hold the
//! connections, the spaces and the open addresses, each with a name for what
//! it holds and a contract for every method that the switchboard calls.

use vstd::prelude::*;
use crate::assoc::Key;
use crate::connection_state::ConnectionState;
use crate::ident::{ids_view, Lib3hUri, SpaceHash};
use crate::space::Space;

verus! {

/// `im::HashMap`, a hash map with structural sharing. Nothing of what is
/// inside is known but through the names and the contracts below.
#[verifier::external_type_specification]
#[verifier::external_body]
#[verifier::reject_recursive_types(K)]
#[verifier::reject_recursive_types(V)]
#[verifier::reject_recursive_types(S)]
pub struct ExImHashMap<K, V, S>(im::HashMap<K, V, S>);

/// `im::HashSet`, a hash set with structural sharing. Nothing of what is
/// inside is known but through the name and the contracts below.
#[verifier::external_type_specification]
#[verifier::external_body]
#[verifier::reject_recursive_types(A)]
#[verifier::reject_recursive_types(S)]
pub struct ExImHashSet<A, S>(im::HashSet<A, S>);

/// `im::HashMap::clone`: a second handle on the same map. Nothing is stated
/// of it; it is here so that a state can be cloned.
pub assume_specification<K, V, S>[ <im::HashMap<K, V, S> as Clone>::clone ](
    m: &im::HashMap<K, V, S>,
) -> im::HashMap<K, V, S>
    where
        K: Clone,
        V: Clone,
;

/// The state that a map of connections holds for each address.
pub uninterp spec fn connection_entries(m: im::HashMap<Lib3hUri, ConnectionState>) -> Map<Key, ConnectionState>;

/// The space that a map of spaces holds for each hash.
pub uninterp spec fn space_entries(m: im::HashMap<SpaceHash, Space>) -> Map<Key, Space>;

/// The addresses that a set of addresses holds.
pub uninterp spec fn address_members(s: im::HashSet<Lib3hUri>) -> Set<Key>;

/// `im::HashMap::new`: a map that holds nothing.
#[verifier::external_body]
pub(crate) fn connections_new() -> (m: im::HashMap<Lib3hUri, ConnectionState>)
    ensures
        connection_entries(m).dom() == Set::<Key>::empty(),
{
    im::HashMap::new()
}

/// `im::HashMap::get`: the value stored under the key, if there is one.
#[verifier::external_body]
pub(crate) fn connections_get<'a>(m: &'a im::HashMap<Lib3hUri, ConnectionState>, uri: &Lib3hUri) -> (r:
    Option<&'a ConnectionState>)
    ensures
        r is Some == connection_entries(*m).contains_key(uri@),
        r matches Some(c) ==> *c == connection_entries(*m)[uri@],
{
    m.get(uri)
}

/// `im::HashMap::insert`: afterwards the key has the new value and every
/// other key what it had; the value that the key had before is handed back.
#[verifier::external_body]
pub(crate) fn connections_insert(
    m: &mut im::HashMap<Lib3hUri, ConnectionState>,
    uri: Lib3hUri,
    c: ConnectionState,
) -> (r: Option<ConnectionState>)
    ensures
        connection_entries(*final(m)) == connection_entries(*old(m)).insert(uri@, c),
        r is Some == connection_entries(*old(m)).contains_key(uri@),
        r matches Some(b) ==> b == connection_entries(*old(m))[uri@],
{
    m.insert(uri, c)
}

/// `im::HashMap::remove`: afterwards the key has no value and every other
/// key what it had; the value that the key had before is handed back.
#[verifier::external_body]
pub(crate) fn connections_remove(m: &mut im::HashMap<Lib3hUri, ConnectionState>, uri: &Lib3hUri) -> (r:
    Option<ConnectionState>)
    ensures
        connection_entries(*final(m)) == connection_entries(*old(m)).remove(uri@),
        r is Some == connection_entries(*old(m)).contains_key(uri@),
        r matches Some(b) ==> b == connection_entries(*old(m))[uri@],
{
    m.remove(uri)
}

/// `im::HashMap::new`: a map that holds nothing.
#[verifier::external_body]
pub(crate) fn spaces_new() -> (m: im::HashMap<SpaceHash, Space>)
    ensures
        space_entries(m).dom() == Set::<Key>::empty(),
{
    im::HashMap::new()
}

/// `im::HashMap::get`: the value stored under the key, if there is one.
#[verifier::external_body]
pub(crate) fn spaces_get<'a>(m: &'a im::HashMap<SpaceHash, Space>, sp: &SpaceHash) -> (r: Option<
    &'a Space,
>)
    ensures
        r is Some == space_entries(*m).contains_key(sp@),
        r matches Some(s) ==> *s == space_entries(*m)[sp@],
{
    m.get(sp)
}

/// `im::HashMap::insert`: afterwards the key has the new value and every
/// other key what it had; the value that the key had before is handed back.
#[verifier::external_body]
pub(crate) fn spaces_insert(m: &mut im::HashMap<SpaceHash, Space>, sp: SpaceHash, s: Space) -> (r:
    Option<Space>)
    ensures
        space_entries(*final(m)) == space_entries(*old(m)).insert(sp@, s),
        r is Some == space_entries(*old(m)).contains_key(sp@),
        r matches Some(b) ==> b == space_entries(*old(m))[sp@],
{
    m.insert(sp, s)
}

/// `im::HashMap::remove`: afterwards the key has no value and every other
/// key what it had; the value that the key had before is handed back.
#[verifier::external_body]
pub(crate) fn spaces_remove(m: &mut im::HashMap<SpaceHash, Space>, sp: &SpaceHash) -> (r: Option<
    Space,
>)
    ensures
        space_entries(*final(m)) == space_entries(*old(m)).remove(sp@),
        r is Some == space_entries(*old(m)).contains_key(sp@),
        r matches Some(b) ==> b == space_entries(*old(m))[sp@],
{
    m.remove(sp)
}

/// `im::HashMap::len`: the number of keys.
#[verifier::external_body]
pub(crate) fn spaces_len(m: &im::HashMap<SpaceHash, Space>) -> (n: usize)
    ensures
        n == space_entries(*m).dom().len(),
{
    m.len()
}

/// `im::HashMap::keys`: every key once, in an order that the map does not
/// promise.
#[verifier::external_body]
pub(crate) fn spaces_keys(m: &im::HashMap<SpaceHash, Space>) -> (v: Vec<SpaceHash>)
    ensures
        ids_view(v@).no_duplicates(),
        forall|k: Key| ids_view(v@).contains(k) <==> space_entries(*m).contains_key(k),
{
    m.keys().cloned().collect()
}

/// `im::HashSet::new`: a set that holds nothing.
#[verifier::external_body]
pub(crate) fn addresses_new() -> (s: im::HashSet<Lib3hUri>)
    ensures
        address_members(s) == Set::<Key>::empty(),
{
    im::HashSet::new()
}

/// `im::HashSet::insert`: afterwards the set holds the value besides what it
/// held.
#[verifier::external_body]
pub(crate) fn addresses_insert(s: &mut im::HashSet<Lib3hUri>, uri: Lib3hUri)
    ensures
        address_members(*final(s)) == address_members(*old(s)).insert(uri@),
{
    let _ = s.insert(uri);
}

/// `im::HashSet::remove`: afterwards the set holds what it held but the
/// value.
#[verifier::external_body]
pub(crate) fn addresses_remove(s: &mut im::HashSet<Lib3hUri>, uri: &Lib3hUri)
    ensures
        address_members(*final(s)) == address_members(*old(s)).remove(uri@),
{
    let _ = s.remove(uri);
}

/// `im::HashSet::contains`: whether the set holds the value.
#[verifier::external_body]
pub(crate) fn addresses_contains(s: &im::HashSet<Lib3hUri>, uri: &Lib3hUri) -> (b: bool)
    ensures
        b == address_members(*s).contains(uri@),
{
    s.contains(uri)
}

/// `im::HashSet::len`: the number of values.
#[verifier::external_body]
pub(crate) fn addresses_len(s: &im::HashSet<Lib3hUri>) -> (n: usize)
    ensures
        n == address_members(*s).len(),
{
    s.len()
}

} // verus!
