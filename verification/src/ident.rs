//! Identifiers. Agents, spaces, entries, aspects and connections are all
//! named by strings; this module gives the names their types and the order
//! that breaks ties between agents.

use vstd::prelude::*;
use vstd::utf8::encode_utf8;
use crate::assoc::Key;

verus! {

/// The address of one connection, stable for as long as it is open.
pub type Lib3hUri = String;

/// The public key of an agent, which is both its identity and, hashed, its
/// place on the ring.
pub type AgentId = String;

/// The hash that names a space.
pub type SpaceHash = String;

/// The address of an entry.
pub type EntryHash = String;

/// The address of one aspect of an entry.
pub type AspectHash = String;

/// A place on the 32-bit ring.
pub type Location = u32;

/// The model of a vector of identifiers.
pub open spec fn ids_view(v: Seq<String>) -> Seq<Key> {
    Seq::new(v.len(), |i: int| v[i]@)
}

/// A copy of a vector of identifiers.
pub fn copy_ids(v: &Vec<String>) -> (r: Vec<String>)
    ensures
        ids_view(r@) == ids_view(v@),
{
    let mut r: Vec<String> = Vec::new();
    let mut i: usize = 0;
    while i < v.len()
        invariant
            i <= v@.len(),
            r@.len() == i,
            forall|j: int| 0 <= j < i ==> (#[trigger] r@[j])@ == v@[j]@,
        decreases v@.len() - i,
    {
        r.push(v[i].clone());
        i += 1;
    }
    assert(ids_view(r@) =~= ids_view(v@));
    r
}

/// Whether `x` comes before `y` in lexicographic order, given that they agree
/// on their first `i` bytes.
pub open spec fn bytes_before_from(x: Seq<u8>, y: Seq<u8>, i: int) -> bool
    decreases x.len() - i,
{
    if i >= y.len() {
        false
    } else if i >= x.len() {
        true
    } else if x[i] != y[i] {
        x[i] < y[i]
    } else {
        bytes_before_from(x, y, i + 1)
    }
}

/// Lexicographic order on byte strings.
pub open spec fn bytes_before(x: Seq<u8>, y: Seq<u8>) -> bool {
    bytes_before_from(x, y, 0)
}

/// The order on identifiers: lexicographic on their UTF-8 bytes, which is the
/// order of the strings themselves.
pub open spec fn id_before(a: Key, b: Key) -> bool {
    bytes_before(encode_utf8(a), encode_utf8(b))
}

/// Whether `a` comes before `b` in the order of identifiers.
pub fn id_precedes(a: &String, b: &String) -> (r: bool)
    ensures
        r == id_before(a@, b@),
{
    let x = a.as_str().as_bytes();
    let y = b.as_str().as_bytes();
    let mut i: usize = 0;
    loop
        invariant
            x@ == encode_utf8(a@),
            y@ == encode_utf8(b@),
            i <= x@.len(),
            i <= y@.len(),
            bytes_before(x@, y@) == bytes_before_from(x@, y@, i as int),
        decreases x@.len() - i,
    {
        if i >= y.len() {
            return false;
        }
        if i >= x.len() {
            return true;
        }
        if x[i] != y[i] {
            return x[i] < y[i];
        }
        i += 1;
    }
}

/// Two byte strings that agree from `i` on in neither direction of the order
/// are equal from `i` on.
proof fn lemma_bytes_trichotomy_from(x: Seq<u8>, y: Seq<u8>, i: int)
    requires
        0 <= i <= x.len(),
        i <= y.len(),
        x.take(i) == y.take(i),
        !bytes_before_from(x, y, i),
        !bytes_before_from(y, x, i),
    ensures
        x == y,
    decreases x.len() - i,
{
    if i >= y.len() || i >= x.len() {
        assert(x.len() == y.len());
        assert(x.take(i) =~= x);
        assert(y.take(i) =~= y);
    } else {
        assert(x[i] == y[i]);
        assert(x.take(i + 1) =~= x.take(i).push(x[i]));
        assert(y.take(i + 1) =~= y.take(i).push(y[i]));
        lemma_bytes_trichotomy_from(x, y, i + 1);
    }
}

/// No byte string comes before another that comes before it.
proof fn lemma_bytes_asymmetric_from(x: Seq<u8>, y: Seq<u8>, i: int)
    requires
        0 <= i,
    ensures
        !(bytes_before_from(x, y, i) && bytes_before_from(y, x, i)),
    decreases x.len() - i,
{
    if i < y.len() && i < x.len() && x[i] == y[i] {
        lemma_bytes_asymmetric_from(x, y, i + 1);
    }
}

/// The order is transitive.
proof fn lemma_bytes_transitive_from(x: Seq<u8>, y: Seq<u8>, z: Seq<u8>, i: int)
    requires
        0 <= i,
        bytes_before_from(x, y, i),
        bytes_before_from(y, z, i),
    ensures
        bytes_before_from(x, z, i),
    decreases x.len() - i,
{
    if i < x.len() && i < y.len() && i < z.len() && x[i] == y[i] && y[i] == z[i] {
        lemma_bytes_transitive_from(x, y, z, i + 1);
    }
}

/// The order of identifiers is a strict total order: of two different
/// identifiers exactly one comes first, and the order is transitive.
pub proof fn lemma_id_order(a: Key, b: Key, c: Key)
    ensures
        !id_before(a, a),
        !(id_before(a, b) && id_before(b, a)),
        a != b ==> id_before(a, b) || id_before(b, a),
        id_before(a, b) && id_before(b, c) ==> id_before(a, c),
{
    let x = encode_utf8(a);
    let y = encode_utf8(b);
    let z = encode_utf8(c);
    lemma_bytes_asymmetric_from(x, x, 0);
    lemma_bytes_asymmetric_from(x, y, 0);
    if !id_before(a, b) && !id_before(b, a) {
        assert(x.take(0) =~= y.take(0));
        lemma_bytes_trichotomy_from(x, y, 0);
        vstd::utf8::encode_utf8_decode_utf8(a);
        vstd::utf8::encode_utf8_decode_utf8(b);
    }
    if id_before(a, b) && id_before(b, c) {
        lemma_bytes_transitive_from(x, y, z, 0);
    }
}

} // verus!
