//! The order in which names are ranked: that of their bytes in UTF-8, which
//! is the order of `str` in the standard library.

use vstd::prelude::*;
use vstd::relations::*;
use vstd::string::*;
use vstd::utf8::*;

verus! {

/// Whether `a` comes no later than `b`, judged from position `from` on: the
/// first position at which they differ decides, and where neither differs
/// the shorter comes first.
pub open spec fn bytes_leq_from(a: Seq<u8>, b: Seq<u8>, from: int) -> bool
    decreases a.len() - from,
{
    if from < 0 || from >= a.len() {
        true
    } else if from >= b.len() {
        false
    } else if a[from] != b[from] {
        a[from] < b[from]
    } else {
        bytes_leq_from(a, b, from + 1)
    }
}

/// The lexicographic order on runs of bytes.
pub open spec fn bytes_leq(a: Seq<u8>, b: Seq<u8>) -> bool {
    bytes_leq_from(a, b, 0)
}

/// What an entry is ranked by: its name, and its path where names are
/// equal.
pub type RankKey = (Seq<char>, Seq<char>);

/// Whether one key comes no later than another: by name, in the order of
/// the bytes, and by path among equal names.
pub open spec fn key_leq(a: RankKey, b: RankKey) -> bool {
    if a.0 == b.0 {
        bytes_leq(encode_utf8(a.1), encode_utf8(b.1))
    } else {
        bytes_leq(encode_utf8(a.0), encode_utf8(b.0))
    }
}

/// The order of keys as a relation.
pub open spec fn key_order() -> spec_fn(RankKey, RankKey) -> bool {
    |a: RankKey, b: RankKey| key_leq(a, b)
}

proof fn lemma_bytes_reflexive(a: Seq<u8>, from: int)
    ensures
        bytes_leq_from(a, a, from),
    decreases a.len() - from,
{
    if 0 <= from < a.len() {
        lemma_bytes_reflexive(a, from + 1);
    }
}

proof fn lemma_bytes_connected(a: Seq<u8>, b: Seq<u8>, from: int)
    ensures
        bytes_leq_from(a, b, from) || bytes_leq_from(b, a, from),
    decreases a.len() - from,
{
    if 0 <= from < a.len() && from < b.len() && a[from] == b[from] {
        lemma_bytes_connected(a, b, from + 1);
    }
}

proof fn lemma_bytes_transitive(a: Seq<u8>, b: Seq<u8>, c: Seq<u8>, from: int)
    requires
        bytes_leq_from(a, b, from),
        bytes_leq_from(b, c, from),
    ensures
        bytes_leq_from(a, c, from),
    decreases a.len() - from,
{
    if 0 <= from < a.len() && a[from] == b[from] && b[from] == c[from] {
        lemma_bytes_transitive(a, b, c, from + 1);
    }
}

proof fn lemma_bytes_antisymmetric(a: Seq<u8>, b: Seq<u8>, from: int)
    requires
        0 <= from,
        forall|k: int| 0 <= k < from && k < a.len() && k < b.len() ==> a[k] == b[k],
        bytes_leq_from(a, b, from),
        bytes_leq_from(b, a, from),
        from <= a.len(),
        from <= b.len(),
    ensures
        a =~= b,
    decreases a.len() - from,
{
    if from < a.len() {
        lemma_bytes_antisymmetric(a, b, from + 1);
    }
}

/// Texts with the same bytes are the same text.
proof fn lemma_encoding_tells_apart(a: Seq<char>, b: Seq<char>)
    requires
        encode_utf8(a) == encode_utf8(b),
    ensures
        a == b,
{
    encode_utf8_decode_utf8(a);
    encode_utf8_decode_utf8(b);
}

/// The order of keys is total: any two keys compare, and two keys that
/// each come no later than the other are the same key.
pub proof fn lemma_key_order_total()
    ensures
        total_ordering(key_order()),
{
    let r = key_order();
    assert forall|x: RankKey| #[trigger] r(x, x) by {
        lemma_bytes_reflexive(encode_utf8(x.1), 0);
    }
    assert forall|x: RankKey, y: RankKey| #[trigger] r(x, y) && #[trigger] r(y, x) implies x
        == y by {
        if x.0 == y.0 {
            lemma_bytes_antisymmetric(encode_utf8(x.1), encode_utf8(y.1), 0);
            lemma_encoding_tells_apart(x.1, y.1);
        } else {
            lemma_bytes_antisymmetric(encode_utf8(x.0), encode_utf8(y.0), 0);
            lemma_encoding_tells_apart(x.0, y.0);
        }
    }
    assert forall|x: RankKey, y: RankKey, z: RankKey| #[trigger] r(x, y) && #[trigger] r(
        y,
        z,
    ) implies r(x, z) by {
        if x.0 == y.0 && y.0 == z.0 {
            lemma_bytes_transitive(encode_utf8(x.1), encode_utf8(y.1), encode_utf8(z.1), 0);
        } else if x.0 == y.0 || y.0 == z.0 {
        } else {
            lemma_bytes_transitive(encode_utf8(x.0), encode_utf8(y.0), encode_utf8(z.0), 0);
            if x.0 == z.0 {
                lemma_bytes_antisymmetric(encode_utf8(x.0), encode_utf8(y.0), 0);
                lemma_encoding_tells_apart(x.0, y.0);
            }
        }
    }
    assert forall|x: RankKey, y: RankKey| #[trigger] r(x, y) || #[trigger] r(y, x) by {
        lemma_bytes_connected(encode_utf8(x.0), encode_utf8(y.0), 0);
        lemma_bytes_connected(encode_utf8(x.1), encode_utf8(y.1), 0);
    }
}

/// Tells whether `a` comes no later than `b` in the order of the bytes.
pub fn bytes_before(a: &[u8], b: &[u8]) -> (yes: bool)
    ensures
        yes == bytes_leq(a@, b@),
{
    let mut at: usize = 0;
    while at < a.len()
        invariant
            at <= a.len(),
            bytes_leq(a@, b@) == bytes_leq_from(a@, b@, at as int),
        decreases a.len() - at,
    {
        if at >= b.len() {
            return false;
        }
        if a[at] != b[at] {
            return a[at] < b[at];
        }
        at = at + 1;
    }
    true
}

/// Tells whether the key of one entry comes no later than that of another.
pub fn key_before(name: &String, path: &String, other_name: &String, other_path: &String) -> (yes:
    bool)
    ensures
        yes == key_leq((name@, path@), (other_name@, other_path@)),
{
    if *name == *other_name {
        bytes_before(path.as_str().as_bytes(), other_path.as_str().as_bytes())
    } else {
        bytes_before(name.as_str().as_bytes(), other_name.as_str().as_bytes())
    }
}

} // verus!
