//! The order in which stakers are kept and listed: addresses compare by the
//! bytes of their UTF-8 encoding, lexicographically.

use vstd::prelude::*;
use vstd::utf8::encode_utf8;

verus! {

broadcast use vstd::utf8::encode_utf8_decode_utf8;

/// Lexicographic "strictly less" on byte strings.
pub open spec fn bytes_lt(a: Seq<u8>, b: Seq<u8>) -> bool
    decreases a.len(),
{
    if a.len() == 0 {
        b.len() > 0
    } else if b.len() == 0 {
        false
    } else if a[0] != b[0] {
        a[0] < b[0]
    } else {
        bytes_lt(a.drop_first(), b.drop_first())
    }
}

/// The storage key of an address: the bytes of its UTF-8 encoding.
pub open spec fn key_bytes(k: Seq<char>) -> Seq<u8> {
    encode_utf8(k)
}

/// `a` comes strictly before `b` in key order.
pub open spec fn key_lt(a: Seq<char>, b: Seq<char>) -> bool {
    bytes_lt(key_bytes(a), key_bytes(b))
}

pub proof fn lemma_bytes_lt_irreflexive(a: Seq<u8>)
    ensures
        !bytes_lt(a, a),
    decreases a.len(),
{
    if a.len() > 0 {
        lemma_bytes_lt_irreflexive(a.drop_first());
    }
}

pub proof fn lemma_bytes_lt_transitive(a: Seq<u8>, b: Seq<u8>, c: Seq<u8>)
    requires
        bytes_lt(a, b),
        bytes_lt(b, c),
    ensures
        bytes_lt(a, c),
    decreases a.len(),
{
    if a.len() > 0 && b.len() > 0 && c.len() > 0 && a[0] == b[0] && b[0] == c[0] {
        lemma_bytes_lt_transitive(a.drop_first(), b.drop_first(), c.drop_first());
    }
}

pub proof fn lemma_bytes_lt_total(a: Seq<u8>, b: Seq<u8>)
    ensures
        a == b || bytes_lt(a, b) || bytes_lt(b, a),
    decreases a.len(),
{
    if a.len() > 0 && b.len() > 0 && a[0] == b[0] {
        lemma_bytes_lt_total(a.drop_first(), b.drop_first());
        if a.drop_first() == b.drop_first() {
            assert(a =~= seq![a[0]] + a.drop_first());
            assert(b =~= seq![b[0]] + b.drop_first());
        }
    } else if a.len() == 0 && b.len() == 0 {
        assert(a =~= b);
    }
}

pub proof fn lemma_bytes_lt_asymmetric(a: Seq<u8>, b: Seq<u8>)
    requires
        bytes_lt(a, b),
    ensures
        !bytes_lt(b, a),
{
    if bytes_lt(b, a) {
        lemma_bytes_lt_transitive(a, b, a);
        lemma_bytes_lt_irreflexive(a);
    }
}

/// Distinct addresses have distinct keys.
pub proof fn lemma_key_bytes_injective(a: Seq<char>, b: Seq<char>)
    requires
        key_bytes(a) == key_bytes(b),
    ensures
        a == b,
{
    assert(vstd::utf8::decode_utf8(encode_utf8(a)) == a);
    assert(vstd::utf8::decode_utf8(encode_utf8(b)) == b);
}

/// Key order is a strict total order on addresses.
pub proof fn lemma_key_order(a: Seq<char>, b: Seq<char>, c: Seq<char>)
    ensures
        !key_lt(a, a),
        key_lt(a, b) ==> !key_lt(b, a),
        key_lt(a, b) && key_lt(b, c) ==> key_lt(a, c),
        a == b || key_lt(a, b) || key_lt(b, a),
{
    lemma_bytes_lt_irreflexive(key_bytes(a));
    if key_lt(a, b) {
        lemma_bytes_lt_asymmetric(key_bytes(a), key_bytes(b));
        if key_lt(b, c) {
            lemma_bytes_lt_transitive(key_bytes(a), key_bytes(b), key_bytes(c));
        }
    }
    lemma_bytes_lt_total(key_bytes(a), key_bytes(b));
    if key_bytes(a) == key_bytes(b) {
        lemma_key_bytes_injective(a, b);
    }
}

/// The outcome of comparing two addresses in key order.
#[derive(Clone, Copy, PartialEq, Eq, Debug)]
pub enum KeyOrder {
    Less,
    Equal,
    Greater,
}

proof fn lemma_bytes_lt_step(a: Seq<u8>, b: Seq<u8>, i: int)
    requires
        0 <= i < a.len(),
        i < b.len(),
        a[i] == b[i],
    ensures
        bytes_lt(a.skip(i), b.skip(i)) == bytes_lt(a.skip(i + 1), b.skip(i + 1)),
{
    assert(a.skip(i).drop_first() =~= a.skip(i + 1));
    assert(b.skip(i).drop_first() =~= b.skip(i + 1));
}

/// Compares two byte strings lexicographically.
pub fn compare_bytes(x: &[u8], y: &[u8]) -> (r: KeyOrder)
    ensures
        r == KeyOrder::Less <==> bytes_lt(x@, y@),
        r == KeyOrder::Equal <==> x@ == y@,
        r == KeyOrder::Greater <==> bytes_lt(y@, x@),
{
    proof {
        lemma_bytes_lt_irreflexive(x@);
        lemma_bytes_lt_total(x@, y@);
        if bytes_lt(x@, y@) {
            lemma_bytes_lt_asymmetric(x@, y@);
        }
        assert(x@.skip(0) =~= x@);
        assert(y@.skip(0) =~= y@);
    }
    let mut i: usize = 0;
    while i < x.len() && i < y.len()
        invariant
            i <= x@.len(),
            i <= y@.len(),
            forall|j: int| 0 <= j < i ==> x@[j] == y@[j],
            bytes_lt(x@, y@) == bytes_lt(x@.skip(i as int), y@.skip(i as int)),
            bytes_lt(y@, x@) == bytes_lt(y@.skip(i as int), x@.skip(i as int)),
        decreases x@.len() - i,
    {
        if x[i] != y[i] {
            if x[i] < y[i] {
                assert(bytes_lt(x@.skip(i as int), y@.skip(i as int)));
                return KeyOrder::Less;
            } else {
                assert(bytes_lt(y@.skip(i as int), x@.skip(i as int)));
                return KeyOrder::Greater;
            }
        }
        proof {
            lemma_bytes_lt_step(x@, y@, i as int);
            lemma_bytes_lt_step(y@, x@, i as int);
        }
        i = i + 1;
    }
    if x.len() == y.len() {
        assert(x@ =~= y@);
        KeyOrder::Equal
    } else if x.len() < y.len() {
        assert(x@.skip(i as int).len() == 0);
        KeyOrder::Less
    } else {
        assert(y@.skip(i as int).len() == 0);
        KeyOrder::Greater
    }
}

/// Compares two addresses in key order.
pub fn compare_keys(a: &String, b: &String) -> (r: KeyOrder)
    ensures
        r == KeyOrder::Less <==> key_lt(a@, b@),
        r == KeyOrder::Equal <==> a@ == b@,
        r == KeyOrder::Greater <==> key_lt(b@, a@),
{
    let x = a.as_str().as_bytes();
    let y = b.as_str().as_bytes();
    let r = compare_bytes(x, y);
    proof {
        if x@ == y@ {
            lemma_key_bytes_injective(a@, b@);
        }
    }
    r
}

} // verus!
