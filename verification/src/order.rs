use vstd::prelude::*;
use vstd::utf8::{encode_utf8, encode_utf8_decode_utf8};

verus! {

/// How one value stands to another in an order.
#[derive(Debug, Clone, Copy, PartialEq, Eq, Structural)]
pub enum Rank {
    Before,
    Same,
    After,
}

/// Whether `a` comes before `b` in the order of byte strings: at the first
/// place where they differ `a` has the smaller byte, or `a` ends there and
/// `b` does not.
pub open spec fn bytes_before(a: Seq<u8>, b: Seq<u8>) -> bool
    decreases a.len(),
{
    if b.len() == 0 {
        false
    } else if a.len() == 0 {
        true
    } else if a[0] != b[0] {
        a[0] < b[0]
    } else {
        bytes_before(a.drop_first(), b.drop_first())
    }
}

/// Whether the text `a` comes before the text `b`: in the order of the
/// bytes of their UTF-8 encodings.
pub open spec fn text_before(a: Seq<char>, b: Seq<char>) -> bool {
    bytes_before(encode_utf8(a), encode_utf8(b))
}

/// No byte string comes before itself.
pub proof fn lemma_bytes_before_irreflexive(a: Seq<u8>)
    ensures
        !bytes_before(a, a),
    decreases a.len(),
{
    if a.len() > 0 {
        lemma_bytes_before_irreflexive(a.drop_first());
    }
}

/// What comes before a byte string comes before all that this comes
/// before.
pub proof fn lemma_bytes_before_transitive(a: Seq<u8>, b: Seq<u8>, c: Seq<u8>)
    requires
        bytes_before(a, b),
        bytes_before(b, c),
    ensures
        bytes_before(a, c),
    decreases a.len(),
{
    if a.len() > 0 && a[0] == b[0] && b[0] == c[0] {
        lemma_bytes_before_transitive(a.drop_first(), b.drop_first(), c.drop_first());
    }
}

/// Of two different byte strings one comes before the other.
pub proof fn lemma_bytes_before_total(a: Seq<u8>, b: Seq<u8>)
    requires
        a != b,
    ensures
        bytes_before(a, b) || bytes_before(b, a),
    decreases a.len(),
{
    if a.len() > 0 && b.len() > 0 && a[0] == b[0] {
        assert(a.drop_first() != b.drop_first()) by {
            if a.drop_first() == b.drop_first() {
                assert(a =~= seq![a[0]] + a.drop_first());
                assert(b =~= seq![b[0]] + b.drop_first());
            }
        }
        lemma_bytes_before_total(a.drop_first(), b.drop_first());
    } else if a.len() == 0 {
        assert(b.len() > 0) by {
            if b.len() == 0 {
                assert(a =~= b);
            }
        }
    }
}

/// The order of texts is a strict order in which any two different texts
/// are ordered.
pub proof fn lemma_text_before_is_an_order(a: Seq<char>, b: Seq<char>, c: Seq<char>)
    ensures
        !text_before(a, a),
        text_before(a, b) && text_before(b, c) ==> text_before(a, c),
        a != b ==> text_before(a, b) || text_before(b, a),
{
    lemma_bytes_before_irreflexive(encode_utf8(a));
    if text_before(a, b) && text_before(b, c) {
        lemma_bytes_before_transitive(encode_utf8(a), encode_utf8(b), encode_utf8(c));
    }
    if a != b {
        encode_utf8_decode_utf8(a);
        encode_utf8_decode_utf8(b);
        lemma_bytes_before_total(encode_utf8(a), encode_utf8(b));
    }
}

/// How the byte string `a` stands to the byte string `b`.
pub fn rank_bytes(a: &[u8], b: &[u8]) -> (rank: Rank)
    ensures
        rank == Rank::Before <==> bytes_before(a@, b@),
        rank == Rank::Same <==> a@ == b@,
        rank == Rank::After <==> bytes_before(b@, a@),
{
    let mut i: usize = 0;
    assert(a@.skip(0) =~= a@ && b@.skip(0) =~= b@);
    while i < a.len() && i < b.len()
        invariant
            i <= a.len(),
            i <= b.len(),
            forall|j: int| 0 <= j < i ==> a@[j] == b@[j],
            bytes_before(a@, b@) == bytes_before(a@.skip(i as int), b@.skip(i as int)),
            bytes_before(b@, a@) == bytes_before(b@.skip(i as int), a@.skip(i as int)),
        decreases a.len() - i,
    {
        proof {
            assert(a@.skip(i as int).drop_first() =~= a@.skip(i + 1));
            assert(b@.skip(i as int).drop_first() =~= b@.skip(i + 1));
            assert(a@.skip(i as int)[0] == a@[i as int]);
            assert(b@.skip(i as int)[0] == b@[i as int]);
        }
        if a[i] < b[i] {
            return Rank::Before;
        }
        if a[i] > b[i] {
            return Rank::After;
        }
        i += 1;
    }
    proof {
        lemma_bytes_before_irreflexive(a@);
        if a.len() == b.len() {
            assert(a@ =~= b@);
        }
    }
    if i < b.len() {
        Rank::Before
    } else if i < a.len() {
        Rank::After
    } else {
        Rank::Same
    }
}

/// How the text `a` stands to the text `b`.
pub fn rank_text(a: &str, b: &str) -> (rank: Rank)
    ensures
        rank == Rank::Before <==> text_before(a@, b@),
        rank == Rank::Same <==> a@ == b@,
        rank == Rank::After <==> text_before(b@, a@),
{
    proof {
        encode_utf8_decode_utf8(a@);
        encode_utf8_decode_utf8(b@);
    }
    rank_bytes(a.as_bytes(), b.as_bytes())
}

} // verus!
