//! The order of ids: the order of their text, byte by byte, which is the
//! order that the standard library gives to strings.

use vstd::prelude::*;
use vstd::utf8::{encode_utf8, encode_utf8_decode_utf8};

verus! {

/// How one text stands to another.
#[derive(Clone, Copy, Debug, PartialEq, Eq, Structural)]
pub enum Rank {
    Before,
    Same,
    After,
}

/// How the bytes `a` stand to the bytes `b`: the first byte in which they
/// differ decides, and where there is none the shorter comes first.
pub open spec fn rank(a: Seq<u8>, b: Seq<u8>) -> Rank
    decreases a.len(),
{
    if a.len() == 0 && b.len() == 0 {
        Rank::Same
    } else if a.len() == 0 {
        Rank::Before
    } else if b.len() == 0 {
        Rank::After
    } else if a[0] < b[0] {
        Rank::Before
    } else if a[0] > b[0] {
        Rank::After
    } else {
        rank(a.drop_first(), b.drop_first())
    }
}

/// How the text `a` stands to the text `b`.
pub open spec fn text_rank(a: Seq<char>, b: Seq<char>) -> Rank {
    rank(encode_utf8(a), encode_utf8(b))
}

/// Compares two strings byte by byte.
pub fn compare_text(a: &String, b: &String) -> (r: Rank)
    ensures
        r == text_rank(a@, b@),
{
    let x = a.as_str().as_bytes();
    let y = b.as_str().as_bytes();
    let mut i: usize = 0;
    proof {
        assert(x@.skip(0) == x@);
        assert(y@.skip(0) == y@);
    }
    while i < x.len() && i < y.len()
        invariant
            i <= x.len(),
            i <= y.len(),
            x@ == encode_utf8(a@),
            y@ == encode_utf8(b@),
            rank(x@, y@) == rank(x@.skip(i as int), y@.skip(i as int)),
        decreases x.len() - i,
    {
        proof {
            assert(x@.skip(i as int)[0] == x@[i as int]);
            assert(y@.skip(i as int)[0] == y@[i as int]);
            assert(x@.skip(i as int).drop_first() == x@.skip(i + 1));
            assert(y@.skip(i as int).drop_first() == y@.skip(i + 1));
        }
        if x[i] < y[i] {
            return Rank::Before;
        }
        if x[i] > y[i] {
            return Rank::After;
        }
        i += 1;
    }
    if i < y.len() {
        Rank::Before
    } else if i < x.len() {
        Rank::After
    } else {
        Rank::Same
    }
}

/// Two byte strings stand as the same exactly when they are equal.
pub proof fn lemma_rank_same(a: Seq<u8>, b: Seq<u8>)
    ensures
        rank(a, b) is Same <==> a == b,
    decreases a.len(),
{
    if a.len() > 0 && b.len() > 0 {
        lemma_rank_same(a.drop_first(), b.drop_first());
        if a[0] == b[0] && a.drop_first() == b.drop_first() {
            assert(a =~= seq![a[0]] + a.drop_first());
            assert(b =~= seq![b[0]] + b.drop_first());
        }
    } else if a.len() == 0 && b.len() == 0 {
        assert(a =~= b);
    }
}

/// Two texts stand as the same exactly when they are equal.
pub proof fn lemma_text_rank_same(a: Seq<char>, b: Seq<char>)
    ensures
        text_rank(a, b) is Same <==> a == b,
{
    lemma_rank_same(encode_utf8(a), encode_utf8(b));
    encode_utf8_decode_utf8(a);
    encode_utf8_decode_utf8(b);
}

/// What comes before from one side comes after from the other.
pub proof fn lemma_rank_mirrors(a: Seq<u8>, b: Seq<u8>)
    ensures
        rank(a, b) is Before <==> rank(b, a) is After,
        rank(a, b) is Same <==> rank(b, a) is Same,
    decreases a.len(),
{
    if a.len() > 0 && b.len() > 0 {
        lemma_rank_mirrors(a.drop_first(), b.drop_first());
    }
}

/// What comes before something that comes before a third comes before the
/// third.
pub proof fn lemma_rank_chains(a: Seq<u8>, b: Seq<u8>, c: Seq<u8>)
    requires
        rank(a, b) is Before,
        rank(b, c) is Before,
    ensures
        rank(a, c) is Before,
    decreases a.len(),
{
    if a.len() > 0 && b.len() > 0 && c.len() > 0 {
        if a[0] == b[0] && b[0] == c[0] {
            lemma_rank_chains(a.drop_first(), b.drop_first(), c.drop_first());
        }
    }
}

} // verus!
