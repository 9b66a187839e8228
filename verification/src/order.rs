//! Lexicographic order on byte strings: the order in which vault entry
//! names are kept, listed and written.

use vstd::prelude::*;

verus! {

/// `a` sorts strictly before `b`, comparing byte by byte, a proper prefix first.
pub open spec fn bytes_lt(a: Seq<u8>, b: Seq<u8>) -> bool
    decreases a.len(),
{
    if a.len() == 0 {
        b.len() > 0
    } else if b.len() == 0 {
        false
    } else if a[0] != b[0] {
        a[0] < b[0]
    } else {
        bytes_lt(a.drop_first(), b.drop_first())
    }
}

pub proof fn lemma_lt_irreflexive(a: Seq<u8>)
    ensures
        !bytes_lt(a, a),
    decreases a.len(),
{
    if a.len() > 0 {
        lemma_lt_irreflexive(a.drop_first());
    }
}

pub proof fn lemma_lt_asymmetric(a: Seq<u8>, b: Seq<u8>)
    ensures
        bytes_lt(a, b) ==> !bytes_lt(b, a),
    decreases a.len(),
{
    if a.len() > 0 && b.len() > 0 && a[0] == b[0] {
        lemma_lt_asymmetric(a.drop_first(), b.drop_first());
    }
}

pub proof fn lemma_lt_total(a: Seq<u8>, b: Seq<u8>)
    ensures
        a != b ==> bytes_lt(a, b) || bytes_lt(b, a),
    decreases a.len(),
{
    if a.len() > 0 && b.len() > 0 && a[0] == b[0] {
        lemma_lt_total(a.drop_first(), b.drop_first());
        if a.drop_first() == b.drop_first() {
            assert(a =~= seq![a[0]] + a.drop_first());
            assert(b =~= seq![b[0]] + b.drop_first());
        }
    } else if a.len() == 0 && b.len() == 0 {
        assert(a =~= b);
    }
}

pub proof fn lemma_lt_transitive(a: Seq<u8>, b: Seq<u8>, c: Seq<u8>)
    requires
        bytes_lt(a, b),
        bytes_lt(b, c),
    ensures
        bytes_lt(a, c),
    decreases a.len(),
{
    if a.len() > 0 && b.len() > 0 && c.len() > 0 && a[0] == b[0] && b[0] == c[0] {
        lemma_lt_transitive(a.drop_first(), b.drop_first(), c.drop_first());
    }
}

/// Comparing at a shared position moves on to the rest.
proof fn lemma_lt_skip(a: Seq<u8>, b: Seq<u8>, i: int)
    requires
        0 <= i < a.len(),
        i < b.len(),
        a[i] == b[i],
    ensures
        bytes_lt(a.skip(i), b.skip(i)) == bytes_lt(a.skip(i + 1), b.skip(i + 1)),
{
    assert(a.skip(i).drop_first() =~= a.skip(i + 1));
    assert(b.skip(i).drop_first() =~= b.skip(i + 1));
}

/// Outcome of comparing two byte strings.
#[derive(Clone, Copy, Debug, PartialEq, Eq)]
pub enum Order {
    Less,
    Equal,
    Greater,
}

/// Compares two byte strings lexicographically.
pub fn compare_bytes(a: &[u8], b: &[u8]) -> (o: Order)
    ensures
        o == Order::Less <==> bytes_lt(a@, b@),
        o == Order::Equal <==> a@ == b@,
        o == Order::Greater <==> bytes_lt(b@, a@),
{
    let mut i: usize = 0;
    assert(a@.skip(0) =~= a@);
    assert(b@.skip(0) =~= b@);
    while i < a.len() && i < b.len()
        invariant
            i <= a@.len(),
            i <= b@.len(),
            forall|j: int| 0 <= j < i ==> a@[j] == b@[j],
            bytes_lt(a@, b@) == bytes_lt(a@.skip(i as int), b@.skip(i as int)),
            bytes_lt(b@, a@) == bytes_lt(b@.skip(i as int), a@.skip(i as int)),
        decreases a@.len() - i,
    {
        if a[i] < b[i] {
            proof {
                lemma_lt_asymmetric(a@, b@);
                assert(a@.skip(i as int)[0] == a@[i as int]);
                assert(b@.skip(i as int)[0] == b@[i as int]);
                assert(a@[i as int] != b@[i as int]);
            }
            return Order::Less;
        }
        if a[i] > b[i] {
            proof {
                lemma_lt_asymmetric(b@, a@);
                assert(a@.skip(i as int)[0] == a@[i as int]);
                assert(b@.skip(i as int)[0] == b@[i as int]);
                assert(a@[i as int] != b@[i as int]);
            }
            return Order::Greater;
        }
        proof {
            lemma_lt_skip(a@, b@, i as int);
            lemma_lt_skip(b@, a@, i as int);
        }
        i = i + 1;
    }
    if a.len() == b.len() {
        assert(a@ =~= b@);
        proof {
            lemma_lt_irreflexive(a@);
        }
        Order::Equal
    } else if a.len() < b.len() {
        assert(a@.skip(i as int).len() == 0);
        assert(a@ != b@);
        Order::Less
    } else {
        assert(b@.skip(i as int).len() == 0);
        assert(a@ != b@);
        Order::Greater
    }
}

/// `needle` occurs in `hay` as a run of consecutive bytes.
pub open spec fn occurs_in(needle: Seq<u8>, hay: Seq<u8>) -> bool {
    exists|k: int| 0 <= k && k + needle.len() <= hay.len() && #[trigger] hay.subrange(k, k + needle.len()) == needle
}

/// Whether `needle` occurs in `hay` as a run of consecutive bytes.
pub fn contains_bytes(hay: &[u8], needle: &[u8]) -> (found: bool)
    ensures
        found == occurs_in(needle@, hay@),
{
    let n = needle.len();
    if n > hay.len() {
        proof {
            assert forall|k: int| 0 <= k && k + n <= hay@.len() implies #[trigger] hay@.subrange(k, k + n) != needle@ by {}
        }
        return false;
    }
    let h = hay.len();
    let last = h - n;
    let mut k: usize = 0;
    while k <= last
        invariant
            h == hay@.len(),
            n == needle@.len(),
            last == hay@.len() - n,
            k <= last + 1,
            forall|j: int| 0 <= j < k ==> #[trigger] hay@.subrange(j, j + n) != needle@,
        decreases last + 1 - k,
    {
        let mut i: usize = 0;
        while i < n && hay[k + i] == needle[i]
            invariant
                h == hay@.len(),
                n == needle@.len(),
                last == hay@.len() - n,
                k <= last,
                i <= n,
                forall|m: int| 0 <= m < i ==> hay@[k + m] == needle@[m],
            decreases n - i,
        {
            i = i + 1;
        }
        if i == n {
            assert(hay@.subrange(k as int, k + n) =~= needle@);
            return true;
        }
        assert(hay@.subrange(k as int, k + n)[i as int] != needle@[i as int]);
        k = k + 1;
    }
    false
}

} // verus!
