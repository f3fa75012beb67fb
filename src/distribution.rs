use vstd::prelude::*;
use vstd::seq_lib::lemma_multiset_commutative;

verus! {

/// How many times `b` occurs in `s`.
pub open spec fn count_of(s: Seq<u8>, b: u8) -> nat
    decreases s.len(),
{
    if s.len() == 0 {
        0
    } else {
        count_of(s.drop_last(), b) + if s.last() == b {
            1nat
        } else {
            0nat
        }
    }
}

/// The entries `(b, count)` of the bytes `b < k` that occur in `s`, by byte value.
pub open spec fn tally_upto(s: Seq<u8>, k: int) -> Seq<(u8, u64)>
    decreases k,
{
    if k <= 0 {
        Seq::empty()
    } else {
        let prev = tally_upto(s, k - 1);
        let c = count_of(s, (k - 1) as u8);
        if c > 0 {
            prev.push(((k - 1) as u8, c as u64))
        } else {
            prev
        }
    }
}

/// The distribution of `s`: one entry per byte value that occurs, with its
/// number of occurrences, in increasing byte order.
pub open spec fn tally(s: Seq<u8>) -> Seq<(u8, u64)> {
    tally_upto(s, 256)
}

proof fn lemma_count_le_len(s: Seq<u8>, b: u8)
    ensures
        count_of(s, b) <= s.len(),
    decreases s.len(),
{
    if s.len() > 0 {
        lemma_count_le_len(s.drop_last(), b);
    }
}

/// Counts the occurrences of each byte value of `bytes`.
pub fn count_distribution(bytes: &Vec<u8>) -> (r: Vec<(u8, u64)>)
    requires
        bytes@.len() <= u64::MAX,
    ensures
        r@ == tally(bytes@),
{
    let mut counts: Vec<u64> = Vec::new();
    let mut v: usize = 0;
    while v < 256
        invariant
            v <= 256,
            counts@.len() == v,
            forall|k: int| 0 <= k < v ==> #[trigger] counts@[k] == 0,
        decreases 256 - v,
    {
        counts.push(0);
        v = v + 1;
    }
    let mut i: usize = 0;
    while i < bytes.len()
        invariant
            i <= bytes@.len(),
            bytes@.len() <= u64::MAX,
            counts@.len() == 256,
            forall|k: int| 0 <= k < 256 ==> #[trigger] counts@[k] == count_of(bytes@.take(i as int), k as u8),
        decreases bytes@.len() - i,
    {
        let b = bytes[i];
        assert(bytes@.take(i as int + 1).drop_last() =~= bytes@.take(i as int));
        proof {
            lemma_count_le_len(bytes@.take(i as int), b);
        }
        counts[b as usize] = counts[b as usize] + 1;
        proof {
            assert forall|k: int| 0 <= k < 256 implies #[trigger] counts@[k] == count_of(bytes@.take(i as int + 1), k as u8) by {
                assert((k as u8 == b) == (k == b as int));
            }
        }
        i = i + 1;
    }
    assert(bytes@.take(i as int) =~= bytes@);
    let mut r: Vec<(u8, u64)> = Vec::new();
    let mut k: usize = 0;
    while k < 256
        invariant
            k <= 256,
            counts@.len() == 256,
            forall|j: int| 0 <= j < 256 ==> #[trigger] counts@[j] == count_of(bytes@, j as u8),
            r@ == tally_upto(bytes@, k as int),
        decreases 256 - k,
    {
        if counts[k] > 0 {
            r.push((k as u8, counts[k]));
        }
        k = k + 1;
    }
    r
}

/// Whether `a` comes no later than `b` in frequency order: larger counts
/// first, equal counts by increasing byte value.
pub open spec fn freq_le(a: (u8, u64), b: (u8, u64)) -> bool {
    a.1 > b.1 || (a.1 == b.1 && a.0 <= b.0)
}

pub open spec fn sorted_by_frequency(d: Seq<(u8, u64)>) -> bool {
    forall|a: int, b: int| 0 <= a < b < d.len() ==> freq_le(#[trigger] d[a], #[trigger] d[b])
}

proof fn lemma_swap_multiset(s: Seq<(u8, u64)>, j: int)
    requires
        1 <= j < s.len(),
    ensures
        s.update(j - 1, s[j]).update(j, s[j - 1]).to_multiset() == s.to_multiset(),
{
    let t = s.update(j - 1, s[j]).update(j, s[j - 1]);
    let pre = s.take(j - 1);
    let post = s.skip(j + 1);
    assert(s =~= pre + (seq![s[j - 1]] + seq![s[j]]) + post);
    assert(t =~= pre + (seq![s[j]] + seq![s[j - 1]]) + post);
    lemma_multiset_commutative(seq![s[j - 1]], seq![s[j]]);
    lemma_multiset_commutative(seq![s[j]], seq![s[j - 1]]);
    lemma_multiset_commutative(pre, seq![s[j - 1]] + seq![s[j]]);
    lemma_multiset_commutative(pre, seq![s[j]] + seq![s[j - 1]]);
    lemma_multiset_commutative(pre + (seq![s[j - 1]] + seq![s[j]]), post);
    lemma_multiset_commutative(pre + (seq![s[j]] + seq![s[j - 1]]), post);
    assert(seq![s[j - 1]].to_multiset().add(seq![s[j]].to_multiset()) =~= seq![s[j]].to_multiset().add(
        seq![s[j - 1]].to_multiset(),
    ));
}

/// Reorders `d` by decreasing count, equal counts by increasing byte value.
pub fn order_by_frequency(d: &mut Vec<(u8, u64)>)
    ensures
        final(d)@.to_multiset() == old(d)@.to_multiset(),
        final(d)@.len() == old(d)@.len(),
        sorted_by_frequency(final(d)@),
{
    let n = d.len();
    let mut i: usize = 1;
    if n == 0 {
        return;
    }
    while i < n
        invariant
            1 <= i <= n,
            n == d@.len(),
            d@.to_multiset() == old(d)@.to_multiset(),
            d@.len() == old(d)@.len(),
            forall|a: int, b: int| 0 <= a < b < i ==> freq_le(#[trigger] d@[a], #[trigger] d@[b]),
        decreases n - i,
    {
        let mut j: usize = i;
        while j > 0 && !(d[j - 1].1 > d[j].1 || (d[j - 1].1 == d[j].1 && d[j - 1].0 <= d[j].0))
            invariant
                j <= i < n,
                n == d@.len(),
                d@.to_multiset() == old(d)@.to_multiset(),
                d@.len() == old(d)@.len(),
                forall|a: int, b: int|
                    0 <= a < b <= i && a != j && b != j ==> freq_le(#[trigger] d@[a], #[trigger] d@[b]),
                forall|b: int| j < b <= i ==> freq_le(d@[j as int], #[trigger] d@[b]),
            decreases j,
        {
            let ghost s = d@;
            let lo = d[j - 1];
            let hi = d[j];
            d[j - 1] = hi;
            d[j] = lo;
            proof {
                assert(d@ == s.update(j - 1, s[j as int]).update(j as int, s[j - 1]));
                lemma_swap_multiset(s, j as int);
            }
            j = j - 1;
        }
        proof {
            assert forall|a: int, b: int| 0 <= a < b < i + 1 implies freq_le(#[trigger] d@[a], #[trigger] d@[b]) by {
                if b == j && a < j - 1 {
                    assert(freq_le(d@[a], d@[j - 1]));
                }
            }
        }
        i = i + 1;
    }
}

} // verus!
