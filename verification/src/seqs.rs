//! Sequence facts shared by the column-oriented containers: masking a column by
//! a vector of flags, and element-wise clones.
use vstd::prelude::*;

verus! {

/// Flag `k` of `m`, reading positions past the end of `m` as `false`
/// (a column is zipped with its mask, so entries without a flag are dropped).
pub open spec fn flag(m: Seq<bool>, k: int) -> bool {
    0 <= k < m.len() && m[k]
}

/// The entries of `s` from position `k` on whose flag in `m` is set, in order.
pub open spec fn masked_from<T>(s: Seq<T>, m: Seq<bool>, k: int) -> Seq<T>
    decreases s.len() - k,
{
    if k < 0 || k >= s.len() {
        Seq::empty()
    } else if flag(m, k) {
        seq![s[k]] + masked_from(s, m, k + 1)
    } else {
        masked_from(s, m, k + 1)
    }
}

/// The entries of `s` whose flag in `m` is set, in order.
pub open spec fn masked<T>(s: Seq<T>, m: Seq<bool>) -> Seq<T> {
    masked_from(s, m, 0)
}

/// `b` holds, position by position, clones of the entries of `a`.
pub open spec fn clones<T: Clone>(a: Seq<T>, b: Seq<T>) -> bool {
    &&& a.len() == b.len()
    &&& forall|i: int| 0 <= i < a.len() ==> cloned(#[trigger] a[i], b[i])
}

/// How many of the first `n` flags of `m` are set.
pub open spec fn count_set(m: Seq<bool>, n: int) -> nat
    decreases n,
{
    if n <= 0 {
        0
    } else {
        count_set(m, n - 1) + if flag(m, n - 1) { 1nat } else { 0nat }
    }
}

/// At most `n` of the first `n` flags are set.
pub proof fn lemma_count_set_bound(m: Seq<bool>, n: int)
    requires
        0 <= n,
    ensures
        count_set(m, n) <= n,
    decreases n,
{
    if n > 0 {
        lemma_count_set_bound(m, n - 1);
    }
}

/// Masking from position `k` keeps as many entries as there are set flags
/// among positions `k..s.len()`.
pub proof fn lemma_masked_from_len<T>(s: Seq<T>, m: Seq<bool>, k: int)
    requires
        0 <= k <= s.len(),
    ensures
        masked_from(s, m, k).len() + count_set(m, k) == count_set(m, s.len() as int),
    decreases s.len() - k,
{
    if k < s.len() {
        lemma_masked_from_len(s, m, k + 1);
    }
}

/// The number of entries that survive a mask depends on the column's length only.
pub proof fn lemma_masked_len<T>(s: Seq<T>, m: Seq<bool>)
    ensures
        masked(s, m).len() == count_set(m, s.len() as int),
{
    lemma_masked_from_len(s, m, 0);
}

/// Masking commutes with taking clones element-wise.
pub proof fn lemma_masked_clones<T: Clone>(a: Seq<T>, b: Seq<T>, m: Seq<bool>, k: int)
    requires
        clones(a, b),
        0 <= k <= a.len(),
    ensures
        clones(masked_from(a, m, k), masked_from(b, m, k)),
    decreases a.len() - k,
{
    if k < a.len() {
        lemma_masked_clones(a, b, m, k + 1);
        let ra = masked_from(a, m, k + 1);
        let rb = masked_from(b, m, k + 1);
        if flag(m, k) {
            assert(cloned(a[k], b[k]));
            assert forall|i: int| 0 <= i < ra.len() + 1 implies cloned(
                #[trigger] (seq![a[k]] + ra)[i],
                (seq![b[k]] + rb)[i],
            ) by {
                if i > 0 {
                    assert((seq![a[k]] + ra)[i] == ra[i - 1]);
                    assert((seq![b[k]] + rb)[i] == rb[i - 1]);
                }
            }
        }
    }
}

/// A mask that sets the flag of every position keeps the whole column.
pub proof fn lemma_masked_all_set<T>(s: Seq<T>, m: Seq<bool>, k: int)
    requires
        0 <= k <= s.len(),
        forall|i: int| k <= i < s.len() ==> flag(m, i),
    ensures
        masked_from(s, m, k) == s.subrange(k, s.len() as int),
    decreases s.len() - k,
{
    if k < s.len() {
        lemma_masked_all_set(s, m, k + 1);
        assert(seq![s[k]] + s.subrange(k + 1, s.len() as int) =~= s.subrange(k, s.len() as int));
    } else {
        assert(s.subrange(k, s.len() as int) =~= Seq::<T>::empty());
    }
}

/// A mask that sets no flag at all empties the column.
pub proof fn lemma_masked_none_set<T>(s: Seq<T>, m: Seq<bool>, k: int)
    requires
        0 <= k <= s.len(),
        forall|i: int| k <= i < s.len() ==> !flag(m, i),
    ensures
        masked_from(s, m, k) == Seq::<T>::empty(),
    decreases s.len() - k,
{
    if k < s.len() {
        lemma_masked_none_set(s, m, k + 1);
    }
}

/// The positions `0..n` of a sequence of length `n`.
pub open spec fn positions(n: nat) -> Seq<int> {
    Seq::new(n, |i: int| i)
}

/// Masking the positions of `s` tells, for each surviving entry, the
/// position it came from: that position carries a set flag, and the entry is
/// the one found there.
pub proof fn lemma_masked_positions<T>(s: Seq<T>, m: Seq<bool>, k: int)
    requires
        0 <= k <= s.len(),
    ensures
        masked_from(positions(s.len()), m, k).len() == masked_from(s, m, k).len(),
        forall|a: int|
            0 <= a < masked_from(s, m, k).len() ==> {
                let p = #[trigger] masked_from(positions(s.len()), m, k)[a];
                &&& k <= p < s.len()
                &&& flag(m, p)
                &&& masked_from(s, m, k)[a] == s[p]
            },
    decreases s.len() - k,
{
    if k < s.len() {
        lemma_masked_positions(s, m, k + 1);
        let pr = masked_from(positions(s.len()), m, k + 1);
        let sr = masked_from(s, m, k + 1);
        if flag(m, k) {
            assert forall|a: int| 0 <= a < masked_from(s, m, k).len() implies {
                let p = #[trigger] masked_from(positions(s.len()), m, k)[a];
                &&& k <= p < s.len()
                &&& flag(m, p)
                &&& masked_from(s, m, k)[a] == s[p]
            } by {
                if a > 0 {
                    assert(masked_from(positions(s.len()), m, k)[a] == pr[a - 1]);
                    assert(masked_from(s, m, k)[a] == sr[a - 1]);
                } else {
                    assert(positions(s.len())[k] == k);
                }
            }
        }
    }
}

/// Drops from `v` every entry whose flag in `mask` is not set (entries past the
/// end of `mask` included), keeping the others in order.
pub fn retain_masked<T>(v: &mut Vec<T>, mask: &Vec<bool>)
    ensures
        final(v)@ == masked(old(v)@, mask@),
{
    let ghost s = old(v)@;
    let mut i: usize = v.len();
    assert(s.take(i as int) =~= s);
    while i > 0
        invariant
            i <= s.len(),
            v@ == s.take(i as int) + masked_from(s, mask@, i as int),
        decreases i,
    {
        i = i - 1;
        let keep = i < mask.len() && mask[i];
        let ghost rest = masked_from(s, mask@, i + 1);
        assert(s.take(i + 1) =~= s.take(i as int).push(s[i as int]));
        if keep {
            assert(s.take(i + 1) + rest =~= s.take(i as int) + (seq![s[i as int]] + rest));
        } else {
            v.remove(i);
            assert((s.take(i + 1) + rest).remove(i as int) =~= s.take(i as int) + rest);
        }
    }
    assert(s.take(0) + masked_from(s, mask@, 0) =~= masked(s, mask@));
}

} // verus!
