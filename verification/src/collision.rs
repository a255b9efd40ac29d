//! Counting the boxes of a layout that collide with another box.
use vstd::prelude::*;

verus! {

/// Row `i` of `hits` has a hit off the diagonal.
pub open spec fn collides(row: Seq<bool>, i: int) -> bool {
    exists|k: int| 0 <= k < row.len() && k != i && row[k]
}

/// How many of the first `n` rows of `hits` have a hit off the diagonal.
pub open spec fn colliding(hits: Seq<Vec<bool>>, n: int) -> nat
    decreases n,
{
    if n <= 0 {
        0
    } else {
        colliding(hits, n - 1) + if collides(hits[n - 1]@, n - 1) { 1nat } else { 0nat }
    }
}

/// The number of boxes that collide with another box. `hits[i][k]` is the
/// overlap test of box `i` against the `k`-th pair of a distance and a radius
/// sum formed for box `i`; the pair at position `i` is skipped.
pub fn count_collisions(hits: &Vec<Vec<bool>>) -> (count: usize)
    ensures
        count == colliding(hits@, hits@.len() as int),
{
    let mut count: usize = 0;
    let mut i: usize = 0;
    while i < hits.len()
        invariant
            i <= hits@.len(),
            count == colliding(hits@, i as int),
            count <= i,
        decreases hits@.len() - i,
    {
        let row = &hits[i];
        let mut found = false;
        let mut k: usize = 0;
        while k < row.len()
            invariant
                row == &hits@[i as int],
                k <= row@.len(),
                found == exists|j: int| 0 <= j < k && j != i && row@[j],
            decreases row@.len() - k,
        {
            if k != i && row[k] {
                found = true;
            }
            k = k + 1;
        }
        if found {
            count = count + 1;
        }
        i = i + 1;
    }
    count
}

/// Box `i` has a hit against some position other than its own.
pub open spec fn has_hit_elsewhere(row: Seq<bool>, i: int) -> bool {
    exists|k: int| 0 <= k < row.len() && k != i && #[trigger] row[k]
}

/// Counting the first `n` rows adds one for row `n - 1` exactly when it has a
/// hit at a position other than its own, whatever its other entries.
pub proof fn law_count_grows_by_colliding_rows(hits: Seq<Vec<bool>>, n: int)
    requires
        0 < n <= hits.len(),
    ensures
        has_hit_elsewhere(hits[n - 1]@, n - 1) ==> colliding(hits, n) == colliding(hits, n - 1) + 1,
        !has_hit_elsewhere(hits[n - 1]@, n - 1) ==> colliding(hits, n) == colliding(hits, n - 1),
{
    if has_hit_elsewhere(hits[n - 1]@, n - 1) {
        let k = choose|k: int| 0 <= k < hits[n - 1]@.len() && k != n - 1 && #[trigger] hits[n - 1]@[k];
        assert(collides(hits[n - 1]@, n - 1));
    }
}

/// At most every row collides.
pub proof fn law_count_at_most_rows(hits: Seq<Vec<bool>>, n: int)
    requires
        0 <= n <= hits.len(),
    ensures
        colliding(hits, n) <= n,
    decreases n,
{
    if n > 0 {
        law_count_at_most_rows(hits, n - 1);
    }
}

/// When every row has a hit at a position other than its own, every row
/// counts.
pub proof fn law_all_rows_hit_elsewhere_all_count(hits: Seq<Vec<bool>>, n: int)
    requires
        0 <= n <= hits.len(),
        forall|i: int| 0 <= i < n ==> has_hit_elsewhere(#[trigger] hits[i]@, i),
    ensures
        colliding(hits, n) == n,
    decreases n,
{
    if n > 0 {
        law_all_rows_hit_elsewhere_all_count(hits, n - 1);
        law_count_grows_by_colliding_rows(hits, n);
        assert(has_hit_elsewhere(hits[n - 1]@, n - 1));
    }
}

/// Rows without a hit outside their own position do not count.
pub proof fn law_rows_without_hits_elsewhere_do_not_count(hits: Seq<Vec<bool>>, n: int)
    requires
        0 <= n <= hits.len(),
        forall|i: int, k: int| 0 <= i < n && 0 <= k < hits[i]@.len() && k != i ==> !#[trigger] hits[i]@[k],
    ensures
        colliding(hits, n) == 0,
    decreases n,
{
    if n > 0 {
        law_rows_without_hits_elsewhere_do_not_count(hits, n - 1);
        law_count_grows_by_colliding_rows(hits, n);
    }
}

/// Setting more hits never lowers the count.
pub proof fn law_more_hits_never_lower_the_count(hits: Seq<Vec<bool>>, more: Seq<Vec<bool>>, n: int)
    requires
        0 <= n <= hits.len(),
        n <= more.len(),
        forall|i: int| 0 <= i < n ==> (#[trigger] more[i])@.len() == hits[i]@.len(),
        forall|i: int, k: int| 0 <= i < n && 0 <= k < hits[i]@.len() && #[trigger] hits[i]@[k] ==> more[i]@[k],
    ensures
        colliding(hits, n) <= colliding(more, n),
    decreases n,
{
    if n > 0 {
        law_more_hits_never_lower_the_count(hits, more, n - 1);
        law_count_grows_by_colliding_rows(hits, n);
        law_count_grows_by_colliding_rows(more, n);
        if has_hit_elsewhere(hits[n - 1]@, n - 1) {
            let k = choose|k: int| 0 <= k < hits[n - 1]@.len() && k != n - 1 && #[trigger] hits[n - 1]@[k];
            assert(more[n - 1]@[k]);
            assert(has_hit_elsewhere(more[n - 1]@, n - 1));
        }
    }
}

} // verus!
