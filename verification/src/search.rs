//! The operators that steer the search: which archive row to explore next,
//! and whether to go on.
use vstd::prelude::*;
use crate::archive::Archive;
use crate::pareto::min2;
use crate::random::random_below;

verus! {

/// The number of calls of [`should_continiue`] after which the search stops.
pub const ITERATION_LIMIT: usize = 10000;

/// The indices below `k` whose flag in `visited` is not set, in increasing order.
pub open spec fn unvisited_prefix(visited: Seq<bool>, k: int) -> Seq<usize>
    decreases k,
{
    if k <= 0 {
        Seq::empty()
    } else if !visited[k - 1] {
        unvisited_prefix(visited, k - 1).push((k - 1) as usize)
    } else {
        unvisited_prefix(visited, k - 1)
    }
}

/// The rows that zipping the visited and validity columns yields.
pub open spec fn picked_rows<S, F>(archive: &Archive<S, F>) -> int {
    min2(archive.visited@.len() as int, archive.valid@.len() as int)
}

/// An index is listed exactly when it lies below `k` and is not visited.
pub proof fn lemma_unvisited_prefix(visited: Seq<bool>, k: int, x: usize)
    requires
        0 <= k <= visited.len(),
        k <= usize::MAX,
    ensures
        unvisited_prefix(visited, k).contains(x) <==> (x < k && !visited[x as int]),
    decreases k,
{
    if k > 0 {
        lemma_unvisited_prefix(visited, k - 1, x);
        let prev = unvisited_prefix(visited, k - 1);
        if !visited[k - 1] {
            let cur = prev.push((k - 1) as usize);
            if x == k - 1 {
                assert(cur[cur.len() - 1] == x);
            }
            if prev.contains(x) {
                let w = choose|w: int| 0 <= w < prev.len() && prev[w] == x;
                assert(cur[w] == x);
            }
            if cur.contains(x) && x != k - 1 {
                let w = choose|w: int| 0 <= w < cur.len() && cur[w] == x;
                assert(prev[w] == x);
            }
        }
    }
}

/// The rows of the archive that are not yet visited, in increasing order
/// (over the rows that the visited and validity columns share).
pub fn unvisited_rows<S, F>(archive: &Archive<S, F>) -> (rows: Vec<usize>)
    ensures
        rows@ == unvisited_prefix(archive.visited@, picked_rows(archive)),
{
    let n = if archive.visited.len() < archive.valid.len() {
        archive.visited.len()
    } else {
        archive.valid.len()
    };
    let mut rows: Vec<usize> = Vec::new();
    let mut i: usize = 0;
    while i < n
        invariant
            n == picked_rows(archive),
            i <= n,
            rows@ == unvisited_prefix(archive.visited@, i as int),
        decreases n - i,
    {
        if !archive.visited[i] {
            rows.push(i);
        }
        i = i + 1;
    }
    rows
}

/// Picks, uniformly at random, a row of the archive that is not yet visited;
/// `None` when every row is visited.
pub fn pick_operator<S, F>(archive: &Archive<S, F>) -> (pick: Option<usize>)
    ensures
        pick is None <==> forall|k: int| 0 <= k < picked_rows(archive) ==> archive.visited@[k],
        pick matches Some(i) ==> i < picked_rows(archive) && !archive.visited@[i as int],
        pick matches Some(i) ==> unvisited_prefix(archive.visited@, picked_rows(archive)).contains(i),
{
    let non_visited = unvisited_rows(archive);
    let n = if archive.visited.len() < archive.valid.len() {
        archive.visited.len()
    } else {
        archive.valid.len()
    };
    if non_visited.len() == 0 {
        proof {
            assert forall|k: int| 0 <= k < n implies archive.visited@[k] by {
                lemma_unvisited_prefix(archive.visited@, n as int, k as usize);
            }
        }
        return None;
    }
    let index = random_below(non_visited.len());
    let pick = non_visited[index];
    proof {
        assert(non_visited@.contains(pick));
        lemma_unvisited_prefix(archive.visited@, n as int, pick);
    }
    Some(pick)
}

/// Counts one more call in `counter` and tells whether the search goes on:
/// while fewer than [`ITERATION_LIMIT`] calls were counted and some row of the
/// archive is not yet visited.
pub fn should_continiue<S, F>(counter: &mut usize, archive: &Archive<S, F>) -> (go_on: bool)
    requires
        *old(counter) < usize::MAX,
    ensures
        *final(counter) == *old(counter) + 1,
        go_on == (*final(counter) < ITERATION_LIMIT && exists|k: int|
            0 <= k < archive.visited@.len() && !archive.visited@[k]),
{
    *counter = *counter + 1;
    if *counter >= ITERATION_LIMIT {
        return false;
    }
    let mut k: usize = 0;
    while k < archive.visited.len()
        invariant
            k <= archive.visited@.len(),
            forall|j: int| 0 <= j < k ==> archive.visited@[j],
            *counter == *old(counter) + 1,
            *counter < ITERATION_LIMIT,
        decreases archive.visited@.len() - k,
    {
        if !archive.visited[k] {
            assert(!archive.visited@[k as int]);
            return true;
        }
        k = k + 1;
    }
    false
}

/// A visited row is never picked.
pub proof fn law_visited_row_is_never_picked<S, F>(archive: &Archive<S, F>, i: usize)
    requires
        i < archive.visited@.len(),
        archive.visited@[i as int],
        archive.visited@.len() <= usize::MAX,
    ensures
        !unvisited_prefix(archive.visited@, picked_rows(archive)).contains(i),
{
    lemma_unvisited_prefix(archive.visited@, picked_rows(archive), i);
}

/// On a well-formed archive, when the search goes on there is a row to pick:
/// if some row is unvisited, the list of unvisited rows is not empty.
pub proof fn law_going_on_leaves_a_pick<S, F>(archive: &Archive<S, F>, k: int)
    requires
        archive.wf(),
        archive.visited@.len() <= usize::MAX,
        0 <= k < archive.visited@.len(),
        !archive.visited@[k],
    ensures
        unvisited_prefix(archive.visited@, picked_rows(archive)).len() > 0,
{
    lemma_unvisited_prefix(archive.visited@, picked_rows(archive), k as usize);
}

} // verus!
