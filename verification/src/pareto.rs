//! Pareto dominance between rows of an archive, and the Pareto front.
//!
//! Objective values are compared component by component outside this module
//! (they are floating-point numbers with a tolerance); here a comparison is a
//! [`Standing`], and dominance, the front and the cleaning step are decided
//! from those standings and the archive's flags.
use vstd::prelude::*;
use crate::archive::{Archive, law_mask_keeping_all_is_identity, law_rows_stay_aligned};
use crate::pls::appended_row;
use crate::seqs::{count_set, flag, lemma_count_set_bound, lemma_masked_positions, masked, masked_from, positions};

verus! {

/// How one objective value stands against another one.
#[derive(PartialEq, Eq, Structural, Clone, Copy, Debug)]
pub enum Standing {
    /// Strictly greater.
    Higher,
    /// Not greater, but greater or equal up to the tolerance.
    Even,
    /// Neither greater nor equal up to the tolerance.
    Lower,
}

/// Along `row` the first set of values is at least even everywhere and higher
/// somewhere: it outranks the second.
pub open spec fn outranks(row: Seq<Standing>) -> bool {
    &&& exists|c: int| 0 <= c < row.len() && row[c] == Standing::Higher
    &&& forall|c: int| 0 <= c < row.len() ==> row[c] != Standing::Lower
}

/// Along `row` the first set of values is nowhere higher and lower somewhere:
/// it is outranked by the second.
pub open spec fn outranked(row: Seq<Standing>) -> bool {
    &&& forall|c: int| 0 <= c < row.len() ==> row[c] != Standing::Higher
    &&& exists|c: int| 0 <= c < row.len() && row[c] == Standing::Lower
}

/// The smaller of two integers.
pub open spec fn min2(a: int, b: int) -> int {
    if a <= b { a } else { b }
}

/// The number of rows that zipping the objective, validity and visited
/// columns yields.
pub open spec fn zipped_rows<S, F>(archive: &Archive<S, F>) -> int {
    min2(
        min2(archive.fitnesses@.len() as int, archive.valid@.len() as int),
        archive.visited@.len() as int,
    )
}

/// Row `k` of `archive` dominates a candidate whose standings against row `k`
/// are `row`: the row takes part (it is visited, or the candidate is invalid)
/// and the candidate is outranked by it.
pub open spec fn row_dominates<S, F>(
    archive: &Archive<S, F>,
    row: Seq<Standing>,
    k: int,
    valid: bool,
) -> bool {
    &&& archive.visited@[k] || !valid
    &&& outranked(row)
}

/// Some row of `archive` dominates the candidate.
pub open spec fn spec_dominates<S, F>(
    archive: &Archive<S, F>,
    standings: Seq<Vec<Standing>>,
    valid: bool,
) -> bool {
    exists|k: int| 0 <= k < zipped_rows(archive) && row_dominates(archive, standings[k]@, k, valid)
}

/// `true` when no standing in `row` is `Higher` and one is `Lower`.
fn is_outranked(row: &Vec<Standing>) -> (res: bool)
    ensures
        res == outranked(row@),
{
    let mut some_lower = false;
    let mut i: usize = 0;
    while i < row.len()
        invariant
            i <= row@.len(),
            forall|c: int| 0 <= c < i ==> row@[c] != Standing::Higher,
            some_lower == exists|c: int| 0 <= c < i && row@[c] == Standing::Lower,
        decreases row@.len() - i,
    {
        match row[i] {
            Standing::Higher => {
                return false;
            },
            Standing::Lower => {
                some_lower = true;
            },
            Standing::Even => {},
        }
        i = i + 1;
    }
    some_lower
}

/// `true` when no standing in `row` is `Lower` and one is `Higher`.
fn is_outranking(row: &Vec<Standing>) -> (res: bool)
    ensures
        res == outranks(row@),
{
    let mut some_higher = false;
    let mut i: usize = 0;
    while i < row.len()
        invariant
            i <= row@.len(),
            forall|c: int| 0 <= c < i ==> row@[c] != Standing::Lower,
            some_higher == exists|c: int| 0 <= c < i && row@[c] == Standing::Higher,
        decreases row@.len() - i,
    {
        match row[i] {
            Standing::Lower => {
                return false;
            },
            Standing::Higher => {
                some_higher = true;
            },
            Standing::Even => {},
        }
        i = i + 1;
    }
    some_higher
}

/// Whether the archive dominates a candidate with validity `valid`.
/// `standings[k][c]` is how the candidate's `c`-th objective value stands
/// against the `c`-th objective value of row `k`. A row counts when it is
/// visited, or when the candidate is invalid.
pub fn dominates<S, F>(archive: &Archive<S, F>, standings: &Vec<Vec<Standing>>, valid: bool) -> (res: bool)
    requires
        standings@.len() == archive.fitnesses@.len(),
    ensures
        res == spec_dominates(archive, standings@, valid),
{
    let n = if archive.valid.len() < standings.len() { archive.valid.len() } else { standings.len() };
    let n = if archive.visited.len() < n { archive.visited.len() } else { n };
    let mut k: usize = 0;
    while k < n
        invariant
            n == zipped_rows(archive),
            standings@.len() == archive.fitnesses@.len(),
            k <= n,
            forall|j: int| 0 <= j < k ==> !row_dominates(archive, #[trigger] standings@[j]@, j, valid),
        decreases n - k,
    {
        if (archive.visited[k] || !valid) && is_outranked(&standings[k]) {
            return true;
        }
        k = k + 1;
    }
    false
}

/// Row `j` knocks row `k` out of the front: it is valid or row `k` is not,
/// and it outranks row `k`.
pub open spec fn knocks_out<S, F>(
    archive: &Archive<S, F>,
    standings: Seq<Vec<Vec<Standing>>>,
    j: int,
    k: int,
) -> bool {
    &&& archive.valid@[j] || !archive.valid@[k]
    &&& outranks(standings[j]@[k]@)
}

/// Row `k` belongs to the front: it is unvisited or valid, and no row knocks
/// it out.
pub open spec fn in_front<S, F>(
    archive: &Archive<S, F>,
    standings: Seq<Vec<Vec<Standing>>>,
    k: int,
) -> bool {
    &&& !archive.visited@[k] || archive.valid@[k]
    &&& !exists|j: int|
        0 <= j < min2(archive.fitnesses@.len() as int, archive.valid@.len() as int) && knocks_out(
            archive,
            standings,
            j,
            k,
        )
}

/// The front as a mask over the zipped rows.
pub open spec fn front_mask<S, F>(
    archive: &Archive<S, F>,
    standings: Seq<Vec<Vec<Standing>>>,
) -> Seq<bool> {
    Seq::new(zipped_rows(archive) as nat, |k: int| in_front(archive, standings, k))
}

/// `standings` compares every row of the archive with every row.
pub open spec fn square_standings<S, F>(
    archive: &Archive<S, F>,
    standings: Seq<Vec<Vec<Standing>>>,
) -> bool {
    &&& standings.len() == archive.fitnesses@.len()
    &&& forall|j: int| 0 <= j < standings.len() ==> (#[trigger] standings[j])@.len() == archive.fitnesses@.len()
}

/// Whether row `k` belongs to the front.
fn front_keeps<S, F>(archive: &Archive<S, F>, standings: &Vec<Vec<Vec<Standing>>>, k: usize) -> (res: bool)
    requires
        square_standings(archive, standings@),
        k < zipped_rows(archive),
    ensures
        res == in_front(archive, standings@, k as int),
{
    if archive.visited[k] && !archive.valid[k] {
        return false;
    }
    let m = if archive.valid.len() < standings.len() { archive.valid.len() } else { standings.len() };
    let mut j: usize = 0;
    while j < m
        invariant
            m == min2(archive.fitnesses@.len() as int, archive.valid@.len() as int),
            square_standings(archive, standings@),
            k < zipped_rows(archive),
            j <= m,
            forall|i: int| 0 <= i < j ==> !knocks_out(archive, standings@, i, k as int),
        decreases m - j,
    {
        assert(standings@[j as int]@.len() == archive.fitnesses@.len());
        if (archive.valid[j] || !archive.valid[k]) && is_outranking(&standings[j][k]) {
            assert(knocks_out(archive, standings@, j as int, k as int));
            return false;
        }
        j = j + 1;
    }
    true
}

/// The front of the archive as flags over its zipped rows.
pub fn pareto_front_mask<S, F>(archive: &Archive<S, F>, standings: &Vec<Vec<Vec<Standing>>>) -> (res: Vec<bool>)
    requires
        square_standings(archive, standings@),
    ensures
        res@ == front_mask(archive, standings@),
{
    let n = if archive.valid.len() < standings.len() { archive.valid.len() } else { standings.len() };
    let n = if archive.visited.len() < n { archive.visited.len() } else { n };
    let mut mask: Vec<bool> = Vec::new();
    let mut k: usize = 0;
    while k < n
        invariant
            n == zipped_rows(archive),
            square_standings(archive, standings@),
            k <= n,
            mask@.len() == k,
            forall|i: int| 0 <= i < k ==> mask@[i] == in_front(archive, standings@, i),
        decreases n - k,
    {
        let keep = front_keeps(archive, standings, k);
        mask.push(keep);
        k = k + 1;
    }
    assert(mask@ =~= front_mask(archive, standings@));
    mask
}

/// The Pareto front of the archive: a copy that keeps the rows which are
/// unvisited or valid and which no other row knocks out.
/// `standings[j][k][c]` is how the `c`-th objective value of row `j` stands
/// against the `c`-th objective value of row `k`.
pub fn get_pareto_front<S: Clone, F: Clone>(
    archive: &Archive<S, F>,
    standings: &Vec<Vec<Vec<Standing>>>,
) -> (res: Archive<S, F>)
    requires
        square_standings(archive, standings@),
    ensures
        res.is_masked_clone_of(archive, front_mask(archive, standings@)),
        res.valid@ == masked(archive.valid@, front_mask(archive, standings@)),
        res.visited@ == masked(archive.visited@, front_mask(archive, standings@)),
        archive.wf() ==> res.wf(),
        archive.wf() ==> forall|k: int|
            0 <= k < res.valid@.len() ==> !res.visited@[k] || #[trigger] res.valid@[k],
        archive.wf() ==> res.solutions@.len() <= archive.solutions@.len(),
{
    let mask = pareto_front_mask(archive, standings);
    proof {
        if archive.wf() {
            lemma_kept_rows_unvisited_or_valid(archive, mask@);
        }
        lemma_count_set_bound(mask@, archive.solutions@.len() as int);
    }
    archive.mask(mask)
}

/// The flags that [`clean`] keeps: row `k` is unvisited or valid, and its
/// objective values lie far enough from the origin (`far[k]`).
pub open spec fn clean_mask<S, F>(archive: &Archive<S, F>, far: Seq<bool>) -> Seq<bool> {
    Seq::new(
        zipped_rows(archive) as nat,
        |k: int| (!archive.visited@[k] || archive.valid@[k]) && far[k],
    )
}

/// A copy of the archive without the rows that are visited and invalid, or
/// whose objective values lie too close to the origin. `far[k]` tells whether
/// the distance of row `k`'s objective values from the origin exceeds the
/// threshold (a third of the archive's average distance).
pub fn clean<S: Clone, F: Clone>(archive: &Archive<S, F>, far: &Vec<bool>) -> (res: Archive<S, F>)
    requires
        far@.len() == archive.fitnesses@.len(),
    ensures
        res.is_masked_clone_of(archive, clean_mask(archive, far@)),
        res.valid@ == masked(archive.valid@, clean_mask(archive, far@)),
        res.visited@ == masked(archive.visited@, clean_mask(archive, far@)),
        archive.wf() ==> res.wf(),
        archive.wf() ==> forall|k: int|
            0 <= k < res.valid@.len() ==> !res.visited@[k] || #[trigger] res.valid@[k],
{
    let n = if archive.valid.len() < far.len() { archive.valid.len() } else { far.len() };
    let n = if archive.visited.len() < n { archive.visited.len() } else { n };
    let mut mask: Vec<bool> = Vec::new();
    let mut k: usize = 0;
    while k < n
        invariant
            n == zipped_rows(archive),
            far@.len() == archive.fitnesses@.len(),
            k <= n,
            mask@.len() == k,
            forall|i: int|
                0 <= i < k ==> mask@[i] == ((!archive.visited@[i] || archive.valid@[i]) && far@[i]),
        decreases n - k,
    {
        mask.push((!archive.visited[k] || archive.valid[k]) && far[k]);
        k = k + 1;
    }
    assert(mask@ =~= clean_mask(archive, far@));
    proof {
        if archive.wf() {
            lemma_kept_rows_unvisited_or_valid(archive, mask@);
        }
    }
    archive.mask(mask)
}

/// Dominance needs a better row: when the archive dominates a candidate,
/// some row takes part (it is visited, or the candidate is invalid) against
/// which the candidate stands `Higher` in no objective and `Lower` in one.
pub proof fn law_dominance_needs_a_better_row<S, F>(
    archive: &Archive<S, F>,
    standings: Seq<Vec<Standing>>,
    valid: bool,
)
    requires
        spec_dominates(archive, standings, valid),
    ensures
        exists|k: int|
            #![trigger standings[k]]
            0 <= k < zipped_rows(archive) && (archive.visited@[k] || !valid) && (forall|c: int|
                0 <= c < standings[k]@.len() ==> standings[k]@[c] != Standing::Higher) && (exists|c: int|
                0 <= c < standings[k]@.len() && standings[k]@[c] == Standing::Lower),
{
    let k = choose|k: int| 0 <= k < zipped_rows(archive) && row_dominates(archive, standings[k]@, k, valid);
    let row = standings[k]@;
    assert(outranked(row));
    assert forall|c: int| 0 <= c < row.len() implies row[c] != Standing::Higher by {
        assert(outranked(row));
    }
    let c = choose|c: int| 0 <= c < row.len() && row[c] == Standing::Lower;
    assert(0 <= c < standings[k]@.len() && standings[k]@[c] == Standing::Lower);
    assert(0 <= k < zipped_rows(archive) && (archive.visited@[k] || !valid) && (forall|c: int|
        0 <= c < standings[k]@.len() ==> standings[k]@[c] != Standing::Higher) && (exists|c: int|
        0 <= c < standings[k]@.len() && standings[k]@[c] == Standing::Lower));
}

/// A candidate that stands `Higher` in some objective against every row that
/// takes part is not dominated.
pub proof fn law_higher_somewhere_escapes_dominance<S, F>(
    archive: &Archive<S, F>,
    standings: Seq<Vec<Standing>>,
    valid: bool,
)
    requires
        forall|k: int|
            0 <= k < zipped_rows(archive) && (archive.visited@[k] || !valid) ==> exists|c: int|
                0 <= c < standings[k]@.len() && #[trigger] standings[k]@[c] == Standing::Higher,
    ensures
        !spec_dominates(archive, standings, valid),
{
    if spec_dominates(archive, standings, valid) {
        let k = choose|k: int| 0 <= k < zipped_rows(archive) && row_dominates(archive, standings[k]@, k, valid);
        assert(archive.visited@[k] || !valid);
        assert(exists|c: int| 0 <= c < standings[k]@.len() && #[trigger] standings[k]@[c] == Standing::Higher);
        let c = choose|c: int| 0 <= c < standings[k]@.len() && #[trigger] standings[k]@[c] == Standing::Higher;
        let row = standings[k]@;
        assert(outranked(row));
        assert(row[c] == Standing::Higher);
    }
}

/// A row that takes part, against which the candidate stands `Lower` in some
/// objective and `Higher` in none, dominates the candidate.
pub proof fn law_worse_candidate_is_dominated<S, F>(
    archive: &Archive<S, F>,
    standings: Seq<Vec<Standing>>,
    valid: bool,
    k: int,
    c: int,
)
    requires
        0 <= k < zipped_rows(archive),
        archive.visited@[k] || !valid,
        0 <= c < standings[k]@.len(),
        standings[k]@[c] == Standing::Lower,
        forall|d: int| 0 <= d < standings[k]@.len() ==> standings[k]@[d] != Standing::Higher,
    ensures
        spec_dominates(archive, standings, valid),
{
    assert(row_dominates(archive, standings[k]@, k, valid));
}

/// Unvisited rows never dominate a valid candidate.
pub proof fn law_unvisited_rows_spare_valid_candidates<S, F>(
    archive: &Archive<S, F>,
    standings: Seq<Vec<Standing>>,
)
    requires
        forall|k: int| 0 <= k < zipped_rows(archive) ==> !archive.visited@[k],
    ensures
        !spec_dominates(archive, standings, true),
{
}

/// The front has one flag per zipped row, and keeps every row that is
/// unvisited or valid when no row that may knock it out (one that is valid,
/// or any row when it is invalid) stands `Higher` in some objective and
/// `Lower` in none against it; in particular it keeps visited valid rows that
/// no row beats.
pub proof fn law_front_keeps_unbeaten_rows<S, F>(
    archive: &Archive<S, F>,
    standings: Seq<Vec<Vec<Standing>>>,
    k: int,
)
    requires
        0 <= k < zipped_rows(archive),
        !archive.visited@[k] || archive.valid@[k],
        forall|j: int|
            0 <= j < min2(archive.fitnesses@.len() as int, archive.valid@.len() as int) && (
            archive.valid@[j] || !archive.valid@[k]) ==> (exists|c: int|
                0 <= c < standings[j]@[k]@.len() && #[trigger] standings[j]@[k]@[c] == Standing::Lower) || (
            forall|c: int| 0 <= c < standings[j]@[k]@.len() ==> standings[j]@[k]@[c] != Standing::Higher),
    ensures
        front_mask(archive, standings).len() == zipped_rows(archive),
        front_mask(archive, standings)[k],
{
    assert forall|j: int|
        0 <= j < min2(archive.fitnesses@.len() as int, archive.valid@.len() as int) implies !knocks_out(
        archive,
        standings,
        j,
        k,
    ) by {
        if knocks_out(archive, standings, j, k) {
            let row = standings[j]@[k]@;
            assert(outranks(row));
            if exists|c: int| 0 <= c < row.len() && row[c] == Standing::Lower {
                let c = choose|c: int| 0 <= c < row.len() && row[c] == Standing::Lower;
                assert(row[c] != Standing::Lower);
            } else {
                let c = choose|c: int| 0 <= c < row.len() && row[c] == Standing::Higher;
                assert(row[c] != Standing::Higher);
            }
        }
    }
}

/// The front drops every row that is visited and invalid.
pub proof fn law_front_drops_visited_invalid_rows<S, F>(
    archive: &Archive<S, F>,
    standings: Seq<Vec<Vec<Standing>>>,
    k: int,
)
    requires
        0 <= k < zipped_rows(archive),
        archive.visited@[k],
        !archive.valid@[k],
    ensures
        !front_mask(archive, standings)[k],
{
}

/// The front drops a row when some row that may knock it out (one that is
/// valid, or any row when it is invalid) stands `Higher` in some objective
/// and `Lower` in none against it.
pub proof fn law_front_drops_beaten_rows<S, F>(
    archive: &Archive<S, F>,
    standings: Seq<Vec<Vec<Standing>>>,
    k: int,
    j: int,
    c: int,
)
    requires
        0 <= k < zipped_rows(archive),
        0 <= j < min2(archive.fitnesses@.len() as int, archive.valid@.len() as int),
        archive.valid@[j] || !archive.valid@[k],
        0 <= c < standings[j]@[k]@.len(),
        standings[j]@[k]@[c] == Standing::Higher,
        forall|d: int| 0 <= d < standings[j]@[k]@.len() ==> standings[j]@[k]@[d] != Standing::Lower,
    ensures
        !front_mask(archive, standings)[k],
{
    assert(knocks_out(archive, standings, j, k));
}

/// Cleaning keeps a row exactly when its objective values lie far enough
/// from the origin and it is unvisited or valid: far unvisited rows and far
/// valid rows stay, whatever else holds of them; rows near the origin and
/// visited invalid rows go.
pub proof fn law_clean_keeps_far_admissible_rows<S, F>(archive: &Archive<S, F>, far: Seq<bool>, k: int)
    requires
        0 <= k < zipped_rows(archive),
    ensures
        clean_mask(archive, far).len() == zipped_rows(archive),
        far[k] && !archive.visited@[k] ==> clean_mask(archive, far)[k],
        far[k] && archive.valid@[k] ==> clean_mask(archive, far)[k],
        !far[k] ==> !clean_mask(archive, far)[k],
        archive.visited@[k] && !archive.valid@[k] ==> !clean_mask(archive, far)[k],
{
}

/// When a mask keeps only rows that are unvisited or valid, so does every row
/// of the masked columns.
proof fn lemma_kept_rows_unvisited_or_valid<S, F>(archive: &Archive<S, F>, m: Seq<bool>)
    requires
        archive.wf(),
        forall|k: int| 0 <= k < archive.valid@.len() && #[trigger] flag(m, k) ==> !archive.visited@[k] || archive.valid@[k],
    ensures
        forall|a: int|
            0 <= a < masked(archive.valid@, m).len() ==> !masked(archive.visited@, m)[a] || #[trigger] masked(
                archive.valid@,
                m,
            )[a],
{
    lemma_masked_positions(archive.valid@, m, 0);
    lemma_masked_positions(archive.visited@, m, 0);
    assert forall|a: int| 0 <= a < masked(archive.valid@, m).len() implies !masked(archive.visited@, m)[a]
        || #[trigger] masked(archive.valid@, m)[a] by {
        let p = masked_from(positions(archive.valid@.len()), m, 0)[a];
        assert(flag(m, p));
    }
}

/// The standings of the values `l` against the values `r` under the
/// comparison `stand`, over the positions that both have.
pub open spec fn compare<F>(stand: spec_fn(F, F) -> Standing, l: Seq<F>, r: Seq<F>) -> Seq<Standing> {
    Seq::new(min2(l.len() as int, r.len() as int) as nat, |c: int| stand(l[c], r[c]))
}

/// `standings` compares every row of `fitnesses` with every row under `stand`.
pub open spec fn standings_follow<F>(
    stand: spec_fn(F, F) -> Standing,
    standings: Seq<Vec<Vec<Standing>>>,
    fitnesses: Seq<Vec<F>>,
) -> bool {
    &&& standings.len() == fitnesses.len()
    &&& forall|j: int| 0 <= j < standings.len() ==> (#[trigger] standings[j])@.len() == fitnesses.len()
    &&& forall|j: int, k: int|
        0 <= j < fitnesses.len() && 0 <= k < fitnesses.len() ==> (#[trigger] standings[j]@[k])@ == compare(
            stand,
            fitnesses[j]@,
            fitnesses[k]@,
        )
}

/// `standings` compares the values `candidate` with every row of `fitnesses`
/// under `stand`.
pub open spec fn candidate_standings_follow<F>(
    stand: spec_fn(F, F) -> Standing,
    standings: Seq<Vec<Standing>>,
    candidate: Seq<F>,
    fitnesses: Seq<Vec<F>>,
) -> bool {
    &&& standings.len() == fitnesses.len()
    &&& forall|k: int| 0 <= k < fitnesses.len() ==> (#[trigger] standings[k])@ == compare(stand, candidate, fitnesses[k]@)
}

/// An archive with no rows dominates no candidate.
pub proof fn law_empty_archive_dominates_nothing<S, F>(
    archive: &Archive<S, F>,
    standings: Seq<Vec<Standing>>,
    valid: bool,
)
    requires
        archive.wf(),
        archive.solutions@.len() == 0,
    ensures
        !spec_dominates(archive, standings, valid),
{
}

/// Adding a row never lifts dominance: when the standings of a candidate are
/// computed by one comparison rule `stand` from its values and the archive's,
/// a candidate that the archive dominates is still dominated once a row is
/// appended.
pub proof fn law_appending_keeps_dominance<S: Clone, F: Clone>(
    stand: spec_fn(F, F) -> Standing,
    archive: &Archive<S, F>,
    standings: Seq<Vec<Standing>>,
    grown: &Archive<S, F>,
    grown_standings: Seq<Vec<Standing>>,
    candidate: Seq<F>,
    solution: S,
    fitness: Vec<F>,
    row_valid: bool,
    row_visited: bool,
    step_size: F,
    success_rate: F,
    valid: bool,
)
    requires
        archive.wf(),
        appended_row(grown, archive, solution, fitness, row_valid, row_visited, step_size, success_rate),
        candidate_standings_follow(stand, standings, candidate, archive.fitnesses@),
        candidate_standings_follow(stand, grown_standings, candidate, grown.fitnesses@),
    ensures
        spec_dominates(archive, standings, valid) ==> spec_dominates(grown, grown_standings, valid),
{
    let n = archive.fitnesses@.len();
    assert forall|k: int| 0 <= k < zipped_rows(archive) implies #[trigger] grown_standings[k]@ == standings[k]@ by {
        assert(grown.fitnesses@[k] == grown.fitnesses@.drop_last()[k]);
    }
    assert forall|k: int| 0 <= k < zipped_rows(archive) implies (archive.visited@[k] ==> #[trigger] grown.visited@[k]) by {
        assert(grown.visited@[k] == archive.visited@.push(row_visited)[k]);
    }
    if spec_dominates(archive, standings, valid) {
        law_dominance_persists(archive, standings, grown, grown_standings, valid);
    }
}

/// Taking the Pareto front twice gives the front: when the standings of each
/// archive are computed by one comparison rule `stand` from its objective
/// values, masking the front `front` of `archive` by its own front keeps
/// every row, and the front has at most as many rows as the archive.
pub proof fn law_front_is_idempotent<S, F>(
    stand: spec_fn(F, F) -> Standing,
    archive: &Archive<S, F>,
    standings: Seq<Vec<Vec<Standing>>>,
    front: &Archive<S, F>,
    front_standings: Seq<Vec<Vec<Standing>>>,
    again: &Archive<S, F>,
)
    requires
        archive.wf(),
        standings_follow(stand, standings, archive.fitnesses@),
        front.is_masked(archive, front_mask(archive, standings)),
        standings_follow(stand, front_standings, front.fitnesses@),
        again.is_masked(front, front_mask(front, front_standings)),
    ensures
        front.wf(),
        front.solutions@.len() <= archive.solutions@.len(),
        again.solutions@ == front.solutions@,
        again.fitnesses@ == front.fitnesses@,
        again.valid@ == front.valid@,
        again.visited@ == front.visited@,
        again.step_size@ == front.step_size@,
        again.success_rate@ == front.success_rate@,
{
    let m = front_mask(archive, standings);
    let n = archive.valid@.len();
    law_rows_stay_aligned(archive, front, m);
    lemma_count_set_bound(m, archive.solutions@.len() as int);
    lemma_masked_positions(archive.fitnesses@, m, 0);
    let pos = masked(positions(n), m);
    assert forall|x: int, y: int|
        0 <= x < front.fitnesses@.len() && 0 <= y < front.fitnesses@.len() implies (
        #[trigger] front_standings[x]@[y])@ == standings[pos[x]]@[pos[y]]@ by {
        let px = masked_from(positions(archive.fitnesses@.len()), m, 0)[x];
        let py = masked_from(positions(archive.fitnesses@.len()), m, 0)[y];
        assert(front.fitnesses@[x] == archive.fitnesses@[px]);
        assert(front.fitnesses@[y] == archive.fitnesses@[py]);
        assert(pos[x] == px);
        assert(pos[y] == py);
        assert(standings[px]@[py]@ == compare(stand, archive.fitnesses@[px]@, archive.fitnesses@[py]@));
    }
    law_front_is_stable(archive, standings, front, front_standings);
    let m2 = front_mask(front, front_standings);
    assert forall|k: int| 0 <= k < front.solutions@.len() implies #[trigger] flag(m2, k) by {
        assert(m2[k]);
    }
    law_mask_keeping_all_is_identity(front, again, m2);
}

/// Dominance persists while the archive grows: a candidate that the archive
/// dominates stays dominated once rows are added at the end and rows are
/// marked visited, as long as its standings against the old rows stay.
pub proof fn law_dominance_persists<S, F>(
    archive: &Archive<S, F>,
    standings: Seq<Vec<Standing>>,
    grown: &Archive<S, F>,
    grown_standings: Seq<Vec<Standing>>,
    valid: bool,
)
    requires
        spec_dominates(archive, standings, valid),
        zipped_rows(archive) <= zipped_rows(grown),
        forall|k: int| 0 <= k < zipped_rows(archive) ==> (archive.visited@[k] ==> #[trigger] grown.visited@[k]),
        forall|k: int| 0 <= k < zipped_rows(archive) ==> #[trigger] grown_standings[k]@ == standings[k]@,
    ensures
        spec_dominates(grown, grown_standings, valid),
{
    let k = choose|k: int| 0 <= k < zipped_rows(archive) && row_dominates(archive, standings[k]@, k, valid);
    assert(grown_standings[k]@ == standings[k]@);
    assert(row_dominates(grown, grown_standings[k]@, k, valid));
}

/// The Pareto front is stable: taking the front of a front keeps every row.
/// `front` holds the validity and visited flags of the rows of `archive` that
/// its front keeps, and `front_standings` compares those rows as `standings`
/// compares them in `archive`.
pub proof fn law_front_is_stable<S, F>(
    archive: &Archive<S, F>,
    standings: Seq<Vec<Vec<Standing>>>,
    front: &Archive<S, F>,
    front_standings: Seq<Vec<Vec<Standing>>>,
)
    requires
        archive.wf(),
        square_standings(archive, standings),
        front.valid@ == masked(archive.valid@, front_mask(archive, standings)),
        front.visited@ == masked(archive.visited@, front_mask(archive, standings)),
        front.fitnesses@.len() == front.valid@.len(),
        square_standings(front, front_standings),
        forall|x: int, y: int|
            0 <= x < front.fitnesses@.len() && 0 <= y < front.fitnesses@.len() ==> {
                let pos = masked(positions(archive.valid@.len()), front_mask(archive, standings));
                (#[trigger] front_standings[x]@[y])@ == standings[pos[x]]@[pos[y]]@
            },
    ensures
        zipped_rows(front) == front.fitnesses@.len(),
        forall|x: int| 0 <= x < zipped_rows(front) ==> #[trigger] front_mask(front, front_standings)[x],
{
    let m = front_mask(archive, standings);
    let n = archive.valid@.len();
    let pos = masked(positions(n), m);
    lemma_masked_positions(archive.valid@, m, 0);
    lemma_masked_positions(archive.visited@, m, 0);
    assert(zipped_rows(archive) == n);
    assert forall|x: int| 0 <= x < zipped_rows(front) implies #[trigger] front_mask(front, front_standings)[x] by {
        let k = pos[x];
        assert(flag(m, k));
        assert(in_front(archive, standings, k));
        assert(front.valid@[x] == archive.valid@[k]);
        assert(front.visited@[x] == archive.visited@[k]);
        if exists|y: int|
            0 <= y < min2(front.fitnesses@.len() as int, front.valid@.len() as int) && knocks_out(
                front,
                front_standings,
                y,
                x,
            ) {
            let y = choose|y: int|
                0 <= y < min2(front.fitnesses@.len() as int, front.valid@.len() as int) && knocks_out(
                    front,
                    front_standings,
                    y,
                    x,
                );
            let j = pos[y];
            assert(front.valid@[y] == archive.valid@[j]);
            assert(front_standings[y]@[x]@ == standings[j]@[k]@);
            assert(knocks_out(archive, standings, j, k));
        }
    }
}

} // verus!
