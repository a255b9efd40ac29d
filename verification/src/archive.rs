//! The archive of a Pareto local search: one row per candidate layout, held as
//! parallel columns (layout, objective values, validity, visited flag, step
//! size, success rate).
use vstd::prelude::*;
use vstd::string::StringExecFns;
use crate::seqs::{
    clones, count_set, flag, lemma_masked_all_set, lemma_masked_clones, lemma_masked_len,
    lemma_masked_none_set, masked, retain_masked,
};

verus! {

/// The archive of candidate layouts. Row `k` is made of the `k`-th entry of
/// every column. `S` is the layout type and `F` the scalar type of the
/// objective values, step sizes and success rates.
pub struct Archive<S, F> {
    pub solutions: Vec<S>,
    pub fitnesses: Vec<Vec<F>>,
    pub valid: Vec<bool>,
    pub visited: Vec<bool>,
    pub step_size: Vec<F>,
    pub success_rate: Vec<F>,
}

impl<S, F> Archive<S, F> {
    /// Every column has one entry per row.
    pub open spec fn wf(&self) -> bool {
        &&& self.fitnesses@.len() == self.solutions@.len()
        &&& self.valid@.len() == self.solutions@.len()
        &&& self.visited@.len() == self.solutions@.len()
        &&& self.step_size@.len() == self.solutions@.len()
        &&& self.success_rate@.len() == self.solutions@.len()
    }

    /// Every column of `self` is the matching column of `old` masked by `m`.
    pub open spec fn is_masked(&self, old: &Self, m: Seq<bool>) -> bool {
        &&& self.solutions@ == masked(old.solutions@, m)
        &&& self.fitnesses@ == masked(old.fitnesses@, m)
        &&& self.valid@ == masked(old.valid@, m)
        &&& self.visited@ == masked(old.visited@, m)
        &&& self.step_size@ == masked(old.step_size@, m)
        &&& self.success_rate@ == masked(old.success_rate@, m)
    }

    /// An archive with no rows.
    pub fn new() -> (res: Self)
        ensures
            res.wf(),
            res.solutions@.len() == 0,
            res.fitnesses@.len() == 0,
            res.valid@.len() == 0,
            res.visited@.len() == 0,
            res.step_size@.len() == 0,
            res.success_rate@.len() == 0,
    {
        Archive {
            solutions: Vec::new(),
            fitnesses: Vec::new(),
            valid: Vec::new(),
            visited: Vec::new(),
            step_size: Vec::new(),
            success_rate: Vec::new(),
        }
    }

    /// The number of rows, counted on the layout column.
    pub fn len(&self) -> (n: usize)
        ensures
            n == self.solutions@.len(),
    {
        self.solutions.len()
    }

    /// Keeps, in every column, exactly the rows whose flag in `mask` is set
    /// (rows past the end of `mask` are dropped), in their order.
    pub fn mask_inplace(&mut self, mask: Vec<bool>)
        ensures
            final(self).is_masked(old(self), mask@),
            old(self).wf() ==> final(self).wf(),
            old(self).wf() ==> final(self).solutions@.len() == count_set(
                mask@,
                old(self).solutions@.len() as int,
            ),
    {
        retain_masked(&mut self.solutions, &mask);
        retain_masked(&mut self.fitnesses, &mask);
        retain_masked(&mut self.valid, &mask);
        retain_masked(&mut self.visited, &mask);
        retain_masked(&mut self.step_size, &mask);
        retain_masked(&mut self.success_rate, &mask);
        proof {
            lemma_masked_len(old(self).solutions@, mask@);
            lemma_masked_len(old(self).fitnesses@, mask@);
            lemma_masked_len(old(self).valid@, mask@);
            lemma_masked_len(old(self).visited@, mask@);
            lemma_masked_len(old(self).step_size@, mask@);
            lemma_masked_len(old(self).success_rate@, mask@);
        }
    }
}

impl<S: Clone, F: Clone> Archive<S, F> {
    /// Every column of `self` holds clones of the matching column of `old`.
    pub open spec fn is_clone_of(&self, old: &Self) -> bool {
        &&& clones(old.solutions@, self.solutions@)
        &&& clones(old.fitnesses@, self.fitnesses@)
        &&& clones(old.valid@, self.valid@)
        &&& clones(old.visited@, self.visited@)
        &&& clones(old.step_size@, self.step_size@)
        &&& clones(old.success_rate@, self.success_rate@)
    }

    /// Every column of `self` holds clones of the matching column of `old`
    /// masked by `m`.
    pub open spec fn is_masked_clone_of(&self, old: &Self, m: Seq<bool>) -> bool {
        &&& clones(masked(old.solutions@, m), self.solutions@)
        &&& clones(masked(old.fitnesses@, m), self.fitnesses@)
        &&& clones(masked(old.valid@, m), self.valid@)
        &&& clones(masked(old.visited@, m), self.visited@)
        &&& clones(masked(old.step_size@, m), self.step_size@)
        &&& clones(masked(old.success_rate@, m), self.success_rate@)
    }

    /// Adds one row at the end: a clone of `solution` and of `fitness`, and the
    /// given flags, step size and success rate.
    pub fn append_inplace(
        &mut self,
        solution: &S,
        fitness: &Vec<F>,
        valid: bool,
        visited: bool,
        step_size: F,
        success_rate: F,
    )
        ensures
            final(self).solutions@.len() == old(self).solutions@.len() + 1,
            final(self).solutions@.drop_last() == old(self).solutions@,
            cloned(*solution, final(self).solutions@.last()),
            final(self).fitnesses@.len() == old(self).fitnesses@.len() + 1,
            final(self).fitnesses@.drop_last() == old(self).fitnesses@,
            cloned(*fitness, final(self).fitnesses@.last()),
            final(self).valid@ == old(self).valid@.push(valid),
            final(self).visited@ == old(self).visited@.push(visited),
            final(self).step_size@ == old(self).step_size@.push(step_size),
            final(self).success_rate@ == old(self).success_rate@.push(success_rate),
            old(self).wf() ==> final(self).wf(),
    {
        self.solutions.push(solution.clone());
        self.fitnesses.push(fitness.clone());
        self.valid.push(valid);
        self.visited.push(visited);
        self.step_size.push(step_size);
        self.success_rate.push(success_rate);
        proof {
            assert(final(self).solutions@.drop_last() =~= old(self).solutions@);
            assert(final(self).fitnesses@.drop_last() =~= old(self).fitnesses@);
        }
    }

    /// A copy of the archive with one row added at the end; `self` is left as it is.
    pub fn append(
        &self,
        solution: &S,
        fitness: &Vec<F>,
        valid: bool,
        visited: bool,
        step_size: F,
        success_rate: F,
    ) -> (res: Self)
        ensures
            res.solutions@.len() == self.solutions@.len() + 1,
            clones(self.solutions@, res.solutions@.drop_last()),
            cloned(*solution, res.solutions@.last()),
            res.fitnesses@.len() == self.fitnesses@.len() + 1,
            clones(self.fitnesses@, res.fitnesses@.drop_last()),
            cloned(*fitness, res.fitnesses@.last()),
            res.valid@ == self.valid@.push(valid),
            res.visited@ == self.visited@.push(visited),
            res.step_size@.len() == self.step_size@.len() + 1,
            clones(self.step_size@, res.step_size@.drop_last()),
            res.step_size@.last() == step_size,
            res.success_rate@.len() == self.success_rate@.len() + 1,
            clones(self.success_rate@, res.success_rate@.drop_last()),
            res.success_rate@.last() == success_rate,
            self.wf() ==> res.wf(),
    {
        let mut new_archive = self.clone();
        new_archive.append_inplace(solution, fitness, valid, visited, step_size, success_rate);
        proof {
            lemma_clones_bool(self.valid@, new_archive.valid@.drop_last());
            lemma_clones_bool(self.visited@, new_archive.visited@.drop_last());
            assert(new_archive.valid@ =~= self.valid@.push(valid));
            assert(new_archive.visited@ =~= self.visited@.push(visited));
        }
        new_archive
    }

    /// A copy of the archive that keeps exactly the rows whose flag in `mask`
    /// is set; `self` is left as it is.
    pub fn mask(&self, mask: Vec<bool>) -> (res: Self)
        ensures
            res.is_masked_clone_of(self, mask@),
            res.valid@ == masked(self.valid@, mask@),
            res.visited@ == masked(self.visited@, mask@),
            self.wf() ==> res.wf(),
            self.wf() ==> res.solutions@.len() == count_set(mask@, self.solutions@.len() as int),
    {
        let mut new_archive = self.clone();
        let ghost copy = new_archive;
        new_archive.mask_inplace(mask);
        proof {
            lemma_masked_clones(self.solutions@, copy.solutions@, mask@, 0);
            lemma_masked_clones(self.fitnesses@, copy.fitnesses@, mask@, 0);
            lemma_masked_clones(self.valid@, copy.valid@, mask@, 0);
            lemma_masked_clones(self.visited@, copy.visited@, mask@, 0);
            lemma_masked_clones(self.step_size@, copy.step_size@, mask@, 0);
            lemma_masked_clones(self.success_rate@, copy.success_rate@, mask@, 0);
            lemma_clones_bool(self.valid@, copy.valid@);
            lemma_clones_bool(self.visited@, copy.visited@);
        }
        new_archive
    }
}

impl<S: Clone, F: Clone> Clone for Archive<S, F> {
    /// A copy of the archive, column by column.
    fn clone(&self) -> (res: Self)
        ensures
            res.is_clone_of(self),
    {
        Archive {
            solutions: self.solutions.clone(),
            fitnesses: self.fitnesses.clone(),
            valid: self.valid.clone(),
            visited: self.visited.clone(),
            step_size: self.step_size.clone(),
            success_rate: self.success_rate.clone(),
        }
    }
}

/// Masking with a mask that keeps every row leaves the archive as it was.
pub proof fn law_mask_keeping_all_is_identity<S, F>(old: &Archive<S, F>, new: &Archive<S, F>, m: Seq<bool>)
    requires
        old.wf(),
        new.is_masked(old, m),
        forall|k: int| 0 <= k < old.solutions@.len() ==> #[trigger] flag(m, k),
    ensures
        new.solutions@ == old.solutions@,
        new.fitnesses@ == old.fitnesses@,
        new.valid@ == old.valid@,
        new.visited@ == old.visited@,
        new.step_size@ == old.step_size@,
        new.success_rate@ == old.success_rate@,
{
    lemma_masked_all_set(old.solutions@, m, 0);
    lemma_masked_all_set(old.fitnesses@, m, 0);
    lemma_masked_all_set(old.valid@, m, 0);
    lemma_masked_all_set(old.visited@, m, 0);
    lemma_masked_all_set(old.step_size@, m, 0);
    lemma_masked_all_set(old.success_rate@, m, 0);
    assert(old.solutions@.subrange(0, old.solutions@.len() as int) =~= old.solutions@);
    assert(old.fitnesses@.subrange(0, old.fitnesses@.len() as int) =~= old.fitnesses@);
    assert(old.valid@.subrange(0, old.valid@.len() as int) =~= old.valid@);
    assert(old.visited@.subrange(0, old.visited@.len() as int) =~= old.visited@);
    assert(old.step_size@.subrange(0, old.step_size@.len() as int) =~= old.step_size@);
    assert(old.success_rate@.subrange(0, old.success_rate@.len() as int) =~= old.success_rate@);
}

/// Masking with a mask that keeps no row empties the archive.
pub proof fn law_mask_keeping_none_empties<S, F>(old: &Archive<S, F>, new: &Archive<S, F>, m: Seq<bool>)
    requires
        old.wf(),
        new.is_masked(old, m),
        forall|k: int| 0 <= k < old.solutions@.len() ==> !#[trigger] flag(m, k),
    ensures
        new.wf(),
        new.solutions@.len() == 0,
{
    lemma_masked_none_set(old.solutions@, m, 0);
    lemma_masked_none_set(old.fitnesses@, m, 0);
    lemma_masked_none_set(old.valid@, m, 0);
    lemma_masked_none_set(old.visited@, m, 0);
    lemma_masked_none_set(old.step_size@, m, 0);
    lemma_masked_none_set(old.success_rate@, m, 0);
}

/// Masking keeps the columns aligned, and the archive keeps as many rows as
/// the mask sets flags among its rows.
pub proof fn law_rows_stay_aligned<S, F>(old: &Archive<S, F>, new: &Archive<S, F>, m: Seq<bool>)
    requires
        old.wf(),
        new.is_masked(old, m),
    ensures
        new.wf(),
        new.solutions@.len() == count_set(m, old.solutions@.len() as int),
{
    lemma_masked_len(old.solutions@, m);
    lemma_masked_len(old.fitnesses@, m);
    lemma_masked_len(old.valid@, m);
    lemma_masked_len(old.visited@, m);
    lemma_masked_len(old.step_size@, m);
    lemma_masked_len(old.success_rate@, m);
}

/// A clone of a `bool` is the same `bool`, so a column of cloned flags equals
/// the column it was cloned from.
pub proof fn lemma_clones_bool(a: Seq<bool>, b: Seq<bool>)
    requires
        clones(a, b),
    ensures
        a == b,
{
    assert forall|i: int| 0 <= i < a.len() implies a[i] == b[i] by {
        assert(cloned(a[i], b[i]));
    }
    assert(a =~= b);
}

/// The DEFLATE stream that `deflate::deflate_bytes` produces for `data`.
pub uninterp spec fn deflated(data: Seq<u8>) -> Seq<u8>;

/// Trusted: calls `deflate::deflate_bytes`, which compresses `data` with
/// DEFLATE at the default level into a fresh vector. Its output depends on the
/// input bytes alone; the contract names it `deflated` and claims nothing else
/// of it.
#[verifier::external_body]
fn deflate_data(data: &[u8]) -> (res: Vec<u8>)
    ensures
        res@ == deflated(data@),
{
    deflate::deflate_bytes(data)
}

/// Where a saved archive goes and what is written there: the file `path` under
/// the `logs/` directory, holding the DEFLATE-compressed `json` serialisation
/// of the archive.
pub fn saved_file(path: &String, json: &[u8]) -> (res: (String, Vec<u8>))
    ensures
        res.0@ == "logs/"@ + path@,
        res.1@ == deflated(json@),
{
    let file = String::from_str("logs/").concat(path.as_str());
    (file, deflate_data(json))
}

} // verus!
