//! Combining the values of several objectives into one objective vector,
//! and deciding a layout's validity from its required objectives.
use vstd::prelude::*;

verus! {

/// The contents of each vector.
pub open spec fn views<F>(s: Seq<Vec<F>>) -> Seq<Seq<F>> {
    s.map_values(|v: Vec<F>| v@)
}

/// Concatenates, in order, the values that the objectives returned.
pub fn mo_fitness<F>(objective_values: Vec<Vec<F>>) -> (res: Vec<F>)
    ensures
        res@ == views(objective_values@).flatten(),
{
    let ghost all = views(objective_values@);
    let mut rest = objective_values;
    let mut res: Vec<F> = Vec::new();
    while rest.len() > 0
        invariant
            res@ + views(rest@).flatten() == all.flatten(),
        decreases rest@.len(),
    {
        let ghost before = rest@;
        let mut part = rest.remove(0);
        proof {
            assert(views(rest@) =~= views(before).drop_first());
            assert(views(before)[0] == part@);
            assert(res@ + (part@ + views(rest@).flatten()) =~= (res@ + part@) + views(rest@).flatten());
        }
        res.append(&mut part);
    }
    assert(views(rest@) =~= Seq::<Seq<F>>::empty());
    assert(res@ + Seq::<F>::empty() =~= res@);
    res
}

/// Every required objective is met.
pub open spec fn all_required_met(required: Seq<bool>, perfect: Seq<bool>) -> bool {
    forall|i: int| 0 <= i < required.len() ==> !required[i] || perfect[i]
}

/// Validity and objective vector of a layout. `required[i]` tells whether
/// objective `i` must be met for the layout to be valid, `perfect[i]` whether
/// every value it returned equals 1 up to the tolerance, and
/// `objective_values[i]` holds those values. The layout is valid when every
/// required objective is met; the objective vector concatenates the values.
pub fn mo_fitness_and_validity<F>(
    required: &Vec<bool>,
    perfect: &Vec<bool>,
    objective_values: Vec<Vec<F>>,
) -> (res: (bool, Vec<F>))
    requires
        perfect@.len() == required@.len(),
        objective_values@.len() == required@.len(),
    ensures
        res.0 == all_required_met(required@, perfect@),
        res.1@ == views(objective_values@).flatten(),
{
    let mut valid = true;
    let mut i: usize = 0;
    while i < required.len()
        invariant
            perfect@.len() == required@.len(),
            i <= required@.len(),
            valid == forall|j: int| 0 <= j < i ==> !required@[j] || perfect@[j],
        decreases required@.len() - i,
    {
        valid = valid && (!required[i] || perfect[i]);
        i = i + 1;
    }
    (valid, mo_fitness(objective_values))
}

/// A required objective that is not met makes the layout invalid.
pub proof fn law_unmet_required_objective_invalidates(required: Seq<bool>, perfect: Seq<bool>, i: int)
    requires
        0 <= i < required.len(),
        required[i],
        !perfect[i],
    ensures
        !all_required_met(required, perfect),
{
}

/// A layout whose required objectives are all perfect is valid, whatever its
/// other objectives return.
pub proof fn law_perfect_required_objectives_validate(required: Seq<bool>, perfect: Seq<bool>)
    requires
        forall|i: int| 0 <= i < required.len() && #[trigger] required[i] ==> perfect[i],
    ensures
        all_required_met(required, perfect),
{
}

/// Making more objectives perfect never turns a valid layout invalid, and
/// requiring fewer objectives never does either.
pub proof fn law_validity_is_monotone(
    required: Seq<bool>,
    perfect: Seq<bool>,
    fewer_required: Seq<bool>,
    more_perfect: Seq<bool>,
)
    requires
        all_required_met(required, perfect),
        perfect.len() == required.len(),
        fewer_required.len() == required.len(),
        more_perfect.len() == perfect.len(),
        forall|i: int| 0 <= i < required.len() && #[trigger] fewer_required[i] ==> required[i],
        forall|i: int| 0 <= i < perfect.len() && #[trigger] perfect[i] ==> more_perfect[i],
    ensures
        all_required_met(fewer_required, more_perfect),
{
    assert forall|i: int| 0 <= i < fewer_required.len() implies !fewer_required[i] || more_perfect[i] by {
        if fewer_required[i] {
            assert(required[i]);
            assert(!required[i] || perfect[i]);
        }
    }
}

} // verus!
