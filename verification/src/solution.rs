//! A layout of boxes in a bounded space, held as parallel columns: one entry
//! per box in every column.
use vstd::prelude::*;
use crate::random::random_below;
use crate::seqs::clones;

pub mod traits;

verus! {

/// A layout of boxes. `V` is the type of a point or extent in space, `R` the
/// type of a real number, `D` the type of the data attached to a box.
pub struct Solution<V, R, D> {
    /// Position (lowest corner) of each box.
    pub p: Vec<V>,
    /// Size of each box.
    pub s: Vec<V>,
    /// Mass of each box.
    pub m: Vec<R>,
    /// Function of each box (`1` marks a camera).
    pub f: Vec<usize>,
    /// Orientation of each box.
    pub o: Vec<R>,
    /// Extent of the space the boxes must fit in.
    pub l: V,
    /// Data attached to each box, if any.
    pub d: Vec<Option<D>>,
}

/// The functionality code of a camera box.
pub const CAMERA: usize = 1;

impl<V, R, D> Solution<V, R, D> {
    /// Every column has one entry per box.
    pub open spec fn wf(&self) -> bool {
        &&& self.s@.len() == self.p@.len()
        &&& self.m@.len() == self.p@.len()
        &&& self.f@.len() == self.p@.len()
        &&& self.o@.len() == self.p@.len()
        &&& self.d@.len() == self.p@.len()
    }

    /// The number of boxes, counted on the position column.
    pub fn len(&self) -> (n: usize)
        ensures
            n == self.p@.len(),
    {
        self.p.len()
    }

    /// The camera boxes (those whose function is [`CAMERA`]), in increasing order.
    pub fn cameras(&self) -> (res: Vec<usize>)
        ensures
            res@ == cameras_below(self.f@, self.f@.len() as int),
    {
        let mut res: Vec<usize> = Vec::new();
        let mut i: usize = 0;
        while i < self.f.len()
            invariant
                i <= self.f@.len(),
                res@ == cameras_below(self.f@, i as int),
            decreases self.f@.len() - i,
        {
            if self.f[i] == CAMERA {
                res.push(i);
            }
            i = i + 1;
        }
        res
    }

    /// Takes box `index` out of every column; the space's extent stays.
    pub fn remove_inplace(&mut self, index: usize)
        requires
            index < old(self).p@.len(),
            index < old(self).s@.len(),
            index < old(self).m@.len(),
            index < old(self).f@.len(),
            index < old(self).o@.len(),
            index < old(self).d@.len(),
        ensures
            final(self).p@ == old(self).p@.remove(index as int),
            final(self).s@ == old(self).s@.remove(index as int),
            final(self).m@ == old(self).m@.remove(index as int),
            final(self).f@ == old(self).f@.remove(index as int),
            final(self).o@ == old(self).o@.remove(index as int),
            final(self).d@ == old(self).d@.remove(index as int),
            final(self).l == old(self).l,
            old(self).wf() ==> final(self).wf(),
    {
        self.p.remove(index);
        self.s.remove(index);
        self.m.remove(index);
        self.f.remove(index);
        self.o.remove(index);
        self.d.remove(index);
    }
}

impl<V: Default, R, D> Solution<V, R, D> {
    /// A layout with no boxes, in a space whose extent is `V`'s default value.
    pub fn new() -> (res: Self)
        ensures
            res.wf(),
            res.p@.len() == 0,
            call_ensures(V::default, (), res.l),
    {
        Solution {
            p: Vec::new(),
            s: Vec::new(),
            m: Vec::new(),
            f: Vec::new(),
            o: Vec::new(),
            l: V::default(),
            d: Vec::new(),
        }
    }
}

impl<V: Clone, R: Clone, D: Clone> Solution<V, R, D> {
    /// Every column of `self` holds clones of the matching column of `old`.
    pub open spec fn is_clone_of(&self, old: &Self) -> bool {
        &&& clones(old.p@, self.p@)
        &&& clones(old.s@, self.s@)
        &&& clones(old.m@, self.m@)
        &&& clones(old.f@, self.f@)
        &&& clones(old.o@, self.o@)
        &&& cloned(old.l, self.l)
        &&& clones(old.d@, self.d@)
    }

    /// A copy of the layout without box `index`; `self` is left as it is.
    pub fn remove(&self, index: usize) -> (res: Self)
        requires
            index < self.p@.len(),
            index < self.s@.len(),
            index < self.m@.len(),
            index < self.f@.len(),
            index < self.o@.len(),
            index < self.d@.len(),
        ensures
            clones(self.p@.remove(index as int), res.p@),
            clones(self.s@.remove(index as int), res.s@),
            clones(self.m@.remove(index as int), res.m@),
            res.f@ == self.f@.remove(index as int),
            clones(self.o@.remove(index as int), res.o@),
            cloned(self.l, res.l),
            clones(self.d@.remove(index as int), res.d@),
            self.wf() ==> res.wf(),
    {
        let mut solution = self.clone();
        let ghost copy = solution;
        solution.remove_inplace(index);
        proof {
            lemma_removed_clones(self.p@, copy.p@, index as int);
            lemma_removed_clones(self.s@, copy.s@, index as int);
            lemma_removed_clones(self.m@, copy.m@, index as int);
            lemma_removed_clones(self.f@, copy.f@, index as int);
            lemma_removed_clones(self.o@, copy.o@, index as int);
            lemma_removed_clones(self.d@, copy.d@, index as int);
            assert forall|i: int| 0 <= i < self.f@.len() implies self.f@[i] == copy.f@[i] by {
                assert(cloned(self.f@[i], copy.f@[i]));
            }
            assert(self.f@ =~= copy.f@);
        }
        solution
    }

    /// A copy of the layout with box `index` moved to `position`; `self` is
    /// left as it is.
    pub fn with_position(&self, index: usize, position: V) -> (res: Self)
        requires
            index < self.p@.len(),
        ensures
            res.p@.len() == self.p@.len(),
            res.p@[index as int] == position,
            forall|b: int| 0 <= b < self.p@.len() && b != index ==> cloned(self.p@[b], #[trigger] res.p@[b]),
            clones(self.s@, res.s@),
            clones(self.m@, res.m@),
            res.f@ == self.f@,
            clones(self.o@, res.o@),
            cloned(self.l, res.l),
            clones(self.d@, res.d@),
    {
        let mut solution = self.clone();
        proof {
            assert forall|i: int| 0 <= i < self.f@.len() implies self.f@[i] == solution.f@[i] by {
                assert(cloned(self.f@[i], solution.f@[i]));
            }
            assert(self.f@ =~= solution.f@);
        }
        solution.p.set(index, position);
        solution
    }

    /// Makes `camera_amount` randomly drawn boxes cameras: each draw sets the
    /// box's function to [`CAMERA`] and attaches a clone of `data` to it. A box
    /// may be drawn more than once. Returns the drawn boxes in draw order.
    pub fn random_cameras(&mut self, camera_amount: usize, data: &D) -> (chosen: Vec<usize>)
        requires
            camera_amount > 0 ==> old(self).p@.len() > 0,
            camera_amount > 0 ==> old(self).f@.len() >= old(self).p@.len(),
            camera_amount > 0 ==> old(self).d@.len() >= old(self).p@.len(),
        ensures
            chosen@.len() == camera_amount,
            forall|i: int| 0 <= i < chosen@.len() ==> #[trigger] chosen@[i] < old(self).p@.len(),
            final(self).p == old(self).p,
            final(self).s == old(self).s,
            final(self).m == old(self).m,
            final(self).o == old(self).o,
            final(self).l == old(self).l,
            final(self).f@.len() == old(self).f@.len(),
            final(self).d@.len() == old(self).d@.len(),
            forall|b: usize|
                b < old(self).f@.len() ==> #[trigger] final(self).f@[b as int] == marked(
                    chosen@,
                    old(self).f@,
                    b,
                ),
            forall|b: usize|
                b < old(self).d@.len() ==> #[trigger] attached(chosen@, old(self).d@, *data, final(self).d@, b),
    {
        let ghost f0 = self.f@;
        let ghost d0 = self.d@;
        let mut chosen: Vec<usize> = Vec::new();
        let mut i: usize = 0;
        while i < camera_amount
            invariant
                i <= camera_amount,
                camera_amount > 0 ==> self.p@.len() > 0,
                camera_amount > 0 ==> f0.len() >= self.p@.len(),
                camera_amount > 0 ==> d0.len() >= self.p@.len(),
                self.p == old(self).p,
                self.s == old(self).s,
                self.m == old(self).m,
                self.o == old(self).o,
                self.l == old(self).l,
                f0 == old(self).f@,
                d0 == old(self).d@,
                self.f@.len() == f0.len(),
                self.d@.len() == d0.len(),
                chosen@.len() == i,
                forall|j: int| 0 <= j < chosen@.len() ==> #[trigger] chosen@[j] < self.p@.len(),
                forall|b: usize| b < f0.len() ==> #[trigger] self.f@[b as int] == marked(chosen@, f0, b),
                forall|b: usize| b < d0.len() ==> #[trigger] attached(chosen@, d0, *data, self.d@, b),
            decreases camera_amount - i,
        {
            let camera_i = random_below(self.p.len());
            let ghost before = chosen@;
            let ghost f1 = self.f@;
            let ghost d1 = self.d@;
            self.f.set(camera_i, CAMERA);
            let copy = data.clone();
            self.d.set(camera_i, Some(copy));
            chosen.push(camera_i);
            proof {
                assert forall|b: usize| #[trigger] chosen@.contains(b) <==> (before.contains(b)
                    || b == camera_i) by {
                    if b == camera_i {
                        assert(chosen@[chosen@.len() - 1] == camera_i);
                    }
                    if before.contains(b) {
                        let w = choose|w: int| 0 <= w < before.len() && before[w] == b;
                        assert(chosen@[w] == b);
                    }
                    if chosen@.contains(b) && b != camera_i {
                        let w = choose|w: int| 0 <= w < chosen@.len() && chosen@[w] == b;
                        assert(before[w] == b);
                    }
                }
                assert forall|b: usize| b < f0.len() implies #[trigger] self.f@[b as int] == marked(
                    chosen@,
                    f0,
                    b,
                ) by {
                    assert(chosen@.contains(b) <==> (before.contains(b) || b == camera_i));
                    if b != camera_i {
                        assert(self.f@[b as int] == f1[b as int]);
                    }
                }
                assert forall|b: usize| b < d0.len() implies #[trigger] attached(chosen@, d0, *data, self.d@, b) by {
                    assert(chosen@.contains(b) <==> (before.contains(b) || b == camera_i));
                    assert(attached(before, d0, *data, d1, b));
                    if b != camera_i {
                        assert(self.d@[b as int] == d1[b as int]);
                    }
                }
            }
            i = i + 1;
        }
        chosen
    }
}

impl<V: Clone, R: Clone, D: Clone> Clone for Solution<V, R, D> {
    /// A copy of the layout, column by column.
    fn clone(&self) -> (res: Self)
        ensures
            res.is_clone_of(self),
    {
        Solution {
            p: self.p.clone(),
            s: self.s.clone(),
            m: self.m.clone(),
            f: self.f.clone(),
            o: self.o.clone(),
            l: self.l.clone(),
            d: self.d.clone(),
        }
    }
}

/// The boxes below `k` whose function in `f` is [`CAMERA`], in increasing order.
pub open spec fn cameras_below(f: Seq<usize>, k: int) -> Seq<usize>
    decreases k,
{
    if k <= 0 {
        Seq::empty()
    } else if f[k - 1] == CAMERA {
        cameras_below(f, k - 1).push((k - 1) as usize)
    } else {
        cameras_below(f, k - 1)
    }
}

/// A box is listed among the cameras below `k` exactly when it lies below
/// `k` and its function is [`CAMERA`].
pub proof fn law_cameras_are_the_camera_boxes(f: Seq<usize>, k: int, x: usize)
    requires
        0 <= k <= f.len(),
        k <= usize::MAX,
    ensures
        cameras_below(f, k).contains(x) <==> (x < k && f[x as int] == CAMERA),
    decreases k,
{
    if k > 0 {
        law_cameras_are_the_camera_boxes(f, k - 1, x);
        let prev = cameras_below(f, k - 1);
        if f[k - 1] == CAMERA {
            let cur = prev.push((k - 1) as usize);
            if x == k - 1 {
                assert(cur[cur.len() - 1] == x);
            }
            if prev.contains(x) {
                let w = choose|w: int| 0 <= w < prev.len() && prev[w] == x;
                assert(cur[w] == x);
            }
            if cur.contains(x) && x != k - 1 {
                let w = choose|w: int| 0 <= w < cur.len() && cur[w] == x;
                assert(prev[w] == x);
            }
        }
    }
}

/// The function of box `b` after the boxes in `chosen` were made cameras.
pub open spec fn marked(chosen: Seq<usize>, f: Seq<usize>, b: usize) -> usize {
    if chosen.contains(b) {
        CAMERA
    } else {
        f[b as int]
    }
}

/// Box `b` of `d` holds a clone of `data` if it is in `chosen`, and what it
/// held in `before` otherwise.
pub open spec fn attached<D: Clone>(
    chosen: Seq<usize>,
    before: Seq<Option<D>>,
    data: D,
    d: Seq<Option<D>>,
    b: usize,
) -> bool {
    if chosen.contains(b) {
        d[b as int] is Some && cloned(data, d[b as int]->0)
    } else {
        d[b as int] == before[b as int]
    }
}

/// Removing the same position from a column and from a clone of it leaves a
/// clone.
pub proof fn lemma_removed_clones<T: Clone>(a: Seq<T>, b: Seq<T>, i: int)
    requires
        clones(a, b),
        0 <= i < a.len(),
    ensures
        clones(a.remove(i), b.remove(i)),
{
    assert forall|k: int| 0 <= k < a.len() - 1 implies cloned(#[trigger] a.remove(i)[k], b.remove(i)[k]) by {
        if k < i {
            assert(cloned(a[k], b[k]));
        } else {
            assert(cloned(a[k + 1], b[k + 1]));
        }
    }
}

} // verus!
