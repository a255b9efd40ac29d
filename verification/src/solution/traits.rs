//! Read access to the columns of a layout.
use vstd::prelude::*;

verus! {

/// Read access to the columns of a layout of boxes.
pub trait Solution {
    /// A point or extent in space.
    type Vector;
    /// A real number.
    type Real;
    /// The data attached to a box.
    type Data;

    /// Positions of the boxes.
    fn p(&self) -> &Vec<Self::Vector>;

    /// Sizes of the boxes.
    fn s(&self) -> &Vec<Self::Vector>;

    /// Masses of the boxes.
    fn m(&self) -> &Vec<Self::Real>;

    /// Functions of the boxes.
    fn f(&self) -> &Vec<usize>;

    /// Orientations of the boxes.
    fn o(&self) -> &Vec<Self::Real>;

    /// Extent of the space.
    fn l(&self) -> &Self::Vector;

    /// Data attached to the boxes.
    fn d(&self) -> &Vec<Option<Self::Data>>;
}

impl<V, R, D> Solution for crate::solution::Solution<V, R, D> {
    type Vector = V;
    type Real = R;
    type Data = D;

    fn p(&self) -> (r: &Vec<V>)
        ensures
            r == &self.p,
    {
        &self.p
    }

    fn s(&self) -> (r: &Vec<V>)
        ensures
            r == &self.s,
    {
        &self.s
    }

    fn m(&self) -> (r: &Vec<R>)
        ensures
            r == &self.m,
    {
        &self.m
    }

    fn f(&self) -> (r: &Vec<usize>)
        ensures
            r == &self.f,
    {
        &self.f
    }

    fn o(&self) -> (r: &Vec<R>)
        ensures
            r == &self.o,
    {
        &self.o
    }

    fn l(&self) -> (r: &V)
        ensures
            r == &self.l,
    {
        &self.l
    }

    fn d(&self) -> (r: &Vec<Option<D>>)
        ensures
            r == &self.d,
    {
        &self.d
    }
}

} // verus!
