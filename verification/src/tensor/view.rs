//! Contiguous data with a shape attached.
use super::shape;
use super::shape::Shape;
use vstd::prelude::*;

verus! {

/// An immutable contiguous view with a shape attached.
#[derive(Debug, Clone, Copy)]
pub struct TensorView<'a, T> {
    data: &'a [T],
    shape: Shape,
}

impl<'a, T> TensorView<'a, T> {
    /// The data behind the view.
    pub closed spec fn data(&self) -> Seq<T> {
        self.data@
    }

    /// The dimensions of the view.
    pub closed spec fn dims(&self) -> Seq<usize> {
        self.shape@
    }

    /// A view of data that has exactly the elements of the shape.
    pub fn new(data: &'a [T], shape: Shape) -> (r: Self)
        requires
            shape::elements_fit(shape@),
            data@.len() == shape::prefix_product(shape@, shape@.len()),
        ensures
            r.data() == data@,
            r.dims() == shape@,
    {
        TensorView { data, shape }
    }

    pub fn shape(&self) -> (r: &Shape)
        ensures
            r@ == self.dims(),
    {
        &self.shape
    }

    pub fn as_slice(&self) -> (r: &'a [T])
        ensures
            r@ == self.data(),
    {
        self.data
    }

    /// One slice along the outermost axis, keeping the remaining shape.
    pub fn row(&self, i: usize) -> (r: TensorView<'a, T>)
        requires
            shape::strides_fit(self.dims()),
            (i + 1) * shape::suffix_product(self.dims(), 1) <= self.data().len(),
        ensures
            r.data() == self.data().subrange(
                i * shape::suffix_product(self.dims(), 1),
                (i + 1) * shape::suffix_product(self.dims(), 1),
            ),
            r.dims() == (if self.dims().len() == 1 {
                seq![1usize]
            } else {
                self.dims().skip(1)
            }),
    {
        let rank: usize = self.shape.rank();
        let stride: usize = self.shape.strides()[0];
        let total: usize = self.data.len();
        assert(stride == shape::suffix_product(self.dims(), 1));
        assert(i * stride <= (i + 1) * stride && (i + 1) * stride == i * stride + stride && 0 <= i
            * stride) by (nonlinear_arith);
        let start: usize = i * stride;
        let part = vstd::slice::slice_subrange(self.data, start, start + stride);
        let sub = if rank == 1 {
            Shape::new(&[1])
        } else {
            Shape::new(vstd::slice::slice_subrange(self.shape.dims(), 1, rank))
        };
        assert(sub@ =~= (if self.dims().len() == 1 {
            seq![1usize]
        } else {
            self.dims().skip(1)
        }));
        TensorView { data: part, shape: sub }
    }
}

/// The mutable counterpart.
#[derive(Debug)]
pub struct TensorViewMut<'a, T> {
    data: &'a mut [T],
    shape: Shape,
}

impl<'a, T> TensorViewMut<'a, T> {
    /// The data behind the view.
    pub closed spec fn data(&self) -> Seq<T> {
        self.data@
    }

    /// The dimensions of the view.
    pub closed spec fn dims(&self) -> Seq<usize> {
        self.shape@
    }

    pub fn new(data: &'a mut [T], shape: Shape) -> (r: Self)
        requires
            shape::elements_fit(shape@),
            old(data)@.len() == shape::prefix_product(shape@, shape@.len()),
        ensures
            r.data() == old(data)@,
            r.dims() == shape@,
    {
        TensorViewMut { data, shape }
    }

    pub fn shape(&self) -> (r: &Shape)
        ensures
            r@ == self.dims(),
    {
        &self.shape
    }

    pub fn as_slice(&self) -> (r: &[T])
        ensures
            r@ == self.data(),
    {
        &*self.data
    }

    pub fn as_mut_slice(&mut self) -> (r: &mut [T])
        ensures
            r@ == old(self).data(),
            final(self).data() == final(r)@,
            final(self).dims() == old(self).dims(),
    {
        &mut *self.data
    }

    /// One slice along the outermost axis.
    pub fn row_mut(&mut self, i: usize) -> (r: &mut [T])
        requires
            shape::strides_fit(old(self).dims()),
            (i + 1) * shape::suffix_product(old(self).dims(), 1) <= old(self).data().len(),
        ensures
            r@ == old(self).data().subrange(
                i * shape::suffix_product(old(self).dims(), 1),
                (i + 1) * shape::suffix_product(old(self).dims(), 1),
            ),
            final(self).data() == old(self).data().take(
                i * shape::suffix_product(old(self).dims(), 1),
            ) + final(r)@ + old(self).data().skip(
                (i + 1) * shape::suffix_product(old(self).dims(), 1),
            ),
            final(self).dims() == old(self).dims(),
    {
        let rank: usize = self.shape.rank();
        let stride: usize = self.shape.strides()[0];
        let total: usize = self.data.len();
        assert(stride == shape::suffix_product(self.dims(), 1));
        assert(i * stride <= (i + 1) * stride && (i + 1) * stride == i * stride + stride && 0 <= i
            * stride) by (nonlinear_arith);
        let start: usize = i * stride;
        let (_, behind) = self.data.split_at_mut(start);
        let (row, _) = behind.split_at_mut(stride);
        row
    }

    pub fn as_view(&self) -> (r: TensorView<'_, T>)
        ensures
            r.data() == self.data(),
            r.dims() == self.dims(),
    {
        TensorView { data: &*self.data, shape: self.shape }
    }
}

} // verus!
