//! Cursors over the elements of one row or one column of a borrowed buffer.
use vstd::prelude::*;
use crate::slice_perfect;
use crate::img::ImgRef;
use crate::img::ImgRefMut;
use crate::cursor::run_count;
use crate::borrowed::Iter;
use crate::borrowed::IterMut;

verus! {

/// A run read at stride one counts every slot.
proof fn lemma_unit_stride(len: nat)
    ensures
        run_count(len, 1) == len,
{
    if len > 0 {
        vstd::arithmetic::div_mod::lemma_fundamental_div_mod_converse(len - 1, 1, len - 1, 0);
    }
}

/// A cursor over the elements of one row of a borrowed buffer.
#[derive(Debug)]
pub struct IterRow<'a, T>(Iter<'a, T>);

impl<'a, T> View for IterRow<'a, T> {
    type V = Seq<T>;

    /// The elements that remain, first to last.
    closed spec fn view(&self) -> Seq<T> {
        self.0@
    }
}

impl<'a, T> IterRow<'a, T> {
    /// A cursor over row `row` of `buf`, left to right.
    pub fn new(buf: &ImgRef<'a, T>, row: usize) -> (r: Self)
        requires
            buf.wf(),
            row < buf.height,
        ensures
            r@ == Seq::new(buf.width as nat, |i: int| buf.buf@[buf.stride * row + i]),
    {
        IterRow(Iter::row(buf, row))
    }

    /// A cursor over every element of the slice `row`.
    pub fn new_row(row: &'a [T]) -> (r: Self)
        ensures
            r@ == row@,
    {
        proof {
            lemma_unit_stride(row@.len());
        }
        let r = IterRow(Iter::new(row, 1));
        assert(r@ =~= row@);
        r
    }

    /// The same cursor as [`IterRow::new_row`].
    pub fn new_row_unchecked(row: &'a [T]) -> (r: Self)
        ensures
            r@ == row@,
    {
        proof {
            lemma_unit_stride(row@.len());
        }
        let r = IterRow(Iter::new_unchecked(row, 1));
        assert(r@ =~= row@);
        r
    }

    /// Takes the first remaining element.
    pub fn next(&mut self) -> (r: Option<&'a T>)
        ensures
            old(self)@.len() == 0 ==> r is None && final(self)@ == old(self)@,
            old(self)@.len() > 0 ==> r is Some && *r.unwrap() == old(self)@[0] && final(self)@ == old(self)@.drop_first(),
    {
        self.0.next()
    }

    /// Takes the last remaining element.
    pub fn next_back(&mut self) -> (r: Option<&'a T>)
        ensures
            old(self)@.len() == 0 ==> r is None && final(self)@ == old(self)@,
            old(self)@.len() > 0 ==> r is Some && *r.unwrap() == old(self)@.last() && final(self)@ == old(self)@.drop_last(),
    {
        self.0.next_back()
    }

    /// The number of elements that remain.
    pub fn len(&self) -> (r: usize)
        ensures
            r == self@.len(),
    {
        self.0.len()
    }
}

/// A cursor over the elements of one row of a buffer borrowed for writing.
/// Each element it hands out is borrowed from the cursor until the next step.
#[derive(Debug)]
pub struct IterRowMut<'a, T>(pub IterMut<'a, T>);

impl<'a, T> View for IterRowMut<'a, T> {
    type V = Seq<T>;

    /// The elements that remain, first to last.
    open spec fn view(&self) -> Seq<T> {
        self.0@
    }
}

impl<'a, T> IterRowMut<'a, T> {
    /// Every remaining element lies within the borrowed slice.
    pub open spec fn wf(&self) -> bool {
        self.0.wf()
    }

    /// The current contents of the borrowed slice.
    pub open spec fn source(&self) -> Seq<T> {
        self.0.source()
    }

    /// The index into the borrowed slice of the first remaining element.
    pub open spec fn front(&self) -> int {
        self.0.run().addrs()[0]
    }

    /// The index into the borrowed slice of the last remaining element.
    pub open spec fn back(&self) -> int {
        self.0.run().addrs().last()
    }

    /// A cursor over row `row` of `buf`, left to right.
    pub fn new(buf: ImgRefMut<'a, T>, row: usize) -> (r: Self)
        requires
            buf.wf(),
            row < buf.height,
        ensures
            r.wf(),
            r.source() == buf.contents(),
            final(buf.buf)@ == final(r.0.buf)@,
            r@ == Seq::new(buf.width as nat, |i: int| buf.contents()[buf.stride * row + i]),
    {
        IterRowMut(IterMut::row(buf, row))
    }

    /// A cursor over every element of the slice `row`.
    pub fn new_row(row: &'a mut [T]) -> (r: Self)
        ensures
            r.wf(),
            r.source() == old(row)@,
            final(row)@ == final(r.0.buf)@,
            r@ == old(row)@,
    {
        proof {
            lemma_unit_stride(old(row)@.len());
        }
        let r = IterRowMut(IterMut::new(row, 1));
        assert(r@ =~= r.source());
        r
    }

    /// The same cursor as [`IterRowMut::new_row`].
    pub fn new_row_unchecked(row: &'a mut [T]) -> (r: Self)
        ensures
            r.wf(),
            r.source() == old(row)@,
            final(row)@ == final(r.0.buf)@,
            r@ == old(row)@,
    {
        proof {
            lemma_unit_stride(old(row)@.len());
        }
        let r = IterRowMut(IterMut::new_unchecked(row, 1));
        assert(r@ =~= r.source());
        r
    }

    /// Takes the first remaining element, for reading or writing until the
    /// next step.
    pub fn next(&mut self) -> (r: Option<&mut T>)
        requires
            old(self).wf(),
        ensures
            final(self).wf(),
            final(final(self).0.buf)@ == final(old(self).0.buf)@,
            old(self)@.len() == 0 ==> r is None && final(self).source() == old(self).source() && final(self)@.len() == 0,
            old(self)@.len() > 0 ==> r is Some && *r.unwrap() == old(self)@[0] && final(self).source()
                == old(self).source().update(old(self).front(), *final(r.unwrap()))
                && final(self)@.len() == old(self)@.len() - 1,
    {
        self.0.next()
    }

    /// Takes the last remaining element, for reading or writing until the
    /// next step.
    pub fn next_back(&mut self) -> (r: Option<&mut T>)
        requires
            old(self).wf(),
        ensures
            final(self).wf(),
            final(final(self).0.buf)@ == final(old(self).0.buf)@,
            old(self)@.len() == 0 ==> r is None && final(self).source() == old(self).source() && final(self)@.len() == 0,
            old(self)@.len() > 0 ==> r is Some && *r.unwrap() == old(self)@.last() && final(self).source()
                == old(self).source().update(old(self).back(), *final(r.unwrap()))
                && final(self)@.len() == old(self)@.len() - 1,
    {
        self.0.next_back()
    }

    /// The number of elements that remain.
    pub fn len(&self) -> (r: usize)
        requires
            self.wf(),
        ensures
            r == self@.len(),
    {
        self.0.len()
    }
}

/// A cursor over the elements of one column of a borrowed buffer.
#[derive(Debug)]
pub struct IterCol<'a, T>(Iter<'a, T>);

impl<'a, T> View for IterCol<'a, T> {
    type V = Seq<T>;

    /// The elements that remain, first to last.
    closed spec fn view(&self) -> Seq<T> {
        self.0@
    }
}

impl<'a, T> IterCol<'a, T> {
    /// A cursor over column `col` of `buf`, top to bottom.
    pub fn new(buf: &ImgRef<'a, T>, col: usize) -> (r: Self)
        requires
            buf.wf(),
            col < buf.width,
        ensures
            r@ == Seq::new(buf.height as nat, |j: int| buf.buf@[col + buf.stride * j]),
    {
        IterCol(Iter::col(buf, col))
    }

    /// A cursor over every `stride`-th element of the slice `col`, from the first to
    /// the last. The slice must start and end on an element.
    pub fn new_col(col: &'a [T], stride: usize) -> (r: Self)
        requires
            stride > 0,
            slice_perfect(col@.len(), stride as nat),
        ensures
            r@ == Seq::new(run_count(col@.len(), stride as nat), |k: int| col@[k * stride as nat]),
    {
        IterCol(Iter::new(col, stride))
    }

    /// The same cursor as [`IterCol::new_col`].
    pub fn new_col_unchecked(col: &'a [T], stride: usize) -> (r: Self)
        requires
            stride > 0,
            slice_perfect(col@.len(), stride as nat),
        ensures
            r@ == Seq::new(run_count(col@.len(), stride as nat), |k: int| col@[k * stride as nat]),
    {
        IterCol(Iter::new_unchecked(col, stride))
    }

    /// Takes the first remaining element.
    pub fn next(&mut self) -> (r: Option<&'a T>)
        ensures
            old(self)@.len() == 0 ==> r is None && final(self)@ == old(self)@,
            old(self)@.len() > 0 ==> r is Some && *r.unwrap() == old(self)@[0] && final(self)@ == old(self)@.drop_first(),
    {
        self.0.next()
    }

    /// Takes the last remaining element.
    pub fn next_back(&mut self) -> (r: Option<&'a T>)
        ensures
            old(self)@.len() == 0 ==> r is None && final(self)@ == old(self)@,
            old(self)@.len() > 0 ==> r is Some && *r.unwrap() == old(self)@.last() && final(self)@ == old(self)@.drop_last(),
    {
        self.0.next_back()
    }

    /// The number of elements that remain.
    pub fn len(&self) -> (r: usize)
        ensures
            r == self@.len(),
    {
        self.0.len()
    }
}

/// A cursor over the elements of one column of a buffer borrowed for writing.
/// Each element it hands out is borrowed from the cursor until the next step.
#[derive(Debug)]
pub struct IterColMut<'a, T>(pub IterMut<'a, T>);

impl<'a, T> View for IterColMut<'a, T> {
    type V = Seq<T>;

    /// The elements that remain, first to last.
    open spec fn view(&self) -> Seq<T> {
        self.0@
    }
}

impl<'a, T> IterColMut<'a, T> {
    /// Every remaining element lies within the borrowed slice.
    pub open spec fn wf(&self) -> bool {
        self.0.wf()
    }

    /// The current contents of the borrowed slice.
    pub open spec fn source(&self) -> Seq<T> {
        self.0.source()
    }

    /// The index into the borrowed slice of the first remaining element.
    pub open spec fn front(&self) -> int {
        self.0.run().addrs()[0]
    }

    /// The index into the borrowed slice of the last remaining element.
    pub open spec fn back(&self) -> int {
        self.0.run().addrs().last()
    }

    /// A cursor over column `col` of `buf`, top to bottom.
    pub fn new(buf: ImgRefMut<'a, T>, col: usize) -> (r: Self)
        requires
            buf.wf(),
            col < buf.width,
        ensures
            r.wf(),
            r.source() == buf.contents(),
            final(buf.buf)@ == final(r.0.buf)@,
            r@ == Seq::new(buf.height as nat, |j: int| buf.contents()[col + buf.stride * j]),
    {
        IterColMut(IterMut::col(buf, col))
    }

    /// A cursor over every `stride`-th element of the slice `col`, from the first to
    /// the last. The slice must start and end on an element.
    pub fn new_col(col: &'a mut [T], stride: usize) -> (r: Self)
        requires
            stride > 0,
            slice_perfect(old(col)@.len(), stride as nat),
        ensures
            r.wf(),
            r.source() == old(col)@,
            final(col)@ == final(r.0.buf)@,
            r@ == Seq::new(run_count(old(col)@.len(), stride as nat), |k: int| old(col)@[k * stride as nat]),
    {
        IterColMut(IterMut::new(col, stride))
    }

    /// The same cursor as [`IterColMut::new_col`].
    pub fn new_col_unchecked(col: &'a mut [T], stride: usize) -> (r: Self)
        requires
            stride > 0,
            slice_perfect(old(col)@.len(), stride as nat),
        ensures
            r.wf(),
            r.source() == old(col)@,
            final(col)@ == final(r.0.buf)@,
            r@ == Seq::new(run_count(old(col)@.len(), stride as nat), |k: int| old(col)@[k * stride as nat]),
    {
        IterColMut(IterMut::new_unchecked(col, stride))
    }

    /// Takes the first remaining element, for reading or writing until the
    /// next step.
    pub fn next(&mut self) -> (r: Option<&mut T>)
        requires
            old(self).wf(),
        ensures
            final(self).wf(),
            final(final(self).0.buf)@ == final(old(self).0.buf)@,
            old(self)@.len() == 0 ==> r is None && final(self).source() == old(self).source() && final(self)@.len() == 0,
            old(self)@.len() > 0 ==> r is Some && *r.unwrap() == old(self)@[0] && final(self).source()
                == old(self).source().update(old(self).front(), *final(r.unwrap()))
                && final(self)@.len() == old(self)@.len() - 1,
    {
        self.0.next()
    }

    /// Takes the last remaining element, for reading or writing until the
    /// next step.
    pub fn next_back(&mut self) -> (r: Option<&mut T>)
        requires
            old(self).wf(),
        ensures
            final(self).wf(),
            final(final(self).0.buf)@ == final(old(self).0.buf)@,
            old(self)@.len() == 0 ==> r is None && final(self).source() == old(self).source() && final(self)@.len() == 0,
            old(self)@.len() > 0 ==> r is Some && *r.unwrap() == old(self)@.last() && final(self).source()
                == old(self).source().update(old(self).back(), *final(r.unwrap()))
                && final(self)@.len() == old(self)@.len() - 1,
    {
        self.0.next_back()
    }

    /// The number of elements that remain.
    pub fn len(&self) -> (r: usize)
        requires
            self.wf(),
        ensures
            r == self@.len(),
    {
        self.0.len()
    }
}

} // verus!
