//! Cursors over one row or one column of a buffer.
use vstd::prelude::*;
use crate::img::ImgPtr;
use crate::cursor::IterPtr;
use crate::cursor::IterPtrMut;
use crate::cursor::Run;
use crate::cursor::row_run;
use crate::cursor::col_run;

verus! {

/// A cursor over the addresses of one row of a buffer.
#[derive(Clone, Copy, Debug, PartialEq, Eq)]
pub struct IterRowPtr(IterPtr);

impl View for IterRowPtr {
    type V = Run;

    closed spec fn view(&self) -> Run {
        self.0@
    }
}

impl IterRowPtr {
    /// A cursor over row `row` of `buf`, left to right.
    pub fn new(buf: &ImgPtr, row: usize) -> (r: Self)
        requires
            buf.wf(),
            row < buf.height,
        ensures
            r@ == row_run(*buf, row as int),
            r@.wf(),
            r@.addrs() == Seq::new(buf.width as nat, |i: int| buf.addr(row as int, i)),
    {
        Self::new_unchecked(buf, row)
    }

    /// The same cursor as [`IterRowPtr::new`].
    pub fn new_unchecked(buf: &ImgPtr, row: usize) -> (r: Self)
        requires
            buf.wf(),
            row < buf.height,
        ensures
            r@ == row_run(*buf, row as int),
            r@.wf(),
            r@.addrs() == Seq::new(buf.width as nat, |i: int| buf.addr(row as int, i)),
    {
        IterRowPtr(IterPtr::row_ptr(*buf, row))
    }

    /// Takes the first remaining address.
    pub fn next(&mut self) -> (r: Option<usize>)
        requires
            old(self)@.wf(),
        ensures
            final(self)@.wf(),
            final(self)@ == old(self)@.step_front(),
            old(self)@.count() == 0 ==> r is None,
            old(self)@.count() > 0 ==> r == Some(old(self)@.addrs()[0] as usize),
    {
        self.0.next()
    }

    /// Takes the last remaining address.
    pub fn next_back(&mut self) -> (r: Option<usize>)
        requires
            old(self)@.wf(),
        ensures
            final(self)@.wf(),
            final(self)@ == old(self)@.step_back(),
            old(self)@.count() == 0 ==> r is None,
            old(self)@.count() > 0 ==> r == Some(old(self)@.addrs().last() as usize),
    {
        self.0.next_back()
    }

    /// The number of addresses that remain.
    pub fn len(&self) -> (r: usize)
        requires
            self@.wf(),
        ensures
            r == self@.count(),
    {
        self.0.len()
    }
}

/// A cursor over the addresses of one row of a buffer, to which the caller holds exclusive access.
#[derive(Clone, Copy, Debug, PartialEq, Eq)]
pub struct IterRowPtrMut(IterPtrMut);

impl View for IterRowPtrMut {
    type V = Run;

    closed spec fn view(&self) -> Run {
        self.0@
    }
}

impl IterRowPtrMut {
    /// A cursor over row `row` of `buf`, left to right.
    pub fn new(buf: &ImgPtr, row: usize) -> (r: Self)
        requires
            buf.wf(),
            row < buf.height,
        ensures
            r@ == row_run(*buf, row as int),
            r@.wf(),
            r@.addrs() == Seq::new(buf.width as nat, |i: int| buf.addr(row as int, i)),
    {
        Self::new_unchecked(buf, row)
    }

    /// The same cursor as [`IterRowPtrMut::new`].
    pub fn new_unchecked(buf: &ImgPtr, row: usize) -> (r: Self)
        requires
            buf.wf(),
            row < buf.height,
        ensures
            r@ == row_run(*buf, row as int),
            r@.wf(),
            r@.addrs() == Seq::new(buf.width as nat, |i: int| buf.addr(row as int, i)),
    {
        IterRowPtrMut(IterPtrMut::row_ptr(*buf, row))
    }

    /// Takes the first remaining address.
    pub fn next(&mut self) -> (r: Option<usize>)
        requires
            old(self)@.wf(),
        ensures
            final(self)@.wf(),
            final(self)@ == old(self)@.step_front(),
            old(self)@.count() == 0 ==> r is None,
            old(self)@.count() > 0 ==> r == Some(old(self)@.addrs()[0] as usize),
    {
        self.0.next()
    }

    /// Takes the last remaining address.
    pub fn next_back(&mut self) -> (r: Option<usize>)
        requires
            old(self)@.wf(),
        ensures
            final(self)@.wf(),
            final(self)@ == old(self)@.step_back(),
            old(self)@.count() == 0 ==> r is None,
            old(self)@.count() > 0 ==> r == Some(old(self)@.addrs().last() as usize),
    {
        self.0.next_back()
    }

    /// The number of addresses that remain.
    pub fn len(&self) -> (r: usize)
        requires
            self@.wf(),
        ensures
            r == self@.count(),
    {
        self.0.len()
    }
}

/// A cursor over the addresses of one column of a buffer.
#[derive(Clone, Copy, Debug, PartialEq, Eq)]
pub struct IterColPtr(IterPtr);

impl View for IterColPtr {
    type V = Run;

    closed spec fn view(&self) -> Run {
        self.0@
    }
}

impl IterColPtr {
    /// A cursor over column `col` of `buf`, top to bottom.
    pub fn new(buf: &ImgPtr, col: usize) -> (r: Self)
        requires
            buf.wf(),
            col < buf.width,
        ensures
            r@ == col_run(*buf, col as int),
            r@.wf(),
            r@.addrs() == Seq::new(buf.height as nat, |j: int| buf.addr(j, col as int)),
    {
        Self::new_unchecked(buf, col)
    }

    /// The same cursor as [`IterColPtr::new`].
    pub fn new_unchecked(buf: &ImgPtr, col: usize) -> (r: Self)
        requires
            buf.wf(),
            col < buf.width,
        ensures
            r@ == col_run(*buf, col as int),
            r@.wf(),
            r@.addrs() == Seq::new(buf.height as nat, |j: int| buf.addr(j, col as int)),
    {
        IterColPtr(IterPtr::col_ptr(*buf, col))
    }

    /// Takes the first remaining address.
    pub fn next(&mut self) -> (r: Option<usize>)
        requires
            old(self)@.wf(),
        ensures
            final(self)@.wf(),
            final(self)@ == old(self)@.step_front(),
            old(self)@.count() == 0 ==> r is None,
            old(self)@.count() > 0 ==> r == Some(old(self)@.addrs()[0] as usize),
    {
        self.0.next()
    }

    /// Takes the last remaining address.
    pub fn next_back(&mut self) -> (r: Option<usize>)
        requires
            old(self)@.wf(),
        ensures
            final(self)@.wf(),
            final(self)@ == old(self)@.step_back(),
            old(self)@.count() == 0 ==> r is None,
            old(self)@.count() > 0 ==> r == Some(old(self)@.addrs().last() as usize),
    {
        self.0.next_back()
    }

    /// The number of addresses that remain.
    pub fn len(&self) -> (r: usize)
        requires
            self@.wf(),
        ensures
            r == self@.count(),
    {
        self.0.len()
    }
}

/// A cursor over the addresses of one column of a buffer, to which the caller holds exclusive access.
#[derive(Clone, Copy, Debug, PartialEq, Eq)]
pub struct IterColPtrMut(IterPtrMut);

impl View for IterColPtrMut {
    type V = Run;

    closed spec fn view(&self) -> Run {
        self.0@
    }
}

impl IterColPtrMut {
    /// A cursor over column `col` of `buf`, top to bottom.
    pub fn new(buf: &ImgPtr, col: usize) -> (r: Self)
        requires
            buf.wf(),
            col < buf.width,
        ensures
            r@ == col_run(*buf, col as int),
            r@.wf(),
            r@.addrs() == Seq::new(buf.height as nat, |j: int| buf.addr(j, col as int)),
    {
        Self::new_unchecked(buf, col)
    }

    /// The same cursor as [`IterColPtrMut::new`].
    pub fn new_unchecked(buf: &ImgPtr, col: usize) -> (r: Self)
        requires
            buf.wf(),
            col < buf.width,
        ensures
            r@ == col_run(*buf, col as int),
            r@.wf(),
            r@.addrs() == Seq::new(buf.height as nat, |j: int| buf.addr(j, col as int)),
    {
        IterColPtrMut(IterPtrMut::col_ptr(*buf, col))
    }

    /// Takes the first remaining address.
    pub fn next(&mut self) -> (r: Option<usize>)
        requires
            old(self)@.wf(),
        ensures
            final(self)@.wf(),
            final(self)@ == old(self)@.step_front(),
            old(self)@.count() == 0 ==> r is None,
            old(self)@.count() > 0 ==> r == Some(old(self)@.addrs()[0] as usize),
    {
        self.0.next()
    }

    /// Takes the last remaining address.
    pub fn next_back(&mut self) -> (r: Option<usize>)
        requires
            old(self)@.wf(),
        ensures
            final(self)@.wf(),
            final(self)@ == old(self)@.step_back(),
            old(self)@.count() == 0 ==> r is None,
            old(self)@.count() > 0 ==> r == Some(old(self)@.addrs().last() as usize),
    {
        self.0.next_back()
    }

    /// The number of addresses that remain.
    pub fn len(&self) -> (r: usize)
        requires
            self@.wf(),
        ensures
            r == self@.count(),
    {
        self.0.len()
    }
}

} // verus!
