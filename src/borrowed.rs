//! Cursors that borrow the buffer and yield its elements.
use vstd::prelude::*;
use crate::slice_perfect;
use crate::img::ImgRef;
use crate::img::ImgRefMut;
use crate::cursor::IterPtr;
use crate::cursor::IterPtrMut;
use crate::cursor::Run;
use crate::cursor::run_count;
use crate::cursor::row_run;
use crate::cursor::col_run;
use crate::cursor::lemma_row_run;
use crate::cursor::lemma_col_run;
use crate::cursor::lemma_steps;

verus! {

/// The elements of `src` at the addresses of `run`, in order.
pub open spec fn elements<T>(src: Seq<T>, run: Run) -> Seq<T> {
    run.addrs().map_values(|a: int| src[a])
}

/// Every address of `run` indexes `src`.
pub open spec fn run_within(run: Run, len: nat) -> bool {
    run.wf() && (run.len > 0 ==> run.first + run.len <= len)
}

/// Taking from either end of a run that lies within `src` takes the first or
/// the last of its elements, and what is left still lies within `src`.
proof fn lemma_elements_steps<T>(src: Seq<T>, run: Run)
    requires
        run_within(run, src.len()),
    ensures
        run_within(run.step_front(), src.len()),
        run_within(run.step_back(), src.len()),
        run.count() > 0 ==> elements(src, run.step_front()) == elements(src, run).drop_first(),
        run.count() > 0 ==> elements(src, run.step_back()) == elements(src, run).drop_last(),
        run.count() > 0 ==> 0 <= run.addrs()[0] < src.len(),
        run.count() > 0 ==> 0 <= run.addrs().last() < src.len(),
        run.count() == 0 ==> run.step_front() == run && run.step_back().count() == 0,
{
    if run.count() > 0 {
        lemma_steps(run);
        assert(elements(src, run.step_front()) =~= elements(src, run).drop_first());
        assert(elements(src, run.step_back()) =~= elements(src, run).drop_last());
    }
}

/// A cursor over the elements of one strided run of a borrowed slice.
#[derive(Debug)]
pub struct Iter<'a, T> {
    buf: &'a [T],
    inner: IterPtr,
}

impl<'a, T> Iter<'a, T> {
    #[verifier::type_invariant]
    spec fn inv(self) -> bool {
        run_within(self.inner@, self.buf@.len())
    }

    /// The slice that the cursor reads.
    pub closed spec fn source(&self) -> Seq<T> {
        self.buf@
    }

    /// The run of addresses, indices into the slice, that remain.
    pub closed spec fn run(&self) -> Run {
        self.inner@
    }
}

impl<'a, T> View for Iter<'a, T> {
    type V = Seq<T>;

    /// The elements that remain, first to last.
    open spec fn view(&self) -> Seq<T> {
        elements(self.source(), self.run())
    }
}

impl<'a, T> Iter<'a, T> {
    /// A cursor over every `stride`-th element of `slice`, from the first to
    /// the last. The slice must start and end on an element.
    pub fn new(slice: &'a [T], stride: usize) -> (r: Self)
        requires
            stride > 0,
            slice_perfect(slice@.len(), stride as nat),
        ensures
            r.source() == slice@,
            r.run() == (Run { first: 0, len: slice@.len(), stride: stride as nat }),
            r@ == Seq::new(run_count(slice@.len(), stride as nat), |k: int| slice@[k * stride]),
    {
        Self::new_unchecked(slice, stride)
    }

    /// The same cursor as [`Iter::new`], for callers that already know the
    /// slice to be slice-perfect.
    pub fn new_unchecked(slice: &'a [T], stride: usize) -> (r: Self)
        requires
            stride > 0,
            slice_perfect(slice@.len(), stride as nat),
        ensures
            r.source() == slice@,
            r.run() == (Run { first: 0, len: slice@.len(), stride: stride as nat }),
            r@ == Seq::new(run_count(slice@.len(), stride as nat), |k: int| slice@[k * stride]),
    {
        let r = Iter { buf: slice, inner: IterPtr::new_unchecked(0, slice.len(), stride) };
        assert(r@ =~= Seq::new(run_count(slice@.len(), stride as nat), |k: int| slice@[k * stride]));
        r
    }

    /// A cursor over the elements of row `row` of `buf`, left to right.
    pub fn row(buf: &ImgRef<'a, T>, row: usize) -> (r: Self)
        requires
            buf.wf(),
            row < buf.height,
        ensures
            r.source() == buf.buf@,
            r.run() == row_run(buf.layout(), row as int),
            r@ == Seq::new(buf.width as nat, |i: int| buf.buf@[buf.stride * row + i]),
    {
        let layout = buf.as_ptr();
        proof {
            lemma_row_run(layout, row as int);
        }
        let r = Iter { buf: buf.buf, inner: IterPtr::row_ptr(layout, row) };
        assert(r@ =~= Seq::new(buf.width as nat, |i: int| buf.buf@[buf.stride * row + i]));
        r
    }

    /// A cursor over the elements of column `col` of `buf`, top to bottom.
    pub fn col(buf: &ImgRef<'a, T>, col: usize) -> (r: Self)
        requires
            buf.wf(),
            col < buf.width,
        ensures
            r.source() == buf.buf@,
            r.run() == col_run(buf.layout(), col as int),
            r@ == Seq::new(buf.height as nat, |j: int| buf.buf@[col + buf.stride * j]),
    {
        let layout = buf.as_ptr();
        proof {
            lemma_col_run(layout, col as int);
        }
        let r = Iter { buf: buf.buf, inner: IterPtr::col_ptr(layout, col) };
        assert(r@ =~= Seq::new(buf.height as nat, |j: int| buf.buf@[col + buf.stride * j]));
        r
    }

    /// The cursor over the elements of `buf` at the addresses of `inner`.
    pub(crate) fn from_parts(buf: &'a [T], inner: IterPtr) -> (r: Self)
        requires
            run_within(inner@, buf@.len()),
        ensures
            r.source() == buf@,
            r.run() == inner@,
    {
        Iter { buf, inner }
    }

    /// The cursor over the addresses, indices into the slice, that remain.
    pub fn into_inner(self) -> (r: IterPtr)
        ensures
            r@ == self.run(),
    {
        self.inner
    }

    /// Takes the first remaining element.
    pub fn next(&mut self) -> (r: Option<&'a T>)
        ensures
            final(self).source() == old(self).source(),
            final(self).run() == old(self).run().step_front(),
            old(self)@.len() == 0 ==> r is None && final(self)@ == old(self)@,
            old(self)@.len() > 0 ==> r is Some && *r.unwrap() == old(self)@[0] && final(self)@ == old(self)@.drop_first(),
    {
        proof {
            use_type_invariant(&*self);
            lemma_elements_steps(self.buf@, self.inner@);
        }
        match self.inner.next() {
            Some(a) => Some(&self.buf[a]),
            None => None,
        }
    }

    /// Takes the last remaining element.
    pub fn next_back(&mut self) -> (r: Option<&'a T>)
        ensures
            final(self).source() == old(self).source(),
            final(self).run() == old(self).run().step_back(),
            old(self)@.len() == 0 ==> r is None && final(self)@ == old(self)@,
            old(self)@.len() > 0 ==> r is Some && *r.unwrap() == old(self)@.last() && final(self)@ == old(self)@.drop_last(),
    {
        proof {
            use_type_invariant(&*self);
            lemma_elements_steps(self.buf@, self.inner@);
        }
        match self.inner.next_back() {
            Some(a) => Some(&self.buf[a]),
            None => None,
        }
    }

    /// The number of elements that remain.
    pub fn len(&self) -> (r: usize)
        ensures
            r == self@.len(),
    {
        proof {
            use_type_invariant(self);
        }
        self.inner.len()
    }
}

/// A cursor over the elements of one strided run of a slice borrowed for
/// writing. Each element it hands out is borrowed from the cursor until the
/// next step.
#[derive(Debug)]
pub struct IterMut<'a, T> {
    /// The slice that the cursor reads and writes.
    pub buf: &'a mut [T],
    /// The addresses, indices into `buf`, that remain.
    pub inner: IterPtrMut,
}

impl<'a, T> IterMut<'a, T> {
    /// Every remaining address indexes the slice.
    pub open spec fn wf(&self) -> bool {
        run_within(self.inner@, self.buf@.len())
    }

    /// The current contents of the slice that the cursor reads and writes.
    pub open spec fn source(&self) -> Seq<T> {
        self.buf@
    }

    /// The run of addresses, indices into the slice, that remain.
    pub open spec fn run(&self) -> Run {
        self.inner@
    }
}

impl<'a, T> View for IterMut<'a, T> {
    type V = Seq<T>;

    /// The elements that remain, first to last.
    open spec fn view(&self) -> Seq<T> {
        elements(self.source(), self.run())
    }
}

impl<'a, T> IterMut<'a, T> {
    /// A cursor over every `stride`-th element of `slice`, from the first to
    /// the last. The slice must start and end on an element.
    pub fn new(slice: &'a mut [T], stride: usize) -> (r: Self)
        requires
            stride > 0,
            slice_perfect(old(slice)@.len(), stride as nat),
        ensures
            r.wf(),
            r.source() == old(slice)@,
            final(slice)@ == final(r.buf)@,
            r.run() == (Run { first: 0, len: old(slice)@.len(), stride: stride as nat }),
            r@ == Seq::new(run_count(old(slice)@.len(), stride as nat), |k: int| old(slice)@[k * stride]),
    {
        Self::new_unchecked(slice, stride)
    }

    /// The same cursor as [`IterMut::new`], for callers that already know the
    /// slice to be slice-perfect.
    pub fn new_unchecked(slice: &'a mut [T], stride: usize) -> (r: Self)
        requires
            stride > 0,
            slice_perfect(old(slice)@.len(), stride as nat),
        ensures
            r.wf(),
            r.source() == old(slice)@,
            final(slice)@ == final(r.buf)@,
            r.run() == (Run { first: 0, len: old(slice)@.len(), stride: stride as nat }),
            r@ == Seq::new(run_count(old(slice)@.len(), stride as nat), |k: int| old(slice)@[k * stride]),
    {
        let len = slice.len();
        let r = IterMut { buf: slice, inner: IterPtrMut::new_unchecked(0, len, stride) };
        assert(r@ =~= Seq::new(run_count(old(slice)@.len(), stride as nat), |k: int| old(slice)@[k * stride]));
        r
    }

    /// A cursor over the elements of row `row` of `buf`, left to right.
    pub fn row(buf: ImgRefMut<'a, T>, row: usize) -> (r: Self)
        requires
            buf.wf(),
            row < buf.height,
        ensures
            r.wf(),
            r.source() == buf.contents(),
            final(buf.buf)@ == final(r.buf)@,
            r.run() == row_run(buf.layout(), row as int),
            r@ == Seq::new(buf.width as nat, |i: int| buf.contents()[buf.stride * row + i]),
    {
        let layout = buf.as_ptr();
        proof {
            lemma_row_run(layout, row as int);
        }
        let ghost contents = buf.contents();
        let r = IterMut { buf: buf.buf, inner: IterPtrMut::row_ptr(layout, row) };
        assert(r@ =~= Seq::new(buf.width as nat, |i: int| contents[buf.stride * row + i]));
        r
    }

    /// A cursor over the elements of column `col` of `buf`, top to bottom.
    pub fn col(buf: ImgRefMut<'a, T>, col: usize) -> (r: Self)
        requires
            buf.wf(),
            col < buf.width,
        ensures
            r.wf(),
            r.source() == buf.contents(),
            final(buf.buf)@ == final(r.buf)@,
            r.run() == col_run(buf.layout(), col as int),
            r@ == Seq::new(buf.height as nat, |j: int| buf.contents()[col + buf.stride * j]),
    {
        let layout = buf.as_ptr();
        proof {
            lemma_col_run(layout, col as int);
        }
        let ghost contents = buf.contents();
        let r = IterMut { buf: buf.buf, inner: IterPtrMut::col_ptr(layout, col) };
        assert(r@ =~= Seq::new(buf.height as nat, |j: int| contents[col + buf.stride * j]));
        r
    }

    /// The cursor over the addresses, indices into the slice, that remain.
    pub fn into_inner(self) -> (r: IterPtrMut)
        ensures
            r@ == self.run(),
            final(self.buf)@ == old(self.buf)@,
    {
        self.inner
    }

    /// Takes the first remaining element, for reading or writing until the
    /// next step.
    pub fn next(&mut self) -> (r: Option<&mut T>)
        requires
            old(self).wf(),
        ensures
            final(self).wf(),
            final(final(self).buf)@ == final(old(self).buf)@,
            final(self).run() == old(self).run().step_front(),
            old(self)@.len() == 0 ==> r is None && final(self).source() == old(self).source(),
            old(self)@.len() > 0 ==> r is Some && *r.unwrap() == old(self)@[0] && final(self).source()
                == old(self).source().update(old(self).run().addrs()[0], *final(r.unwrap())),
            final(self)@.len() == if old(self)@.len() == 0 { 0 } else { old(self)@.len() - 1 },
    {
        proof {
            lemma_elements_steps(self.buf@, self.inner@);
        }
        match self.inner.next() {
            Some(a) => {
                let (_, tail) = self.buf.split_at_mut(a);
                tail.first_mut()
            },
            None => None,
        }
    }

    /// Takes the last remaining element, for reading or writing until the
    /// next step.
    pub fn next_back(&mut self) -> (r: Option<&mut T>)
        requires
            old(self).wf(),
        ensures
            final(self).wf(),
            final(final(self).buf)@ == final(old(self).buf)@,
            final(self).run() == old(self).run().step_back(),
            old(self)@.len() == 0 ==> r is None && final(self).source() == old(self).source(),
            old(self)@.len() > 0 ==> r is Some && *r.unwrap() == old(self)@.last() && final(self).source()
                == old(self).source().update(old(self).run().addrs().last(), *final(r.unwrap())),
            final(self)@.len() == if old(self)@.len() == 0 { 0 } else { old(self)@.len() - 1 },
    {
        proof {
            lemma_elements_steps(self.buf@, self.inner@);
            if self.inner@.count() > 0 {
                lemma_steps(self.inner@);
            }
        }
        match self.inner.next_back() {
            Some(a) => {
                let (_, tail) = self.buf.split_at_mut(a);
                tail.first_mut()
            },
            None => None,
        }
    }

    /// The number of elements that remain.
    pub fn len(&self) -> (r: usize)
        requires
            self.wf(),
        ensures
            r == self@.len(),
    {
        self.inner.len()
    }
}

} // verus!
