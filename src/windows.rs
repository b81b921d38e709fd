//! Sequences of windows: one cursor per row, or one per column, of a buffer.
use vstd::prelude::*;
use crate::slice_perfect;
use crate::img::ImgPtr;
use crate::cursor::IterPtr;
use crate::cursor::IterPtrMut;
use crate::cursor::Run;
use crate::cursor::row_run;
use crate::cursor::col_run;
use crate::cursor::lemma_col_run;

verus! {

/// The abstract state of a window sequence: the run of the window at index 0,
/// how far each index moves it, and the range of indices that remain.
pub struct Windows {
    pub first: int,
    pub len: nat,
    pub slice_stride: nat,
    pub iter_stride: nat,
    pub start: nat,
    pub end: nat,
}

impl Windows {
    /// The windows are slice-perfect runs with a positive stride, the range
    /// of indices is ordered, and every address of every window fits in a
    /// `usize`.
    pub open spec fn wf(self) -> bool {
        &&& self.slice_stride > 0
        &&& slice_perfect(self.len, self.slice_stride)
        &&& self.start <= self.end
        &&& 0 <= self.first
        &&& self.first + self.len <= usize::MAX
        &&& self.end > 0 ==> self.first + (self.end - 1) * self.iter_stride + self.len <= usize::MAX
    }

    /// The run of the window at index `i`.
    pub open spec fn window(self, i: int) -> Run {
        Run { first: self.first + i * self.iter_stride, len: self.len, stride: self.slice_stride }
    }

    /// The runs of the windows that remain, first to last.
    pub open spec fn runs(self) -> Seq<Run> {
        Seq::new((self.end - self.start) as nat, |k: int| self.window(self.start + k))
    }
}

/// Every window of a well-formed sequence is a well-formed run.
pub proof fn lemma_window_wf(w: Windows, i: int)
    requires
        w.wf(),
        0 <= i < w.end,
    ensures
        w.window(i).wf(),
{
    assert(i * w.iter_stride <= (w.end - 1) * w.iter_stride) by (nonlinear_arith)
        requires
            0 <= i <= w.end - 1,
    ;
}

/// The windows of the rows of `buf` are the rows' runs.
proof fn lemma_rows_windows(buf: ImgPtr, w: Windows)
    requires
        buf.wf(),
        w == (Windows {
            first: buf.base as int,
            len: buf.width as nat,
            slice_stride: 1,
            iter_stride: buf.stride as nat,
            start: 0,
            end: buf.height as nat,
        }),
    ensures
        w.wf(),
        w.runs() == Seq::new(buf.height as nat, |r: int| row_run(buf, r)),
{
    if buf.height > 0 {
        assert((buf.height - 1) * buf.stride == buf.stride * (buf.height - 1)) by (nonlinear_arith);
    }
    assert forall|r: int| 0 <= r < buf.height implies #[trigger] w.runs()[r] == row_run(buf, r) by {
        assert(r * buf.stride == buf.stride * r) by (nonlinear_arith);
    }
    assert(w.runs() =~= Seq::new(buf.height as nat, |r: int| row_run(buf, r)));
}

/// The windows of the columns of `buf` are the columns' runs.
proof fn lemma_cols_windows(buf: ImgPtr, w: Windows)
    requires
        buf.wf(),
        w == (Windows {
            first: buf.base as int,
            len: if buf.width == 0 { 0 } else { col_run(buf, 0).len },
            slice_stride: buf.stride as nat,
            iter_stride: 1,
            start: 0,
            end: buf.width as nat,
        }),
    ensures
        w.wf(),
        w.runs() == Seq::new(buf.width as nat, |c: int| col_run(buf, c)),
{
    if buf.width > 0 {
        lemma_col_run(buf, 0);
    }
    assert(w.runs() =~= Seq::new(buf.width as nat, |c: int| col_run(buf, c)));
}

/// A sequence of windows over a buffer, each a cursor over one row or one
/// column, taken from either end.
#[derive(Clone, Copy, Debug, PartialEq, Eq)]
pub struct IterWindowsPtr {
    ptr: usize,
    len: usize,
    slice_stride: usize,
    iter_stride: usize,
    start: usize,
    end: usize,
}

impl View for IterWindowsPtr {
    type V = Windows;

    closed spec fn view(&self) -> Windows {
        Windows {
            first: self.ptr as int,
            len: self.len as nat,
            slice_stride: self.slice_stride as nat,
            iter_stride: self.iter_stride as nat,
            start: self.start as nat,
            end: self.end as nat,
        }
    }
}

impl IterWindowsPtr {
    /// A sequence of `count` windows: the first is the run of `len` slots from
    /// `ptr` read every `slice_stride` slots, and each next one starts
    /// `iter_stride` slots after the one before. The run must start and end on
    /// an element.
    pub fn new(ptr: usize, len: usize, slice_stride: usize, iter_stride: usize, count: usize) -> (r: Self)
        requires
            slice_stride > 0,
            slice_perfect(len as nat, slice_stride as nat),
            ptr + len <= usize::MAX,
            count > 0 ==> ptr + (count - 1) * iter_stride + len <= usize::MAX,
        ensures
            r@ == (Windows {
                first: ptr as int,
                len: len as nat,
                slice_stride: slice_stride as nat,
                iter_stride: iter_stride as nat,
                start: 0,
                end: count as nat,
            }),
            r@.wf(),
    {
        Self::new_unchecked(ptr, len, slice_stride, iter_stride, count)
    }

    /// The same sequence as [`IterWindowsPtr::new`], for callers that already
    /// know the run to be slice-perfect.
    pub fn new_unchecked(ptr: usize, len: usize, slice_stride: usize, iter_stride: usize, count: usize) -> (r: Self)
        requires
            slice_stride > 0,
            slice_perfect(len as nat, slice_stride as nat),
            ptr + len <= usize::MAX,
            count > 0 ==> ptr + (count - 1) * iter_stride + len <= usize::MAX,
        ensures
            r@ == (Windows {
                first: ptr as int,
                len: len as nat,
                slice_stride: slice_stride as nat,
                iter_stride: iter_stride as nat,
                start: 0,
                end: count as nat,
            }),
            r@.wf(),
    {
        IterWindowsPtr { ptr, len, slice_stride, iter_stride, start: 0, end: count }
    }

    /// The rows of `buf`, top to bottom.
    pub fn rows_ptr(buf: ImgPtr) -> (r: Self)
        requires
            buf.wf(),
        ensures
            r@.wf(),
            r@ == (Windows {
                first: buf.base as int,
                len: buf.width as nat,
                slice_stride: 1,
                iter_stride: buf.stride as nat,
                start: 0,
                end: buf.height as nat,
            }),
            r@.iter_stride == buf.stride,
            r@.runs() == Seq::new(buf.height as nat, |row: int| row_run(buf, row)),
    {
        let r = IterWindowsPtr {
            ptr: buf.base,
            len: buf.width,
            slice_stride: 1,
            iter_stride: buf.stride,
            start: 0,
            end: buf.height,
        };
        proof {
            lemma_rows_windows(buf, r@);
        }
        r
    }

    /// The columns of `buf`, left to right.
    pub fn cols_ptr(buf: ImgPtr) -> (r: Self)
        requires
            buf.wf(),
        ensures
            r@.wf(),
            r@ == (Windows {
                first: buf.base as int,
                len: if buf.width == 0 { 0 } else { col_run(buf, 0).len },
                slice_stride: buf.stride as nat,
                iter_stride: 1,
                start: 0,
                end: buf.width as nat,
            }),
            r@.iter_stride == 1,
            r@.runs() == Seq::new(buf.width as nat, |col: int| col_run(buf, col)),
    {
        let len: usize = if buf.height == 0 || buf.width == 0 {
            0
        } else {
            buf.stride * (buf.height - 1) + 1
        };
        let r = IterWindowsPtr {
            ptr: buf.base,
            len,
            slice_stride: buf.stride,
            iter_stride: 1,
            start: 0,
            end: buf.width,
        };
        proof {
            lemma_cols_windows(buf, r@);
        }
        r
    }

    /// The cursor of the window at `index`.
    pub(crate) fn window(&self, index: usize) -> (r: IterPtr)
        requires
            self@.wf(),
            index < self@.end,
        ensures
            r@ == self@.window(index as int),
            r@.wf(),
        no_unwind
    {
        proof {
            lemma_window_wf(self@, index as int);
        }
        IterPtr::new(self.ptr + index * self.iter_stride, self.len, self.slice_stride)
    }

    /// How far each window lies from the one before.
    pub(crate) fn iter_stride(&self) -> (r: usize)
        ensures
            r == self@.iter_stride,
        no_unwind
    {
        self.iter_stride
    }

    /// Drops the first `n` remaining indices and returns the first of them.
    pub(crate) fn take_front(&mut self, n: usize) -> (r: usize)
        requires
            old(self)@.wf(),
            old(self)@.start + n <= old(self)@.end,
        ensures
            final(self)@.wf(),
            r == old(self)@.start,
            final(self)@ == (Windows { start: (old(self)@.start + n) as nat, ..old(self)@ }),
        no_unwind
    {
        let first = self.start;
        self.start = first + n;
        first
    }

    /// Drops the last `n` remaining indices and returns the first of them.
    pub(crate) fn take_back(&mut self, n: usize) -> (r: usize)
        requires
            old(self)@.wf(),
            old(self)@.start + n <= old(self)@.end,
        ensures
            final(self)@.wf(),
            r == old(self)@.end - n,
            final(self)@ == (Windows { end: (old(self)@.end - n) as nat, ..old(self)@ }),
        no_unwind
    {
        let first = self.end - n;
        proof {
            if first > 0 {
                assert((first - 1) * self.iter_stride <= (self.end - 1) * self.iter_stride) by (nonlinear_arith)
                    requires
                        first <= self.end,
                ;
            }
        }
        self.end = first;
        first
    }

    /// Takes the first remaining window.
    pub fn next(&mut self) -> (r: Option<IterPtr>)
        requires
            old(self)@.wf(),
        ensures
            final(self)@.wf(),
            old(self)@.runs().len() == 0 ==> r is None && final(self)@ == old(self)@,
            old(self)@.runs().len() > 0 ==> r is Some && r.unwrap()@ == old(self)@.runs()[0]
                && r.unwrap()@.wf() && final(self)@ == (Windows { start: old(self)@.start + 1, ..old(self)@ }),
            final(self)@.runs() == if old(self)@.runs().len() == 0 {
                old(self)@.runs()
            } else {
                old(self)@.runs().drop_first()
            },
        no_unwind
    {
        if self.start < self.end {
            let index = self.start;
            self.start = index + 1;
            let r = self.window(index);
            assert(self@.runs() =~= old(self)@.runs().drop_first());
            Some(r)
        } else {
            None
        }
    }

    /// Takes the last remaining window.
    pub fn next_back(&mut self) -> (r: Option<IterPtr>)
        requires
            old(self)@.wf(),
        ensures
            final(self)@.wf(),
            old(self)@.runs().len() == 0 ==> r is None && final(self)@ == old(self)@,
            old(self)@.runs().len() > 0 ==> r is Some && r.unwrap()@ == old(self)@.runs().last()
                && r.unwrap()@.wf() && final(self)@ == (Windows { end: (old(self)@.end - 1) as nat, ..old(self)@ }),
            final(self)@.runs() == if old(self)@.runs().len() == 0 {
                old(self)@.runs()
            } else {
                old(self)@.runs().drop_last()
            },
        no_unwind
    {
        if self.start < self.end {
            let index = self.end - 1;
            let r = self.window(index);
            proof {
                if index > 0 {
                    assert((index - 1) * self.iter_stride <= index * self.iter_stride) by (nonlinear_arith);
                }
            }
            self.end = index;
            assert(self@.runs() =~= old(self)@.runs().drop_last());
            Some(r)
        } else {
            None
        }
    }

    /// The number of windows that remain.
    pub fn len(&self) -> (r: usize)
        requires
            self@.wf(),
        ensures
            r == self@.runs().len(),
        no_unwind
    {
        self.end - self.start
    }
}

/// A sequence of windows over a buffer to which the caller holds exclusive
/// access. It walks exactly as [`IterWindowsPtr`] does.
#[derive(Clone, Copy, Debug, PartialEq, Eq)]
pub struct IterWindowsPtrMut(IterWindowsPtr);

impl View for IterWindowsPtrMut {
    type V = Windows;

    closed spec fn view(&self) -> Windows {
        self.0@
    }
}

impl IterWindowsPtrMut {
    /// A sequence of `count` windows: the first is the run of `len` slots from
    /// `ptr` read every `slice_stride` slots, and each next one starts
    /// `iter_stride` slots after the one before. The run must start and end on
    /// an element.
    pub fn new(ptr: usize, len: usize, slice_stride: usize, iter_stride: usize, count: usize) -> (r: Self)
        requires
            slice_stride > 0,
            slice_perfect(len as nat, slice_stride as nat),
            ptr + len <= usize::MAX,
            count > 0 ==> ptr + (count - 1) * iter_stride + len <= usize::MAX,
        ensures
            r@ == (Windows {
                first: ptr as int,
                len: len as nat,
                slice_stride: slice_stride as nat,
                iter_stride: iter_stride as nat,
                start: 0,
                end: count as nat,
            }),
            r@.wf(),
    {
        IterWindowsPtrMut(IterWindowsPtr::new(ptr, len, slice_stride, iter_stride, count))
    }

    /// The same sequence as [`IterWindowsPtrMut::new`], for callers that
    /// already know the run to be slice-perfect.
    pub fn new_unchecked(ptr: usize, len: usize, slice_stride: usize, iter_stride: usize, count: usize) -> (r: Self)
        requires
            slice_stride > 0,
            slice_perfect(len as nat, slice_stride as nat),
            ptr + len <= usize::MAX,
            count > 0 ==> ptr + (count - 1) * iter_stride + len <= usize::MAX,
        ensures
            r@ == (Windows {
                first: ptr as int,
                len: len as nat,
                slice_stride: slice_stride as nat,
                iter_stride: iter_stride as nat,
                start: 0,
                end: count as nat,
            }),
            r@.wf(),
    {
        IterWindowsPtrMut(IterWindowsPtr::new_unchecked(ptr, len, slice_stride, iter_stride, count))
    }

    /// The rows of `buf`, top to bottom.
    pub fn rows_ptr(buf: ImgPtr) -> (r: Self)
        requires
            buf.wf(),
        ensures
            r@.wf(),
            r@ == (Windows {
                first: buf.base as int,
                len: buf.width as nat,
                slice_stride: 1,
                iter_stride: buf.stride as nat,
                start: 0,
                end: buf.height as nat,
            }),
            r@.iter_stride == buf.stride,
            r@.runs() == Seq::new(buf.height as nat, |row: int| row_run(buf, row)),
    {
        IterWindowsPtrMut(IterWindowsPtr::rows_ptr(buf))
    }

    /// The columns of `buf`, left to right.
    pub fn cols_ptr(buf: ImgPtr) -> (r: Self)
        requires
            buf.wf(),
        ensures
            r@.wf(),
            r@ == (Windows {
                first: buf.base as int,
                len: if buf.width == 0 { 0 } else { col_run(buf, 0).len },
                slice_stride: buf.stride as nat,
                iter_stride: 1,
                start: 0,
                end: buf.width as nat,
            }),
            r@.iter_stride == 1,
            r@.runs() == Seq::new(buf.width as nat, |col: int| col_run(buf, col)),
    {
        IterWindowsPtrMut(IterWindowsPtr::cols_ptr(buf))
    }

    /// Takes the first remaining window.
    pub fn next(&mut self) -> (r: Option<IterPtrMut>)
        requires
            old(self)@.wf(),
        ensures
            final(self)@.wf(),
            old(self)@.runs().len() == 0 ==> r is None && final(self)@ == old(self)@,
            old(self)@.runs().len() > 0 ==> r is Some && r.unwrap()@ == old(self)@.runs()[0]
                && r.unwrap()@.wf() && final(self)@ == (Windows { start: old(self)@.start + 1, ..old(self)@ }),
            final(self)@.runs() == if old(self)@.runs().len() == 0 {
                old(self)@.runs()
            } else {
                old(self)@.runs().drop_first()
            },
    {
        match self.0.next() {
            Some(iter) => Some(IterPtrMut::from_shared(iter)),
            None => None,
        }
    }

    /// Takes the last remaining window.
    pub fn next_back(&mut self) -> (r: Option<IterPtrMut>)
        requires
            old(self)@.wf(),
        ensures
            final(self)@.wf(),
            old(self)@.runs().len() == 0 ==> r is None && final(self)@ == old(self)@,
            old(self)@.runs().len() > 0 ==> r is Some && r.unwrap()@ == old(self)@.runs().last()
                && r.unwrap()@.wf() && final(self)@ == (Windows { end: (old(self)@.end - 1) as nat, ..old(self)@ }),
            final(self)@.runs() == if old(self)@.runs().len() == 0 {
                old(self)@.runs()
            } else {
                old(self)@.runs().drop_last()
            },
    {
        match self.0.next_back() {
            Some(iter) => Some(IterPtrMut::from_shared(iter)),
            None => None,
        }
    }

    /// The number of windows that remain.
    pub fn len(&self) -> (r: usize)
        requires
            self@.wf(),
        ensures
            r == self@.runs().len(),
    {
        self.0.len()
    }
}

} // verus!
