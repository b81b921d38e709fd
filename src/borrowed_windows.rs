//! Window sequences that borrow the buffer: one element cursor per row or
//! per column.
use vstd::prelude::*;
use crate::img::ImgRef;
use crate::img::ImgRefMut;
use crate::cursor::Run;
use crate::cursor::row_run;
use crate::cursor::col_run;
use crate::cursor::lemma_row_run;
use crate::cursor::lemma_col_run;
use crate::windows::IterWindowsPtr;
use crate::windows::IterWindowsPtrMut;
use crate::windows::Windows;
use crate::borrowed::Iter;
use crate::borrowed::IterMut;
use crate::borrowed::elements;
use crate::borrowed::run_within;

verus! {

/// Every window that remains lies within a slice of `len` elements.
pub open spec fn windows_within(w: Windows, len: nat) -> bool {
    &&& w.wf()
    &&& w.start < w.end && w.len > 0 ==> w.first + (w.end - 1) * w.iter_stride + w.len <= len
}

/// Each remaining window of a sequence within a slice lies within it.
pub proof fn lemma_window_within(w: Windows, len: nat, i: int)
    requires
        windows_within(w, len),
        w.start <= i < w.end,
    ensures
        run_within(w.window(i), len),
{
    crate::windows::lemma_window_wf(w, i);
    assert(i * w.iter_stride <= (w.end - 1) * w.iter_stride) by (nonlinear_arith)
        requires
            i <= w.end - 1,
    ;
}

/// A sequence of windows over a borrowed buffer, each a cursor over the
/// elements of one row or one column, taken from either end.
#[derive(Debug)]
pub struct IterWindows<'a, T> {
    buf: &'a [T],
    inner: IterWindowsPtr,
}

impl<'a, T> IterWindows<'a, T> {
    #[verifier::type_invariant]
    spec fn inv(self) -> bool {
        windows_within(self.inner@, self.buf@.len())
    }

    /// The slice that the windows read.
    pub closed spec fn source(&self) -> Seq<T> {
        self.buf@
    }

    /// The runs of the windows that remain.
    pub closed spec fn runs(&self) -> Seq<Run> {
        self.inner@.runs()
    }
}

impl<'a, T> View for IterWindows<'a, T> {
    type V = Seq<Seq<T>>;

    /// The elements of each remaining window, first window to last.
    open spec fn view(&self) -> Seq<Seq<T>> {
        self.runs().map_values(|run: Run| elements(self.source(), run))
    }
}

impl<'a, T> IterWindows<'a, T> {
    /// The rows of `buf`, top to bottom.
    pub fn rows(buf: &ImgRef<'a, T>) -> (r: Self)
        requires
            buf.wf(),
        ensures
            r.source() == buf.buf@,
            r@ == Seq::new(
                buf.height as nat,
                |row: int| Seq::new(buf.width as nat, |i: int| buf.buf@[buf.stride * row + i]),
            ),
    {
        let layout = buf.as_ptr();
        let inner = IterWindowsPtr::rows_ptr(layout);
        proof {
            if buf.height > 0 {
                lemma_row_run(layout, buf.height - 1);
                assert(inner@.window(buf.height - 1) == inner@.runs()[buf.height - 1]);
            }
        }
        let r = IterWindows { buf: buf.buf, inner };
        assert forall|row: int| 0 <= row < buf.height implies #[trigger] r@[row] == Seq::new(
            buf.width as nat,
            |i: int| buf.buf@[buf.stride * row + i],
        ) by {
            lemma_row_run(layout, row);
            assert(r@[row] =~= Seq::new(buf.width as nat, |i: int| buf.buf@[buf.stride * row + i]));
        }
        assert(r@ =~= Seq::new(
            buf.height as nat,
            |row: int| Seq::new(buf.width as nat, |i: int| buf.buf@[buf.stride * row + i]),
        ));
        r
    }

    /// The columns of `buf`, left to right.
    pub fn cols(buf: &ImgRef<'a, T>) -> (r: Self)
        requires
            buf.wf(),
        ensures
            r.source() == buf.buf@,
            r@ == Seq::new(
                buf.width as nat,
                |col: int| Seq::new(buf.height as nat, |j: int| buf.buf@[col + buf.stride * j]),
            ),
    {
        let layout = buf.as_ptr();
        let inner = IterWindowsPtr::cols_ptr(layout);
        proof {
            if buf.width > 0 {
                lemma_col_run(layout, buf.width - 1);
                assert(inner@.window(buf.width - 1) == inner@.runs()[buf.width - 1]);
            }
        }
        let r = IterWindows { buf: buf.buf, inner };
        assert forall|col: int| 0 <= col < buf.width implies #[trigger] r@[col] == Seq::new(
            buf.height as nat,
            |j: int| buf.buf@[col + buf.stride * j],
        ) by {
            lemma_col_run(layout, col);
            assert(r@[col] =~= Seq::new(buf.height as nat, |j: int| buf.buf@[col + buf.stride * j]));
        }
        assert(r@ =~= Seq::new(
            buf.width as nat,
            |col: int| Seq::new(buf.height as nat, |j: int| buf.buf@[col + buf.stride * j]),
        ));
        r
    }

    /// Takes the first remaining window.
    pub fn next(&mut self) -> (r: Option<Iter<'a, T>>)
        ensures
            final(self).source() == old(self).source(),
            old(self)@.len() == 0 ==> r is None && final(self)@ == old(self)@,
            old(self)@.len() > 0 ==> r is Some && r.unwrap()@ == old(self)@[0] && final(self)@ == old(self)@.drop_first(),
    {
        proof {
            use_type_invariant(&*self);
            if self.inner@.start < self.inner@.end {
                lemma_window_within(self.inner@, self.buf@.len(), self.inner@.start as int);
            }
        }
        let r = match self.inner.next() {
            Some(inner) => Some(Iter::from_parts(self.buf, inner)),
            None => None,
        };
        assert(self@ =~= if old(self)@.len() == 0 { old(self)@ } else { old(self)@.drop_first() });
        r
    }

    /// Takes the last remaining window.
    pub fn next_back(&mut self) -> (r: Option<Iter<'a, T>>)
        ensures
            final(self).source() == old(self).source(),
            old(self)@.len() == 0 ==> r is None && final(self)@ == old(self)@,
            old(self)@.len() > 0 ==> r is Some && r.unwrap()@ == old(self)@.last() && final(self)@ == old(self)@.drop_last(),
    {
        proof {
            use_type_invariant(&*self);
            let w = self.inner@;
            if w.start < w.end {
                lemma_window_within(w, self.buf@.len(), w.end - 1);
                if w.end >= 2 {
                    assert((w.end - 2) * w.iter_stride <= (w.end - 1) * w.iter_stride) by (nonlinear_arith);
                }
            }
        }
        let r = match self.inner.next_back() {
            Some(inner) => Some(Iter::from_parts(self.buf, inner)),
            None => None,
        };
        assert(self@ =~= if old(self)@.len() == 0 { old(self)@ } else { old(self)@.drop_last() });
        r
    }

    /// The number of windows that remain.
    pub fn len(&self) -> (r: usize)
        ensures
            r == self@.len(),
    {
        proof {
            use_type_invariant(self);
        }
        self.inner.len()
    }
}

/// A sequence of windows over a buffer borrowed for writing, each a cursor
/// over the elements of one row or one column, taken from either end. Each
/// window it hands out is borrowed from the sequence until the next step.
#[derive(Debug)]
pub struct IterWindowsMut<'a, T> {
    /// The slice that the windows read and write.
    pub buf: &'a mut [T],
    /// The windows that remain, by address: indices into `buf`.
    pub inner: IterWindowsPtrMut,
}

impl<'a, T> IterWindowsMut<'a, T> {
    /// Every remaining window lies within the slice.
    pub open spec fn wf(&self) -> bool {
        windows_within(self.inner@, self.buf@.len())
    }

    /// The current contents of the slice.
    pub open spec fn source(&self) -> Seq<T> {
        self.buf@
    }

    /// The runs of the windows that remain.
    pub open spec fn runs(&self) -> Seq<Run> {
        self.inner@.runs()
    }
}

impl<'a, T> View for IterWindowsMut<'a, T> {
    type V = Seq<Seq<T>>;

    /// The current elements of each remaining window, first window to last.
    open spec fn view(&self) -> Seq<Seq<T>> {
        self.runs().map_values(|run: Run| elements(self.source(), run))
    }
}

impl<'a, T> IterWindowsMut<'a, T> {
    /// The rows of `buf`, top to bottom.
    pub fn rows(buf: ImgRefMut<'a, T>) -> (r: Self)
        requires
            buf.wf(),
        ensures
            r.wf(),
            r.source() == buf.contents(),
            final(buf.buf)@ == final(r.buf)@,
            r.runs() == Seq::new(buf.height as nat, |row: int| row_run(buf.layout(), row)),
            r@ == Seq::new(
                buf.height as nat,
                |row: int| Seq::new(buf.width as nat, |i: int| buf.contents()[buf.stride * row + i]),
            ),
    {
        let layout = buf.as_ptr();
        let inner = IterWindowsPtrMut::rows_ptr(layout);
        let ghost contents = buf.contents();
        proof {
            if buf.height > 0 {
                lemma_row_run(layout, buf.height - 1);
                assert(inner@.window(buf.height - 1) == inner@.runs()[buf.height - 1]);
            }
        }
        let r = IterWindowsMut { buf: buf.buf, inner };
        assert forall|row: int| 0 <= row < buf.height implies #[trigger] r@[row] == Seq::new(
            buf.width as nat,
            |i: int| contents[buf.stride * row + i],
        ) by {
            lemma_row_run(layout, row);
            assert(r@[row] =~= Seq::new(buf.width as nat, |i: int| contents[buf.stride * row + i]));
        }
        assert(r@ =~= Seq::new(
            buf.height as nat,
            |row: int| Seq::new(buf.width as nat, |i: int| contents[buf.stride * row + i]),
        ));
        r
    }

    /// The columns of `buf`, left to right.
    pub fn cols(buf: ImgRefMut<'a, T>) -> (r: Self)
        requires
            buf.wf(),
        ensures
            r.wf(),
            r.source() == buf.contents(),
            final(buf.buf)@ == final(r.buf)@,
            r.runs() == Seq::new(buf.width as nat, |col: int| col_run(buf.layout(), col)),
            r@ == Seq::new(
                buf.width as nat,
                |col: int| Seq::new(buf.height as nat, |j: int| buf.contents()[col + buf.stride * j]),
            ),
    {
        let layout = buf.as_ptr();
        let inner = IterWindowsPtrMut::cols_ptr(layout);
        let ghost contents = buf.contents();
        proof {
            if buf.width > 0 {
                lemma_col_run(layout, buf.width - 1);
                assert(inner@.window(buf.width - 1) == inner@.runs()[buf.width - 1]);
            }
        }
        let r = IterWindowsMut { buf: buf.buf, inner };
        assert forall|col: int| 0 <= col < buf.width implies #[trigger] r@[col] == Seq::new(
            buf.height as nat,
            |j: int| contents[col + buf.stride * j],
        ) by {
            lemma_col_run(layout, col);
            assert(r@[col] =~= Seq::new(buf.height as nat, |j: int| contents[col + buf.stride * j]));
        }
        assert(r@ =~= Seq::new(
            buf.width as nat,
            |col: int| Seq::new(buf.height as nat, |j: int| contents[col + buf.stride * j]),
        ));
        r
    }

    /// Takes the first remaining window, for reading or writing until the
    /// next step. What is written through it is in the slice afterwards.
    pub fn next(&mut self) -> (r: Option<IterMut<'_, T>>)
        requires
            old(self).wf(),
        ensures
            final(self).source().len() == old(self).source().len() ==> final(self).wf(),
            final(self).inner@.wf(),
            final(final(self).buf)@ == final(old(self).buf)@,
            final(self).runs() == if old(self).runs().len() == 0 {
                old(self).runs()
            } else {
                old(self).runs().drop_first()
            },
            old(self).runs().len() == 0 ==> r is None && final(self).source() == old(self).source(),
            old(self).runs().len() > 0 ==> r is Some && r.unwrap().wf() && r.unwrap().source() == old(self).source()
                && r.unwrap().run() == old(self).runs()[0] && final(self).source() == final(r.unwrap().buf)@,
    {
        proof {
            let w = self.inner@;
            if w.start < w.end {
                lemma_window_within(w, self.buf@.len(), w.start as int);
            }
        }
        match self.inner.next() {
            Some(inner) => Some(IterMut { buf: &mut *self.buf, inner }),
            None => None,
        }
    }

    /// Takes the last remaining window, for reading or writing until the next
    /// step. What is written through it is in the slice afterwards.
    pub fn next_back(&mut self) -> (r: Option<IterMut<'_, T>>)
        requires
            old(self).wf(),
        ensures
            final(self).source().len() == old(self).source().len() ==> final(self).wf(),
            final(self).inner@.wf(),
            final(final(self).buf)@ == final(old(self).buf)@,
            final(self).runs() == if old(self).runs().len() == 0 {
                old(self).runs()
            } else {
                old(self).runs().drop_last()
            },
            old(self).runs().len() == 0 ==> r is None && final(self).source() == old(self).source(),
            old(self).runs().len() > 0 ==> r is Some && r.unwrap().wf() && r.unwrap().source() == old(self).source()
                && r.unwrap().run() == old(self).runs().last() && final(self).source() == final(r.unwrap().buf)@,
    {
        proof {
            let w = self.inner@;
            if w.start < w.end {
                lemma_window_within(w, self.buf@.len(), w.end - 1);
                if w.end >= 2 {
                    assert((w.end - 2) * w.iter_stride <= (w.end - 1) * w.iter_stride) by (nonlinear_arith);
                }
            }
        }
        match self.inner.next_back() {
            Some(inner) => Some(IterMut { buf: &mut *self.buf, inner }),
            None => None,
        }
    }

    /// The number of windows that remain.
    pub fn len(&self) -> (r: usize)
        requires
            self.wf(),
        ensures
            r == self@.len(),
    {
        self.inner.len()
    }
}

} // verus!
