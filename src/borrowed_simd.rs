//! Lane groups and batched window sequences that borrow the buffer and yield
//! its elements.
use vstd::prelude::*;
use crate::img::ImgRef;
use crate::img::ImgPtr;
use crate::cursor::row_run;
use crate::cursor::col_run;
use crate::cursor::lemma_row_run;
use crate::cursor::lemma_col_run;
use crate::cursor::lemma_steps;
use crate::simd::Lanes;
use crate::simd::SimdIterPtr;
use crate::simd::group_view;
use crate::simd::lemma_row_lanes;
use crate::simd::lemma_col_lanes;
use crate::simd_windows::SimdIterWindowsPtr;
use crate::simd_windows::SimdIterWindowPtr;
use crate::simd_windows::Window;
use crate::simd_windows::remaining;
use crate::simd_windows::front_item;
use crate::simd_windows::back_item;
use crate::simd_windows::front_step;
use crate::simd_windows::back_step;
use crate::simd_windows::step_count;
use crate::windows::Windows;
use crate::borrowed::Iter;
use crate::borrowed::run_within;
use crate::borrowed_windows::windows_within;
use crate::borrowed_windows::lemma_window_within;

verus! {

/// Every address of every lane indexes a slice of `len` elements.
pub open spec fn lanes_within(l: Lanes, len: nat) -> bool {
    &&& l.wf()
    &&& run_within(l.run, len)
    &&& l.run.len > 0 && l.lanes > 0 ==> l.run.first + l.run.len - 1 + (l.lanes - 1) * l.gap < len
}

/// The elements of `src` at the addresses of each group.
pub open spec fn group_elements<T>(src: Seq<T>, l: Lanes) -> Seq<Seq<T>> {
    l.groups().map_values(|g: Seq<int>| g.map_values(|a: int| src[a]))
}

/// The elements that an array of references points to.
pub open spec fn deref_all<T, const LANES: usize>(refs: [&T; LANES]) -> Seq<T> {
    refs@.map_values(|x: &T| *x)
}

/// Stepping a lane group that lies within a slice keeps it there, and every
/// address of the group taken lies within the slice.
proof fn lemma_lanes_steps(l: Lanes, len: nat)
    requires
        lanes_within(l, len),
        l.run.count() > 0,
    ensures
        lanes_within(Lanes { run: l.run.step_front(), ..l }, len),
        lanes_within(Lanes { run: l.run.step_back(), ..l }, len),
        forall|k: int| 0 <= k < l.lanes ==> 0 <= #[trigger] l.groups()[0][k] < len,
        forall|k: int| 0 <= k < l.lanes ==> 0 <= #[trigger] l.groups().last()[k] < len,
        l.run.first + l.run.len <= len,
{
    lemma_steps(l.run);
    let c = l.run.count() as int;
    assert forall|k: int| 0 <= k < l.lanes implies 0 <= #[trigger] l.groups()[0][k] < len by {
        assert(k * l.gap <= (l.lanes - 1) * l.gap) by (nonlinear_arith)
            requires
                k <= l.lanes - 1,
        ;
    }
    assert forall|k: int| 0 <= k < l.lanes implies 0 <= #[trigger] l.groups().last()[k] < len by {
        assert(l.groups().last() == l.group(l.run.addrs()[c - 1]));
        assert(k * l.gap <= (l.lanes - 1) * l.gap) by (nonlinear_arith)
            requires
                k <= l.lanes - 1,
        ;
    }
}

/// Lanes over rows `row` onward of a buffer lie within its slice, and lane
/// `k` of group `i` is the element at column `i` of row `row + k`.
proof fn lemma_row_lanes_within(buf: ImgPtr, row: int, lanes: nat)
    requires
        buf.wf(),
        buf.base == 0,
        0 <= row < buf.height,
        row + lanes <= buf.height,
    ensures
        lanes_within(Lanes { run: row_run(buf, row), gap: buf.stride as nat, lanes }, buf.len as nat),
        (Lanes { run: row_run(buf, row), gap: buf.stride as nat, lanes }).groups().len() == buf.width,
        forall|i: int, k: int| 0 <= i < buf.width && 0 <= k < lanes ==>
            #[trigger] (Lanes { run: row_run(buf, row), gap: buf.stride as nat, lanes }).groups()[i][k]
                == buf.stride * (row + k) + i,
{
    lemma_row_lanes(buf, row, lanes);
    lemma_row_run(buf, row);
    if lanes > 0 && buf.width > 0 {
        lemma_row_run(buf, row + lanes - 1);
        assert(buf.stride * row + (lanes - 1) * buf.stride == buf.stride * (row + lanes - 1)) by (nonlinear_arith);
    }
    assert forall|i: int, k: int| 0 <= i < buf.width && 0 <= k < lanes implies #[trigger] (Lanes {
        run: row_run(buf, row),
        gap: buf.stride as nat,
        lanes,
    }).groups()[i][k] == buf.stride * (row + k) + i by {
        lemma_row_run(buf, row + k);
        assert(row_run(buf, row + k).addrs()[i] == buf.addr(row + k, i));
    }
}

/// Lanes over columns `col` onward of a buffer lie within its slice, and lane
/// `k` of group `j` is the element at row `j` of column `col + k`.
proof fn lemma_col_lanes_within(buf: ImgPtr, col: int, lanes: nat)
    requires
        buf.wf(),
        buf.base == 0,
        0 <= col < buf.width,
        col + lanes <= buf.width,
    ensures
        lanes_within(Lanes { run: col_run(buf, col), gap: 1, lanes }, buf.len as nat),
        (Lanes { run: col_run(buf, col), gap: 1, lanes }).groups().len() == buf.height,
        forall|j: int, k: int| 0 <= j < buf.height && 0 <= k < lanes ==>
            #[trigger] (Lanes { run: col_run(buf, col), gap: 1, lanes }).groups()[j][k] == col + k + buf.stride * j,
{
    lemma_col_lanes(buf, col, lanes);
    lemma_col_run(buf, col);
    if lanes > 0 && buf.height > 0 {
        lemma_col_run(buf, col + lanes - 1);
    }
    assert forall|j: int, k: int| 0 <= j < buf.height && 0 <= k < lanes implies #[trigger] (Lanes {
        run: col_run(buf, col),
        gap: 1,
        lanes,
    }).groups()[j][k] == col + k + buf.stride * j by {
        lemma_col_run(buf, col + k);
        assert(col_run(buf, col + k).addrs()[j] == buf.addr(j, col + k));
    }
}

/// A lane group over a borrowed buffer: each step yields `LANES` elements,
/// one from each of `LANES` rows or columns walked in lockstep.
#[derive(Debug)]
pub struct SimdIter<'a, T, const LANES: usize> {
    buf: &'a [T],
    inner: SimdIterPtr<LANES>,
}

impl<'a, T, const LANES: usize> SimdIter<'a, T, LANES> {
    /// Every address of every lane indexes the borrowed slice.
    pub closed spec fn wf(&self) -> bool {
        lanes_within(self.inner@, self.buf@.len())
    }

    /// The slice that the lanes read.
    pub closed spec fn source(&self) -> Seq<T> {
        self.buf@
    }

    /// The addresses, indices into the slice, of the lanes.
    pub closed spec fn lanes(&self) -> Lanes {
        self.inner@
    }
}

impl<'a, T, const LANES: usize> View for SimdIter<'a, T, LANES> {
    type V = Seq<Seq<T>>;

    /// The groups of elements that remain, first to last.
    open spec fn view(&self) -> Seq<Seq<T>> {
        group_elements(self.source(), self.lanes())
    }
}

impl<'a, T, const LANES: usize> SimdIter<'a, T, LANES> {
    /// The lane group over the elements of `buf` at the addresses of `inner`.
    pub(crate) fn from_parts(buf: &'a [T], inner: SimdIterPtr<LANES>) -> (r: Self)
        requires
            lanes_within(inner@, buf@.len()),
        ensures
            r.wf(),
            r.source() == buf@,
            r.lanes() == inner@,
    {
        SimdIter { buf, inner }
    }

    /// Rows `row` to `row + LANES - 1` of `buf`, walked in lockstep: group `i`
    /// holds column `i` of each.
    pub fn rows(buf: &ImgRef<'a, T>, row: usize) -> (r: Self)
        requires
            buf.wf(),
            row < buf.height,
            row + LANES <= buf.height,
        ensures
            r.wf(),
            r.source() == buf.buf@,
            r@ == Seq::new(
                buf.width as nat,
                |i: int| Seq::new(LANES as nat, |k: int| buf.buf@[buf.stride * (row + k) + i]),
            ),
    {
        let layout = buf.as_ptr();
        proof {
            lemma_row_lanes_within(layout, row as int, LANES as nat);
        }
        let r = SimdIter { buf: buf.buf, inner: SimdIterPtr::rows_ptr(layout, row) };
        assert forall|i: int| 0 <= i < buf.width implies #[trigger] r@[i] == Seq::new(
            LANES as nat,
            |k: int| buf.buf@[buf.stride * (row + k) + i],
        ) by {
            assert(r@[i] =~= Seq::new(LANES as nat, |k: int| buf.buf@[buf.stride * (row + k) + i]));
        }
        assert(r@ =~= Seq::new(
            buf.width as nat,
            |i: int| Seq::new(LANES as nat, |k: int| buf.buf@[buf.stride * (row + k) + i]),
        ));
        r
    }

    /// Columns `col` to `col + LANES - 1` of `buf`, walked in lockstep: group
    /// `j` holds row `j` of each.
    pub fn cols(buf: &ImgRef<'a, T>, col: usize) -> (r: Self)
        requires
            buf.wf(),
            col < buf.width,
            col + LANES <= buf.width,
        ensures
            r.wf(),
            r.source() == buf.buf@,
            r@ == Seq::new(
                buf.height as nat,
                |j: int| Seq::new(LANES as nat, |k: int| buf.buf@[col + k + buf.stride * j]),
            ),
    {
        let layout = buf.as_ptr();
        proof {
            lemma_col_lanes_within(layout, col as int, LANES as nat);
        }
        let r = SimdIter { buf: buf.buf, inner: SimdIterPtr::cols_ptr(layout, col) };
        assert forall|j: int| 0 <= j < buf.height implies #[trigger] r@[j] == Seq::new(
            LANES as nat,
            |k: int| buf.buf@[col + k + buf.stride * j],
        ) by {
            assert(r@[j] =~= Seq::new(LANES as nat, |k: int| buf.buf@[col + k + buf.stride * j]));
        }
        assert(r@ =~= Seq::new(
            buf.height as nat,
            |j: int| Seq::new(LANES as nat, |k: int| buf.buf@[col + k + buf.stride * j]),
        ));
        r
    }

    /// The lane group over the addresses, indices into the slice, that remain.
    pub fn into_inner(self) -> (r: SimdIterPtr<LANES>)
        ensures
            r@ == self.lanes(),
    {
        self.inner
    }

    /// The elements of the slice at the addresses of `group`.
    fn deref_group(buf: &'a [T], group: [usize; LANES]) -> (r: [&'a T; LANES])
        requires
            buf@.len() > 0,
            forall|k: int| 0 <= k < LANES ==> #[trigger] group@[k] < buf@.len(),
        ensures
            deref_all(r) == group_view(group).map_values(|a: int| buf@[a]),
    {
        let mut out: [&'a T; LANES] = [&buf[0]; LANES];
        let mut k: usize = 0;
        while k < LANES
            invariant
                k <= LANES,
                forall|i: int| 0 <= i < LANES ==> #[trigger] group@[i] < buf@.len(),
                out@.len() == LANES,
                forall|i: int| 0 <= i < k ==> *#[trigger] out@[i] == buf@[group@[i] as int],
            decreases LANES - k,
        {
            out[k] = &buf[group[k]];
            k = k + 1;
        }
        assert(deref_all(out) =~= group_view(group).map_values(|a: int| buf@[a]));
        out
    }

    /// Takes the first remaining group: one element from each lane.
    pub fn next(&mut self) -> (r: Option<[&'a T; LANES]>)
        requires
            old(self).wf(),
        ensures
            final(self).wf(),
            final(self).source() == old(self).source(),
            old(self)@.len() == 0 ==> r is None && final(self)@ == old(self)@,
            old(self)@.len() > 0 ==> r is Some && deref_all(r.unwrap()) == old(self)@[0] && final(self)@
                == old(self)@.drop_first(),
    {
        proof {
            if self.inner@.run.count() > 0 {
                lemma_lanes_steps(self.inner@, self.buf@.len());
            }
        }
        let buf = self.buf;
        let ghost l0 = self.inner@;
        proof {
            self.inner.lemma_lane_count();
        }
        let r = match self.inner.next() {
            Some(group) => {
                proof {
                    assert(l0.groups().len() > 0);
                    assert(l0.run.count() > 0);
                    lemma_lanes_steps(l0, buf@.len());
                    assert forall|k: int| 0 <= k < LANES implies #[trigger] group@[k] < buf@.len() by {
                        assert(group_view(group)[k] == group@[k] as int);
                        assert(l0.groups()[0][k] == group@[k] as int);
                    }
                }
                Some(Self::deref_group(buf, group))
            },
            None => None,
        };
        assert(self@ =~= if old(self)@.len() == 0 { old(self)@ } else { old(self)@.drop_first() });
        r
    }

    /// Takes the last remaining group: one element from each lane.
    pub fn next_back(&mut self) -> (r: Option<[&'a T; LANES]>)
        requires
            old(self).wf(),
        ensures
            final(self).wf(),
            final(self).source() == old(self).source(),
            old(self)@.len() == 0 ==> r is None && final(self)@ == old(self)@,
            old(self)@.len() > 0 ==> r is Some && deref_all(r.unwrap()) == old(self)@.last() && final(self)@
                == old(self)@.drop_last(),
    {
        proof {
            if self.inner@.run.count() > 0 {
                lemma_lanes_steps(self.inner@, self.buf@.len());
            }
        }
        let buf = self.buf;
        let ghost l0 = self.inner@;
        proof {
            self.inner.lemma_lane_count();
        }
        let r = match self.inner.next_back() {
            Some(group) => {
                proof {
                    assert(l0.groups().len() > 0);
                    assert(l0.run.count() > 0);
                    lemma_lanes_steps(l0, buf@.len());
                    assert forall|k: int| 0 <= k < LANES implies #[trigger] group@[k] < buf@.len() by {
                        assert(group_view(group)[k] == group@[k] as int);
                        assert(l0.groups()[(l0.groups().len() - 1)][k] == group@[k] as int);
                    }
                }
                Some(Self::deref_group(buf, group))
            },
            None => None,
        };
        assert(self@ =~= if old(self)@.len() == 0 { old(self)@ } else { old(self)@.drop_last() });
        r
    }

    /// The number of groups that remain.
    pub fn len(&self) -> (r: usize)
        requires
            self.wf(),
        ensures
            r == self@.len(),
    {
        self.inner.len()
    }
}

/// A batch of `lanes` windows from index `i` on lies within the slice when
/// the sequence does.
proof fn lemma_batch_within(w: Windows, len: nat, i: int, lanes: nat)
    requires
        windows_within(w, len),
        w.start <= i,
        i + lanes <= w.end,
        lanes > 0,
    ensures
        lanes_within(Lanes { run: w.window(i), gap: w.iter_stride, lanes }, len),
{
    lemma_window_within(w, len, i);
    assert(i * w.iter_stride + (lanes - 1) * w.iter_stride <= (w.end - 1) * w.iter_stride) by (nonlinear_arith)
        requires
            i + lanes <= w.end,
            lanes > 0,
    ;
}

/// The item that a step yields, and the state after it, lie within the
/// slice when the sequence does.
proof fn lemma_items_within(w: Windows, len: nat, lanes: nat)
    requires
        windows_within(w, len),
        remaining(w) > 0,
        lanes > 0,
    ensures
        windows_within(front_step(w, lanes), len),
        windows_within(back_step(w, lanes), len),
        front_item(w, lanes) matches Window::Batch(l) ==> lanes_within(l, len),
        front_item(w, lanes) matches Window::Single(run) ==> run_within(run, len),
        back_item(w, lanes) matches Window::Batch(l) ==> lanes_within(l, len),
        back_item(w, lanes) matches Window::Single(run) ==> run_within(run, len),
{
    let n: nat = if remaining(w) >= lanes { lanes } else { 1 };
    if remaining(w) >= lanes {
        lemma_batch_within(w, len, w.start as int, lanes);
        lemma_batch_within(w, len, w.end - lanes, lanes);
    } else {
        lemma_window_within(w, len, w.start as int);
        lemma_window_within(w, len, w.end - 1);
    }
    if w.end - n >= 1 {
        assert((w.end - n - 1) * w.iter_stride <= (w.end - 1) * w.iter_stride) by (nonlinear_arith)
            requires
                n >= 1,
        ;
    }
}

/// One item of a batched window sequence over a borrowed buffer: a lane group
/// over `LANES` successive rows or columns, or a single one.
#[derive(Debug)]
pub enum SimdIterWindow<'a, T, const LANES: usize> {
    Simd(SimdIter<'a, T, LANES>),
    Single(Iter<'a, T>),
}

impl<'a, T, const LANES: usize> SimdIterWindow<'a, T, LANES> {
    /// The windows this item covers.
    pub open spec fn shape(&self) -> Window {
        match self {
            SimdIterWindow::Simd(s) => Window::Batch(s.lanes()),
            SimdIterWindow::Single(c) => Window::Single(c.run()),
        }
    }

    /// The slice that the item reads.
    pub open spec fn source(&self) -> Seq<T> {
        match self {
            SimdIterWindow::Simd(s) => s.source(),
            SimdIterWindow::Single(c) => c.source(),
        }
    }

    /// A lane group's lanes lie within its slice.
    pub open spec fn wf(&self) -> bool {
        match self {
            SimdIterWindow::Simd(s) => s.wf(),
            SimdIterWindow::Single(_) => true,
        }
    }
}

/// A sequence of windows over a borrowed buffer, taken `LANES` at a time as a
/// lane group while at least `LANES` remain, and one at a time after that.
#[derive(Debug)]
pub struct SimdIterWindows<'a, T, const LANES: usize> {
    buf: &'a [T],
    inner: SimdIterWindowsPtr<LANES>,
}

impl<'a, T, const LANES: usize> SimdIterWindows<'a, T, LANES> {
    /// Every remaining window lies within the borrowed slice.
    pub closed spec fn wf(&self) -> bool {
        windows_within(self.inner@, self.buf@.len())
    }

    /// The slice that the windows read.
    pub closed spec fn source(&self) -> Seq<T> {
        self.buf@
    }

    /// The windows that remain.
    pub closed spec fn windows(&self) -> Windows {
        self.inner@
    }

    /// The rows of `buf`, top to bottom.
    pub fn rows(buf: &ImgRef<'a, T>) -> (r: Self)
        requires
            buf.wf(),
        ensures
            r.wf(),
            r.source() == buf.buf@,
            r.windows().iter_stride == buf.stride,
            r.windows().runs() == Seq::new(buf.height as nat, |row: int| row_run(buf.layout(), row)),
    {
        let layout = buf.as_ptr();
        let inner = SimdIterWindowsPtr::rows_ptr(layout);
        proof {
            if buf.height > 0 {
                lemma_row_run(layout, buf.height - 1);
                assert(inner@.window(buf.height - 1) == inner@.runs()[buf.height - 1]);
            }
        }
        SimdIterWindows { buf: buf.buf, inner }
    }

    /// The columns of `buf`, left to right.
    pub fn cols(buf: &ImgRef<'a, T>) -> (r: Self)
        requires
            buf.wf(),
        ensures
            r.wf(),
            r.source() == buf.buf@,
            r.windows().iter_stride == 1,
            r.windows().runs() == Seq::new(buf.width as nat, |col: int| col_run(buf.layout(), col)),
    {
        let layout = buf.as_ptr();
        let inner = SimdIterWindowsPtr::cols_ptr(layout);
        proof {
            if buf.width > 0 {
                lemma_col_run(layout, buf.width - 1);
                assert(inner@.window(buf.width - 1) == inner@.runs()[buf.width - 1]);
            }
        }
        SimdIterWindows { buf: buf.buf, inner }
    }

    /// The item over the same windows as `item`, reading the borrowed slice.
    fn borrow_item(buf: &'a [T], item: SimdIterWindowPtr<LANES>) -> (r: SimdIterWindow<'a, T, LANES>)
        requires
            item@ matches Window::Batch(l) ==> lanes_within(l, buf@.len()),
            item@ matches Window::Single(run) ==> run_within(run, buf@.len()),
        ensures
            r.shape() == item@,
            r.source() == buf@,
            r.wf(),
    {
        match item {
            SimdIterWindowPtr::Simd(s) => SimdIterWindow::Simd(SimdIter::from_parts(buf, s)),
            SimdIterWindowPtr::Single(c) => SimdIterWindow::Single(Iter::from_parts(buf, c)),
        }
    }

    /// Takes the next item from the front: a lane group over the first
    /// `LANES` windows if that many remain, else the first window alone.
    pub fn next(&mut self) -> (r: Option<SimdIterWindow<'a, T, LANES>>)
        requires
            old(self).wf(),
            LANES > 0,
        ensures
            final(self).wf(),
            final(self).source() == old(self).source(),
            final(self).windows() == front_step(old(self).windows(), LANES as nat),
            remaining(old(self).windows()) == 0 ==> r is None,
            remaining(old(self).windows()) > 0 ==> r is Some && r.unwrap().shape() == front_item(
                old(self).windows(),
                LANES as nat,
            ) && r.unwrap().source() == old(self).source() && r.unwrap().wf(),
    {
        proof {
            if remaining(self.inner@) > 0 {
                lemma_items_within(self.inner@, self.buf@.len(), LANES as nat);
            }
        }
        let buf = self.buf;
        match self.inner.next() {
            Some(item) => Some(Self::borrow_item(buf, item)),
            None => None,
        }
    }

    /// Takes the next item from the back: a lane group over the last `LANES`
    /// windows if that many remain, else the last window alone.
    pub fn next_back(&mut self) -> (r: Option<SimdIterWindow<'a, T, LANES>>)
        requires
            old(self).wf(),
            LANES > 0,
        ensures
            final(self).wf(),
            final(self).source() == old(self).source(),
            final(self).windows() == back_step(old(self).windows(), LANES as nat),
            remaining(old(self).windows()) == 0 ==> r is None,
            remaining(old(self).windows()) > 0 ==> r is Some && r.unwrap().shape() == back_item(
                old(self).windows(),
                LANES as nat,
            ) && r.unwrap().source() == old(self).source() && r.unwrap().wf(),
    {
        proof {
            if remaining(self.inner@) > 0 {
                lemma_items_within(self.inner@, self.buf@.len(), LANES as nat);
            }
        }
        let buf = self.buf;
        match self.inner.next_back() {
            Some(item) => Some(Self::borrow_item(buf, item)),
            None => None,
        }
    }

    /// The number of items that remain: whole batches, then single windows.
    pub fn len(&self) -> (r: usize)
        requires
            self.wf(),
            LANES > 0,
        ensures
            r == step_count(self.windows(), LANES as nat),
    {
        self.inner.len()
    }
}

} // verus!
