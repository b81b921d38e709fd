//! Window sequences in batches: `LANES` windows at a time as one lane group
//! while that many remain, then the rest one at a time.
use vstd::prelude::*;
use vstd::arithmetic::div_mod::lemma_fundamental_div_mod_converse;
use crate::slice_perfect;
use crate::img::ImgPtr;
use crate::cursor::IterPtr;
use crate::cursor::IterPtrMut;
use crate::cursor::Run;
use crate::cursor::row_run;
use crate::cursor::col_run;
use crate::windows::IterWindowsPtr;
use crate::windows::Windows;
use crate::windows::lemma_window_wf;
use crate::simd::Lanes;
use crate::simd::SimdIterPtr;
use crate::simd::SimdIterPtrMut;

verus! {

/// What one step of a batched window sequence yields: a lane group over
/// `lanes` successive windows, or a single window.
pub enum Window {
    Batch(Lanes),
    Single(Run),
}

/// The number of indices that remain.
pub open spec fn remaining(w: Windows) -> nat {
    if w.start <= w.end {
        (w.end - w.start) as nat
    } else {
        0
    }
}

/// Whether the next step, from either end, takes a whole batch.
pub open spec fn takes_batch(w: Windows, lanes: nat) -> bool {
    remaining(w) >= lanes
}

/// The number of steps left: whole batches, then the leftover singles.
pub open spec fn step_count(w: Windows, lanes: nat) -> nat {
    remaining(w) / lanes + remaining(w) % lanes
}

/// The lane group over the `lanes` windows from index `i` on.
pub open spec fn batch_at(w: Windows, lanes: nat, i: int) -> Window {
    Window::Batch(Lanes { run: w.window(i), gap: w.iter_stride, lanes })
}

/// What a step from the front yields.
pub open spec fn front_item(w: Windows, lanes: nat) -> Window {
    if takes_batch(w, lanes) {
        batch_at(w, lanes, w.start as int)
    } else {
        Window::Single(w.window(w.start as int))
    }
}

/// The state after a step from the front.
pub open spec fn front_step(w: Windows, lanes: nat) -> Windows {
    if remaining(w) == 0 {
        w
    } else if takes_batch(w, lanes) {
        Windows { start: w.start + lanes, ..w }
    } else {
        Windows { start: w.start + 1, ..w }
    }
}

/// What a step from the back yields.
pub open spec fn back_item(w: Windows, lanes: nat) -> Window {
    if takes_batch(w, lanes) {
        batch_at(w, lanes, w.end - lanes)
    } else {
        Window::Single(w.window(w.end - 1))
    }
}

/// The state after a step from the back.
pub open spec fn back_step(w: Windows, lanes: nat) -> Windows {
    if remaining(w) == 0 {
        w
    } else if takes_batch(w, lanes) {
        Windows { end: (w.end - lanes) as nat, ..w }
    } else {
        Windows { end: (w.end - 1) as nat, ..w }
    }
}

/// The kinds of the items that the sequence yields when drained from one end,
/// `true` for a batch and `false` for a single window.
pub open spec fn drain_kinds(w: Windows, lanes: nat, front: bool) -> Seq<bool>
    decreases remaining(w) via drain_kinds_decreases
{
    if remaining(w) == 0 || lanes == 0 {
        Seq::empty()
    } else {
        let next = if front { front_step(w, lanes) } else { back_step(w, lanes) };
        seq![takes_batch(w, lanes)] + drain_kinds(next, lanes, front)
    }
}

#[via_fn]
proof fn drain_kinds_decreases(w: Windows, lanes: nat, front: bool) {
    if remaining(w) > 0 && lanes > 0 {
        assert(remaining(front_step(w, lanes)) < remaining(w));
        assert(remaining(back_step(w, lanes)) < remaining(w));
    }
}

/// How many entries of `kinds` equal `kind`.
pub open spec fn count_kind(kinds: Seq<bool>, kind: bool) -> nat
    decreases kinds.len(),
{
    if kinds.len() == 0 {
        0
    } else {
        (if kinds[0] == kind { 1nat } else { 0nat }) + count_kind(kinds.drop_first(), kind)
    }
}

/// One step from either end takes exactly one off the step count.
pub proof fn lemma_step_count(w: Windows, lanes: nat)
    requires
        lanes > 0,
        remaining(w) > 0,
        w.start <= w.end,
    ensures
        step_count(front_step(w, lanes), lanes) + 1 == step_count(w, lanes),
        step_count(back_step(w, lanes), lanes) + 1 == step_count(w, lanes),
        remaining(front_step(w, lanes)) == remaining(back_step(w, lanes)),
{
    let n = remaining(w) as int;
    let l = lanes as int;
    if n >= l {
        vstd::arithmetic::div_mod::lemma_fundamental_div_mod(n - l, l);
        assert(l * ((n - l) / l) + (n - l) % l + l == ((n - l) / l + 1) * l + (n - l) % l) by (nonlinear_arith);
        lemma_fundamental_div_mod_converse(n, l, (n - l) / l + 1, (n - l) % l);
    } else {
        lemma_fundamental_div_mod_converse(n, l, 0, n);
        lemma_fundamental_div_mod_converse(n - 1, l, 0, n - 1);
    }
}

/// Drained from either end, a sequence of `n` windows in batches of `lanes`
/// yields `n / lanes` batches and `n % lanes` single windows, one item per
/// step, and the step count reports exactly the number of items to come.
pub proof fn lemma_batch_split(w: Windows, lanes: nat, front: bool)
    requires
        lanes > 0,
        w.start <= w.end,
    ensures
        drain_kinds(w, lanes, front).len() == step_count(w, lanes),
        step_count(w, lanes) == remaining(w) / lanes + remaining(w) % lanes,
        count_kind(drain_kinds(w, lanes, front), true) == remaining(w) / lanes,
        count_kind(drain_kinds(w, lanes, front), false) == remaining(w) % lanes,
    decreases remaining(w),
{
    let n = remaining(w) as int;
    let l = lanes as int;
    if n == 0 {
        lemma_fundamental_div_mod_converse(0, l, 0, 0);
    } else {
        let next = if front { front_step(w, lanes) } else { back_step(w, lanes) };
        lemma_step_count(w, lanes);
        lemma_batch_split(next, lanes, front);
        let kinds = drain_kinds(w, lanes, front);
        assert(kinds.drop_first() =~= drain_kinds(next, lanes, front));
        if n >= l {
            vstd::arithmetic::div_mod::lemma_fundamental_div_mod(n - l, l);
            assert(l * ((n - l) / l) + (n - l) % l + l == ((n - l) / l + 1) * l + (n - l) % l) by (nonlinear_arith);
            lemma_fundamental_div_mod_converse(n, l, (n - l) / l + 1, (n - l) % l);
        } else {
            lemma_fundamental_div_mod_converse(n, l, 0, n);
            lemma_fundamental_div_mod_converse(n - 1, l, 0, n - 1);
        }
    }
}

/// One item of a batched window sequence: a lane group over `LANES`
/// successive windows, or a single window.
#[derive(Clone, Copy, Debug, PartialEq, Eq)]
pub enum SimdIterWindowPtr<const LANES: usize> {
    Simd(SimdIterPtr<LANES>),
    Single(IterPtr),
}

impl<const LANES: usize> View for SimdIterWindowPtr<LANES> {
    type V = Window;

    open spec fn view(&self) -> Window {
        match self {
            SimdIterWindowPtr::Simd(s) => Window::Batch(s@),
            SimdIterWindowPtr::Single(c) => Window::Single(c@),
        }
    }
}

/// A sequence of windows over a buffer, taken `LANES` at a time as a lane
/// group while at least `LANES` remain, and one at a time after that.
///
/// Whether a step takes a batch depends only on how many windows remain, at
/// whichever end it is taken: a step from the back takes the last `LANES`
/// windows as a batch exactly when a step from the front would take the first
/// `LANES`. Steps from both ends may be mixed freely, and each one takes one
/// off [`SimdIterWindowsPtr::len`].
#[derive(Clone, Copy, Debug, PartialEq, Eq)]
pub struct SimdIterWindowsPtr<const LANES: usize>(IterWindowsPtr);

impl<const LANES: usize> View for SimdIterWindowsPtr<LANES> {
    type V = Windows;

    closed spec fn view(&self) -> Windows {
        self.0@
    }
}

impl<const LANES: usize> SimdIterWindowsPtr<LANES> {
    /// A sequence of `count` windows: the first is the run of `len` slots from
    /// `ptr` read every `slice_stride` slots, and each next one starts
    /// `iter_stride` slots after the one before. The run must start and end on
    /// an element.
    pub fn new(ptr: usize, len: usize, slice_stride: usize, iter_stride: usize, count: usize) -> (r: Self)
        requires
            slice_stride > 0,
            slice_perfect(len as nat, slice_stride as nat),
            ptr + len <= usize::MAX,
            count > 0 ==> ptr + (count - 1) * iter_stride + len <= usize::MAX,
        ensures
            r@ == (Windows {
                first: ptr as int,
                len: len as nat,
                slice_stride: slice_stride as nat,
                iter_stride: iter_stride as nat,
                start: 0,
                end: count as nat,
            }),
            r@.wf(),
    {
        SimdIterWindowsPtr(IterWindowsPtr::new(ptr, len, slice_stride, iter_stride, count))
    }

    /// The same sequence as [`SimdIterWindowsPtr::new`], for callers that
    /// already know the run to be slice-perfect.
    pub fn new_unchecked(ptr: usize, len: usize, slice_stride: usize, iter_stride: usize, count: usize) -> (r: Self)
        requires
            slice_stride > 0,
            slice_perfect(len as nat, slice_stride as nat),
            ptr + len <= usize::MAX,
            count > 0 ==> ptr + (count - 1) * iter_stride + len <= usize::MAX,
        ensures
            r@ == (Windows {
                first: ptr as int,
                len: len as nat,
                slice_stride: slice_stride as nat,
                iter_stride: iter_stride as nat,
                start: 0,
                end: count as nat,
            }),
            r@.wf(),
    {
        SimdIterWindowsPtr(IterWindowsPtr::new_unchecked(ptr, len, slice_stride, iter_stride, count))
    }

    /// The rows of `buf`, top to bottom.
    pub fn rows_ptr(buf: ImgPtr) -> (r: Self)
        requires
            buf.wf(),
        ensures
            r@.wf(),
            r@ == (Windows {
                first: buf.base as int,
                len: buf.width as nat,
                slice_stride: 1,
                iter_stride: buf.stride as nat,
                start: 0,
                end: buf.height as nat,
            }),
            r@.iter_stride == buf.stride,
            r@.runs() == Seq::new(buf.height as nat, |row: int| row_run(buf, row)),
    {
        SimdIterWindowsPtr(IterWindowsPtr::rows_ptr(buf))
    }

    /// The columns of `buf`, left to right.
    pub fn cols_ptr(buf: ImgPtr) -> (r: Self)
        requires
            buf.wf(),
        ensures
            r@.wf(),
            r@ == (Windows {
                first: buf.base as int,
                len: if buf.width == 0 { 0 } else { col_run(buf, 0).len },
                slice_stride: buf.stride as nat,
                iter_stride: 1,
                start: 0,
                end: buf.width as nat,
            }),
            r@.iter_stride == 1,
            r@.runs() == Seq::new(buf.width as nat, |col: int| col_run(buf, col)),
    {
        SimdIterWindowsPtr(IterWindowsPtr::cols_ptr(buf))
    }

    /// The item whose first window is at `index`, a batch if `simd`.
    fn item(&self, index: usize, simd: bool) -> (r: SimdIterWindowPtr<LANES>)
        requires
            self@.wf(),
            index < self@.end,
            simd ==> index + LANES <= self@.end,
        ensures
            r@ == if simd {
                batch_at(self@, LANES as nat, index as int)
            } else {
                Window::Single(self@.window(index as int))
            },
        no_unwind
    {
        let iter = self.0.window(index);
        if simd {
            proof {
                let w = self@;
                if LANES > 0 {
                    lemma_window_wf(w, index as int);
                    assert(index * w.iter_stride + (LANES - 1) * w.iter_stride <= (w.end - 1) * w.iter_stride)
                        by (nonlinear_arith)
                        requires
                            index + LANES <= w.end,
                            LANES > 0,
                    ;
                }
            }
            SimdIterWindowPtr::Simd(SimdIterPtr::new(iter, self.0.iter_stride()))
        } else {
            SimdIterWindowPtr::Single(iter)
        }
    }

    /// Takes the next item from the front: a batch of the first `LANES`
    /// windows if that many remain, else the first window alone.
    pub fn next(&mut self) -> (r: Option<SimdIterWindowPtr<LANES>>)
        requires
            old(self)@.wf(),
            LANES > 0,
        ensures
            final(self)@.wf(),
            final(self)@ == front_step(old(self)@, LANES as nat),
            remaining(old(self)@) == 0 ==> r is None,
            remaining(old(self)@) > 0 ==> r is Some && r.unwrap()@ == front_item(old(self)@, LANES as nat),
        no_unwind
    {
        if self.0.len() == 0 {
            return None;
        }
        let simd = self.0.len() >= LANES;
        let n: usize = if simd { LANES } else { 1 };
        let mut copy = self.0;
        let index = copy.take_front(n);
        let item = self.item(index, simd);
        self.0 = copy;
        Some(item)
    }

    /// Takes the next item from the back: a batch of the last `LANES` windows
    /// if that many remain, else the last window alone.
    pub fn next_back(&mut self) -> (r: Option<SimdIterWindowPtr<LANES>>)
        requires
            old(self)@.wf(),
            LANES > 0,
        ensures
            final(self)@.wf(),
            final(self)@ == back_step(old(self)@, LANES as nat),
            remaining(old(self)@) == 0 ==> r is None,
            remaining(old(self)@) > 0 ==> r is Some && r.unwrap()@ == back_item(old(self)@, LANES as nat),
        no_unwind
    {
        if self.0.len() == 0 {
            return None;
        }
        let simd = self.0.len() >= LANES;
        let n: usize = if simd { LANES } else { 1 };
        let mut copy = self.0;
        let index = copy.take_back(n);
        let item = self.item(index, simd);
        self.0 = copy;
        Some(item)
    }

    /// The number of items that remain: whole batches, then single windows.
    pub fn len(&self) -> (r: usize)
        requires
            self@.wf(),
            LANES > 0,
        ensures
            r == step_count(self@, LANES as nat),
    {
        let n = self.0.len();
        proof {
            vstd::arithmetic::div_mod::lemma_fundamental_div_mod(n as int, LANES as int);
            assert(n as int / LANES as int <= LANES * (n as int / LANES as int)) by (nonlinear_arith)
                requires
                    LANES > 0,
                    n as int / LANES as int >= 0,
            ;
        }
        n / LANES + n % LANES
    }
}

/// One item of a batched window sequence over elements to which the caller
/// holds exclusive access.
#[derive(Clone, Copy, Debug, PartialEq, Eq)]
pub enum SimdIterWindowPtrMut<const LANES: usize> {
    Simd(SimdIterPtrMut<LANES>),
    Single(IterPtrMut),
}

impl<const LANES: usize> View for SimdIterWindowPtrMut<LANES> {
    type V = Window;

    open spec fn view(&self) -> Window {
        match self {
            SimdIterWindowPtrMut::Simd(s) => Window::Batch(s@),
            SimdIterWindowPtrMut::Single(c) => Window::Single(c@),
        }
    }
}

impl<const LANES: usize> SimdIterWindowPtrMut<LANES> {
    /// The exclusive item over the same windows as `item`.
    fn from_shared(item: SimdIterWindowPtr<LANES>) -> (r: Self)
        ensures
            r@ == item@,
    {
        match item {
            SimdIterWindowPtr::Simd(s) => SimdIterWindowPtrMut::Simd(SimdIterPtrMut::from_shared(s)),
            SimdIterWindowPtr::Single(c) => SimdIterWindowPtrMut::Single(IterPtrMut::from_shared(c)),
        }
    }
}

/// A batched window sequence over a buffer to which the caller holds
/// exclusive access. It walks exactly as [`SimdIterWindowsPtr`] does.
#[derive(Clone, Copy, Debug, PartialEq, Eq)]
pub struct SimdIterWindowsPtrMut<const LANES: usize>(SimdIterWindowsPtr<LANES>);

impl<const LANES: usize> View for SimdIterWindowsPtrMut<LANES> {
    type V = Windows;

    closed spec fn view(&self) -> Windows {
        self.0@
    }
}

impl<const LANES: usize> SimdIterWindowsPtrMut<LANES> {
    /// A sequence of `count` windows: the first is the run of `len` slots from
    /// `ptr` read every `slice_stride` slots, and each next one starts
    /// `iter_stride` slots after the one before. The run must start and end on
    /// an element.
    pub fn new(ptr: usize, len: usize, slice_stride: usize, iter_stride: usize, count: usize) -> (r: Self)
        requires
            slice_stride > 0,
            slice_perfect(len as nat, slice_stride as nat),
            ptr + len <= usize::MAX,
            count > 0 ==> ptr + (count - 1) * iter_stride + len <= usize::MAX,
        ensures
            r@ == (Windows {
                first: ptr as int,
                len: len as nat,
                slice_stride: slice_stride as nat,
                iter_stride: iter_stride as nat,
                start: 0,
                end: count as nat,
            }),
            r@.wf(),
    {
        SimdIterWindowsPtrMut(SimdIterWindowsPtr::new(ptr, len, slice_stride, iter_stride, count))
    }

    /// The same sequence as [`SimdIterWindowsPtrMut::new`], for callers that
    /// already know the run to be slice-perfect.
    pub fn new_unchecked(ptr: usize, len: usize, slice_stride: usize, iter_stride: usize, count: usize) -> (r: Self)
        requires
            slice_stride > 0,
            slice_perfect(len as nat, slice_stride as nat),
            ptr + len <= usize::MAX,
            count > 0 ==> ptr + (count - 1) * iter_stride + len <= usize::MAX,
        ensures
            r@ == (Windows {
                first: ptr as int,
                len: len as nat,
                slice_stride: slice_stride as nat,
                iter_stride: iter_stride as nat,
                start: 0,
                end: count as nat,
            }),
            r@.wf(),
    {
        SimdIterWindowsPtrMut(SimdIterWindowsPtr::new_unchecked(ptr, len, slice_stride, iter_stride, count))
    }

    /// The rows of `buf`, top to bottom.
    pub fn rows_ptr(buf: ImgPtr) -> (r: Self)
        requires
            buf.wf(),
        ensures
            r@.wf(),
            r@ == (Windows {
                first: buf.base as int,
                len: buf.width as nat,
                slice_stride: 1,
                iter_stride: buf.stride as nat,
                start: 0,
                end: buf.height as nat,
            }),
            r@.iter_stride == buf.stride,
            r@.runs() == Seq::new(buf.height as nat, |row: int| row_run(buf, row)),
    {
        SimdIterWindowsPtrMut(SimdIterWindowsPtr::rows_ptr(buf))
    }

    /// The columns of `buf`, left to right.
    pub fn cols_ptr(buf: ImgPtr) -> (r: Self)
        requires
            buf.wf(),
        ensures
            r@.wf(),
            r@ == (Windows {
                first: buf.base as int,
                len: if buf.width == 0 { 0 } else { col_run(buf, 0).len },
                slice_stride: buf.stride as nat,
                iter_stride: 1,
                start: 0,
                end: buf.width as nat,
            }),
            r@.iter_stride == 1,
            r@.runs() == Seq::new(buf.width as nat, |col: int| col_run(buf, col)),
    {
        SimdIterWindowsPtrMut(SimdIterWindowsPtr::cols_ptr(buf))
    }

    /// Takes the next item from the front: a batch of the first `LANES`
    /// windows if that many remain, else the first window alone.
    pub fn next(&mut self) -> (r: Option<SimdIterWindowPtrMut<LANES>>)
        requires
            old(self)@.wf(),
            LANES > 0,
        ensures
            final(self)@.wf(),
            final(self)@ == front_step(old(self)@, LANES as nat),
            remaining(old(self)@) == 0 ==> r is None,
            remaining(old(self)@) > 0 ==> r is Some && r.unwrap()@ == front_item(old(self)@, LANES as nat),
    {
        match self.0.next() {
            Some(item) => Some(SimdIterWindowPtrMut::from_shared(item)),
            None => None,
        }
    }

    /// Takes the next item from the back: a batch of the last `LANES` windows
    /// if that many remain, else the last window alone.
    pub fn next_back(&mut self) -> (r: Option<SimdIterWindowPtrMut<LANES>>)
        requires
            old(self)@.wf(),
            LANES > 0,
        ensures
            final(self)@.wf(),
            final(self)@ == back_step(old(self)@, LANES as nat),
            remaining(old(self)@) == 0 ==> r is None,
            remaining(old(self)@) > 0 ==> r is Some && r.unwrap()@ == back_item(old(self)@, LANES as nat),
    {
        match self.0.next_back() {
            Some(item) => Some(SimdIterWindowPtrMut::from_shared(item)),
            None => None,
        }
    }

    /// The number of items that remain: whole batches, then single windows.
    pub fn len(&self) -> (r: usize)
        requires
            self@.wf(),
            LANES > 0,
        ensures
            r == step_count(self@, LANES as nat),
    {
        self.0.len()
    }
}

} // verus!
