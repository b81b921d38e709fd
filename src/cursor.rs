//! The strided run cursor: one row, one column, or any run of elements spaced
//! a fixed stride apart, walked by address from either end.
use vstd::prelude::*;
use vstd::arithmetic::div_mod::lemma_fundamental_div_mod;
use vstd::arithmetic::div_mod::lemma_fundamental_div_mod_converse;
use crate::slice_perfect;
use crate::img::ImgPtr;
use crate::img::needed_len;

verus! {

/// The abstract state of a cursor: the address of its first remaining
/// element, the number of slots that remain from there, and its stride.
pub struct Run {
    pub first: int,
    pub len: nat,
    pub stride: nat,
}

/// The number of elements in a run of `len` slots read every `stride` slots:
/// `len / stride` rounded up.
pub open spec fn run_count(len: nat, stride: nat) -> nat {
    if len == 0 || stride == 0 {
        0
    } else {
        ((len - 1) as nat / stride + 1) as nat
    }
}

impl Run {
    /// The stride is positive, the run is slice-perfect, and the address of
    /// every slot fits in a `usize`.
    pub open spec fn wf(self) -> bool {
        &&& self.stride > 0
        &&& slice_perfect(self.len, self.stride)
        &&& 0 <= self.first
        &&& self.first + self.len <= usize::MAX
    }

    /// The number of elements that remain.
    pub open spec fn count(self) -> nat {
        run_count(self.len, self.stride)
    }

    /// The addresses of the remaining elements, first to last.
    pub open spec fn addrs(self) -> Seq<int> {
        Seq::new(self.count(), |k: int| self.first + k * self.stride)
    }

    /// The state after one element is taken from the front.
    pub open spec fn step_front(self) -> Run {
        if self.len == 0 {
            self
        } else if self.len <= self.stride {
            Run { first: self.first + self.len, len: 0, stride: self.stride }
        } else {
            Run { first: self.first + self.stride, len: (self.len - self.stride) as nat, stride: self.stride }
        }
    }

    /// The state after one element is taken from the back.
    pub open spec fn step_back(self) -> Run {
        if self.len <= self.stride {
            Run { first: self.first, len: 0, stride: self.stride }
        } else {
            Run { first: self.first, len: (self.len - self.stride) as nat, stride: self.stride }
        }
    }
}

/// A nonempty slice-perfect run is one slot past a whole number of strides,
/// and its count is one more than that number.
proof fn lemma_count_of_perfect(len: nat, stride: nat)
    requires
        stride > 0,
        len > 0,
        slice_perfect(len, stride),
    ensures
        run_count(len, stride) * stride == len - 1 + stride,
{
    if stride == 1 {
        lemma_fundamental_div_mod_converse((len - 1) as int, 1, (len - 1) as int, 0);
    } else {
        lemma_fundamental_div_mod(len as int, stride as int);
        let q = len as int / stride as int;
        lemma_fundamental_div_mod_converse(len - 1, stride as int, q, 0);
        assert((q + 1) * stride == q * stride + stride) by (nonlinear_arith);
        assert(stride * q == q * stride) by (nonlinear_arith);
    }
}

/// Taking one stride off a run longer than its stride takes one element off
/// its count and keeps it slice-perfect.
proof fn lemma_count_shrink(len: nat, stride: nat)
    requires
        stride > 0,
        len > stride,
        slice_perfect(len, stride),
    ensures
        run_count((len - stride) as nat, stride) + 1 == run_count(len, stride),
        slice_perfect((len - stride) as nat, stride),
{
    let q = (len - stride - 1) as int / stride as int;
    let r = (len - stride - 1) as int % stride as int;
    lemma_fundamental_div_mod((len - stride - 1) as int, stride as int);
    assert(stride * q + r + stride == (q + 1) * stride + r) by (nonlinear_arith);
    lemma_fundamental_div_mod_converse(len - 1, stride as int, q + 1, r);
    if stride != 1 {
        lemma_fundamental_div_mod(len as int, stride as int);
        let p = len as int / stride as int;
        assert(len - stride == (p - 1) * stride + 1) by (nonlinear_arith)
            requires
                len == stride * p + 1,
        ;
        lemma_fundamental_div_mod_converse(len - stride, stride as int, p - 1, 1);
    }
}

/// A run no longer than its stride holds one element.
proof fn lemma_count_short(len: nat, stride: nat)
    requires
        stride > 0,
        0 < len <= stride,
    ensures
        run_count(len, stride) == 1,
{
    lemma_fundamental_div_mod_converse(len - 1, stride as int, 0, len - 1);
}

/// The effect of a front or back step on the addresses: the front step drops
/// the first address, the back step the last, and both keep the run well
/// formed.
pub proof fn lemma_steps(run: Run)
    requires
        run.wf(),
        run.count() > 0,
    ensures
        run.step_front().wf(),
        run.step_back().wf(),
        run.step_front().addrs() == run.addrs().drop_first(),
        run.step_back().addrs() == run.addrs().drop_last(),
        run.addrs().last() == run.first + run.len - 1,
{
    lemma_count_of_perfect(run.len, run.stride);
    let c = run.count() as int;
    assert((c - 1) * run.stride == c * run.stride - run.stride) by (nonlinear_arith);
    if run.len <= run.stride {
        lemma_count_short(run.len, run.stride);
        assert(run.step_front().addrs() =~= run.addrs().drop_first());
        assert(run.step_back().addrs() =~= run.addrs().drop_last());
    } else {
        lemma_count_shrink(run.len, run.stride);
        let f = run.step_front();
        assert forall|k: int| 0 <= k < f.count() implies #[trigger] f.addrs()[k] == run.addrs()[k + 1] by {
            assert((k + 1) * run.stride == k * run.stride + run.stride) by (nonlinear_arith);
        }
        assert(f.addrs() =~= run.addrs().drop_first());
        assert(run.step_back().addrs() =~= run.addrs().drop_last());
    }
}

/// The run of row `row` of `buf`.
pub open spec fn row_run(buf: ImgPtr, row: int) -> Run {
    Run { first: buf.addr(row, 0), len: buf.width as nat, stride: 1 }
}

/// The run of column `col` of `buf`, top to bottom.
pub open spec fn col_run(buf: ImgPtr, col: int) -> Run {
    Run {
        first: buf.addr(0, col),
        len: needed_len(1, buf.height as nat, buf.stride as nat),
        stride: buf.stride as nat,
    }
}

/// A row's run is well formed and holds the addresses of the row, left to
/// right.
pub proof fn lemma_row_run(buf: ImgPtr, row: int)
    requires
        buf.wf(),
        0 <= row < buf.height,
    ensures
        row_run(buf, row).wf(),
        row_run(buf, row).addrs() == Seq::new(buf.width as nat, |i: int| buf.addr(row, i)),
        row_run(buf, row).first + row_run(buf, row).len <= buf.base + buf.len,
{
    assert(buf.stride * row <= buf.stride * (buf.height - 1)) by (nonlinear_arith)
        requires
            row <= buf.height - 1,
    ;
    if buf.width > 0 {
        lemma_fundamental_div_mod_converse((buf.width - 1) as int, 1, (buf.width - 1) as int, 0);
    }
    assert(row_run(buf, row).addrs() =~= Seq::new(buf.width as nat, |i: int| buf.addr(row, i)));
}

/// A column's run is well formed and holds the addresses of the column, top
/// to bottom.
pub proof fn lemma_col_run(buf: ImgPtr, col: int)
    requires
        buf.wf(),
        0 <= col < buf.width,
    ensures
        col_run(buf, col).wf(),
        col_run(buf, col).addrs() == Seq::new(buf.height as nat, |j: int| buf.addr(j, col)),
        col_run(buf, col).len > 0 ==> col_run(buf, col).first + col_run(buf, col).len <= buf.base + buf.len,
{
    let run = col_run(buf, col);
    if buf.height > 0 {
        let h = buf.height - 1;
        assert(buf.stride * h == h * buf.stride) by (nonlinear_arith);
        lemma_fundamental_div_mod_converse(buf.stride * h, buf.stride as int, h as int, 0);
        if buf.stride > 1 {
            lemma_fundamental_div_mod_converse(run.len as int, buf.stride as int, h as int, 1);
        }
    }
    assert forall|j: int| 0 <= j < run.count() implies #[trigger] run.addrs()[j] == buf.addr(j, col) by {
        assert(j * buf.stride == buf.stride * j) by (nonlinear_arith);
    }
    assert(run.addrs() =~= Seq::new(buf.height as nat, |j: int| buf.addr(j, col)));
}

/// The state of a run after a sequence of steps, `true` standing for a step
/// from the front and `false` for one from the back.
pub open spec fn run_after(run: Run, steps: Seq<bool>) -> Run
    decreases steps.len(),
{
    if steps.len() == 0 {
        run
    } else {
        let next = if steps[0] { run.step_front() } else { run.step_back() };
        run_after(next, steps.drop_first())
    }
}

/// How many of a sequence of steps yield an element.
pub open spec fn run_yields(run: Run, steps: Seq<bool>) -> nat
    decreases steps.len(),
{
    if steps.len() == 0 {
        0
    } else {
        let next = if steps[0] { run.step_front() } else { run.step_back() };
        (if run.count() > 0 { 1nat } else { 0nat }) + run_yields(next, steps.drop_first())
    }
}

/// The count of a run is its length divided by its stride, rounded up.
pub proof fn lemma_count_is_ceil(len: nat, stride: nat)
    requires
        stride > 0,
    ensures
        run_count(len, stride) == (len + stride - 1) / (stride as int),
{
    if len == 0 {
        lemma_fundamental_div_mod_converse(stride - 1, stride as int, 0, stride - 1);
    } else {
        let q = (len - 1) as int / stride as int;
        let r = (len - 1) as int % stride as int;
        lemma_fundamental_div_mod((len - 1) as int, stride as int);
        assert(stride * q + r + stride == (q + 1) * stride + r) by (nonlinear_arith);
        lemma_fundamental_div_mod_converse(len + stride - 1, stride as int, q + 1, r);
    }
}

/// A well-formed run yields `len / stride` elements rounded up, however the
/// steps that consume it are split between its front and its back: of any `n`
/// steps, exactly the first `min(n, count)` yield an element, and the run is
/// empty after `count` of them.
pub proof fn lemma_consumption(run: Run, steps: Seq<bool>)
    requires
        run.wf(),
    ensures
        run.count() == (run.len + run.stride - 1) / (run.stride as int),
        run_yields(run, steps) == if steps.len() < run.count() { steps.len() } else { run.count() },
        steps.len() >= run.count() ==> run_after(run, steps).count() == 0,
    decreases steps.len(),
{
    lemma_count_is_ceil(run.len, run.stride);
    if steps.len() > 0 {
        let next = if steps[0] { run.step_front() } else { run.step_back() };
        if run.count() > 0 {
            lemma_steps(run);
            assert(next.count() == run.count() - 1) by {
                assert(next.addrs().len() == run.addrs().len() - 1);
            }
        } else {
            assert(next.count() == 0);
            assert(next.wf());
        }
        lemma_consumption(next, steps.drop_first());
    }
}

/// Successive addresses taken from the front rise by exactly the stride, and
/// successive addresses taken from the back fall by exactly the stride. A
/// front step moves the run's start on by the stride, or by what remains of
/// the run when that is less.
pub proof fn lemma_address_order(run: Run)
    requires
        run.wf(),
        run.count() > 0,
    ensures
        forall|k: int| 0 <= k < run.count() - 1 ==> #[trigger] run.addrs()[k + 1] == run.addrs()[k] + run.stride,
        run.step_front().first == run.first + if run.len < run.stride { run.len } else { run.stride },
        run.count() >= 2 ==> run.step_front().addrs()[0] == run.addrs()[0] + run.stride,
        run.count() >= 2 ==> run.step_back().addrs().last() == run.addrs().last() - run.stride,
{
    lemma_steps(run);
    assert forall|k: int| 0 <= k < run.count() - 1 implies #[trigger] run.addrs()[k + 1] == run.addrs()[k] + run.stride by {
        assert((k + 1) * run.stride == k * run.stride + run.stride) by (nonlinear_arith);
    }
    if run.count() >= 2 {
        let k = run.count() - 2;
        assert(run.addrs()[k + 1] == run.addrs()[k] + run.stride);
    }
}

/// A cursor over the addresses of one strided run.
#[derive(Clone, Copy, Debug, PartialEq, Eq)]
pub struct IterPtr {
    ptr: usize,
    len: usize,
    stride: usize,
}

impl View for IterPtr {
    type V = Run;

    closed spec fn view(&self) -> Run {
        Run { first: self.ptr as int, len: self.len as nat, stride: self.stride as nat }
    }
}

impl IterPtr {
    /// Tells whether a run of `len` slots read every `stride` slots starts and
    /// ends on an element.
    pub fn is_slice_perfect(len: usize, stride: usize) -> (r: bool)
        requires
            len == 0 || stride > 0,
        ensures
            r == slice_perfect(len as nat, stride as nat),
    {
        len == 0 || stride == 1 || len % stride == 1
    }

    /// A cursor over the run of `len` slots from address `ptr`, taking every
    /// `stride`-th slot. The run must start and end on an element.
    pub fn new(ptr: usize, len: usize, stride: usize) -> (r: Self)
        requires
            stride > 0,
            slice_perfect(len as nat, stride as nat),
            ptr + len <= usize::MAX,
        ensures
            r@ == (Run { first: ptr as int, len: len as nat, stride: stride as nat }),
            r@.wf(),
        no_unwind
    {
        Self::new_unchecked(ptr, len, stride)
    }

    /// The same cursor as [`IterPtr::new`], for callers that already know the
    /// run to be slice-perfect.
    pub fn new_unchecked(ptr: usize, len: usize, stride: usize) -> (r: Self)
        requires
            stride > 0,
            slice_perfect(len as nat, stride as nat),
            ptr + len <= usize::MAX,
        ensures
            r@ == (Run { first: ptr as int, len: len as nat, stride: stride as nat }),
            r@.wf(),
        no_unwind
    {
        IterPtr { ptr, len, stride }
    }

    /// A cursor over the elements of row `row` of `buf`.
    pub fn row_ptr(buf: ImgPtr, row: usize) -> (r: Self)
        requires
            buf.wf(),
            row < buf.height,
        ensures
            r@ == row_run(buf, row as int),
            r@.wf(),
            r@.addrs() == Seq::new(buf.width as nat, |i: int| buf.addr(row as int, i)),
    {
        Self::row_ptr_unchecked(buf, row)
    }

    /// The same cursor as [`IterPtr::row_ptr`].
    pub fn row_ptr_unchecked(buf: ImgPtr, row: usize) -> (r: Self)
        requires
            buf.wf(),
            row < buf.height,
        ensures
            r@ == row_run(buf, row as int),
            r@.wf(),
            r@.addrs() == Seq::new(buf.width as nat, |i: int| buf.addr(row as int, i)),
    {
        proof {
            lemma_row_run(buf, row as int);
        }
        IterPtr { ptr: buf.base + buf.stride * row, len: buf.width, stride: 1 }
    }

    /// A cursor over the elements of column `col` of `buf`, top to bottom.
    pub fn col_ptr(buf: ImgPtr, col: usize) -> (r: Self)
        requires
            buf.wf(),
            col < buf.width,
        ensures
            r@ == col_run(buf, col as int),
            r@.wf(),
            r@.addrs() == Seq::new(buf.height as nat, |j: int| buf.addr(j, col as int)),
    {
        Self::col_ptr_unchecked(buf, col)
    }

    /// The same cursor as [`IterPtr::col_ptr`].
    pub fn col_ptr_unchecked(buf: ImgPtr, col: usize) -> (r: Self)
        requires
            buf.wf(),
            col < buf.width,
        ensures
            r@ == col_run(buf, col as int),
            r@.wf(),
            r@.addrs() == Seq::new(buf.height as nat, |j: int| buf.addr(j, col as int)),
    {
        proof {
            lemma_col_run(buf, col as int);
        }
        let len: usize = if buf.height == 0 {
            0
        } else {
            buf.stride * (buf.height - 1) + 1
        };
        IterPtr { ptr: buf.base + col, len, stride: buf.stride }
    }

    /// Takes the first remaining address.
    pub fn next(&mut self) -> (r: Option<usize>)
        requires
            old(self)@.wf(),
        ensures
            final(self)@.wf(),
            final(self)@ == old(self)@.step_front(),
            old(self)@.count() == 0 ==> r is None,
            old(self)@.count() > 0 ==> r == Some(old(self)@.addrs()[0] as usize),
            final(self)@.addrs() == if old(self)@.count() == 0 {
                old(self)@.addrs()
            } else {
                old(self)@.addrs().drop_first()
            },
        no_unwind
    {
        proof {
            if self@.count() > 0 {
                lemma_steps(self@);
            }
        }
        if self.len > 0 {
            let first = self.ptr;
            if self.len <= self.stride {
                self.ptr = first + self.len;
                self.len = 0;
            } else {
                self.ptr = first + self.stride;
                self.len = self.len - self.stride;
            }
            Some(first)
        } else {
            None
        }
    }

    /// Takes the last remaining address.
    pub fn next_back(&mut self) -> (r: Option<usize>)
        requires
            old(self)@.wf(),
        ensures
            final(self)@.wf(),
            final(self)@ == old(self)@.step_back(),
            old(self)@.count() == 0 ==> r is None,
            old(self)@.count() > 0 ==> r == Some(old(self)@.addrs().last() as usize),
            final(self)@.addrs() == if old(self)@.count() == 0 {
                old(self)@.addrs()
            } else {
                old(self)@.addrs().drop_last()
            },
        no_unwind
    {
        proof {
            if self@.count() > 0 {
                lemma_steps(self@);
            }
        }
        if self.len > 0 {
            let last = self.ptr + (self.len - 1);
            self.len = if self.len <= self.stride {
                0
            } else {
                self.len - self.stride
            };
            Some(last)
        } else {
            None
        }
    }

    /// The number of addresses that remain.
    pub fn len(&self) -> (r: usize)
        requires
            self@.wf(),
        ensures
            r == self@.count(),
            r == self@.addrs().len(),
    {
        if self.len == 0 {
            0
        } else {
            (self.len - 1) / self.stride + 1
        }
    }
}

/// A cursor over the addresses of one strided run, for a caller that holds
/// exclusive access to the elements. It walks exactly as [`IterPtr`] does.
#[derive(Clone, Copy, Debug, PartialEq, Eq)]
pub struct IterPtrMut(IterPtr);

impl View for IterPtrMut {
    type V = Run;

    closed spec fn view(&self) -> Run {
        self.0@
    }
}

impl IterPtrMut {
    /// The exclusive cursor over the same run as `iter`.
    pub(crate) fn from_shared(iter: IterPtr) -> (r: Self)
        ensures
            r@ == iter@,
    {
        IterPtrMut(iter)
    }

    /// The shared cursor over the same run.
    pub(crate) fn into_shared(self) -> (r: IterPtr)
        ensures
            r@ == self@,
    {
        self.0
    }

    /// A cursor over the run of `len` slots from address `ptr`, taking every
    /// `stride`-th slot. The run must start and end on an element.
    pub fn new(ptr: usize, len: usize, stride: usize) -> (r: Self)
        requires
            stride > 0,
            slice_perfect(len as nat, stride as nat),
            ptr + len <= usize::MAX,
        ensures
            r@ == (Run { first: ptr as int, len: len as nat, stride: stride as nat }),
            r@.wf(),
    {
        IterPtrMut(IterPtr::new(ptr, len, stride))
    }

    /// The same cursor as [`IterPtrMut::new`], for callers that already know
    /// the run to be slice-perfect.
    pub fn new_unchecked(ptr: usize, len: usize, stride: usize) -> (r: Self)
        requires
            stride > 0,
            slice_perfect(len as nat, stride as nat),
            ptr + len <= usize::MAX,
        ensures
            r@ == (Run { first: ptr as int, len: len as nat, stride: stride as nat }),
            r@.wf(),
    {
        IterPtrMut(IterPtr::new_unchecked(ptr, len, stride))
    }

    /// A cursor over the elements of row `row` of `buf`.
    pub fn row_ptr(buf: ImgPtr, row: usize) -> (r: Self)
        requires
            buf.wf(),
            row < buf.height,
        ensures
            r@ == row_run(buf, row as int),
            r@.wf(),
            r@.addrs() == Seq::new(buf.width as nat, |i: int| buf.addr(row as int, i)),
    {
        IterPtrMut(IterPtr::row_ptr(buf, row))
    }

    /// The same cursor as [`IterPtrMut::row_ptr`].
    pub fn row_ptr_unchecked(buf: ImgPtr, row: usize) -> (r: Self)
        requires
            buf.wf(),
            row < buf.height,
        ensures
            r@ == row_run(buf, row as int),
            r@.wf(),
            r@.addrs() == Seq::new(buf.width as nat, |i: int| buf.addr(row as int, i)),
    {
        IterPtrMut(IterPtr::row_ptr_unchecked(buf, row))
    }

    /// A cursor over the elements of column `col` of `buf`, top to bottom.
    pub fn col_ptr(buf: ImgPtr, col: usize) -> (r: Self)
        requires
            buf.wf(),
            col < buf.width,
        ensures
            r@ == col_run(buf, col as int),
            r@.wf(),
            r@.addrs() == Seq::new(buf.height as nat, |j: int| buf.addr(j, col as int)),
    {
        IterPtrMut(IterPtr::col_ptr(buf, col))
    }

    /// The same cursor as [`IterPtrMut::col_ptr`].
    pub fn col_ptr_unchecked(buf: ImgPtr, col: usize) -> (r: Self)
        requires
            buf.wf(),
            col < buf.width,
        ensures
            r@ == col_run(buf, col as int),
            r@.wf(),
            r@.addrs() == Seq::new(buf.height as nat, |j: int| buf.addr(j, col as int)),
    {
        IterPtrMut(IterPtr::col_ptr_unchecked(buf, col))
    }

    /// Takes the first remaining address.
    pub fn next(&mut self) -> (r: Option<usize>)
        requires
            old(self)@.wf(),
        ensures
            final(self)@.wf(),
            final(self)@ == old(self)@.step_front(),
            old(self)@.count() == 0 ==> r is None,
            old(self)@.count() > 0 ==> r == Some(old(self)@.addrs()[0] as usize),
            final(self)@.addrs() == if old(self)@.count() == 0 {
                old(self)@.addrs()
            } else {
                old(self)@.addrs().drop_first()
            },
        no_unwind
    {
        self.0.next()
    }

    /// Takes the last remaining address.
    pub fn next_back(&mut self) -> (r: Option<usize>)
        requires
            old(self)@.wf(),
        ensures
            final(self)@.wf(),
            final(self)@ == old(self)@.step_back(),
            old(self)@.count() == 0 ==> r is None,
            old(self)@.count() > 0 ==> r == Some(old(self)@.addrs().last() as usize),
            final(self)@.addrs() == if old(self)@.count() == 0 {
                old(self)@.addrs()
            } else {
                old(self)@.addrs().drop_last()
            },
        no_unwind
    {
        self.0.next_back()
    }

    /// The number of addresses that remain.
    pub fn len(&self) -> (r: usize)
        requires
            self@.wf(),
        ensures
            r == self@.count(),
            r == self@.addrs().len(),
    {
        self.0.len()
    }
}

} // verus!
