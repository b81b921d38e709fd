//! Lane groups: a cursor whose every address is expanded into `LANES`
//! addresses a fixed gap apart, to walk several rows or columns in lockstep.
use vstd::prelude::*;
use crate::img::ImgPtr;
use crate::cursor::IterPtr;
use crate::cursor::IterPtrMut;
use crate::cursor::Run;
use crate::cursor::row_run;
use crate::cursor::col_run;
use crate::cursor::lemma_row_run;
use crate::cursor::lemma_col_run;
use crate::cursor::lemma_steps;

verus! {

/// The abstract state of a lane group: the run of its first lane, the gap
/// between successive lanes, and the number of lanes.
pub struct Lanes {
    pub run: Run,
    pub gap: nat,
    pub lanes: nat,
}

impl Lanes {
    /// The run is well formed, and the last address of its last lane fits in
    /// a `usize`.
    pub open spec fn wf(self) -> bool {
        &&& self.run.wf()
        &&& self.run.len > 0 && self.lanes > 0 ==> self.run.first + self.run.len - 1 + (self.lanes - 1) * self.gap
            <= usize::MAX
    }

    /// The addresses that one address `a` of the first lane expands into.
    pub open spec fn group(self, a: int) -> Seq<int> {
        Seq::new(self.lanes, |k: int| a + k * self.gap)
    }

    /// The groups that remain, first to last.
    pub open spec fn groups(self) -> Seq<Seq<int>> {
        self.run.addrs().map_values(|a: int| self.group(a))
    }
}

/// The addresses of a group, as integers.
pub open spec fn group_view<const LANES: usize>(group: [usize; LANES]) -> Seq<int> {
    group@.map_values(|a: usize| a as int)
}

/// Every remaining address lies between the first and the last slot of the
/// run.
proof fn lemma_addrs_within(run: Run, j: int)
    requires
        run.wf(),
        0 <= j < run.count(),
    ensures
        run.first <= run.addrs()[j] <= run.first + run.len - 1,
{
    lemma_steps(run);
    let c = run.count() as int;
    assert(j * run.stride <= (c - 1) * run.stride) by (nonlinear_arith)
        requires
            0 <= j <= c - 1,
    ;
}

/// Lane `k` of the `j`-th group over rows from `row` on is the `j`-th address
/// of row `row + k`: the lanes walk the rows in lockstep.
pub proof fn lemma_row_lanes(buf: ImgPtr, row: int, lanes: nat)
    requires
        buf.wf(),
        0 <= row < buf.height,
        row + lanes <= buf.height,
    ensures
        (Lanes { run: row_run(buf, row), gap: buf.stride as nat, lanes }).wf(),
        (Lanes { run: row_run(buf, row), gap: buf.stride as nat, lanes }).groups().len() == buf.width,
        forall|j: int, k: int|
            0 <= j < buf.width && 0 <= k < lanes ==> #[trigger] (Lanes {
                run: row_run(buf, row),
                gap: buf.stride as nat,
                lanes,
            }).groups()[j][k] == #[trigger] row_run(buf, row + k).addrs()[j],
{
    let l = Lanes { run: row_run(buf, row), gap: buf.stride as nat, lanes };
    lemma_row_run(buf, row);
    if lanes > 0 {
        assert(buf.stride * row + (lanes - 1) * buf.stride <= buf.stride * (buf.height - 1)) by (nonlinear_arith)
            requires
                row + lanes <= buf.height,
                lanes > 0,
        ;
    }
    assert forall|j: int, k: int| 0 <= j < buf.width && 0 <= k < lanes implies #[trigger] l.groups()[j][k]
        == #[trigger] row_run(buf, row + k).addrs()[j] by {
        lemma_row_run(buf, row);
        lemma_row_run(buf, row + k);
        assert(buf.stride * (row + k) == buf.stride * row + k * buf.stride) by (nonlinear_arith);
    }
}

/// Lane `k` of the `j`-th group over columns from `col` on is the `j`-th
/// address of column `col + k`: the lanes walk the columns in lockstep.
pub proof fn lemma_col_lanes(buf: ImgPtr, col: int, lanes: nat)
    requires
        buf.wf(),
        0 <= col < buf.width,
        col + lanes <= buf.width,
    ensures
        (Lanes { run: col_run(buf, col), gap: 1, lanes }).wf(),
        (Lanes { run: col_run(buf, col), gap: 1, lanes }).groups().len() == buf.height,
        forall|j: int, k: int|
            0 <= j < buf.height && 0 <= k < lanes ==> #[trigger] (Lanes {
                run: col_run(buf, col),
                gap: 1,
                lanes,
            }).groups()[j][k] == #[trigger] col_run(buf, col + k).addrs()[j],
{
    let l = Lanes { run: col_run(buf, col), gap: 1, lanes };
    lemma_col_run(buf, col);
    if buf.height > 0 && lanes > 0 {
        assert(l.run.first + l.run.len - 1 + (lanes - 1) * 1 == buf.base + col + lanes - 1 + buf.stride * (
        buf.height - 1));
        assert(l.run.first + l.run.len - 1 + (lanes - 1) * l.gap <= buf.base + buf.len);
    }
    assert forall|j: int, k: int| 0 <= j < buf.height && 0 <= k < lanes implies #[trigger] l.groups()[j][k]
        == #[trigger] col_run(buf, col + k).addrs()[j] by {
        lemma_col_run(buf, col);
        lemma_col_run(buf, col + k);
    }
}

/// A cursor over a run whose every address is expanded into `LANES`
/// addresses, `gap` slots apart.
#[derive(Clone, Copy, Debug, PartialEq, Eq)]
pub struct SimdIterPtr<const LANES: usize> {
    iter: IterPtr,
    gap: usize,
}

impl<const LANES: usize> View for SimdIterPtr<LANES> {
    type V = Lanes;

    closed spec fn view(&self) -> Lanes {
        Lanes { run: self.iter@, gap: self.gap as nat, lanes: LANES as nat }
    }
}

impl<const LANES: usize> SimdIterPtr<LANES> {
    /// A lane group of this type has `LANES` lanes.
    pub proof fn lemma_lane_count(&self)
        ensures
            self@.lanes == LANES,
    {
    }

    /// Expands the cursor `iter` into `LANES` lanes, `gap` slots apart.
    pub fn new(iter: IterPtr, gap: usize) -> (r: Self)
        requires
            (Lanes { run: iter@, gap: gap as nat, lanes: LANES as nat }).wf(),
        ensures
            r@ == (Lanes { run: iter@, gap: gap as nat, lanes: LANES as nat }),
        no_unwind
    {
        SimdIterPtr { iter, gap }
    }

    /// Rows `row` to `row + LANES - 1` of `buf`, walked in lockstep.
    pub fn rows_ptr(buf: ImgPtr, row: usize) -> (r: Self)
        requires
            buf.wf(),
            row < buf.height,
            row + LANES <= buf.height,
        ensures
            r@ == (Lanes { run: row_run(buf, row as int), gap: buf.stride as nat, lanes: LANES as nat }),
            r@.wf(),
    {
        Self::rows_ptr_unchecked(buf, row)
    }

    /// The same lanes as [`SimdIterPtr::rows_ptr`].
    pub fn rows_ptr_unchecked(buf: ImgPtr, row: usize) -> (r: Self)
        requires
            buf.wf(),
            row < buf.height,
            row + LANES <= buf.height,
        ensures
            r@ == (Lanes { run: row_run(buf, row as int), gap: buf.stride as nat, lanes: LANES as nat }),
            r@.wf(),
    {
        proof {
            lemma_row_lanes(buf, row as int, LANES as nat);
        }
        Self::new(IterPtr::row_ptr(buf, row), buf.stride)
    }

    /// Columns `col` to `col + LANES - 1` of `buf`, walked in lockstep.
    pub fn cols_ptr(buf: ImgPtr, col: usize) -> (r: Self)
        requires
            buf.wf(),
            col < buf.width,
            col + LANES <= buf.width,
        ensures
            r@ == (Lanes { run: col_run(buf, col as int), gap: 1, lanes: LANES as nat }),
            r@.wf(),
    {
        Self::cols_ptr_unchecked(buf, col)
    }

    /// The same lanes as [`SimdIterPtr::cols_ptr`].
    pub fn cols_ptr_unchecked(buf: ImgPtr, col: usize) -> (r: Self)
        requires
            buf.wf(),
            col < buf.width,
            col + LANES <= buf.width,
        ensures
            r@ == (Lanes { run: col_run(buf, col as int), gap: 1, lanes: LANES as nat }),
            r@.wf(),
    {
        proof {
            lemma_col_lanes(buf, col as int, LANES as nat);
        }
        Self::new(IterPtr::col_ptr(buf, col), 1)
    }

    /// The cursor of the first lane.
    pub fn into_inner(self) -> (r: IterPtr)
        ensures
            r@ == self@.run,
    {
        self.iter
    }

    /// The `LANES` addresses that the address `one` of the first lane expands
    /// into.
    fn expand(&self, one: usize) -> (r: [usize; LANES])
        requires
            LANES > 0 ==> one + (LANES - 1) * self.gap <= usize::MAX,
        ensures
            group_view(r) == self@.group(one as int),
    {
        let mut out = [0usize; LANES];
        let mut k: usize = 0;
        while k < LANES
            invariant
                k <= LANES,
                LANES > 0 ==> one + (LANES - 1) * self.gap <= usize::MAX,
                out@.len() == LANES,
                forall|i: int| 0 <= i < k ==> out@[i] == one + i * self.gap,
            decreases LANES - k,
        {
            proof {
                assert(k * self.gap <= (LANES - 1) * self.gap) by (nonlinear_arith)
                    requires
                        k < LANES,
                ;
            }
            out[k] = one + k * self.gap;
            k = k + 1;
        }
        assert(group_view(out) =~= self@.group(one as int));
        out
    }

    /// Takes the first remaining group.
    pub fn next(&mut self) -> (r: Option<[usize; LANES]>)
        requires
            old(self)@.wf(),
        ensures
            final(self)@.wf(),
            final(self)@ == (Lanes { run: old(self)@.run.step_front(), ..old(self)@ }),
            old(self)@.groups().len() == 0 ==> r is None,
            old(self)@.groups().len() > 0 ==> r is Some && group_view(r.unwrap()) == old(self)@.groups()[0],
            final(self)@.groups() == if old(self)@.groups().len() == 0 {
                old(self)@.groups()
            } else {
                old(self)@.groups().drop_first()
            },
    {
        proof {
            if self@.run.count() > 0 {
                lemma_addrs_within(self@.run, 0);
            }
        }
        let r = match self.iter.next() {
            Some(one) => Some(self.expand(one)),
            None => None,
        };
        proof {
            if old(self)@.run.count() > 0 {
                assert(self@.groups() =~= old(self)@.groups().drop_first());
            }
        }
        r
    }

    /// Takes the last remaining group.
    pub fn next_back(&mut self) -> (r: Option<[usize; LANES]>)
        requires
            old(self)@.wf(),
        ensures
            final(self)@.wf(),
            final(self)@ == (Lanes { run: old(self)@.run.step_back(), ..old(self)@ }),
            old(self)@.groups().len() == 0 ==> r is None,
            old(self)@.groups().len() > 0 ==> r is Some && group_view(r.unwrap()) == old(self)@.groups().last(),
            final(self)@.groups() == if old(self)@.groups().len() == 0 {
                old(self)@.groups()
            } else {
                old(self)@.groups().drop_last()
            },
    {
        proof {
            if self@.run.count() > 0 {
                lemma_addrs_within(self@.run, self@.run.count() - 1);
            }
        }
        let r = match self.iter.next_back() {
            Some(one) => Some(self.expand(one)),
            None => None,
        };
        proof {
            if old(self)@.run.count() > 0 {
                assert(self@.groups() =~= old(self)@.groups().drop_last());
            }
        }
        r
    }

    /// The number of groups that remain.
    pub fn len(&self) -> (r: usize)
        requires
            self@.wf(),
        ensures
            r == self@.groups().len(),
    {
        self.iter.len()
    }
}

/// A lane group over elements to which the caller holds exclusive access. It
/// walks exactly as [`SimdIterPtr`] does.
#[derive(Clone, Copy, Debug, PartialEq, Eq)]
pub struct SimdIterPtrMut<const LANES: usize>(SimdIterPtr<LANES>);

impl<const LANES: usize> View for SimdIterPtrMut<LANES> {
    type V = Lanes;

    closed spec fn view(&self) -> Lanes {
        self.0@
    }
}

impl<const LANES: usize> SimdIterPtrMut<LANES> {
    /// The exclusive lane group over the same lanes as `iter`.
    pub(crate) fn from_shared(iter: SimdIterPtr<LANES>) -> (r: Self)
        ensures
            r@ == iter@,
    {
        SimdIterPtrMut(iter)
    }

    /// Expands the cursor `iter` into `LANES` lanes, `gap` slots apart.
    pub fn new(iter: IterPtrMut, gap: usize) -> (r: Self)
        requires
            (Lanes { run: iter@, gap: gap as nat, lanes: LANES as nat }).wf(),
        ensures
            r@ == (Lanes { run: iter@, gap: gap as nat, lanes: LANES as nat }),
    {
        SimdIterPtrMut(SimdIterPtr::new(iter.into_shared(), gap))
    }

    /// Rows `row` to `row + LANES - 1` of `buf`, walked in lockstep.
    pub fn rows_ptr(buf: ImgPtr, row: usize) -> (r: Self)
        requires
            buf.wf(),
            row < buf.height,
            row + LANES <= buf.height,
        ensures
            r@ == (Lanes { run: row_run(buf, row as int), gap: buf.stride as nat, lanes: LANES as nat }),
            r@.wf(),
    {
        SimdIterPtrMut(SimdIterPtr::rows_ptr(buf, row))
    }

    /// The same lanes as [`SimdIterPtrMut::rows_ptr`].
    pub fn rows_ptr_unchecked(buf: ImgPtr, row: usize) -> (r: Self)
        requires
            buf.wf(),
            row < buf.height,
            row + LANES <= buf.height,
        ensures
            r@ == (Lanes { run: row_run(buf, row as int), gap: buf.stride as nat, lanes: LANES as nat }),
            r@.wf(),
    {
        SimdIterPtrMut(SimdIterPtr::rows_ptr_unchecked(buf, row))
    }

    /// Columns `col` to `col + LANES - 1` of `buf`, walked in lockstep.
    pub fn cols_ptr(buf: ImgPtr, col: usize) -> (r: Self)
        requires
            buf.wf(),
            col < buf.width,
            col + LANES <= buf.width,
        ensures
            r@ == (Lanes { run: col_run(buf, col as int), gap: 1, lanes: LANES as nat }),
            r@.wf(),
    {
        SimdIterPtrMut(SimdIterPtr::cols_ptr(buf, col))
    }

    /// The same lanes as [`SimdIterPtrMut::cols_ptr`].
    pub fn cols_ptr_unchecked(buf: ImgPtr, col: usize) -> (r: Self)
        requires
            buf.wf(),
            col < buf.width,
            col + LANES <= buf.width,
        ensures
            r@ == (Lanes { run: col_run(buf, col as int), gap: 1, lanes: LANES as nat }),
            r@.wf(),
    {
        SimdIterPtrMut(SimdIterPtr::cols_ptr_unchecked(buf, col))
    }

    /// The cursor of the first lane.
    pub fn into_inner(self) -> (r: IterPtrMut)
        ensures
            r@ == self@.run,
    {
        IterPtrMut::from_shared(self.0.into_inner())
    }

    /// Takes the first remaining group.
    pub fn next(&mut self) -> (r: Option<[usize; LANES]>)
        requires
            old(self)@.wf(),
        ensures
            final(self)@.wf(),
            final(self)@ == (Lanes { run: old(self)@.run.step_front(), ..old(self)@ }),
            old(self)@.groups().len() == 0 ==> r is None,
            old(self)@.groups().len() > 0 ==> r is Some && group_view(r.unwrap()) == old(self)@.groups()[0],
            final(self)@.groups() == if old(self)@.groups().len() == 0 {
                old(self)@.groups()
            } else {
                old(self)@.groups().drop_first()
            },
    {
        self.0.next()
    }

    /// Takes the last remaining group.
    pub fn next_back(&mut self) -> (r: Option<[usize; LANES]>)
        requires
            old(self)@.wf(),
        ensures
            final(self)@.wf(),
            final(self)@ == (Lanes { run: old(self)@.run.step_back(), ..old(self)@ }),
            old(self)@.groups().len() == 0 ==> r is None,
            old(self)@.groups().len() > 0 ==> r is Some && group_view(r.unwrap()) == old(self)@.groups().last(),
            final(self)@.groups() == if old(self)@.groups().len() == 0 {
                old(self)@.groups()
            } else {
                old(self)@.groups().drop_last()
            },
    {
        self.0.next_back()
    }

    /// The number of groups that remain.
    pub fn len(&self) -> (r: usize)
        requires
            self@.wf(),
        ensures
            r == self@.groups().len(),
    {
        self.0.len()
    }
}

} // verus!
