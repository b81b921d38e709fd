use imgref_iter::cursor::IterPtr;
use imgref_iter::img::ImgPtr;
use imgref_iter::simd::SimdIterPtr;
use imgref_iter::simd::SimdIterPtrMut;
use imgref_iter::simd_windows::SimdIterWindowPtr;
use imgref_iter::simd_windows::SimdIterWindowPtrMut;
use imgref_iter::simd_windows::SimdIterWindowsPtr;
use imgref_iter::simd_windows::SimdIterWindowsPtrMut;

fn img(width: usize, height: usize, stride: usize) -> ImgPtr {
    ImgPtr { base: 0, len: stride * (height - 1) + width, width, height, stride }
}

fn drain(mut it: IterPtr) -> Vec<usize> {
    let mut out = Vec::new();
    while let Some(a) = it.next() {
        out.push(a);
    }
    out
}

fn first_address<const LANES: usize>(item: SimdIterWindowPtr<LANES>) -> (bool, usize) {
    match item {
        SimdIterWindowPtr::Simd(s) => (true, s.into_inner().next().unwrap()),
        SimdIterWindowPtr::Single(mut c) => (false, c.next().unwrap()),
    }
}

#[test]
fn lane_groups_over_rows_match_row_cursors() {
    let buf = img(4, 5, 6);
    let mut lanes = SimdIterPtr::<3>::rows_ptr(buf, 1);
    assert_eq!(lanes.len(), 4);
    let rows: Vec<Vec<usize>> = (1..4).map(|r| drain(IterPtr::row_ptr(buf, r))).collect();
    for i in 0..4 {
        let group = lanes.next().unwrap();
        for k in 0..3 {
            assert_eq!(group[k], rows[k][i]);
        }
    }
    assert!(lanes.next().is_none());
}

#[test]
fn lane_groups_over_columns_match_column_cursors() {
    let buf = img(5, 3, 7);
    let mut lanes = SimdIterPtr::<2>::cols_ptr(buf, 3);
    assert_eq!(lanes.len(), 3);
    assert_eq!(lanes.next_back(), Some([17, 18]));
    assert_eq!(lanes.next(), Some([3, 4]));
    assert_eq!(lanes.next(), Some([10, 11]));
    assert_eq!(lanes.next(), None);
    assert_eq!(lanes.next_back(), None);
}

#[test]
fn lane_group_from_cursor_and_gap() {
    let mut lanes = SimdIterPtr::<4>::new(IterPtr::new(2, 3, 1), 10);
    assert_eq!(lanes.next(), Some([2, 12, 22, 32]));
    assert_eq!(lanes.next_back(), Some([4, 14, 24, 34]));
    assert_eq!(lanes.len(), 1);
    assert_eq!(drain(lanes.into_inner()), vec![3]);
}

#[test]
fn exclusive_lane_group() {
    let buf = img(4, 3, 5);
    let mut lanes = SimdIterPtrMut::<3>::cols_ptr(buf, 1);
    assert_eq!(lanes.next(), Some([1, 2, 3]));
    let mut rows = SimdIterPtrMut::<2>::rows_ptr_unchecked(buf, 1);
    assert_eq!(rows.next_back(), Some([8, 13]));
    let mut inner = rows.into_inner();
    assert_eq!(inner.next(), Some(5));
}

#[test]
fn batched_rows_two_lanes_over_five_rows() {
    let buf = img(3, 5, 4);
    let mut w = SimdIterWindowsPtr::<2>::rows_ptr(buf);
    assert_eq!(w.len(), 3);
    assert_eq!(first_address(w.next().unwrap()), (true, 0));
    assert_eq!(w.len(), 2);
    assert_eq!(first_address(w.next().unwrap()), (true, 8));
    assert_eq!(w.len(), 1);
    assert_eq!(first_address(w.next().unwrap()), (false, 16));
    assert_eq!(w.len(), 0);
    assert!(w.next().is_none());
}

#[test]
fn batched_rows_first_batch_covers_rows_zero_and_one() {
    let buf = img(3, 5, 4);
    let mut w = SimdIterWindowsPtr::<2>::rows_ptr(buf);
    match w.next().unwrap() {
        SimdIterWindowPtr::Simd(mut s) => {
            assert_eq!(s.next(), Some([0, 4]));
            assert_eq!(s.next(), Some([1, 5]));
            assert_eq!(s.next(), Some([2, 6]));
            assert_eq!(s.next(), None);
        },
        SimdIterWindowPtr::Single(_) => panic!("expected a batch"),
    }
}

#[test]
fn batch_and_single_counts_from_both_ends() {
    for &n in &[0usize, 1, 2, 3, 6, 7, 8, 11] {
        let buf = ImgPtr { base: 0, len: n, width: n, height: 1, stride: n.max(1) };
        for &back in &[false, true] {
            let mut w = SimdIterWindowsPtr::<3>::cols_ptr(buf);
            assert_eq!(w.len(), n / 3 + n % 3);
            let (mut batches, mut singles) = (0, 0);
            loop {
                let before = w.len();
                let item = if back { w.next_back() } else { w.next() };
                match item {
                    Some(SimdIterWindowPtr::Simd(_)) => batches += 1,
                    Some(SimdIterWindowPtr::Single(_)) => singles += 1,
                    None => break,
                }
                assert_eq!(w.len(), before - 1);
            }
            assert_eq!(batches, n / 3);
            assert_eq!(singles, n % 3);
        }
    }
}

#[test]
fn batched_columns_from_the_back() {
    let buf = img(5, 2, 5);
    let mut w = SimdIterWindowsPtr::<2>::cols_ptr(buf);
    assert_eq!(w.len(), 3);
    assert_eq!(first_address(w.next_back().unwrap()), (true, 3));
    assert_eq!(first_address(w.next_back().unwrap()), (true, 1));
    assert_eq!(first_address(w.next_back().unwrap()), (false, 0));
    assert!(w.next_back().is_none());
}

#[test]
fn batched_windows_from_explicit_parts() {
    let mut w = SimdIterWindowsPtr::<4>::new(0, 2, 1, 2, 5);
    assert_eq!(w.len(), 2);
    match w.next().unwrap() {
        SimdIterWindowPtr::Simd(mut s) => assert_eq!(s.next(), Some([0, 2, 4, 6])),
        SimdIterWindowPtr::Single(_) => panic!("expected a batch"),
    }
    assert_eq!(first_address(w.next().unwrap()), (false, 8));
}

#[test]
fn exclusive_batched_windows() {
    let buf = img(3, 3, 3);
    let mut w = SimdIterWindowsPtrMut::<2>::rows_ptr(buf);
    assert_eq!(w.len(), 2);
    match w.next_back().unwrap() {
        SimdIterWindowPtrMut::Simd(mut s) => assert_eq!(s.next(), Some([3, 6])),
        SimdIterWindowPtrMut::Single(_) => panic!("expected a batch"),
    }
    match w.next().unwrap() {
        SimdIterWindowPtrMut::Single(mut c) => assert_eq!(c.next_back(), Some(2)),
        SimdIterWindowPtrMut::Simd(_) => panic!("expected a single row"),
    }
    assert_eq!(w.len(), 0);
}
