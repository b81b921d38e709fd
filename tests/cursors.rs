use imgref_iter::cursor::IterPtr;
use imgref_iter::cursor::IterPtrMut;
use imgref_iter::img::ImgPtr;
use imgref_iter::row_col::IterColPtr;
use imgref_iter::row_col::IterRowPtr;
use imgref_iter::windows::IterWindowsPtr;

fn img(width: usize, height: usize, stride: usize) -> ImgPtr {
    ImgPtr { base: 0, len: stride * (height - 1) + width, width, height, stride }
}

fn drain(mut it: IterPtr) -> Vec<usize> {
    let mut out = Vec::new();
    while let Some(a) = it.next() {
        out.push(a);
    }
    out
}

fn drain_back(mut it: IterPtr) -> Vec<usize> {
    let mut out = Vec::new();
    while let Some(a) = it.next_back() {
        out.push(a);
    }
    out
}

#[test]
fn rows_of_small_buffer_yield_row_offsets() {
    let buf = img(4, 3, 5);
    let mut rows = IterWindowsPtr::rows_ptr(buf);
    assert_eq!(rows.len(), 3);
    assert_eq!(drain(rows.next().unwrap()), vec![0, 1, 2, 3]);
    assert_eq!(drain(rows.next().unwrap()), vec![5, 6, 7, 8]);
    assert_eq!(drain(rows.next().unwrap()), vec![10, 11, 12, 13]);
    assert!(rows.next().is_none());
}

#[test]
fn column_one_of_small_buffer() {
    let buf = img(4, 3, 5);
    let col = IterPtr::col_ptr(buf, 1);
    assert_eq!(col.len(), 3);
    assert_eq!(drain(col), vec![1, 6, 11]);
}

#[test]
fn cursor_count_is_ceiling_of_len_over_stride() {
    // 7 slots every 3: elements at 0, 3 and 6.
    let it = IterPtr::new(0, 7, 3);
    assert_eq!(it.len(), 3);
    assert_eq!(drain(it), vec![0, 3, 6]);
    let it = IterPtr::new(10, 1, 4);
    assert_eq!(it.len(), 1);
    assert_eq!(drain(it), vec![10]);
    let it = IterPtr::new(0, 5, 1);
    assert_eq!(it.len(), 5);
}

#[test]
fn mixed_ends_yield_each_element_once() {
    let mut it = IterPtr::new(2, 10, 3);
    assert_eq!(it.len(), 4);
    assert_eq!(it.next(), Some(2));
    assert_eq!(it.len(), 3);
    assert_eq!(it.next_back(), Some(11));
    assert_eq!(it.next(), Some(5));
    assert_eq!(it.next_back(), Some(8));
    assert_eq!(it.len(), 0);
    assert_eq!(it.next(), None);
    assert_eq!(it.next_back(), None);
    assert_eq!(it.next(), None);
}

#[test]
fn successive_addresses_differ_by_stride() {
    let forward = drain(IterPtr::new(1, 13, 4));
    assert_eq!(forward, vec![1, 5, 9, 13]);
    let backward = drain_back(IterPtr::new(1, 13, 4));
    assert_eq!(backward, vec![13, 9, 5, 1]);
}

#[test]
fn empty_cursor_is_exhausted() {
    let mut it = IterPtr::new(5, 0, 3);
    assert_eq!(it.len(), 0);
    assert_eq!(it.next(), None);
    assert_eq!(it.next_back(), None);
}

#[test]
fn slice_perfect_runs() {
    assert!(IterPtr::is_slice_perfect(0, 5));
    assert!(IterPtr::is_slice_perfect(9, 1));
    assert!(IterPtr::is_slice_perfect(7, 3));
    assert!(!IterPtr::is_slice_perfect(6, 3));
    assert!(!IterPtr::is_slice_perfect(8, 3));
    assert!(IterPtr::is_slice_perfect(1, 8));
    assert!(IterPtr::is_slice_perfect(0, 0));
}

#[test]
fn row_and_column_cursors_follow_the_buffer() {
    let buf = ImgPtr { base: 100, len: 24, width: 3, height: 4, stride: 7 };
    assert!(buf.is_valid());
    assert_eq!(drain(IterPtr::row_ptr(buf, 2)), vec![114, 115, 116]);
    assert_eq!(drain(IterPtr::col_ptr(buf, 2)), vec![102, 109, 116, 123]);
    assert_eq!(drain(IterPtr::row_ptr_unchecked(buf, 0)), vec![100, 101, 102]);
    assert_eq!(drain(IterPtr::col_ptr_unchecked(buf, 0)), vec![100, 107, 114, 121]);
}

#[test]
fn columns_walk_left_to_right_and_back() {
    let buf = img(3, 2, 4);
    let mut cols = IterWindowsPtr::cols_ptr(buf);
    assert_eq!(cols.len(), 3);
    assert_eq!(drain(cols.next_back().unwrap()), vec![2, 6]);
    assert_eq!(drain(cols.next().unwrap()), vec![0, 4]);
    assert_eq!(cols.len(), 1);
    assert_eq!(drain(cols.next().unwrap()), vec![1, 5]);
    assert!(cols.next().is_none());
    assert!(cols.next_back().is_none());
}

#[test]
fn windows_from_explicit_parts() {
    let mut w = IterWindowsPtr::new(3, 2, 1, 10, 3);
    assert_eq!(w.len(), 3);
    assert_eq!(drain(w.next().unwrap()), vec![3, 4]);
    assert_eq!(drain(w.next_back().unwrap()), vec![23, 24]);
    assert_eq!(drain(w.next().unwrap()), vec![13, 14]);
    assert_eq!(w.len(), 0);
}

#[test]
fn zero_height_buffer_has_no_rows_and_empty_columns() {
    let buf = ImgPtr { base: 0, len: 0, width: 2, height: 0, stride: 2 };
    assert!(buf.is_valid());
    let mut rows = IterWindowsPtr::rows_ptr(buf);
    assert_eq!(rows.len(), 0);
    assert!(rows.next().is_none());
    let mut cols = IterWindowsPtr::cols_ptr(buf);
    assert_eq!(cols.len(), 2);
    assert_eq!(cols.next().unwrap().len(), 0);
}

#[test]
fn buffer_validity() {
    assert!(img(4, 3, 5).is_valid());
    // Backing store one element too short.
    assert!(!ImgPtr { base: 0, len: 13, width: 4, height: 3, stride: 5 }.is_valid());
    // Width greater than stride.
    assert!(!ImgPtr { base: 0, len: 100, width: 6, height: 3, stride: 5 }.is_valid());
    // Zero stride.
    assert!(!ImgPtr { base: 0, len: 100, width: 0, height: 3, stride: 0 }.is_valid());
    // Addresses past the end of the address space.
    assert!(!ImgPtr { base: usize::MAX - 3, len: 14, width: 4, height: 3, stride: 5 }.is_valid());
    // Dimensions whose product overflows.
    assert!(!ImgPtr { base: 0, len: usize::MAX, width: 1, height: usize::MAX, stride: 4 }.is_valid());
}

#[test]
fn exclusive_cursor_walks_like_shared_one() {
    let buf = img(4, 3, 5);
    let mut it = IterPtrMut::col_ptr(buf, 3);
    assert_eq!(it.len(), 3);
    assert_eq!(it.next(), Some(3));
    assert_eq!(it.next_back(), Some(13));
    assert_eq!(it.next(), Some(8));
    assert_eq!(it.next(), None);
    let mut row = IterPtrMut::row_ptr(buf, 1);
    assert_eq!(row.next_back(), Some(8));
    let mut new = IterPtrMut::new(0, 4, 3);
    assert_eq!(new.next(), Some(0));
    assert_eq!(new.next(), Some(3));
    assert_eq!(new.next(), None);
}

#[test]
fn row_and_column_pointer_types() {
    let buf = img(4, 3, 5);
    let mut row = IterRowPtr::new(&buf, 2);
    assert_eq!(row.len(), 4);
    assert_eq!(row.next(), Some(10));
    assert_eq!(row.next_back(), Some(13));
    let mut col = IterColPtr::new(&buf, 0);
    assert_eq!(col.len(), 3);
    assert_eq!(col.next_back(), Some(10));
    assert_eq!(col.next(), Some(0));
    assert_eq!(col.next(), Some(5));
    assert_eq!(col.next(), None);
}
