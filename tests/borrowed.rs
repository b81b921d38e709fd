use imgref_iter::img::ImgRef;
use imgref_iter::img::ImgRefMut;
use imgref_iter::lines::IterCol;
use imgref_iter::lines::IterColMut;
use imgref_iter::lines::IterRow;
use imgref_iter::lines::IterRowMut;
use imgref_iter::borrowed::Iter;
use imgref_iter::borrowed::IterMut;
use imgref_iter::borrowed_simd::SimdIter;
use imgref_iter::borrowed_simd::SimdIterWindow;
use imgref_iter::borrowed_simd::SimdIterWindows;
use imgref_iter::borrowed_windows::IterWindows;
use imgref_iter::borrowed_windows::IterWindowsMut;

fn collect(mut it: Iter<'_, u32>) -> Vec<u32> {
    let mut out = Vec::new();
    while let Some(x) = it.next() {
        out.push(*x);
    }
    out
}

// Element at row r, column c holds 10 * r + c; the padding holds 99.
fn grid() -> Vec<u32> {
    vec![0, 1, 2, 3, 99, 10, 11, 12, 13, 99, 20, 21, 22, 23]
}

#[test]
fn iter_reads_rows_and_columns() {
    let data = grid();
    let buf = ImgRef { buf: &data, width: 4, height: 3, stride: 5 };
    assert_eq!(collect(Iter::row(&buf, 1)), vec![10, 11, 12, 13]);
    assert_eq!(collect(Iter::col(&buf, 2)), vec![2, 12, 22]);
    let mut col = Iter::col(&buf, 3);
    assert_eq!(col.len(), 3);
    assert_eq!(col.next_back(), Some(&23));
    assert_eq!(col.next(), Some(&3));
    assert_eq!(col.len(), 1);
    let mut inner = col.into_inner();
    assert_eq!(inner.next(), Some(8));
}

#[test]
fn iter_over_slice_with_stride() {
    let data = vec![5u32, 6, 7, 8, 9, 10, 11];
    assert_eq!(collect(Iter::new(&data, 3)), vec![5, 8, 11]);
    assert_eq!(collect(Iter::new_unchecked(&data, 1)), data);
    let empty: Vec<u32> = Vec::new();
    assert_eq!(collect(Iter::new(&empty, 4)), Vec::<u32>::new());
}

#[test]
fn iter_mut_writes_a_column() {
    let mut data = grid();
    {
        let buf = ImgRefMut { buf: &mut data, width: 4, height: 3, stride: 5 };
        let mut col = IterMut::col(buf, 1);
        assert_eq!(col.len(), 3);
        while let Some(x) = col.next() {
            *x += 100;
        }
        assert_eq!(col.len(), 0);
    }
    assert_eq!(data, vec![0, 101, 2, 3, 99, 10, 111, 12, 13, 99, 20, 121, 22, 23]);
}

#[test]
fn iter_mut_writes_a_row_from_the_back() {
    let mut data = grid();
    {
        let buf = ImgRefMut { buf: &mut data, width: 4, height: 3, stride: 5 };
        let mut row = IterMut::row(buf, 2);
        let mut k = 0;
        while let Some(x) = row.next_back() {
            *x = k;
            k += 1;
        }
    }
    assert_eq!(&data[10..14], &[3, 2, 1, 0]);
    let mut data = vec![1u32, 2, 3, 4, 5];
    {
        let mut it = IterMut::new(&mut data, 2);
        *it.next().unwrap() = 0;
        *it.next_back().unwrap() = 0;
        assert_eq!(it.len(), 1);
        assert_eq!(*it.next().unwrap(), 3);
        assert!(it.next().is_none());
        let _ = it.into_inner();
    }
    assert_eq!(data, vec![0, 2, 3, 4, 0]);
}

#[test]
fn row_and_column_wrappers() {
    let data = grid();
    let buf = ImgRef { buf: &data, width: 4, height: 3, stride: 5 };
    let mut row = IterRow::new(&buf, 0);
    assert_eq!(row.len(), 4);
    assert_eq!(row.next(), Some(&0));
    assert_eq!(row.next_back(), Some(&3));
    let mut col = IterCol::new(&buf, 1);
    assert_eq!(col.next_back(), Some(&21));
    let mut from_slice = IterRow::new_row(&data[5..9]);
    assert_eq!(from_slice.next_back(), Some(&13));
    let mut strided = IterCol::new_col(&data[2..13], 5);
    assert_eq!(strided.len(), 3);
    assert_eq!(strided.next(), Some(&2));
    assert_eq!(strided.next(), Some(&12));
    assert_eq!(strided.next(), Some(&22));
    assert_eq!(strided.next(), None);
    let mut unchecked = IterCol::new_col_unchecked(&data[0..11], 5);
    assert_eq!(unchecked.next_back(), Some(&20));
    let mut unchecked_row = IterRow::new_row_unchecked(&data[10..12]);
    assert_eq!(unchecked_row.next(), Some(&20));
}

#[test]
fn mutable_row_and_column_wrappers() {
    let mut data = grid();
    {
        let mut col = IterColMut::new_col(&mut data[3..14], 5);
        assert_eq!(col.len(), 3);
        *col.next_back().unwrap() = 0;
        *col.next().unwrap() = 0;
    }
    assert_eq!(data[3], 0);
    assert_eq!(data[13], 0);
    {
        let buf = ImgRefMut { buf: &mut data, width: 4, height: 3, stride: 5 };
        let mut row = IterRowMut::new(buf, 1);
        *row.next().unwrap() = 7;
        assert_eq!(row.len(), 3);
    }
    assert_eq!(data[5], 7);
    {
        let mut row = IterRowMut::new_row(&mut data[10..12]);
        *row.next_back().unwrap() = 8;
    }
    assert_eq!(data[11], 8);
    {
        let buf = ImgRefMut { buf: &mut data, width: 4, height: 3, stride: 5 };
        let mut col = IterColMut::new(buf, 2);
        *col.next_back().unwrap() = 9;
    }
    assert_eq!(data[12], 9);
}

#[test]
fn windows_over_rows_and_columns() {
    let data = grid();
    let buf = ImgRef { buf: &data, width: 4, height: 3, stride: 5 };
    let mut rows = IterWindows::rows(&buf);
    assert_eq!(rows.len(), 3);
    assert_eq!(collect(rows.next().unwrap()), vec![0, 1, 2, 3]);
    assert_eq!(collect(rows.next_back().unwrap()), vec![20, 21, 22, 23]);
    assert_eq!(collect(rows.next().unwrap()), vec![10, 11, 12, 13]);
    assert!(rows.next().is_none());
    let mut cols = IterWindows::cols(&buf);
    assert_eq!(cols.len(), 4);
    assert_eq!(collect(cols.next_back().unwrap()), vec![3, 13, 23]);
    assert_eq!(collect(cols.next().unwrap()), vec![0, 10, 20]);
}

#[test]
fn lane_groups_read_elements() {
    let data = grid();
    let buf = ImgRef { buf: &data, width: 4, height: 3, stride: 5 };
    let mut rows = SimdIter::<u32, 2>::rows(&buf, 1);
    assert_eq!(rows.len(), 4);
    assert_eq!(rows.next().map(|g| [*g[0], *g[1]]), Some([10, 20]));
    assert_eq!(rows.next_back().map(|g| [*g[0], *g[1]]), Some([13, 23]));
    let mut cols = SimdIter::<u32, 3>::cols(&buf, 1);
    assert_eq!(cols.len(), 3);
    assert_eq!(cols.next().map(|g| [*g[0], *g[1], *g[2]]), Some([1, 2, 3]));
    assert_eq!(cols.next_back().map(|g| [*g[0], *g[1], *g[2]]), Some([21, 22, 23]));
    let mut inner = cols.into_inner();
    assert_eq!(inner.next(), Some([6, 7, 8]));
}

#[test]
fn batched_windows_read_elements() {
    let data = grid();
    let buf = ImgRef { buf: &data, width: 4, height: 3, stride: 5 };
    let mut rows = SimdIterWindows::<u32, 2>::rows(&buf);
    assert_eq!(rows.len(), 2);
    match rows.next().unwrap() {
        SimdIterWindow::Simd(mut s) => {
            assert_eq!(s.next().map(|g| [*g[0], *g[1]]), Some([0, 10]));
        },
        SimdIterWindow::Single(_) => panic!("expected a batch"),
    }
    match rows.next().unwrap() {
        SimdIterWindow::Single(c) => assert_eq!(collect(c), vec![20, 21, 22, 23]),
        SimdIterWindow::Simd(_) => panic!("expected a single row"),
    }
    assert!(rows.next().is_none());
    let mut cols = SimdIterWindows::<u32, 3>::cols(&buf);
    assert_eq!(cols.len(), 2);
    match cols.next_back().unwrap() {
        SimdIterWindow::Simd(mut s) => {
            assert_eq!(s.next_back().map(|g| [*g[0], *g[1], *g[2]]), Some([21, 22, 23]));
        },
        SimdIterWindow::Single(_) => panic!("expected a batch"),
    }
    match cols.next_back().unwrap() {
        SimdIterWindow::Single(c) => assert_eq!(collect(c), vec![0, 10, 20]),
        SimdIterWindow::Simd(_) => panic!("expected a single column"),
    }
}

#[test]
fn layout_of_borrowed_buffer() {
    let data = grid();
    let buf = ImgRef { buf: &data, width: 4, height: 3, stride: 5 };
    let p = buf.as_ptr();
    assert_eq!((p.base, p.len, p.width, p.height, p.stride), (0, 14, 4, 3, 5));
    assert!(p.is_valid());
}

#[test]
fn lent_windows_write_rows_and_columns() {
    let mut data = grid();
    {
        let buf = ImgRefMut { buf: &mut data, width: 4, height: 3, stride: 5 };
        let mut rows = IterWindowsMut::rows(buf);
        assert_eq!(rows.len(), 3);
        let mut k = 0;
        while let Some(mut row) = rows.next_back() {
            while let Some(x) = row.next() {
                *x = k;
            }
            k += 1;
        }
        assert_eq!(rows.len(), 0);
    }
    assert_eq!(data, vec![2, 2, 2, 2, 99, 1, 1, 1, 1, 99, 0, 0, 0, 0]);
    {
        let buf = ImgRefMut { buf: &mut data, width: 4, height: 3, stride: 5 };
        let mut cols = IterWindowsMut::cols(buf);
        assert_eq!(cols.len(), 4);
        let mut col = cols.next().unwrap();
        assert_eq!(col.len(), 3);
        *col.next_back().unwrap() = 50;
        let mut col = cols.next_back().unwrap();
        *col.next().unwrap() = 60;
        assert_eq!(cols.len(), 2);
    }
    assert_eq!(data, vec![2, 2, 2, 60, 99, 1, 1, 1, 1, 99, 50, 0, 0, 0]);
}
