//! Iteration over the rows and columns of a two-dimensional strided buffer.
//!
//! A buffer is described by its width, height and stride: row `r` starts
//! `stride * r` elements after the first element and holds `width` contiguous
//! elements. The cursors of this crate walk such a buffer by address (an
//! element offset), from either end, one row, one column, or several of them
//! in lockstep.
//!
//! - [`img`]: the description of a buffer ([`img::ImgPtr`]), and buffers
//!   borrowed for reading or writing.
//! - [`cursor`]: [`cursor::IterPtr`], the address cursor over one strided run,
//!   which every other cursor is built from.
//! - [`windows`]: one cursor per row, or per column.
//! - [`simd`]: lane groups, which expand each address of a cursor into
//!   `LANES` addresses a fixed gap apart, to walk several rows or columns in
//!   lockstep.
//! - [`simd_windows`]: rows or columns `LANES` at a time as lane groups, then
//!   the rest one at a time.
//! - [`row_col`]: address cursors over one row or one column.
//! - [`borrowed`], [`lines`], [`borrowed_windows`], [`borrowed_simd`]: the same
//!   cursors over a borrowed slice, yielding its elements.
//!
//! Addresses are element offsets. A cursor never reads memory itself; the
//! borrowed cursors index their slice with addresses that the contracts prove
//! in bounds.
use vstd::prelude::*;

pub mod img;
pub mod cursor;
pub mod windows;
pub mod simd;
pub mod simd_windows;
pub mod row_col;
pub mod borrowed;
pub mod lines;
pub mod borrowed_windows;
pub mod borrowed_simd;

verus! {

/// A run of `len` slots, read every `stride` slots, starts and ends on an
/// element: no partial step dangles past its last element.
pub open spec fn slice_perfect(len: nat, stride: nat) -> bool {
    len == 0 || stride == 1 || len % stride == 1
}

} // verus!
