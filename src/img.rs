//! The description of a strided two-dimensional buffer.
use vstd::prelude::*;

verus! {

/// A non-owning description of a two-dimensional strided buffer: the address
/// of element (0, 0), the number of elements the backing store holds from
/// there, and the buffer's dimensions.
#[derive(Clone, Copy, Debug, PartialEq, Eq)]
pub struct ImgPtr {
    pub base: usize,
    pub len: usize,
    pub width: usize,
    pub height: usize,
    pub stride: usize,
}

/// The number of elements that a buffer of these dimensions reads.
pub open spec fn needed_len(width: nat, height: nat, stride: nat) -> nat {
    if height == 0 {
        0
    } else {
        (stride * (height - 1) + width) as nat
    }
}

impl ImgPtr {
    /// The stride is positive and at least the width, the backing store holds
    /// every element of the buffer, and every address fits in a `usize`.
    pub open spec fn wf(&self) -> bool {
        &&& self.stride > 0
        &&& self.width <= self.stride
        &&& needed_len(self.width as nat, self.height as nat, self.stride as nat) <= self.len
        &&& self.base + self.len <= usize::MAX
        &&& self.base + self.width <= usize::MAX
    }

    /// Address of the element in row `row` and column `col`.
    pub open spec fn addr(&self, row: int, col: int) -> int {
        self.base + self.stride * row + col
    }

    /// Tells whether this description is well formed, so that the row and
    /// column cursors may be built over it.
    pub fn is_valid(&self) -> (r: bool)
        ensures
            r == self.wf(),
    {
        if self.stride == 0 || self.width > self.stride {
            return false;
        }
        if self.len > usize::MAX - self.base || self.width > usize::MAX - self.base {
            return false;
        }
        if self.height == 0 {
            return true;
        }
        match self.stride.checked_mul(self.height - 1) {
            None => {
                assert(self.stride * (self.height - 1) > self.len) by (nonlinear_arith)
                    requires
                        self.stride * (self.height - 1) > usize::MAX,
                        self.len <= usize::MAX,
                ;
                false
            },
            Some(rows) => match rows.checked_add(self.width) {
                None => false,
                Some(needed) => needed <= self.len,
            },
        }
    }
}

/// A two-dimensional strided buffer borrowed for reading: its elements and its
/// dimensions.
#[derive(Clone, Copy, Debug)]
pub struct ImgRef<'a, T> {
    pub buf: &'a [T],
    pub width: usize,
    pub height: usize,
    pub stride: usize,
}

impl<'a, T> ImgRef<'a, T> {
    /// The description of this buffer, with element (0, 0) at address 0.
    pub open spec fn layout(&self) -> ImgPtr {
        ImgPtr { base: 0, len: self.buf@.len() as usize, width: self.width, height: self.height, stride: self.stride }
    }

    /// The dimensions fit the slice: see [`ImgPtr::wf`].
    pub open spec fn wf(&self) -> bool {
        self.layout().wf()
    }

    /// The description of this buffer, with element (0, 0) at address 0:
    /// addresses are indices into `buf`.
    pub fn as_ptr(&self) -> (r: ImgPtr)
        ensures
            r == self.layout(),
    {
        ImgPtr { base: 0, len: self.buf.len(), width: self.width, height: self.height, stride: self.stride }
    }
}

/// A two-dimensional strided buffer borrowed for writing: its elements and its
/// dimensions.
#[derive(Debug)]
pub struct ImgRefMut<'a, T> {
    pub buf: &'a mut [T],
    pub width: usize,
    pub height: usize,
    pub stride: usize,
}

impl<'a, T> ImgRefMut<'a, T> {
    /// The elements of the buffer, as they stand.
    pub open spec fn contents(&self) -> Seq<T> {
        self.buf@
    }

    /// The description of this buffer, with element (0, 0) at address 0.
    pub open spec fn layout(&self) -> ImgPtr {
        ImgPtr { base: 0, len: self.buf@.len() as usize, width: self.width, height: self.height, stride: self.stride }
    }

    /// The dimensions fit the slice: see [`ImgPtr::wf`].
    pub open spec fn wf(&self) -> bool {
        self.layout().wf()
    }

    /// The description of this buffer, with element (0, 0) at address 0:
    /// addresses are indices into `buf`.
    pub fn as_ptr(&self) -> (r: ImgPtr)
        ensures
            r == self.layout(),
    {
        ImgPtr { base: 0, len: self.buf.len(), width: self.width, height: self.height, stride: self.stride }
    }
}

} // verus!
