//! A double-buffered pixel surface: one byte buffer is drawn into while the
//! other is displayed, four bytes per pixel.

use vstd::prelude::*;

use crate::raw::writer::{SplitMut, Writer};
use crate::raw::{Shared, SizedRawDoubleBuffer};
use crate::strategy::hazard::HazardStrategy;

verus! {

/// The dimensions of a pixel surface, with the addressing rule that turns a
/// column and a row into a pixel index.
pub trait Dim: Sized + Copy {
    /// The width in pixels.
    spec fn width_spec(&self) -> u32;

    /// The height in pixels.
    spec fn height_spec(&self) -> u32;

    /// The dimensions are representable for this implementation.
    spec fn valid(&self) -> bool;

    /// The width in pixels.
    fn width(&self) -> (r: u32)
        requires
            self.valid(),
        ensures
            r == self.width_spec(),
    ;

    /// The height in pixels.
    fn height(&self) -> (r: u32)
        requires
            self.valid(),
        ensures
            r == self.height_spec(),
    ;

    /// A zeroed buffer of the surface's byte length.
    fn zeroed(&self) -> (r: Vec<u8>)
        requires
            self.valid(),
            self.width_spec() * self.height_spec() * 4 <= usize::MAX,
        ensures
            r@.len() == self.width_spec() * self.height_spec() * 4,
            forall|i: int| 0 <= i < r@.len() ==> r@[i] == 0u8,
    ;
}

/// The dimensions describe a surface whose byte length fits the machine.
pub open spec fn dim_fits<D: Dim>(dim: D) -> bool {
    dim.valid() && dim.width_spec() * dim.height_spec() * 4 <= usize::MAX
}

/// The byte length of one buffer: four bytes per pixel.
pub open spec fn dim_byte_len<D: Dim>(dim: D) -> int {
    dim.width_spec() * dim.height_spec() * 4
}

/// The pixel index of column `w`, row `h`: columns are laid out whole.
pub open spec fn index_of_spec<D: Dim>(dim: D, w: u32, h: u32) -> int {
    w * dim.height_spec() + h
}

/// Statically sized dimensions.
#[derive(Clone, Copy, Debug)]
pub struct Const<const WIDTH: usize, const HEIGHT: usize> {
    token: (),
}

impl<const WIDTH: usize, const HEIGHT: usize> Const<WIDTH, HEIGHT> {
    /// The statically sized dimensions, as a value.
    pub fn new() -> (r: Self)
        ensures
            true,
    {
        Const { token: () }
    }
}

impl<const WIDTH: usize, const HEIGHT: usize> Dim for Const<WIDTH, HEIGHT> {
    open spec fn width_spec(&self) -> u32 {
        WIDTH as u32
    }

    open spec fn height_spec(&self) -> u32 {
        HEIGHT as u32
    }

    open spec fn valid(&self) -> bool {
        WIDTH <= u32::MAX && HEIGHT <= u32::MAX
    }

    fn width(&self) -> (r: u32) {
        WIDTH as u32
    }

    fn height(&self) -> (r: u32) {
        HEIGHT as u32
    }

    fn zeroed(&self) -> (r: Vec<u8>) {
        let len = WIDTH * HEIGHT * 4;
        let mut data: Vec<u8> = Vec::new();
        let mut i: usize = 0;
        while i < len
            invariant
                i <= len,
                data@.len() == i,
                forall|j: int| 0 <= j < data@.len() ==> data@[j] == 0u8,
            decreases len - i,
        {
            data.push(0u8);
            i = i + 1;
        }
        data
    }
}

/// Dimensions chosen at run time.
#[derive(Clone, Copy, Debug)]
pub struct Dynamic {
    /// The width in pixels.
    pub width: u32,
    /// The height in pixels.
    pub height: u32,
}

impl Dim for Dynamic {
    open spec fn width_spec(&self) -> u32 {
        self.width
    }

    open spec fn height_spec(&self) -> u32 {
        self.height
    }

    open spec fn valid(&self) -> bool {
        true
    }

    fn width(&self) -> (r: u32) {
        self.width
    }

    fn height(&self) -> (r: u32) {
        self.height
    }

    fn zeroed(&self) -> (r: Vec<u8>) {
        proof {
            let wd = self.width as int;
            let ht = self.height as int;
            assert(wd * ht <= wd * ht * 4) by (nonlinear_arith)
                requires
                    0 <= wd,
                    0 <= ht,
            ;
        }
        let len = self.width as usize * (self.height as usize) * 4;
        let mut data: Vec<u8> = Vec::new();
        let mut i: usize = 0;
        while i < len
            invariant
                i <= len,
                data@.len() == i,
                forall|j: int| 0 <= j < data@.len() ==> data@[j] == 0u8,
            decreases len - i,
        {
            data.push(0u8);
            i = i + 1;
        }
        data
    }
}

/// A double-buffered pixel surface: the writer draws into the write-side
/// byte buffer while the read side holds the displayed frame.
pub struct PixelBuf<D: Dim> {
    shared: Shared<Vec<u8>>,
    writer: Writer,
    dim: D,
}

impl<D: Dim> PixelBuf<D> {
    /// The dimensions.
    pub closed spec fn dim_spec(&self) -> D {
        self.dim
    }

    /// The bytes of the buffer selected by `w`.
    pub closed spec fn bytes_at(&self, w: bool) -> Seq<u8> {
        self.shared.buffer_at(w)@
    }

    /// The bytes the writer draws into.
    pub open spec fn write_bytes(&self) -> Seq<u8> {
        self.bytes_at(self.which_spec())
    }

    /// The bytes on display.
    pub open spec fn read_bytes(&self) -> Seq<u8> {
        self.bytes_at(!self.which_spec())
    }

    /// Which slot is the write side.
    pub closed spec fn which_spec(&self) -> bool {
        self.shared.which_spec()
    }

    /// The surface's invariant: the dimensions fit, no swap is under way,
    /// and both buffers have the surface's byte length.
    pub closed spec fn wf(&self) -> bool {
        &&& dim_fits(self.dim)
        &&& self.shared.wf()
        &&& self.shared.strategy_spec().phase_spec() is Idle
        &&& self.shared.buffer_at(false)@.len() == dim_byte_len(self.dim)
        &&& self.shared.buffer_at(true)@.len() == dim_byte_len(self.dim)
    }

    /// Build a surface of the given dimensions over a fresh strategy; both
    /// buffers start zeroed.
    pub fn from_raw_parts(dim: D, strategy: HazardStrategy) -> (r: Self)
        requires
            dim_fits(dim),
            strategy.wf(),
            strategy.phase_spec() is Idle,
        ensures
            r.wf(),
            r.dim_spec() == dim,
            forall|i: int| 0 <= i < r.read_bytes().len() ==> r.read_bytes()[i] == 0u8,
            forall|i: int| 0 <= i < r.write_bytes().len() ==> r.write_bytes()[i] == 0u8,
    {
        let front = dim.zeroed();
        let back = dim.zeroed();
        let mut shared = Shared::new(strategy, SizedRawDoubleBuffer::new(front, back));
        let writer = Writer::new(&mut shared);
        PixelBuf { shared, writer, dim }
    }

    /// The bytes on display, read-only.
    pub fn read_buf(&self) -> (r: &[u8])
        ensures
            r@ == self.read_bytes(),
    {
        let which = self.shared.load_which();
        self.shared.buffer_ref(!which).as_slice()
    }

    /// The bytes being drawn, read-only.
    pub fn write_buf(&self) -> (r: &[u8])
        ensures
            r@ == self.write_bytes(),
    {
        let which = self.shared.load_which();
        self.shared.buffer_ref(which).as_slice()
    }

    /// The bytes being drawn, writable. Changing their number would break
    /// the surface; a borrower that keeps the length keeps the surface whole.
    pub fn write_buf_mut(&mut self) -> (r: &mut Vec<u8>)
        requires
            old(self).wf(),
        ensures
            *r == old(self).shared_writer_vec(),
            final(self).shared_writer_vec() == *final(r),
            final(self).read_bytes() == old(self).read_bytes(),
            final(self).dim_spec() == old(self).dim_spec(),
            final(self).which_spec() == old(self).which_spec(),
            final(r)@.len() == old(self).write_bytes().len() ==> final(self).wf(),
    {
        self.writer.writer_side_mut(&mut self.shared)
    }

    /// Both buffers at once: the displayed bytes shared, the drawn bytes
    /// writable. A borrower that keeps the length keeps the surface whole.
    pub fn split(&mut self) -> (r: SplitMut<Vec<u8>>)
        requires
            old(self).wf(),
        ensures
            *r.reader == old(self).shared_reader_vec(),
            *r.writer == old(self).shared_writer_vec(),
            final(self).shared_writer_vec() == *final(r.writer),
            final(self).read_bytes() == old(self).read_bytes(),
            final(self).dim_spec() == old(self).dim_spec(),
            final(self).which_spec() == old(self).which_spec(),
            final(r.writer)@.len() == old(self).write_bytes().len() ==> final(self).wf(),
    {
        self.writer.split_mut(&mut self.shared)
    }

    /// The read-side buffer as a vector value.
    pub closed spec fn shared_reader_vec(&self) -> Vec<u8> {
        self.shared.reader_side()
    }

    /// The write-side buffer as a vector value.
    pub closed spec fn shared_writer_vec(&self) -> Vec<u8> {
        self.shared.writer_side()
    }

    /// The dimensions, by value.
    pub fn dim(&self) -> (r: D)
        ensures
            r == self.dim_spec(),
    {
        self.dim
    }

    /// The byte position of the pixel at column `w`, row `h` in a buffer.
    pub fn index_of(&self, w: u32, h: u32) -> (r: usize)
        requires
            self.wf(),
            w < self.dim_spec().width_spec(),
            h < self.dim_spec().height_spec(),
        ensures
            r == index_of_spec(self.dim_spec(), w, h),
            4 * r + 4 <= dim_byte_len(self.dim_spec()),
    {
        proof {
            assert(dim_fits(self.dim_spec()));
            assert(self.dim_spec().valid());
            let wd = self.dim.width_spec() as int;
            let ht = self.dim.height_spec() as int;
            assert((w as int) * ht + (h as int) + 1 <= wd * ht) by (nonlinear_arith)
                requires
                    0 <= w as int <= wd - 1,
                    0 <= h as int <= ht - 1,
                    0 <= ht,
            ;
            assert(4 * ((w as int) * ht + (h as int)) + 4 <= 4 * (wd * ht)) by (nonlinear_arith)
                requires
                    (w as int) * ht + (h as int) + 1 <= wd * ht,
            ;
            assert(wd * ht * 4 == 4 * (wd * ht)) by (nonlinear_arith);
            assert(wd * ht <= wd * ht * 4) by (nonlinear_arith)
                requires
                    0 <= wd,
                    0 <= ht,
            ;
        }
        w as usize * (self.dim.height() as usize) + h as usize
    }

    /// The pixel at column `w`, row `h` of the buffer being drawn.
    pub fn get(&self, w: u32, h: u32) -> (r: [u8; 4])
        requires
            self.wf(),
            w < self.dim_spec().width_spec(),
            h < self.dim_spec().height_spec(),
        ensures
            r@ == self.write_bytes().subrange(
                4 * index_of_spec(self.dim_spec(), w, h),
                4 * index_of_spec(self.dim_spec(), w, h) + 4,
            ),
    {
        let index = self.index_of(w, h);
        proof {
            assert(dim_fits(self.dim_spec()));
        }
        let buf = self.write_buf();
        let i = index * 4;
        let r = [buf[i], buf[i + 1], buf[i + 2], buf[i + 3]];
        proof {
            assert(r@ =~= self.write_bytes().subrange(
                4 * index_of_spec(self.dim_spec(), w, h),
                4 * index_of_spec(self.dim_spec(), w, h) + 4,
            ));
        }
        r
    }

    /// Overwrite the pixel at column `w`, row `h` of the buffer being drawn.
    pub fn set(&mut self, w: u32, h: u32, pixel: [u8; 4])
        requires
            old(self).wf(),
            w < old(self).dim_spec().width_spec(),
            h < old(self).dim_spec().height_spec(),
        ensures
            final(self).wf(),
            final(self).dim_spec() == old(self).dim_spec(),
            final(self).which_spec() == old(self).which_spec(),
            final(self).read_bytes() == old(self).read_bytes(),
            final(self).write_bytes().len() == old(self).write_bytes().len(),
            forall|j: int|
                0 <= j < 4 ==> final(self).write_bytes()[4 * index_of_spec(
                    old(self).dim_spec(),
                    w,
                    h,
                ) + j] == pixel@[j],
            forall|j: int|
                0 <= j < final(self).write_bytes().len() && !(4 * index_of_spec(
                    old(self).dim_spec(),
                    w,
                    h,
                ) <= j < 4 * index_of_spec(old(self).dim_spec(), w, h) + 4)
                    ==> final(self).write_bytes()[j] == old(self).write_bytes()[j],
    {
        let index = self.index_of(w, h);
        proof {
            assert(dim_fits(old(self).dim_spec()));
        }
        let i = index * 4;
        let buf = self.writer.writer_side_mut(&mut self.shared);
        buf[i] = pixel[0];
        buf[i + 1] = pixel[1];
        buf[i + 2] = pixel[2];
        buf[i + 3] = pixel[3];
    }
}

/// Build a statically sized surface over the hazard strategy, both buffers
/// zeroed.
pub fn const_sized<const WIDTH: usize, const HEIGHT: usize>() -> (r: PixelBuf<
    Const<WIDTH, HEIGHT>,
>)
    requires
        WIDTH <= u32::MAX,
        HEIGHT <= u32::MAX,
        (WIDTH as u32) * (HEIGHT as u32) * 4 <= usize::MAX,
    ensures
        r.wf(),
        forall|i: int| 0 <= i < r.read_bytes().len() ==> r.read_bytes()[i] == 0u8,
        forall|i: int| 0 <= i < r.write_bytes().len() ==> r.write_bytes()[i] == 0u8,
{
    PixelBuf::from_raw_parts(Const::new(), HazardStrategy::new())
}

} // verus!
