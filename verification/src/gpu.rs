use vstd::prelude::*;

use crate::cpu::flip;
use crate::frame_buffer::grid_index;

verus! {

/// The dimensions of the monochrome source pixel grid.
pub const GFX_BUF_WIDTH: usize = 64;

pub const GFX_BUF_HEIGHT: usize = 32;

pub const GFX_BUF_PIXELS: usize = GFX_BUF_WIDTH * GFX_BUF_HEIGHT;

/// A display target: a 64 x 32 source grid written by XOR draws, and an
/// output grid published for presentation. How the output is derived from
/// the source is each implementation's own affair.
pub trait GPU: Sized {
    /// The source pixel grid, row-major.
    spec fn grid(&self) -> Seq<u8>;

    /// The published output grid, row-major.
    spec fn out_grid(&self) -> Seq<u8>;

    /// The output grid dimensions.
    spec fn spec_buffer_width(&self) -> usize;

    spec fn spec_buffer_height(&self) -> usize;

    /// Both grids hold exactly one byte per cell.
    spec fn wf(&self) -> bool;

    /// XOR-draws one sprite pixel: a set pixel value toggles the cell and
    /// reports whether it went from unset to set; any other value leaves the
    /// source grid unchanged.
    fn write(&mut self, x: usize, y: usize, pixel: u8) -> (r: bool)
        requires
            old(self).wf(),
            x < GFX_BUF_WIDTH,
            y < GFX_BUF_HEIGHT,
        ensures
            final(self).wf(),
            final(self).spec_buffer_width() == old(self).spec_buffer_width(),
            final(self).spec_buffer_height() == old(self).spec_buffer_height(),
            ({
                let idx = grid_index(GFX_BUF_WIDTH as int, x as int, y as int);
                if pixel == 0xFF {
                    &&& final(self).grid() == old(self).grid().update(
                        idx,
                        flip(old(self).grid()[idx]),
                    )
                    &&& r == (old(self).grid()[idx] == 0)
                } else {
                    &&& final(self).grid() == old(self).grid()
                    &&& r == false
                }
            }),
    ;

    /// The source pixel at (x, y).
    fn read(&self, x: usize, y: usize) -> (r: u8)
        requires
            self.wf(),
            x < GFX_BUF_WIDTH,
            y < GFX_BUF_HEIGHT,
        ensures
            r == self.grid()[grid_index(GFX_BUF_WIDTH as int, x as int, y as int)],
    ;

    /// Sets every cell of both grids to the given value.
    fn clear_buf(&mut self, pixel: u8)
        requires
            old(self).wf(),
        ensures
            final(self).wf(),
            final(self).spec_buffer_width() == old(self).spec_buffer_width(),
            final(self).spec_buffer_height() == old(self).spec_buffer_height(),
            final(self).grid() == Seq::new(old(self).grid().len(), |k: int| pixel),
            final(self).out_grid() == Seq::new(old(self).out_grid().len(), |k: int| pixel),
    ;

    /// Derives the output grid from the source grid.
    fn process_frame(&mut self)
        requires
            old(self).wf(),
        ensures
            final(self).wf(),
            final(self).spec_buffer_width() == old(self).spec_buffer_width(),
            final(self).spec_buffer_height() == old(self).spec_buffer_height(),
            final(self).grid() == old(self).grid(),
    ;

    /// The published output grid, read-only.
    fn get_output_buffer(&self) -> (r: &[u8])
        requires
            self.wf(),
        ensures
            r@ == self.out_grid(),
    ;

    /// The output grid dimensions.
    fn buffer_width(&self) -> (r: usize)
        ensures
            r == self.spec_buffer_width(),
    ;

    fn buffer_height(&self) -> (r: usize)
        ensures
            r == self.spec_buffer_height(),
    ;
}

/// A display target that publishes the source grid itself, unprocessed.
pub struct ArrayGPU {
    pixels: Vec<u8>,
}

impl ArrayGPU {
    /// An all-black grid.
    pub fn new() -> (r: Self)
        ensures
            r.wf(),
            r.grid() == Seq::new(GFX_BUF_PIXELS as nat, |k: int| 0u8),
    {
        Self { pixels: crate::frame_buffer::filled_vec(GFX_BUF_PIXELS, 0u8) }
    }
}

impl GPU for ArrayGPU {
    closed spec fn grid(&self) -> Seq<u8> {
        self.pixels@
    }

    closed spec fn out_grid(&self) -> Seq<u8> {
        self.pixels@
    }

    closed spec fn spec_buffer_width(&self) -> usize {
        GFX_BUF_WIDTH
    }

    closed spec fn spec_buffer_height(&self) -> usize {
        GFX_BUF_HEIGHT
    }

    closed spec fn wf(&self) -> bool {
        self.pixels@.len() == GFX_BUF_PIXELS
    }

    fn write(&mut self, x: usize, y: usize, pixel: u8) -> (r: bool) {
        proof {
            crate::frame_buffer::lemma_grid_index(
                GFX_BUF_WIDTH as int,
                GFX_BUF_HEIGHT as int,
                x as int,
                y as int,
            );
        }
        let idx = y * GFX_BUF_WIDTH + x;
        if pixel == 0xFF {
            if self.pixels[idx] == 0x00 {
                self.pixels[idx] = 0xFF;
                return true;
            } else {
                self.pixels[idx] = 0x00;
                return false;
            }
        }
        false
    }

    fn read(&self, x: usize, y: usize) -> (r: u8) {
        proof {
            crate::frame_buffer::lemma_grid_index(
                GFX_BUF_WIDTH as int,
                GFX_BUF_HEIGHT as int,
                x as int,
                y as int,
            );
        }
        self.pixels[y * GFX_BUF_WIDTH + x]
    }

    fn clear_buf(&mut self, pixel: u8) {
        self.pixels = crate::frame_buffer::filled_vec(GFX_BUF_PIXELS, pixel);
    }

    fn process_frame(&mut self) {
    }

    fn get_output_buffer(&self) -> (r: &[u8]) {
        self.pixels.as_slice()
    }

    fn buffer_width(&self) -> (r: usize) {
        GFX_BUF_WIDTH
    }

    fn buffer_height(&self) -> (r: usize) {
        GFX_BUF_HEIGHT
    }
}

} // verus!
