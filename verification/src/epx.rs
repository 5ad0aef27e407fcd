use vstd::prelude::*;

use crate::epx_gpu::epx_cell;
use crate::frame_buffer::{filled_vec, grid_index, lemma_grid_index};
use crate::gpu::{GFX_BUF_HEIGHT, GFX_BUF_PIXELS, GFX_BUF_WIDTH, GPU};

verus! {

/// The dimensions of the upscaled output grid: double the source in each
/// direction.
pub const EPX_BUF_WIDTH: usize = 128;

pub const EPX_BUF_HEIGHT: usize = 64;

pub const EPX_BUF_PIXELS: usize = EPX_BUF_WIDTH * EPX_BUF_HEIGHT;

/// A display target that owns its own source and output grids and publishes
/// the source put through the 2x smoothing filter.
pub struct EpxGPU {
    input: Vec<u8>,
    output: Vec<u8>,
}

impl EpxGPU {
    /// All-black source and output grids.
    pub fn new() -> (r: Self)
        ensures
            r.wf(),
            r.grid() == Seq::new(GFX_BUF_PIXELS as nat, |k: int| 0u8),
            r.out_grid() == Seq::new(EPX_BUF_PIXELS as nat, |k: int| 0u8),
    {
        Self {
            input: filled_vec(GFX_BUF_PIXELS, 0u8),
            output: filled_vec(EPX_BUF_PIXELS, 0u8),
        }
    }
}

impl GPU for EpxGPU {
    closed spec fn grid(&self) -> Seq<u8> {
        self.input@
    }

    closed spec fn out_grid(&self) -> Seq<u8> {
        self.output@
    }

    closed spec fn spec_buffer_width(&self) -> usize {
        EPX_BUF_WIDTH
    }

    closed spec fn spec_buffer_height(&self) -> usize {
        EPX_BUF_HEIGHT
    }

    closed spec fn wf(&self) -> bool {
        self.input@.len() == GFX_BUF_PIXELS && self.output@.len() == EPX_BUF_PIXELS
    }

    fn write(&mut self, x: usize, y: usize, pixel: u8) -> (r: bool) {
        proof {
            lemma_grid_index(GFX_BUF_WIDTH as int, GFX_BUF_HEIGHT as int, x as int, y as int);
        }
        let idx = y * GFX_BUF_WIDTH + x;
        if pixel == 0xFF {
            if self.input[idx] == 0x00 {
                self.input[idx] = 0xFF;
                return true;
            } else {
                self.input[idx] = 0x00;
                return false;
            }
        }
        false
    }

    fn read(&self, x: usize, y: usize) -> (r: u8) {
        proof {
            lemma_grid_index(GFX_BUF_WIDTH as int, GFX_BUF_HEIGHT as int, x as int, y as int);
        }
        self.input[y * GFX_BUF_WIDTH + x]
    }

    fn clear_buf(&mut self, pixel: u8) {
        self.input = filled_vec(GFX_BUF_PIXELS, pixel);
        self.output = filled_vec(EPX_BUF_PIXELS, pixel);
    }

    /// Runs the 2x smoothing filter from the source grid into the output
    /// grid: afterwards every output cell is `epx_cell` of the source.
    #[verifier::rlimit(100)]
    fn process_frame(&mut self)
        ensures
            forall|dx: int, dy: int|
                0 <= dx < EPX_BUF_WIDTH && 0 <= dy < EPX_BUF_HEIGHT
                    ==> final(self).out_grid()[grid_index(EPX_BUF_WIDTH as int, dx, dy)]
                    == epx_cell(
                    old(self).grid(),
                    GFX_BUF_WIDTH as int,
                    GFX_BUF_HEIGHT as int,
                    true,
                    dx,
                    dy,
                ),
    {
        let ghost src = self.input@;
        let mut sy: usize = 0;
        while sy < GFX_BUF_HEIGHT
            invariant
                self.wf(),
                sy <= GFX_BUF_HEIGHT,
                self.input@ == src,
                src.len() == GFX_BUF_PIXELS,
                forall|dx: int, dy: int|
                    0 <= dx < EPX_BUF_WIDTH && 0 <= dy < 2 * sy ==> self.output@[grid_index(
                        EPX_BUF_WIDTH as int,
                        dx,
                        dy,
                    )] == epx_cell(src, GFX_BUF_WIDTH as int, GFX_BUF_HEIGHT as int, true, dx, dy),
            decreases GFX_BUF_HEIGHT - sy,
        {
            let mut sx: usize = 0;
            while sx < GFX_BUF_WIDTH
                invariant
                    self.wf(),
                    sy < GFX_BUF_HEIGHT,
                    sx <= GFX_BUF_WIDTH,
                    self.input@ == src,
                    src.len() == GFX_BUF_PIXELS,
                    forall|dx: int, dy: int|
                        0 <= dx < EPX_BUF_WIDTH && 0 <= dy < 2 * sy ==> self.output@[grid_index(
                            EPX_BUF_WIDTH as int,
                            dx,
                            dy,
                        )] == epx_cell(
                            src,
                            GFX_BUF_WIDTH as int,
                            GFX_BUF_HEIGHT as int,
                            true,
                            dx,
                            dy,
                        ),
                    forall|dx: int, dy: int|
                        0 <= dx < 2 * sx && 2 * sy <= dy < 2 * sy + 2 ==> self.output@[grid_index(
                            EPX_BUF_WIDTH as int,
                            dx,
                            dy,
                        )] == epx_cell(
                            src,
                            GFX_BUF_WIDTH as int,
                            GFX_BUF_HEIGHT as int,
                            true,
                            dx,
                            dy,
                        ),
                decreases GFX_BUF_WIDTH - sx,
            {
                let top_edge = sy == 0;
                let bottom_edge = sy + 1 >= GFX_BUF_HEIGHT;
                let left_edge = sx == 0;
                let right_edge = sx + 1 >= GFX_BUF_WIDTH;

                proof {
                    lemma_grid_index(
                        GFX_BUF_WIDTH as int,
                        GFX_BUF_HEIGHT as int,
                        sx as int,
                        sy as int,
                    );
                }
                let p = self.input[sy * GFX_BUF_WIDTH + sx];
                let a = if top_edge {
                    p
                } else {
                    proof {
                        lemma_grid_index(
                            GFX_BUF_WIDTH as int,
                            GFX_BUF_HEIGHT as int,
                            sx as int,
                            sy as int - 1,
                        );
                    }
                    self.input[(sy - 1) * GFX_BUF_WIDTH + sx]
                };
                let b = if right_edge {
                    p
                } else {
                    proof {
                        lemma_grid_index(
                            GFX_BUF_WIDTH as int,
                            GFX_BUF_HEIGHT as int,
                            sx as int + 1,
                            sy as int,
                        );
                    }
                    self.input[sy * GFX_BUF_WIDTH + sx + 1]
                };
                let c = if left_edge {
                    p
                } else {
                    proof {
                        lemma_grid_index(
                            GFX_BUF_WIDTH as int,
                            GFX_BUF_HEIGHT as int,
                            sx as int - 1,
                            sy as int,
                        );
                    }
                    self.input[sy * GFX_BUF_WIDTH + sx - 1]
                };
                let d = if bottom_edge {
                    p
                } else {
                    proof {
                        lemma_grid_index(
                            GFX_BUF_WIDTH as int,
                            GFX_BUF_HEIGHT as int,
                            sx as int,
                            sy as int + 1,
                        );
                    }
                    self.input[(sy + 1) * GFX_BUF_WIDTH + sx]
                };

                let x = 2 * sx;
                let y = 2 * sy;
                self.output[y * EPX_BUF_WIDTH + x] = p;
                self.output[y * EPX_BUF_WIDTH + x + 1] = p;
                self.output[(y + 1) * EPX_BUF_WIDTH + x] = p;
                self.output[(y + 1) * EPX_BUF_WIDTH + x + 1] = p;

                if c == a && c != d && a != b {
                    self.output[y * EPX_BUF_WIDTH + x] = a;
                }
                if a == b && a != c && b != d {
                    self.output[y * EPX_BUF_WIDTH + x + 1] = b;
                }
                if d == c && d != b && c != a {
                    self.output[(y + 1) * EPX_BUF_WIDTH + x] = c;
                }
                if b == d && b != a && d != c {
                    self.output[(y + 1) * EPX_BUF_WIDTH + x + 1] = d;
                }

                proof {
                    let sxi = sx as int;
                    let syi = sy as int;
                    let ew = EPX_BUF_WIDTH as int;
                    assert((2 * sxi) / 2 == sxi && (2 * sxi + 1) / 2 == sxi);
                    assert((2 * syi) / 2 == syi && (2 * syi + 1) / 2 == syi);
                    assert((2 * sxi) % 2 == 0 && (2 * sxi + 1) % 2 == 1);
                    assert((2 * syi) % 2 == 0 && (2 * syi + 1) % 2 == 1);
                    lemma_grid_index(ew, EPX_BUF_HEIGHT as int, 2 * sxi, 2 * syi);
                    lemma_grid_index(ew, EPX_BUF_HEIGHT as int, 2 * sxi + 1, 2 * syi);
                    lemma_grid_index(ew, EPX_BUF_HEIGHT as int, 2 * sxi, 2 * syi + 1);
                    lemma_grid_index(ew, EPX_BUF_HEIGHT as int, 2 * sxi + 1, 2 * syi + 1);
                    assert(self.output@[grid_index(ew, 2 * sxi, 2 * syi)] == epx_cell(
                        src,
                        GFX_BUF_WIDTH as int,
                        GFX_BUF_HEIGHT as int,
                        true,
                        2 * sxi,
                        2 * syi,
                    ));
                    assert(self.output@[grid_index(ew, 2 * sxi + 1, 2 * syi)] == epx_cell(
                        src,
                        GFX_BUF_WIDTH as int,
                        GFX_BUF_HEIGHT as int,
                        true,
                        2 * sxi + 1,
                        2 * syi,
                    ));
                    assert(self.output@[grid_index(ew, 2 * sxi, 2 * syi + 1)] == epx_cell(
                        src,
                        GFX_BUF_WIDTH as int,
                        GFX_BUF_HEIGHT as int,
                        true,
                        2 * sxi,
                        2 * syi + 1,
                    ));
                    assert(self.output@[grid_index(ew, 2 * sxi + 1, 2 * syi + 1)] == epx_cell(
                        src,
                        GFX_BUF_WIDTH as int,
                        GFX_BUF_HEIGHT as int,
                        true,
                        2 * sxi + 1,
                        2 * syi + 1,
                    ));
                    assert forall|dx: int, dy: int|
                        (0 <= dx < EPX_BUF_WIDTH && 0 <= dy < 2 * syi) || (0 <= dx < 2 * sxi && 2
                            * syi <= dy < 2 * syi + 2) implies self.output@[grid_index(
                        ew,
                        dx,
                        dy,
                    )] == epx_cell(
                        src,
                        GFX_BUF_WIDTH as int,
                        GFX_BUF_HEIGHT as int,
                        true,
                        dx,
                        dy,
                    ) by {
                        lemma_grid_index(ew, EPX_BUF_HEIGHT as int, dx, dy);
                    }
                }
                sx = sx + 1;
            }
            sy = sy + 1;
        }
    }

    fn get_output_buffer(&self) -> (r: &[u8]) {
        self.output.as_slice()
    }

    fn buffer_width(&self) -> (r: usize) {
        EPX_BUF_WIDTH
    }

    fn buffer_height(&self) -> (r: usize) {
        EPX_BUF_HEIGHT
    }
}

} // verus!
