use vstd::prelude::*;

use crate::frame_buffer::{grid_index, lemma_grid_index, lemma_grid_index_injective, FrameBuffer};

verus! {

/// An image-processing stage that consumes a completed source buffer and
/// fills an output buffer exactly double its width and height; any other
/// ratio is a configuration error that callers must rule out up front.
pub trait GPU<T: Clone + Copy + Eq + PartialEq> {
    fn process(&self, input: &FrameBuffer<T>, output: &mut FrameBuffer<T>)
        requires
            input.wf(),
            old(output).wf(),
            input.spec_width() >= 1,
            input.spec_height() >= 1,
            old(output).spec_width() == 2 * input.spec_width(),
            old(output).spec_height() == 2 * input.spec_height(),
    ;
}

/// The value of output cell (dx, dy) of the 2x smoothing filter applied to a
/// w x h source grid: the source pixel behind the cell is broadcast, and with
/// smoothing on, each corner of the 2x2 destination block is overridden by
/// the matching pair of the source pixel's four neighbors (clamped at the
/// edges by reusing the pixel itself) under a fixed edge-preserving rule.
pub open spec fn epx_cell(src: Seq<u8>, w: int, h: int, smooth: bool, dx: int, dy: int) -> u8 {
    let sx = dx / 2;
    let sy = dy / 2;
    let p = src[grid_index(w, sx, sy)];
    let top = if sy == 0 {
        p
    } else {
        src[grid_index(w, sx, sy - 1)]
    };
    let right = if sx + 1 >= w {
        p
    } else {
        src[grid_index(w, sx + 1, sy)]
    };
    let left = if sx == 0 {
        p
    } else {
        src[grid_index(w, sx - 1, sy)]
    };
    let bottom = if sy + 1 >= h {
        p
    } else {
        src[grid_index(w, sx, sy + 1)]
    };
    if !smooth {
        p
    } else if dx % 2 == 0 && dy % 2 == 0 {
        if left == top && left != bottom && top != right {
            top
        } else {
            p
        }
    } else if dx % 2 == 1 && dy % 2 == 0 {
        if top == right && top != left && right != bottom {
            right
        } else {
            p
        }
    } else if dx % 2 == 0 {
        if bottom == left && bottom != right && left != top {
            left
        } else {
            p
        }
    } else {
        if right == bottom && right != top && bottom != left {
            bottom
        } else {
            p
        }
    }
}

/// A uniform source yields, smoothing on or off, a uniform filtered image of
/// the same value: every cell of the doubled output grid — four times the
/// source pixel count — equals the source value, since no corner rule can
/// fire when all neighbors agree.
pub proof fn lemma_filter_uniform(
    src: Seq<u8>,
    w: int,
    h: int,
    smooth: bool,
    v: u8,
    dx: int,
    dy: int,
)
    requires
        w >= 1,
        h >= 1,
        src.len() == w * h,
        forall|k: int| 0 <= k < src.len() ==> src[k] == v,
        0 <= dx < 2 * w,
        0 <= dy < 2 * h,
    ensures
        epx_cell(src, w, h, smooth, dx, dy) == v,
{
    let sx = dx / 2;
    let sy = dy / 2;
    lemma_grid_index(w, h, sx, sy);
    if sy > 0 {
        lemma_grid_index(w, h, sx, sy - 1);
    }
    if sx + 1 < w {
        lemma_grid_index(w, h, sx + 1, sy);
    }
    if sx > 0 {
        lemma_grid_index(w, h, sx - 1, sy);
    }
    if sy + 1 < h {
        lemma_grid_index(w, h, sx, sy + 1);
    }
}

/// A single source pixel differing from an otherwise uniform image produces
/// no corner overrides beyond the directly adjacent destination blocks:
/// every output cell whose source pixel is neither the odd pixel itself nor
/// one of its four direct neighbors is the plain broadcast of the uniform
/// value.
pub proof fn lemma_filter_lone_pixel(
    src: Seq<u8>,
    w: int,
    h: int,
    smooth: bool,
    u: u8,
    ox: int,
    oy: int,
    dx: int,
    dy: int,
)
    requires
        w >= 1,
        h >= 1,
        src.len() == w * h,
        0 <= ox < w,
        0 <= oy < h,
        forall|x: int, y: int|
            0 <= x < w && 0 <= y < h && (x != ox || y != oy) ==> src[#[trigger] grid_index(
                w,
                x,
                y,
            )] == u,
        0 <= dx < 2 * w,
        0 <= dy < 2 * h,
        ({
            let sx = dx / 2;
            let sy = dy / 2;
            &&& !(sx == ox && sy == oy)
            &&& !(sx == ox && sy == oy - 1)
            &&& !(sx == ox && sy == oy + 1)
            &&& !(sx == ox - 1 && sy == oy)
            &&& !(sx == ox + 1 && sy == oy)
        }),
    ensures
        epx_cell(src, w, h, smooth, dx, dy) == u,
{
    let sx = dx / 2;
    let sy = dy / 2;
    lemma_grid_index(w, h, sx, sy);
    if sy > 0 {
        lemma_grid_index(w, h, sx, sy - 1);
    }
    if sx + 1 < w {
        lemma_grid_index(w, h, sx + 1, sy);
    }
    if sx > 0 {
        lemma_grid_index(w, h, sx - 1, sy);
    }
    if sy + 1 < h {
        lemma_grid_index(w, h, sx, sy + 1);
    }
}

/// The 2x smoothing filter with its runtime toggle: disabled, it only
/// broadcasts each source pixel to its 2x2 destination block.
pub struct EpxGPU {
    pub enabled: bool,
}

impl EpxGPU {
    /// A filter with smoothing enabled.
    pub fn new() -> (r: Self)
        ensures
            r.enabled,
    {
        Self { enabled: true }
    }
}

impl GPU<u8> for EpxGPU {
    /// Fills the output buffer with the filtered image: every output cell is
    /// `epx_cell` of the source, and the output is marked as a completed
    /// frame for the next stage.
    fn process(&self, input: &FrameBuffer<u8>, output: &mut FrameBuffer<u8>)
        ensures
            final(output).wf(),
            final(output).spec_width() == old(output).spec_width(),
            final(output).spec_height() == old(output).spec_height(),
            final(output).spec_completed(),
            forall|dx: int, dy: int|
                0 <= dx < old(output).spec_width() && 0 <= dy < old(output).spec_height()
                    ==> final(output).pixels()[grid_index(
                    old(output).spec_width() as int,
                    dx,
                    dy,
                )] == epx_cell(
                    input.pixels(),
                    input.spec_width() as int,
                    input.spec_height() as int,
                    self.enabled,
                    dx,
                    dy,
                ),
    {
        let w = input.width();
        let h = input.height();
        let ghost src = input.pixels();
        let ghost wi = w as int;
        let ghost hi = h as int;
        let ghost ow = 2 * wi;
        let ghost oh = 2 * hi;
        let mut sy: u32 = 0;
        while sy < h
            invariant
                input.wf(),
                output.wf(),
                w == input.spec_width(),
                h == input.spec_height(),
                src == input.pixels(),
                wi == w as int,
                hi == h as int,
                ow == 2 * wi,
                oh == 2 * hi,
                w >= 1,
                h >= 1,
                sy <= h,
                output.spec_width() == 2 * w,
                output.spec_height() == 2 * h,
                forall|dx: int, dy: int|
                    0 <= dx < ow && 0 <= dy < 2 * sy ==> output.pixels()[grid_index(ow, dx, dy)]
                        == epx_cell(src, wi, hi, self.enabled, dx, dy),
            decreases h - sy,
        {
            let mut sx: u32 = 0;
            while sx < w
                invariant
                    input.wf(),
                    output.wf(),
                    w == input.spec_width(),
                    h == input.spec_height(),
                    src == input.pixels(),
                    wi == w as int,
                    hi == h as int,
                    ow == 2 * wi,
                    oh == 2 * hi,
                    w >= 1,
                    h >= 1,
                    sy < h,
                    sx <= w,
                    output.spec_width() == 2 * w,
                    output.spec_height() == 2 * h,
                    forall|dx: int, dy: int|
                        0 <= dx < ow && 0 <= dy < 2 * sy ==> output.pixels()[grid_index(
                            ow,
                            dx,
                            dy,
                        )] == epx_cell(src, wi, hi, self.enabled, dx, dy),
                    forall|dx: int, dy: int|
                        0 <= dx < 2 * sx && 2 * sy <= dy < 2 * sy + 2 ==> output.pixels()[grid_index(
                            ow,
                            dx,
                            dy,
                        )] == epx_cell(src, wi, hi, self.enabled, dx, dy),
                decreases w - sx,
            {
                let x_min = sx == 0;
                let x_max = sx + 1 >= w;
                let y_min = sy == 0;
                let y_max = sy + 1 >= h;

                let origin = input.read(sx, sy);
                let top = if y_min {
                    origin
                } else {
                    input.read(sx, sy - 1)
                };
                let right = if x_max {
                    origin
                } else {
                    input.read(sx + 1, sy)
                };
                let left = if x_min {
                    origin
                } else {
                    input.read(sx - 1, sy)
                };
                let bottom = if y_max {
                    origin
                } else {
                    input.read(sx, sy + 1)
                };

                let x = 2 * sx;
                let y = 2 * sy;
                output.write(x, y, origin);
                output.write(x + 1, y, origin);
                output.write(x, y + 1, origin);
                output.write(x + 1, y + 1, origin);

                if self.enabled {
                    if left == top && left != bottom && top != right {
                        output.write(x, y, top);
                    }
                    if top == right && top != left && right != bottom {
                        output.write(x + 1, y, right);
                    }
                    if bottom == left && bottom != right && left != top {
                        output.write(x, y + 1, left);
                    }
                    if right == bottom && right != top && bottom != left {
                        output.write(x + 1, y + 1, bottom);
                    }
                }

                proof {
                    let sxi = sx as int;
                    let syi = sy as int;
                    assert((2 * sxi) / 2 == sxi && (2 * sxi + 1) / 2 == sxi);
                    assert((2 * syi) / 2 == syi && (2 * syi + 1) / 2 == syi);
                    assert((2 * sxi) % 2 == 0 && (2 * sxi + 1) % 2 == 1);
                    assert((2 * syi) % 2 == 0 && (2 * syi + 1) % 2 == 1);
                    lemma_grid_index(ow, oh, 2 * sxi, 2 * syi);
                    lemma_grid_index(ow, oh, 2 * sxi + 1, 2 * syi);
                    lemma_grid_index(ow, oh, 2 * sxi, 2 * syi + 1);
                    lemma_grid_index(ow, oh, 2 * sxi + 1, 2 * syi + 1);
                    lemma_grid_index_injective(ow, 2 * sxi, 2 * syi, 2 * sxi + 1, 2 * syi);
                    lemma_grid_index_injective(ow, 2 * sxi, 2 * syi, 2 * sxi, 2 * syi + 1);
                    lemma_grid_index_injective(ow, 2 * sxi, 2 * syi, 2 * sxi + 1, 2 * syi + 1);
                    lemma_grid_index_injective(ow, 2 * sxi + 1, 2 * syi, 2 * sxi, 2 * syi + 1);
                    lemma_grid_index_injective(ow, 2 * sxi + 1, 2 * syi, 2 * sxi + 1, 2 * syi + 1);
                    lemma_grid_index_injective(ow, 2 * sxi, 2 * syi + 1, 2 * sxi + 1, 2 * syi + 1);
                    assert(output.pixels()[grid_index(ow, 2 * sxi, 2 * syi)] == epx_cell(
                        src,
                        wi,
                        hi,
                        self.enabled,
                        2 * sxi,
                        2 * syi,
                    ));
                    assert(output.pixels()[grid_index(ow, 2 * sxi + 1, 2 * syi)] == epx_cell(
                        src,
                        wi,
                        hi,
                        self.enabled,
                        2 * sxi + 1,
                        2 * syi,
                    ));
                    assert(output.pixels()[grid_index(ow, 2 * sxi, 2 * syi + 1)] == epx_cell(
                        src,
                        wi,
                        hi,
                        self.enabled,
                        2 * sxi,
                        2 * syi + 1,
                    ));
                    assert(output.pixels()[grid_index(ow, 2 * sxi + 1, 2 * syi + 1)] == epx_cell(
                        src,
                        wi,
                        hi,
                        self.enabled,
                        2 * sxi + 1,
                        2 * syi + 1,
                    ));
                    assert forall|dx: int, dy: int|
                        (0 <= dx < ow && 0 <= dy < 2 * syi) || (0 <= dx < 2 * sxi && 2 * syi <= dy
                            < 2 * syi + 2) implies output.pixels()[grid_index(ow, dx, dy)]
                        == epx_cell(src, wi, hi, self.enabled, dx, dy) by {
                        lemma_grid_index(ow, oh, dx, dy);
                        lemma_grid_index_injective(ow, dx, dy, 2 * sxi, 2 * syi);
                        lemma_grid_index_injective(ow, dx, dy, 2 * sxi + 1, 2 * syi);
                        lemma_grid_index_injective(ow, dx, dy, 2 * sxi, 2 * syi + 1);
                        lemma_grid_index_injective(ow, dx, dy, 2 * sxi + 1, 2 * syi + 1);
                    }
                }
                sx = sx + 1;
            }
            sy = sy + 1;
        }
        output.request_draw();
    }
}

} // verus!
