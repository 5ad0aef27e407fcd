use vstd::prelude::*;

verus! {

/// The row-major position of cell (x, y) in a grid of the given width. It is
/// kept opaque so that grid reasoning goes through the lemmas below instead
/// of raw multiplication.
#[verifier::opaque]
pub open spec fn grid_index(w: int, x: int, y: int) -> int {
    y * w + x
}

/// The row-major position of an in-range cell: what it is, and that it lies
/// inside a w x h buffer.
pub proof fn lemma_grid_index(w: int, h: int, x: int, y: int)
    requires
        0 <= x < w,
        0 <= y < h,
    ensures
        grid_index(w, x, y) == y * w + x,
        0 <= grid_index(w, x, y) < w * h,
{
    reveal(grid_index);
    lemma_row_major_in_range(x, y, w, h);
}

/// Distinct in-range cells of one grid have distinct row-major positions.
pub proof fn lemma_grid_index_injective(w: int, x1: int, y1: int, x2: int, y2: int)
    requires
        0 <= x1 < w,
        0 <= x2 < w,
        0 <= y1,
        0 <= y2,
        x1 != x2 || y1 != y2,
    ensures
        grid_index(w, x1, y1) != grid_index(w, x2, y2),
{
    reveal(grid_index);
    lemma_row_major_distinct(w, x1, y1, x2, y2);
}

/// Distinct in-range cell coordinates give distinct row-major indices.
proof fn lemma_row_major_distinct(w: int, x1: int, y1: int, x2: int, y2: int)
    by (nonlinear_arith)
    requires
        0 <= x1 < w,
        0 <= x2 < w,
        0 <= y1,
        0 <= y2,
        x1 != x2 || y1 != y2,
    ensures
        y1 * w + x1 != y2 * w + x2,
{
}

/// A width x height grid of pixel values with bounds-checked writes and a
/// "draw requested" hand-off flag.
///
/// The flag is set by the producer after a frame-affecting write
/// (`request_draw`) and cleared exactly once by the consumer that handles it
/// (`handle_draw`); setting it again before the consumer has looked simply
/// coalesces with the pending request.
pub struct FrameBuffer<T> {
    buf: Vec<T>,
    width: u32,
    height: u32,
    completed: bool,
}

impl<T> FrameBuffer<T> {
    /// The pixel contents in row-major order.
    pub closed spec fn pixels(&self) -> Seq<T> {
        self.buf@
    }

    /// The grid width.
    pub closed spec fn spec_width(&self) -> u32 {
        self.width
    }

    /// The grid height.
    pub closed spec fn spec_height(&self) -> u32 {
        self.height
    }

    /// Whether a draw request is pending.
    pub closed spec fn spec_completed(&self) -> bool {
        self.completed
    }

    /// The buffer holds exactly one pixel per grid cell.
    pub open spec fn wf(&self) -> bool {
        self.pixels().len() == self.spec_width() * self.spec_height()
    }
}

impl<T: Copy> FrameBuffer<T> {
    /// A buffer of the given dimensions with every pixel set to `init` and no
    /// draw request pending.
    pub fn new(width: u32, height: u32, init: T) -> (r: Self)
        requires
            width * height <= usize::MAX,
        ensures
            r.wf(),
            r.spec_width() == width,
            r.spec_height() == height,
            !r.spec_completed(),
            r.pixels() == Seq::new((width * height) as nat, |k: int| init),
    {
        let n = (width as usize) * (height as usize);
        Self { buf: filled_vec(n, init), width, height, completed: false }
    }

    /// The grid width.
    pub fn width(&self) -> (r: u32)
        ensures
            r == self.spec_width(),
    {
        self.width
    }

    /// The grid height.
    pub fn height(&self) -> (r: u32)
        ensures
            r == self.spec_height(),
    {
        self.height
    }

    /// The pixel contents in row-major order, read-only.
    pub fn frame(&self) -> (r: &[T])
        ensures
            r@ == self.pixels(),
    {
        self.buf.as_slice()
    }

    /// The pixel at (x, y). Reading is defined only for in-range coordinates;
    /// the caller must not ask for anything else.
    pub fn read(&self, x: u32, y: u32) -> (r: T)
        requires
            self.wf(),
            x < self.spec_width(),
            y < self.spec_height(),
        ensures
            r == self.pixels()[grid_index(self.spec_width() as int, x as int, y as int)],
    {
        let n = self.buf.len();
        proof {
            lemma_grid_index(
                self.spec_width() as int,
                self.spec_height() as int,
                x as int,
                y as int,
            );
            assert(y * self.spec_width() + x < n);
        }
        let idx = (y as usize) * (self.width as usize) + (x as usize);
        self.buf[idx]
    }

    /// Writes the pixel at (x, y); a coordinate outside the grid is ignored
    /// without any partial effect.
    pub fn write(&mut self, x: u32, y: u32, val: T)
        requires
            old(self).wf(),
        ensures
            final(self).wf(),
            final(self).spec_width() == old(self).spec_width(),
            final(self).spec_height() == old(self).spec_height(),
            final(self).spec_completed() == old(self).spec_completed(),
            final(self).pixels() == (if x < old(self).spec_width() && y < old(self).spec_height() {
                old(self).pixels().update(
                    grid_index(old(self).spec_width() as int, x as int, y as int),
                    val,
                )
            } else {
                old(self).pixels()
            }),
    {
        if x < self.width && y < self.height {
            let n = self.buf.len();
            proof {
                lemma_grid_index(
                    self.spec_width() as int,
                    self.spec_height() as int,
                    x as int,
                    y as int,
                );
                assert(y * self.spec_width() + x < n);
            }
            let idx = (y as usize) * (self.width as usize) + (x as usize);
            self.buf[idx] = val;
        }
    }

    /// Sets every pixel to `init`, keeping the dimensions and the draw-request
    /// flag.
    pub fn clear(&mut self, init: T)
        requires
            old(self).wf(),
        ensures
            final(self).wf(),
            final(self).spec_width() == old(self).spec_width(),
            final(self).spec_height() == old(self).spec_height(),
            final(self).spec_completed() == old(self).spec_completed(),
            final(self).pixels() == Seq::new(old(self).pixels().len(), |k: int| init),
    {
        let n = self.buf.len();
        self.buf = filled_vec(n, init);
    }

    /// Marks the buffer as holding a completed frame that awaits handling.
    pub fn request_draw(&mut self)
        ensures
            final(self).wf() == old(self).wf(),
            final(self).spec_width() == old(self).spec_width(),
            final(self).spec_height() == old(self).spec_height(),
            final(self).pixels() == old(self).pixels(),
            final(self).spec_completed(),
    {
        self.completed = true;
    }

    /// Reports whether a draw request was pending and clears it, so that one
    /// request is handed over exactly once.
    pub fn handle_draw(&mut self) -> (r: bool)
        ensures
            final(self).wf() == old(self).wf(),
            final(self).spec_width() == old(self).spec_width(),
            final(self).spec_height() == old(self).spec_height(),
            final(self).pixels() == old(self).pixels(),
            !final(self).spec_completed(),
            r == old(self).spec_completed(),
    {
        if self.completed {
            self.completed = false;
            true
        } else {
            false
        }
    }
}

/// A row-major index computed from in-range coordinates lands inside a
/// width x height buffer.
proof fn lemma_row_major_in_range(x: int, y: int, w: int, h: int)
    by (nonlinear_arith)
    requires
        0 <= x < w,
        0 <= y < h,
    ensures
        0 <= y * w + x < w * h,
{
}

/// A vector of `n` copies of `val`.
pub(crate) fn filled_vec<T: Copy>(n: usize, val: T) -> (r: Vec<T>)
    ensures
        r@ == Seq::new(n as nat, |k: int| val),
{
    let mut v: Vec<T> = Vec::new();
    let mut k: usize = 0;
    while k < n
        invariant
            k <= n,
            v@ == Seq::new(k as nat, |j: int| val),
        decreases n - k,
    {
        v.push(val);
        proof {
            assert(v@ =~= Seq::new((k + 1) as nat, |j: int| val));
        }
        k = k + 1;
    }
    v
}

} // verus!
