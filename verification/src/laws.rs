use vstd::prelude::*;

use crate::cpu::{
    bit_at, draw_row, draw_sprite_rows, flip, spec_fetch, step_spec, wrap_add, wrap_sub,
    CpuView, MEM_SIZE,
};
use crate::fault::Fault;
use crate::frame_buffer::{grid_index, lemma_grid_index, lemma_grid_index_injective};
use crate::opcode::{lemma_field_ranges, spec_first, spec_last, spec_nn, spec_x, spec_y};

verus! {

/// Whether one of the first `n` bits of a sprite row is set and lands on
/// column `cx` after bytewise wrapping from `x`.
pub open spec fn row_covers(line: u8, x: u8, n: int, cx: int) -> bool {
    exists|b: int| 0 <= b < n && #[trigger] bit_at(line, b) && cx == wrap_add(x, b as u8)
}

/// Whether one of the first `n` sprite rows lands a set bit on the grid cell
/// (cx, py).
pub open spec fn sprite_covers(
    mem: Seq<u8>,
    i: u16,
    x: u8,
    y: u8,
    n: int,
    cx: int,
    py: int,
) -> bool {
    exists|r: int|
        0 <= r < n && py == wrap_add(y, r as u8) && #[trigger] row_covers(mem[i as int + r], x, 8, cx)
}

/// Whether one of the first `n` sprite rows lands a set bit on an in-grid
/// cell that is unset in `frame`: the collision condition of a draw.
pub open spec fn sprite_collides(
    frame: Seq<u8>,
    mem: Seq<u8>,
    i: u16,
    x: u8,
    y: u8,
    n: int,
) -> bool {
    exists|r: int, b: int|
        0 <= r < n && 0 <= b < 8 && #[trigger] bit_at(mem[i as int + r], b) && wrap_add(x, b as u8) < 64
            && wrap_add(y, r as u8) < 32 && frame[grid_index(
            64,
            wrap_add(x, b as u8) as int,
            wrap_add(y, r as u8) as int,
        )] == 0
}

/// Wrapping a base by two different offsets below 256 gives two different
/// results.
proof fn lemma_wrap_offsets_distinct(base: u8, b1: int, b2: int)
    requires
        0 <= b1 < 256,
        0 <= b2 < 256,
        b1 != b2,
    ensures
        wrap_add(base, b1 as u8) != wrap_add(base, b2 as u8),
{
}

/// Drawing the first `n` bits of one sprite row flips exactly the in-grid
/// cells of destination row `cy` that a set bit lands on, and collides
/// exactly when one of those cells was unset.
proof fn lemma_draw_row_cells(frame: Seq<u8>, line: u8, x: u8, cy: u8, n: int)
    requires
        frame.len() == 2048,
        0 <= n <= 8,
    ensures
        ({
            let drawn = draw_row(frame, line, x, cy, n);
            &&& drawn.0.len() == 2048
            &&& forall|cx: int, py: int|
                0 <= cx < 64 && 0 <= py < 32 ==> drawn.0[#[trigger] grid_index(64, cx, py)] == (
                if py == cy && row_covers(line, x, n, cx) {
                    flip(frame[grid_index(64, cx, py)])
                } else {
                    frame[grid_index(64, cx, py)]
                })
            &&& drawn.1 == (cy < 32 && exists|b2: int|
                0 <= b2 < n && #[trigger] bit_at(line, b2) && wrap_add(x, b2 as u8) < 64
                    && frame[grid_index(64, wrap_add(x, b2 as u8) as int, cy as int)] == 0)
        }),
    decreases n,
{
    if n > 0 {
        lemma_draw_row_cells(frame, line, x, cy, n - 1);
        let prev = draw_row(frame, line, x, cy, n - 1);
        let drawn = draw_row(frame, line, x, cy, n);
        let b = n - 1;
        let cxb = wrap_add(x, b as u8);

        // The cell that bit b lands on is untouched by the earlier bits.
        if cxb < 64 && cy < 32 {
            lemma_grid_index(64, 32, cxb as int, cy as int);
            assert(!row_covers(line, x, n - 1, cxb as int)) by {
                if row_covers(line, x, n - 1, cxb as int) {
                    let bp = choose|bp: int|
                        0 <= bp < n - 1 && #[trigger] bit_at(line, bp) && cxb as int == wrap_add(
                            x,
                            bp as u8,
                        );
                    lemma_wrap_offsets_distinct(x, b, bp);
                }
            }
            assert(prev.0[grid_index(64, cxb as int, cy as int)] == frame[grid_index(
                64,
                cxb as int,
                cy as int,
            )]);
        }

        assert forall|cx: int, py: int| 0 <= cx < 64 && 0 <= py < 32 implies drawn.0[
            #[trigger] grid_index(64, cx, py)
        ] == (if py == cy && row_covers(line, x, n, cx) {
            flip(frame[grid_index(64, cx, py)])
        } else {
            frame[grid_index(64, cx, py)]
        }) by {
            lemma_grid_index(64, 32, cx, py);
            if bit_at(line, b) && cxb < 64 && cy < 32 && cx == cxb as int && py == cy as int {
                assert(row_covers(line, x, n, cx));
            } else {
                if bit_at(line, b) && cxb < 64 && cy < 32 {
                    lemma_grid_index_injective(64, cx, py, cxb as int, cy as int);
                }
                if py == cy as int {
                    assert(row_covers(line, x, n, cx) == row_covers(line, x, n - 1, cx)) by {
                        if row_covers(line, x, n, cx) {
                            let bp = choose|bp: int|
                                0 <= bp < n && #[trigger] bit_at(line, bp) && cx == wrap_add(
                                    x,
                                    bp as u8,
                                );
                            if bp == b {
                                assert(false);
                            }
                            assert(row_covers(line, x, n - 1, cx));
                        }
                        if row_covers(line, x, n - 1, cx) {
                            let bp = choose|bp: int|
                                0 <= bp < n - 1 && #[trigger] bit_at(line, bp) && cx == wrap_add(
                                    x,
                                    bp as u8,
                                );
                            assert(row_covers(line, x, n, cx));
                        }
                    }
                }
            }
        }

        assert(drawn.1 == (cy < 32 && exists|b2: int|
            0 <= b2 < n && #[trigger] bit_at(line, b2) && wrap_add(x, b2 as u8) < 64
                && frame[grid_index(64, wrap_add(x, b2 as u8) as int, cy as int)] == 0)) by {
            if drawn.1 {
                if prev.1 {
                    let b2 = choose|b2: int|
                        0 <= b2 < n - 1 && #[trigger] bit_at(line, b2) && wrap_add(x, b2 as u8)
                            < 64 && frame[grid_index(
                            64,
                            wrap_add(x, b2 as u8) as int,
                            cy as int,
                        )] == 0;
                    assert(0 <= b2 < n && bit_at(line, b2) && wrap_add(x, b2 as u8) < 64
                        && frame[grid_index(64, wrap_add(x, b2 as u8) as int, cy as int)] == 0);
                } else {
                    assert(bit_at(line, b) && cxb < 64 && cy < 32 && frame[grid_index(
                        64,
                        cxb as int,
                        cy as int,
                    )] == 0);
                }
            }
            if cy < 32 && (exists|b2: int|
                0 <= b2 < n && #[trigger] bit_at(line, b2) && wrap_add(x, b2 as u8) < 64
                    && frame[grid_index(64, wrap_add(x, b2 as u8) as int, cy as int)] == 0) {
                let b2 = choose|b2: int|
                    0 <= b2 < n && #[trigger] bit_at(line, b2) && wrap_add(x, b2 as u8) < 64
                        && frame[grid_index(64, wrap_add(x, b2 as u8) as int, cy as int)] == 0;
                if b2 == b {
                    assert(drawn.1);
                } else {
                    assert(prev.1);
                    assert(drawn.1);
                }
            }
        }
    }
}

/// Drawing the first `n` rows of a sprite flips exactly the in-grid cells
/// that a set bit lands on, and collides exactly when one of those cells was
/// unset in the frame the draw started from.
proof fn lemma_draw_rows_cells(frame: Seq<u8>, mem: Seq<u8>, i: u16, x: u8, y: u8, n: int)
    requires
        frame.len() == 2048,
        mem.len() == MEM_SIZE,
        0 <= n <= 15,
        n > 0 ==> i as int + n <= MEM_SIZE,
    ensures
        ({
            let drawn = draw_sprite_rows(frame, mem, i, x, y, n);
            &&& drawn.0.len() == 2048
            &&& forall|cx: int, py: int|
                0 <= cx < 64 && 0 <= py < 32 ==> drawn.0[#[trigger] grid_index(64, cx, py)] == (
                if sprite_covers(mem, i, x, y, n, cx, py) {
                    flip(frame[grid_index(64, cx, py)])
                } else {
                    frame[grid_index(64, cx, py)]
                })
            &&& drawn.1 == sprite_collides(frame, mem, i, x, y, n)
        }),
    decreases n,
{
    if n <= 0 {
        assert(!sprite_collides(frame, mem, i, x, y, n));
    } else {
        lemma_draw_rows_cells(frame, mem, i, x, y, n - 1);
        let prev = draw_sprite_rows(frame, mem, i, x, y, n - 1);
        let drawn = draw_sprite_rows(frame, mem, i, x, y, n);
        let r = n - 1;
        let line = mem[i as int + r];
        let cyr = wrap_add(y, r as u8);
        lemma_draw_row_cells(prev.0, line, x, cyr, 8);

        // Rows before the last one leave the last one's destination row
        // untouched.
        assert forall|cx: int| 0 <= cx < 64 && cyr < 32 implies prev.0[#[trigger] grid_index(
            64,
            cx,
            cyr as int,
        )] == frame[grid_index(64, cx, cyr as int)] by {
            lemma_grid_index(64, 32, cx, cyr as int);
            if sprite_covers(mem, i, x, y, n - 1, cx, cyr as int) {
                let rp = choose|rp: int|
                    0 <= rp < n - 1 && cyr as int == wrap_add(y, rp as u8) && #[trigger] row_covers(
                        mem[i as int + rp],
                        x,
                        8,
                        cx,
                    );
                lemma_wrap_offsets_distinct(y, r, rp);
            }
        }

        // Pointwise: the new draw covers a cell iff an earlier row covered it
        // or the last row lands a set bit there.
        assert forall|cx: int, py: int| 0 <= cx < 64 && 0 <= py < 32 implies drawn.0[
            #[trigger] grid_index(64, cx, py)
        ] == (if sprite_covers(mem, i, x, y, n, cx, py) {
            flip(frame[grid_index(64, cx, py)])
        } else {
            frame[grid_index(64, cx, py)]
        }) by {
            lemma_grid_index(64, 32, cx, py);
            if py == cyr && row_covers(line, x, 8, cx) {
                assert(sprite_covers(mem, i, x, y, n, cx, py));
                assert(!sprite_covers(mem, i, x, y, n - 1, cx, py)) by {
                    if sprite_covers(mem, i, x, y, n - 1, cx, py) {
                        let rp = choose|rp: int|
                            0 <= rp < n - 1 && py == wrap_add(y, rp as u8) && #[trigger] row_covers(
                                mem[i as int + rp],
                                x,
                                8,
                                cx,
                            );
                        lemma_wrap_offsets_distinct(y, r, rp);
                    }
                }
            } else {
                assert(sprite_covers(mem, i, x, y, n, cx, py) == sprite_covers(
                    mem,
                    i,
                    x,
                    y,
                    n - 1,
                    cx,
                    py,
                )) by {
                    if sprite_covers(mem, i, x, y, n, cx, py) {
                        let rp = choose|rp: int|
                            0 <= rp < n && py == wrap_add(y, rp as u8) && #[trigger] row_covers(
                                mem[i as int + rp],
                                x,
                                8,
                                cx,
                            );
                        if rp == r {
                            assert(false);
                        } else {
                            assert(sprite_covers(mem, i, x, y, n - 1, cx, py));
                        }
                    }
                }
            }
        }

        // The collision flag: the last row collides against the frame the
        // draw started from, since its destination row was untouched.
        assert(drawn.1 == sprite_collides(frame, mem, i, x, y, n)) by {
            let row_hit = (cyr < 32 && exists|b: int|
                0 <= b < 8 && #[trigger] bit_at(line, b) && wrap_add(x, b as u8) < 64 && prev.0[grid_index(
                    64,
                    wrap_add(x, b as u8) as int,
                    cyr as int,
                )] == 0);
            assert(drawn.1 == (prev.1 || row_hit));
            if row_hit {
                let b = choose|b: int|
                    0 <= b < 8 && #[trigger] bit_at(line, b) && wrap_add(x, b as u8) < 64 && prev.0[grid_index(
                        64,
                        wrap_add(x, b as u8) as int,
                        cyr as int,
                    )] == 0;
                assert(frame[grid_index(64, wrap_add(x, b as u8) as int, cyr as int)] == 0);
                assert(sprite_collides(frame, mem, i, x, y, n));
            }
            if prev.1 {
                let (rp, bp) = choose|rp: int, bp: int|
                    0 <= rp < n - 1 && 0 <= bp < 8 && #[trigger] bit_at(mem[i as int + rp], bp) && wrap_add(
                        x,
                        bp as u8,
                    ) < 64 && wrap_add(y, rp as u8) < 32 && frame[grid_index(
                        64,
                        wrap_add(x, bp as u8) as int,
                        wrap_add(y, rp as u8) as int,
                    )] == 0;
                assert(sprite_collides(frame, mem, i, x, y, n));
            }
            if sprite_collides(frame, mem, i, x, y, n) && !prev.1 {
                let (rp, bp) = choose|rp: int, bp: int|
                    0 <= rp < n && 0 <= bp < 8 && #[trigger] bit_at(mem[i as int + rp], bp) && wrap_add(
                        x,
                        bp as u8,
                    ) < 64 && wrap_add(y, rp as u8) < 32 && frame[grid_index(
                        64,
                        wrap_add(x, bp as u8) as int,
                        wrap_add(y, rp as u8) as int,
                    )] == 0;
                if rp == r {
                    assert(prev.0[grid_index(64, wrap_add(x, bp as u8) as int, cyr as int)]
                        == frame[grid_index(64, wrap_add(x, bp as u8) as int, cyr as int)]);
                    assert(row_hit);
                } else {
                    assert(sprite_collides(frame, mem, i, x, y, n - 1));
                }
            }
        }
    }
}

/// Every bit of an all-set sprite row is set.
proof fn lemma_full_line_bits()
    by (bit_vector)
    ensures
        forall|s: u8| s < 8 ==> 0xFFu8 & (1u8 << s) != 0,
{
}

/// Drawing a sprite whose rows are all set, wholly inside the grid, toggles
/// exactly the 8-by-`h` covered pixels: every covered cell flips — so it
/// differs from its prior value — every other cell keeps its value, and the
/// draw reports a collision exactly when some covered cell was unset.
pub proof fn lemma_full_sprite_draw(frame: Seq<u8>, mem: Seq<u8>, i: u16, x: u8, y: u8, h: int)
    requires
        frame.len() == 2048,
        mem.len() == MEM_SIZE,
        0 < h <= 15,
        i as int + h <= MEM_SIZE,
        x as int + 8 <= 64,
        y as int + h <= 32,
        forall|r: int| 0 <= r < h ==> #[trigger] mem[i as int + r] == 0xFF,
    ensures
        ({
            let drawn = draw_sprite_rows(frame, mem, i, x, y, h);
            &&& drawn.0.len() == 2048
            &&& forall|cx: int, py: int|
                x <= cx < x + 8 && y <= py < y + h ==> drawn.0[#[trigger] grid_index(64, cx, py)]
                    == flip(frame[grid_index(64, cx, py)]) && drawn.0[grid_index(64, cx, py)]
                    != frame[grid_index(64, cx, py)]
            &&& forall|cx: int, py: int|
                0 <= cx < 64 && 0 <= py < 32 && !(x <= cx < x + 8 && y <= py < y + h)
                    ==> drawn.0[#[trigger] grid_index(64, cx, py)] == frame[grid_index(64, cx, py)]
            &&& drawn.1 == exists|cx: int, py: int|
                x <= cx < x + 8 && y <= py < y + h && frame[#[trigger] grid_index(64, cx, py)] == 0
        }),
{
    lemma_draw_rows_cells(frame, mem, i, x, y, h);
    lemma_full_line_bits();
    let drawn = draw_sprite_rows(frame, mem, i, x, y, h);

    // A set bit lands on a cell exactly when the cell lies in the rectangle.
    assert forall|cx: int, py: int| 0 <= cx < 64 && 0 <= py < 32 implies sprite_covers(
        mem,
        i,
        x,
        y,
        h,
        cx,
        py,
    ) == (x <= cx < x + 8 && y <= py < y + h) by {
        if x <= cx < x + 8 && y <= py < y + h {
            let b = cx - x;
            let r = py - y;
            assert(bit_at(0xFF, b)) by {
                assert(0xFFu8 & (1u8 << ((7 - b) as u8)) != 0) by {
                    lemma_full_line_bits();
                    assert(((7 - b) as u8) < 8);
                }
            }
            assert(wrap_add(x, b as u8) == cx);
            assert(wrap_add(y, r as u8) == py);
            assert(row_covers(mem[i as int + r], x, 8, cx));
            assert(sprite_covers(mem, i, x, y, h, cx, py));
        }
        if sprite_covers(mem, i, x, y, h, cx, py) {
            let r = choose|r: int|
                0 <= r < h && py == wrap_add(y, r as u8) && #[trigger] row_covers(mem[i as int + r], x, 8, cx);
            let b = choose|b: int|
                0 <= b < 8 && #[trigger] bit_at(mem[i as int + r], b) && cx == wrap_add(x, b as u8);
            assert(x <= cx < x + 8 && y <= py < y + h);
        }
    }

    assert forall|cx: int, py: int| x <= cx < x + 8 && y <= py < y + h implies drawn.0[
        #[trigger] grid_index(64, cx, py)
    ] == flip(frame[grid_index(64, cx, py)]) && drawn.0[grid_index(64, cx, py)] != frame[grid_index(
        64,
        cx,
        py,
    )] by {
        lemma_grid_index(64, 32, cx, py);
    }

    // The collision condition in rectangle terms.
    assert(drawn.1 == exists|cx: int, py: int|
        x <= cx < x + 8 && y <= py < y + h && frame[#[trigger] grid_index(64, cx, py)] == 0) by {
        if drawn.1 {
            let (rp, bp) = choose|rp: int, bp: int|
                0 <= rp < h && 0 <= bp < 8 && #[trigger] bit_at(mem[i as int + rp], bp) && wrap_add(
                    x,
                    bp as u8,
                ) < 64 && wrap_add(y, rp as u8) < 32 && frame[grid_index(
                    64,
                    wrap_add(x, bp as u8) as int,
                    wrap_add(y, rp as u8) as int,
                )] == 0;
            let cx = wrap_add(x, bp as u8) as int;
            let py = wrap_add(y, rp as u8) as int;
            assert(x <= cx < x + 8 && y <= py < y + h && frame[grid_index(64, cx, py)] == 0);
        }
        if exists|cx: int, py: int|
            x <= cx < x + 8 && y <= py < y + h && frame[#[trigger] grid_index(64, cx, py)] == 0 {
            let (cx, py) = choose|cx: int, py: int|
                x <= cx < x + 8 && y <= py < y + h && frame[#[trigger] grid_index(64, cx, py)]
                    == 0;
            let b = cx - x;
            let r = py - y;
            assert(bit_at(0xFF, b)) by {
                lemma_full_line_bits();
                assert(((7 - b) as u8) < 8);
            }
            assert(wrap_add(x, b as u8) == cx && wrap_add(y, r as u8) == py);
            assert(sprite_collides(frame, mem, i, x, y, h));
        }
    }
}

/// Drawing the identical all-set sprite twice at the same location restores
/// the buffer exactly, provided the covered cells held only the two pixel
/// values the machine itself writes; and when the covered region held both
/// an unset and a set pixel, both draws report a collision. (A region that
/// starts all-unset sees no collision on the second draw: every covered
/// pixel is then set when the second draw arrives.)
pub proof fn lemma_full_sprite_redraw(frame: Seq<u8>, mem: Seq<u8>, i: u16, x: u8, y: u8, h: int)
    requires
        frame.len() == 2048,
        mem.len() == MEM_SIZE,
        0 < h <= 15,
        i as int + h <= MEM_SIZE,
        x as int + 8 <= 64,
        y as int + h <= 32,
        forall|r: int| 0 <= r < h ==> #[trigger] mem[i as int + r] == 0xFF,
        forall|cx: int, py: int|
            x <= cx < x + 8 && y <= py < y + h ==> frame[#[trigger] grid_index(64, cx, py)] == 0
                || frame[grid_index(64, cx, py)] == 0xFF,
    ensures
        ({
            let first = draw_sprite_rows(frame, mem, i, x, y, h);
            let second = draw_sprite_rows(first.0, mem, i, x, y, h);
            &&& second.0 == frame
            &&& ((exists|cx: int, py: int|
                x <= cx < x + 8 && y <= py < y + h && frame[#[trigger] grid_index(64, cx, py)]
                    == 0) && (exists|cx: int, py: int|
                x <= cx < x + 8 && y <= py < y + h && frame[#[trigger] grid_index(64, cx, py)]
                    == 0xFF)) ==> first.1 && second.1
        }),
{
    lemma_full_sprite_draw(frame, mem, i, x, y, h);
    let first = draw_sprite_rows(frame, mem, i, x, y, h);
    lemma_full_sprite_draw(first.0, mem, i, x, y, h);
    let second = draw_sprite_rows(first.0, mem, i, x, y, h);

    assert forall|k: int| 0 <= k < 2048 implies second.0[k] == frame[k] by {
        let cx = k % 64;
        let py = k / 64;
        lemma_grid_index(64, 32, cx, py);
        assert(grid_index(64, cx, py) == k) by {
            reveal(grid_index);
        }
    }
    assert(second.0 =~= frame);

    if (exists|cx: int, py: int|
        x <= cx < x + 8 && y <= py < y + h && frame[#[trigger] grid_index(64, cx, py)] == 0) && (
    exists|cx: int, py: int|
        x <= cx < x + 8 && y <= py < y + h && frame[#[trigger] grid_index(64, cx, py)] == 0xFF) {
        let (cx1, py1) = choose|cx: int, py: int|
            x <= cx < x + 8 && y <= py < y + h && frame[#[trigger] grid_index(64, cx, py)] == 0xFF;
        assert(first.0[grid_index(64, cx1, py1)] == 0);
        assert(second.1);
    }
}

/// A register dump leaves the memory region's size unchanged.
proof fn lemma_spec_dump_len(mem: Seq<u8>, i: u16, regs: Seq<u8>, n: int)
    requires
        i as int + n <= mem.len(),
    ensures
        crate::cpu::spec_dump(mem, i, regs, n).len() == mem.len(),
    decreases n,
{
    if n > 0 {
        lemma_spec_dump_len(mem, i, regs, n - 1);
    }
}

/// A register reload leaves the register file's size unchanged.
proof fn lemma_spec_load_regs_len(regs: Seq<u8>, mem: Seq<u8>, i: u16, n: int)
    requires
        n <= regs.len(),
    ensures
        crate::cpu::spec_load_regs(regs, mem, i, n).len() == regs.len(),
    decreases n,
{
    if n > 0 {
        lemma_spec_load_regs_len(regs, mem, i, n - 1);
    }
}

/// A step from a well-formed state yields a well-formed state: every
/// component keeps its fixed size and the stack pointer stays within the
/// fixed call depth.
pub proof fn lemma_step_preserves_wf(pre: CpuView, rnd: u8)
    requires
        pre.wf(),
    ensures
        step_spec(pre, rnd) matches Ok(post) ==> post.wf(),
{
    if pre.pc as int + 1 < MEM_SIZE {
        let w = spec_fetch(pre);
        lemma_field_ranges(w);
        let x = spec_x(w) as int;
        if spec_first(w) == 0xD {
            let h = spec_last(w) as int;
            if !(h > 0 && pre.i as int + h - 1 >= MEM_SIZE) {
                lemma_draw_rows_cells(
                    pre.frame,
                    pre.memory,
                    pre.i,
                    pre.regs[x],
                    pre.regs[spec_y(w) as int],
                    h,
                );
            }
        }
        if spec_first(w) == 0xF {
            if pre.i as int + x < MEM_SIZE {
                lemma_spec_dump_len(pre.memory, pre.i, pre.regs, x + 1);
            }
            lemma_spec_load_regs_len(pre.regs, pre.memory, pre.i, x + 1);
        }
    }
}

/// Loading an immediate value into any register (opcode class 6) stores
/// exactly that value there, advances the program counter by 2, and touches
/// nothing else; reading the register back yields the value loaded.
pub proof fn lemma_load_immediate(pre: CpuView, rnd: u8)
    requires
        pre.wf(),
        pre.pc as int + 1 < MEM_SIZE,
        spec_first(spec_fetch(pre)) == 0x6,
    ensures
        ({
            let w = spec_fetch(pre);
            step_spec(pre, rnd) == Ok::<CpuView, Fault>(
                CpuView {
                    regs: pre.regs.update(spec_x(w) as int, spec_nn(w) as u8),
                    pc: (pre.pc + 2) as u16,
                    ..pre
                },
            )
        }),
        step_spec(pre, rnd)->Ok_0.regs[spec_x(spec_fetch(pre)) as int] == spec_nn(
            spec_fetch(pre),
        ) as u8,
{
    lemma_field_ranges(spec_fetch(pre));
}

/// The immediate add (opcode class 7) wraps modulo 256 and sets no flag: for
/// a destination other than VF, the flag register keeps its prior value.
pub proof fn lemma_add_immediate_wraps(pre: CpuView, rnd: u8)
    requires
        pre.wf(),
        pre.pc as int + 1 < MEM_SIZE,
        spec_first(spec_fetch(pre)) == 0x7,
    ensures
        ({
            let w = spec_fetch(pre);
            let x = spec_x(w) as int;
            let nn = spec_nn(w) as u8;
            step_spec(pre, rnd) == Ok::<CpuView, Fault>(
                CpuView {
                    regs: pre.regs.update(x, wrap_add(pre.regs[x], nn)),
                    pc: (pre.pc + 2) as u16,
                    ..pre
                },
            )
        }),
        ({
            let w = spec_fetch(pre);
            let x = spec_x(w) as int;
            let nn = spec_nn(w) as u8;
            let post = step_spec(pre, rnd)->Ok_0;
            &&& post.regs[x] as int == (pre.regs[x] + nn) % 256
            &&& x != 15 ==> post.regs[15] == pre.regs[15]
        }),
{
    lemma_field_ranges(spec_fetch(pre));
}

/// The register-register add (opcode 8XY4): X takes (X + Y) mod 256 and VF
/// becomes 1 exactly when the addition wrapped, 0 otherwise.
pub proof fn lemma_alu_add(pre: CpuView, rnd: u8)
    requires
        pre.wf(),
        pre.pc as int + 1 < MEM_SIZE,
        spec_first(spec_fetch(pre)) == 0x8,
        spec_last(spec_fetch(pre)) == 0x4,
    ensures
        ({
            let w = spec_fetch(pre);
            let x = spec_x(w) as int;
            let vx = pre.regs[x];
            let vy = pre.regs[spec_y(w) as int];
            let f: u8 = if vx + vy >= 256 {
                1
            } else {
                0
            };
            step_spec(pre, rnd) == Ok::<CpuView, Fault>(
                CpuView {
                    regs: pre.regs.update(x, wrap_add(vx, vy)).update(15, f),
                    pc: (pre.pc + 2) as u16,
                    ..pre
                },
            )
        }),
        ({
            let w = spec_fetch(pre);
            let x = spec_x(w) as int;
            let vx = pre.regs[x];
            let vy = pre.regs[spec_y(w) as int];
            let post = step_spec(pre, rnd)->Ok_0;
            &&& (post.regs[15] == 1) <==> vx + vy > 255
            &&& (post.regs[15] == 0) <==> vx + vy <= 255
            &&& x != 15 ==> post.regs[x] as int == (vx + vy) % 256
        }),
{
    lemma_field_ranges(spec_fetch(pre));
}

/// The register-register subtract (opcode 8XY5): X takes (X - Y) mod 256 and
/// VF becomes 1 exactly when the subtraction wrapped, the literal convention
/// of this machine.
pub proof fn lemma_alu_sub(pre: CpuView, rnd: u8)
    requires
        pre.wf(),
        pre.pc as int + 1 < MEM_SIZE,
        spec_first(spec_fetch(pre)) == 0x8,
        spec_last(spec_fetch(pre)) == 0x5,
    ensures
        ({
            let w = spec_fetch(pre);
            let x = spec_x(w) as int;
            let vx = pre.regs[x];
            let vy = pre.regs[spec_y(w) as int];
            let f: u8 = if vx < vy {
                1
            } else {
                0
            };
            step_spec(pre, rnd) == Ok::<CpuView, Fault>(
                CpuView {
                    regs: pre.regs.update(x, wrap_sub(vx, vy)).update(15, f),
                    pc: (pre.pc + 2) as u16,
                    ..pre
                },
            )
        }),
        ({
            let w = spec_fetch(pre);
            let x = spec_x(w) as int;
            let vx = pre.regs[x];
            let vy = pre.regs[spec_y(w) as int];
            let post = step_spec(pre, rnd)->Ok_0;
            &&& (post.regs[15] == 1) <==> vx < vy
            &&& x != 15 ==> post.regs[x] as int == (vx - vy + 256) % 256
        }),
{
    lemma_field_ranges(spec_fetch(pre));
}

/// The reverse subtract (opcode 8XY7): X takes (Y - X) mod 256 and VF
/// becomes 1 exactly when the subtraction wrapped.
pub proof fn lemma_alu_rsub(pre: CpuView, rnd: u8)
    requires
        pre.wf(),
        pre.pc as int + 1 < MEM_SIZE,
        spec_first(spec_fetch(pre)) == 0x8,
        spec_last(spec_fetch(pre)) == 0x7,
    ensures
        ({
            let w = spec_fetch(pre);
            let x = spec_x(w) as int;
            let vx = pre.regs[x];
            let vy = pre.regs[spec_y(w) as int];
            let f: u8 = if vy < vx {
                1
            } else {
                0
            };
            step_spec(pre, rnd) == Ok::<CpuView, Fault>(
                CpuView {
                    regs: pre.regs.update(x, wrap_sub(vy, vx)).update(15, f),
                    pc: (pre.pc + 2) as u16,
                    ..pre
                },
            )
        }),
        ({
            let w = spec_fetch(pre);
            let x = spec_x(w) as int;
            let vx = pre.regs[x];
            let vy = pre.regs[spec_y(w) as int];
            let post = step_spec(pre, rnd)->Ok_0;
            &&& (post.regs[15] == 1) <==> vy < vx
            &&& x != 15 ==> post.regs[x] as int == (vy - vx + 256) % 256
        }),
{
    lemma_field_ranges(spec_fetch(pre));
}

/// The right shift (opcode 8XY6): VF takes bit 0 of X, then X is halved.
pub proof fn lemma_alu_shift_right(pre: CpuView, rnd: u8)
    requires
        pre.wf(),
        pre.pc as int + 1 < MEM_SIZE,
        spec_first(spec_fetch(pre)) == 0x8,
        spec_last(spec_fetch(pre)) == 0x6,
    ensures
        ({
            let w = spec_fetch(pre);
            let x = spec_x(w) as int;
            let r1 = pre.regs.update(15, pre.regs[x] & 0x1);
            step_spec(pre, rnd) == Ok::<CpuView, Fault>(
                CpuView { regs: r1.update(x, r1[x] >> 1u8), pc: (pre.pc + 2) as u16, ..pre },
            )
        }),
        ({
            let w = spec_fetch(pre);
            let x = spec_x(w) as int;
            let vx = pre.regs[x];
            let post = step_spec(pre, rnd)->Ok_0;
            &&& x != 15 ==> post.regs[x] as int == vx / 2 && post.regs[15] as int == vx % 2
            &&& x == 15 ==> post.regs[15] == 0
        }),
{
    lemma_field_ranges(spec_fetch(pre));
    let w = spec_fetch(pre);
    let x = spec_x(w) as int;
    let vx = pre.regs[x];
    assert((vx & 0x1) as int == vx % 2) by (bit_vector);
    assert((vx >> 1u8) as int == vx / 2) by (bit_vector);
    assert(((vx & 0x1) >> 1u8) == 0) by (bit_vector);
}

/// The left shift (opcode 8XYE): VF takes bit 7 of X, then X is doubled
/// modulo 256.
pub proof fn lemma_alu_shift_left(pre: CpuView, rnd: u8)
    requires
        pre.wf(),
        pre.pc as int + 1 < MEM_SIZE,
        spec_first(spec_fetch(pre)) == 0x8,
        spec_last(spec_fetch(pre)) == 0xE,
    ensures
        ({
            let w = spec_fetch(pre);
            let x = spec_x(w) as int;
            let r1 = pre.regs.update(15, (pre.regs[x] >> 7u8) & 0x1);
            step_spec(pre, rnd) == Ok::<CpuView, Fault>(
                CpuView { regs: r1.update(x, r1[x] << 1u8), pc: (pre.pc + 2) as u16, ..pre },
            )
        }),
        ({
            let w = spec_fetch(pre);
            let x = spec_x(w) as int;
            let vx = pre.regs[x];
            let post = step_spec(pre, rnd)->Ok_0;
            &&& x != 15 ==> post.regs[x] as int == (2 * vx) % 256 && post.regs[15] as int == vx
                / 128
        }),
{
    lemma_field_ranges(spec_fetch(pre));
    let w = spec_fetch(pre);
    let x = spec_x(w) as int;
    let vx = pre.regs[x];
    assert(((vx >> 7u8) & 0x1) as int == vx / 128) by (bit_vector);
    assert((vx << 1u8) as int == (2 * vx) % 256) by (bit_vector);
}

/// The blocking key-wait (opcode FX0A) while no key has arrived: the step
/// only raises the "waiting" flag and leaves everything else, the program
/// counter included, where it was. A state already waiting is a fixed point,
/// so the counter stays unchanged across any number of further steps until a
/// key press is delivered.
pub proof fn lemma_key_wait_blocks(pre: CpuView, rnd: u8)
    requires
        pre.wf(),
        pre.pc as int + 1 < MEM_SIZE,
        spec_first(spec_fetch(pre)) == 0xF,
        spec_nn(spec_fetch(pre)) == 0x0A,
        !(pre.wait_for_key && pre.key_received),
    ensures
        step_spec(pre, rnd) == Ok::<CpuView, Fault>(CpuView { wait_for_key: true, ..pre }),
        step_spec(pre, rnd)->Ok_0.pc == pre.pc,
        pre.wait_for_key ==> step_spec(pre, rnd) == Ok::<CpuView, Fault>(pre),
{
    lemma_field_ranges(spec_fetch(pre));
    if pre.wait_for_key {
        assert(CpuView { wait_for_key: true, ..pre } =~= pre);
    }
}

/// The blocking key-wait once a key has been received while waiting: exactly
/// one step stores the key in the destination register, clears both latch
/// flags, and advances the program counter by 2.
pub proof fn lemma_key_wait_completes(pre: CpuView, rnd: u8)
    requires
        pre.wf(),
        pre.pc as int + 1 < MEM_SIZE,
        spec_first(spec_fetch(pre)) == 0xF,
        spec_nn(spec_fetch(pre)) == 0x0A,
        pre.wait_for_key,
        pre.key_received,
    ensures
        ({
            let w = spec_fetch(pre);
            step_spec(pre, rnd) == Ok::<CpuView, Fault>(
                CpuView {
                    wait_for_key: false,
                    key_received: false,
                    regs: pre.regs.update(spec_x(w) as int, pre.key),
                    pc: (pre.pc + 2) as u16,
                    ..pre
                },
            )
        }),
        step_spec(pre, rnd)->Ok_0.regs[spec_x(spec_fetch(pre)) as int] == pre.key,
        step_spec(pre, rnd)->Ok_0.pc == pre.pc + 2,
{
    lemma_field_ranges(spec_fetch(pre));
}

} // verus!
