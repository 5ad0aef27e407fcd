use vstd::prelude::*;

use crate::fault::Fault;
use crate::font::{font_charmap, font_map};
use crate::frame_buffer::{filled_vec, grid_index, FrameBuffer};
use crate::opcode::{
    lemma_field_ranges, spec_first, spec_last, spec_nn, spec_nnn, spec_x, spec_y, Opcode,
};

verus! {

/// The fixed entry offset: loaded programs start here and the program counter
/// is initialized to it.
pub const PROGRAM_ENTRY: u16 = 0x200;

/// The size of the byte-addressable memory region.
pub const MEM_SIZE: usize = 0xFFFF;

/// The fixed depth of the call stack.
pub const STACK_SIZE: usize = 64;

// Register identifiers.
pub const V0: usize = 0;
pub const V1: usize = 1;
pub const V2: usize = 2;
pub const V3: usize = 3;
pub const V4: usize = 4;
pub const V5: usize = 5;
pub const V6: usize = 6;
pub const V7: usize = 7;
pub const V8: usize = 8;
pub const V9: usize = 9;
pub const VA: usize = 10;
pub const VB: usize = 11;
pub const VC: usize = 12;
pub const VD: usize = 13;
pub const VE: usize = 14;
pub const VF: usize = 15;

// Timer identifiers.
pub const SOUND: usize = 0;
pub const DELAY: usize = 1;

/// The mathematical state of the interpreter: every register, memory cell,
/// stack slot, timer, key bit and latch, and the pixel grid of the frame
/// buffer it draws into.
#[verifier::ext_equal]
pub struct CpuView {
    pub regs: Seq<u8>,
    pub sp: u16,
    pub pc: u16,
    pub i: u16,
    pub timers: Seq<u8>,
    pub frame: Seq<u8>,
    pub frame_completed: bool,
    pub memory: Seq<u8>,
    pub stack: Seq<u16>,
    pub keyboard: Seq<bool>,
    pub draw_flag: bool,
    pub wait_for_key: bool,
    pub key_received: bool,
    pub key: u8,
}

impl CpuView {
    /// Every component has its fixed size.
    pub open spec fn wf(&self) -> bool {
        &&& self.regs.len() == 16
        &&& self.timers.len() == 2
        &&& self.frame.len() == 64 * 32
        &&& self.memory.len() == MEM_SIZE
        &&& self.stack.len() == STACK_SIZE
        &&& self.keyboard.len() == 16
        &&& self.sp <= STACK_SIZE
    }

    /// The state of a freshly constructed interpreter: everything zeroed, the
    /// program counter at the entry offset.
    pub open spec fn initial() -> CpuView {
        CpuView {
            regs: Seq::new(16, |k: int| 0u8),
            sp: 0,
            pc: PROGRAM_ENTRY,
            i: 0,
            timers: Seq::new(2, |k: int| 0u8),
            frame: Seq::new((64 * 32) as nat, |k: int| 0u8),
            frame_completed: false,
            memory: Seq::new(MEM_SIZE as nat, |k: int| 0u8),
            stack: Seq::new(STACK_SIZE as nat, |k: int| 0u16),
            keyboard: Seq::new(16, |k: int| false),
            draw_flag: false,
            wait_for_key: false,
            key_received: false,
            key: 0,
        }
    }
}

/// Addition on one-byte values, wrapping modulo 256.
pub open spec fn wrap_add(a: u8, b: u8) -> u8 {
    if a + b < 256 {
        (a + b) as u8
    } else {
        (a + b - 256) as u8
    }
}

/// Subtraction on one-byte values, wrapping modulo 256.
pub open spec fn wrap_sub(a: u8, b: u8) -> u8 {
    if a >= b {
        (a - b) as u8
    } else {
        (a - b + 256) as u8
    }
}

/// A decremented timer value: one less, stopping at zero.
pub open spec fn count_down(v: u8) -> u8 {
    if v > 0 {
        (v - 1) as u8
    } else {
        0
    }
}

/// The pixel value after an XOR draw hits it: an unset pixel becomes set,
/// anything else becomes unset.
pub open spec fn flip(v: u8) -> u8 {
    if v == 0 {
        0xFF
    } else {
        0x00
    }
}

/// Whether bit `b` of a sprite row is set, counting from the leftmost pixel.
pub open spec fn bit_at(line: u8, b: int) -> bool {
    line & (1u8 << ((7 - b) as u8)) != 0
}

/// One sprite pixel XOR-drawn at wrapped coordinates (cx, cy): inside the
/// 64 x 32 grid the pixel flips and the draw counts as a collision exactly
/// when it was unset before; outside the grid the write is dropped.
pub open spec fn draw_bit(frame: Seq<u8>, cx: u8, cy: u8) -> (Seq<u8>, bool) {
    if cx < 64 && cy < 32 {
        let idx = grid_index(64, cx as int, cy as int);
        (frame.update(idx, flip(frame[idx])), frame[idx] == 0)
    } else {
        (frame, false)
    }
}

/// The frame and collision flag after drawing the first `n` bits of one
/// sprite row whose destination row is `cy`.
pub open spec fn draw_row(frame: Seq<u8>, line: u8, x: u8, cy: u8, n: int) -> (Seq<u8>, bool)
    decreases n,
{
    if n <= 0 {
        (frame, false)
    } else {
        let prev = draw_row(frame, line, x, cy, n - 1);
        let b = n - 1;
        if bit_at(line, b) {
            let step = draw_bit(prev.0, wrap_add(x, b as u8), cy);
            (step.0, prev.1 || step.1)
        } else {
            prev
        }
    }
}

/// The frame and collision flag after drawing the first `n` rows of a sprite
/// read from memory at the index address, destined for wrapped coordinates
/// starting at (x, y).
pub open spec fn draw_sprite_rows(
    frame: Seq<u8>,
    mem: Seq<u8>,
    i: u16,
    x: u8,
    y: u8,
    n: int,
) -> (Seq<u8>, bool)
    decreases n,
{
    if n <= 0 {
        (frame, false)
    } else {
        let prev = draw_sprite_rows(frame, mem, i, x, y, n - 1);
        let r = n - 1;
        let line = mem[i as int + r];
        let step = draw_row(prev.0, line, x, wrap_add(y, r as u8), 8);
        (step.0, prev.1 || step.1)
    }
}

/// The big-endian 16-bit word at the program counter.
pub open spec fn spec_fetch(c: CpuView) -> u16 {
    ((c.memory[c.pc as int] as u16) << 8) | (c.memory[c.pc as int + 1] as u16)
}

/// A conditional skip: the program counter advances by 4 on a met condition
/// and by 2 otherwise, faulting if that would leave the address space.
pub open spec fn spec_skip(pre: CpuView, cond: bool) -> Result<CpuView, Fault> {
    let step: int = if cond {
        4
    } else {
        2
    };
    if pre.pc + step > 0xFFFF {
        Err(Fault::AddressOutOfRange { pc: pre.pc })
    } else {
        Ok(CpuView { pc: (pre.pc + step) as u16, ..pre })
    }
}

/// The memory region after the decimal decomposition of `val` is stored at
/// the index address: the hundreds, tens and ones digits in three
/// consecutive bytes, leading zeros included.
pub open spec fn spec_bcd(mem: Seq<u8>, i: u16, val: u8) -> Seq<u8> {
    mem.update(i as int, (val as int / 100) as u8).update(
        i as int + 1,
        ((val as int / 10) % 10) as u8,
    ).update(i as int + 2, (val as int % 10) as u8)
}

/// The memory region after registers 0 through `n - 1` are dumped to
/// consecutive addresses starting at the index address.
pub open spec fn spec_dump(mem: Seq<u8>, i: u16, regs: Seq<u8>, n: int) -> Seq<u8>
    decreases n,
{
    if n <= 0 {
        mem
    } else {
        spec_dump(mem, i, regs, n - 1).update(i as int + (n - 1), regs[n - 1])
    }
}

/// The register file after registers 0 through `n - 1` are filled from
/// consecutive addresses starting at the index address.
pub open spec fn spec_load_regs(regs: Seq<u8>, mem: Seq<u8>, i: u16, n: int) -> Seq<u8>
    decreases n,
{
    if n <= 0 {
        regs
    } else {
        spec_load_regs(regs, mem, i, n - 1).update(n - 1, mem[i as int + (n - 1)])
    }
}

/// The memory region after a program image is loaded: the font glyph table
/// at the lowest addresses, the image behind the entry offset, everything
/// else untouched.
pub open spec fn spec_loaded(mem: Seq<u8>, prog: Seq<u8>) -> Seq<u8> {
    Seq::new(
        MEM_SIZE as nat,
        |k: int|
            if k < 80 {
                font_map()[k]
            } else if PROGRAM_ENTRY <= k < PROGRAM_ENTRY + prog.len() {
                prog[k - PROGRAM_ENTRY]
            } else {
                mem[k]
            },
    )
}

/// One fetch-decode-execute step as a function of the prior state and the
/// byte that the randomized-load instruction draws. Every instruction either
/// yields the next state or a fault that identifies what went wrong; a
/// faulting step changes nothing.
pub open spec fn step_spec(pre: CpuView, rnd: u8) -> Result<CpuView, Fault> {
    if pre.pc as int + 1 >= MEM_SIZE {
        Err(Fault::AddressOutOfRange { pc: pre.pc })
    } else {
        let w = spec_fetch(pre);
        let x = spec_x(w) as int;
        let y = spec_y(w) as int;
        let nn = spec_nn(w) as u8;
        let nnn = spec_nnn(w);
        let pc2 = (pre.pc + 2) as u16;
        match spec_first(w) {
            0u16 => {
                if nn == 0xE0 {
                    Ok(
                        CpuView {
                            frame: Seq::new((64 * 32) as nat, |k: int| 0u8),
                            pc: pc2,
                            ..pre
                        },
                    )
                } else if nn == 0xEE {
                    if pre.sp == 0 {
                        Err(Fault::StackUnderflow { pc: pre.pc })
                    } else {
                        Ok(
                            CpuView {
                                sp: (pre.sp - 1) as u16,
                                pc: pre.stack[pre.sp as int - 1],
                                ..pre
                            },
                        )
                    }
                } else {
                    Err(Fault::UnknownOpcode { pc: pre.pc, opcode: w })
                }
            },
            1u16 => Ok(CpuView { pc: nnn, ..pre }),
            2u16 => {
                if pre.sp as int >= STACK_SIZE {
                    Err(Fault::StackOverflow { pc: pre.pc })
                } else {
                    Ok(
                        CpuView {
                            stack: pre.stack.update(pre.sp as int, pc2),
                            sp: (pre.sp + 1) as u16,
                            pc: nnn,
                            ..pre
                        },
                    )
                }
            },
            3u16 => spec_skip(pre, pre.regs[x] == nn),
            4u16 => spec_skip(pre, pre.regs[x] != nn),
            5u16 => spec_skip(pre, pre.regs[x] == pre.regs[y]),
            6u16 => Ok(CpuView { regs: pre.regs.update(x, nn), pc: pc2, ..pre }),
            7u16 => Ok(
                CpuView { regs: pre.regs.update(x, wrap_add(pre.regs[x], nn)), pc: pc2, ..pre },
            ),
            8u16 => {
                match spec_last(w) {
                    0u16 => Ok(CpuView { regs: pre.regs.update(x, pre.regs[y]), pc: pc2, ..pre }),
                    1u16 => Ok(
                        CpuView {
                            regs: pre.regs.update(x, pre.regs[x] | pre.regs[y]),
                            pc: pc2,
                            ..pre
                        },
                    ),
                    2u16 => Ok(
                        CpuView {
                            regs: pre.regs.update(x, pre.regs[x] & pre.regs[y]),
                            pc: pc2,
                            ..pre
                        },
                    ),
                    3u16 => Ok(
                        CpuView {
                            regs: pre.regs.update(x, pre.regs[x] ^ pre.regs[y]),
                            pc: pc2,
                            ..pre
                        },
                    ),
                    4u16 => {
                        let res = wrap_add(pre.regs[x], pre.regs[y]);
                        let f: u8 = if pre.regs[x] + pre.regs[y] >= 256 {
                            1
                        } else {
                            0
                        };
                        Ok(CpuView { regs: pre.regs.update(x, res).update(15, f), pc: pc2, ..pre })
                    },
                    5u16 => {
                        let res = wrap_sub(pre.regs[x], pre.regs[y]);
                        let f: u8 = if pre.regs[x] < pre.regs[y] {
                            1
                        } else {
                            0
                        };
                        Ok(CpuView { regs: pre.regs.update(x, res).update(15, f), pc: pc2, ..pre })
                    },
                    6u16 => {
                        let r1 = pre.regs.update(15, pre.regs[x] & 0x1);
                        Ok(CpuView { regs: r1.update(x, r1[x] >> 1u8), pc: pc2, ..pre })
                    },
                    7u16 => {
                        let res = wrap_sub(pre.regs[y], pre.regs[x]);
                        let f: u8 = if pre.regs[y] < pre.regs[x] {
                            1
                        } else {
                            0
                        };
                        Ok(CpuView { regs: pre.regs.update(x, res).update(15, f), pc: pc2, ..pre })
                    },
                    0xEu16 => {
                        let r1 = pre.regs.update(15, (pre.regs[x] >> 7u8) & 0x1);
                        Ok(CpuView { regs: r1.update(x, r1[x] << 1u8), pc: pc2, ..pre })
                    },
                    _ => Err(Fault::UnknownOpcode { pc: pre.pc, opcode: w }),
                }
            },
            9u16 => spec_skip(pre, pre.regs[x] != pre.regs[y]),
            0xAu16 => Ok(CpuView { i: nnn, pc: pc2, ..pre }),
            0xBu16 => Ok(CpuView { pc: (nnn + pre.regs[0] as u16) as u16, ..pre }),
            0xCu16 => Ok(CpuView { regs: pre.regs.update(x, rnd & nn), pc: pc2, ..pre }),
            0xDu16 => {
                let h = spec_last(w) as int;
                if h > 0 && pre.i as int + h - 1 >= MEM_SIZE {
                    Err(Fault::AddressOutOfRange { pc: pre.pc })
                } else {
                    let drawn = draw_sprite_rows(
                        pre.frame,
                        pre.memory,
                        pre.i,
                        pre.regs[x],
                        pre.regs[y],
                        h,
                    );
                    Ok(
                        CpuView {
                            frame: drawn.0,
                            frame_completed: true,
                            draw_flag: true,
                            regs: pre.regs.update(
                                15,
                                if drawn.1 {
                                    1u8
                                } else {
                                    0u8
                                },
                            ),
                            pc: pc2,
                            ..pre
                        },
                    )
                }
            },
            0xEu16 => {
                if nn == 0x9E {
                    if pre.regs[x] as int >= 16 {
                        Err(Fault::KeyOutOfRange { pc: pre.pc })
                    } else {
                        spec_skip(pre, pre.keyboard[pre.regs[x] as int])
                    }
                } else if nn == 0xA1 {
                    if pre.regs[x] as int >= 16 {
                        Err(Fault::KeyOutOfRange { pc: pre.pc })
                    } else {
                        spec_skip(pre, !pre.keyboard[pre.regs[x] as int])
                    }
                } else {
                    Err(Fault::UnknownOpcode { pc: pre.pc, opcode: w })
                }
            },
            0xFu16 => {
                match spec_nn(w) {
                    0x07u16 => Ok(
                        CpuView { regs: pre.regs.update(x, pre.timers[1]), pc: pc2, ..pre },
                    ),
                    0x0Au16 => {
                        if pre.wait_for_key && pre.key_received {
                            Ok(
                                CpuView {
                                    wait_for_key: false,
                                    key_received: false,
                                    regs: pre.regs.update(x, pre.key),
                                    pc: pc2,
                                    ..pre
                                },
                            )
                        } else {
                            Ok(CpuView { wait_for_key: true, ..pre })
                        }
                    },
                    0x15u16 => Ok(
                        CpuView { timers: pre.timers.update(1, pre.regs[x]), pc: pc2, ..pre },
                    ),
                    0x18u16 => Ok(
                        CpuView { timers: pre.timers.update(0, pre.regs[x]), pc: pc2, ..pre },
                    ),
                    0x1Eu16 => {
                        let sum = pre.i + pre.regs[x];
                        if sum > 0xFFFF {
                            Err(Fault::AddressOutOfRange { pc: pre.pc })
                        } else {
                            let f: u8 = if sum > 0xFFF {
                                1
                            } else {
                                0
                            };
                            Ok(
                                CpuView {
                                    i: sum as u16,
                                    regs: pre.regs.update(15, f),
                                    pc: pc2,
                                    ..pre
                                },
                            )
                        }
                    },
                    0x29u16 => Ok(
                        CpuView { i: (pre.regs[x] as int * 5) as u16, pc: pc2, ..pre },
                    ),
                    0x33u16 => {
                        if pre.i as int + 2 >= MEM_SIZE {
                            Err(Fault::AddressOutOfRange { pc: pre.pc })
                        } else {
                            Ok(
                                CpuView {
                                    memory: spec_bcd(pre.memory, pre.i, pre.regs[x]),
                                    pc: pc2,
                                    ..pre
                                },
                            )
                        }
                    },
                    0x55u16 => {
                        if pre.i as int + x >= MEM_SIZE {
                            Err(Fault::AddressOutOfRange { pc: pre.pc })
                        } else {
                            Ok(
                                CpuView {
                                    memory: spec_dump(pre.memory, pre.i, pre.regs, x + 1),
                                    pc: pc2,
                                    ..pre
                                },
                            )
                        }
                    },
                    0x65u16 => {
                        if pre.i as int + x >= MEM_SIZE {
                            Err(Fault::AddressOutOfRange { pc: pre.pc })
                        } else {
                            Ok(
                                CpuView {
                                    regs: spec_load_regs(pre.regs, pre.memory, pre.i, x + 1),
                                    pc: pc2,
                                    ..pre
                                },
                            )
                        }
                    },
                    _ => Err(Fault::UnknownOpcode { pc: pre.pc, opcode: w }),
                }
            },
            _ => Err(Fault::UnknownOpcode { pc: pre.pc, opcode: w }),
        }
    }
}

/// The interpreter: registers, call stack, timers, memory, keyboard state and
/// the frame buffer it draws into. One instruction is executed per `execute`
/// call; the timers are decremented by `tick` at an independent rate.
pub struct CPU {
    // Internal registers
    pub regs: Vec<u8>,
    pub sp: u16,
    pub pc: u16,
    pub i: u16,
    pub timers: Vec<u8>,
    // Internal memory
    pub frame_buf: FrameBuffer<u8>,
    pub memory: Vec<u8>,
    pub stack: Vec<u16>,
    // User input
    pub keyboard: Vec<bool>,
    // Emulator specific
    pub draw_flag: bool,
    pub wait_for_key: bool,
    pub key_received: bool,
    pub key: u8,
}

impl View for CPU {
    type V = CpuView;

    open spec fn view(&self) -> CpuView {
        CpuView {
            regs: self.regs@,
            sp: self.sp,
            pc: self.pc,
            i: self.i,
            timers: self.timers@,
            frame: self.frame_buf.pixels(),
            frame_completed: self.frame_buf.spec_completed(),
            memory: self.memory@,
            stack: self.stack@,
            keyboard: self.keyboard@,
            draw_flag: self.draw_flag,
            wait_for_key: self.wait_for_key,
            key_received: self.key_received,
            key: self.key,
        }
    }
}

impl CPU {
    /// Every component has its fixed size and the frame buffer its fixed
    /// dimensions.
    pub open spec fn wf(&self) -> bool {
        &&& self@.wf()
        &&& self.frame_buf.wf()
        &&& self.frame_buf.spec_width() == 64
        &&& self.frame_buf.spec_height() == 32
    }

    /// A freshly constructed interpreter with everything zeroed and the
    /// program counter at the entry offset.
    pub fn new() -> (r: Self)
        ensures
            r.wf(),
            r@ == CpuView::initial(),
    {
        let cpu = Self {
            regs: filled_vec(16, 0u8),
            sp: 0,
            pc: PROGRAM_ENTRY,
            i: 0,
            timers: filled_vec(2, 0u8),
            frame_buf: FrameBuffer::new(64, 32, 0u8),
            memory: filled_vec(MEM_SIZE, 0u8),
            stack: filled_vec(STACK_SIZE, 0u16),
            keyboard: filled_vec(16, false),
            draw_flag: false,
            wait_for_key: false,
            key_received: false,
            key: 0,
        };
        proof {
            assert(cpu@ =~= CpuView::initial());
        }
        cpu
    }

    /// Copies the font glyph table to the lowest addresses and the program
    /// image behind the entry offset. An image too large for the memory
    /// region is rejected before anything is written.
    pub fn load_program(&mut self, binary: &[u8]) -> (r: Result<(), Fault>)
        requires
            old(self).wf(),
        ensures
            final(self).wf(),
            match r {
                Ok(()) => {
                    &&& binary@.len() <= MEM_SIZE - PROGRAM_ENTRY
                    &&& final(self)@ == (CpuView {
                        memory: spec_loaded(old(self)@.memory, binary@),
                        ..old(self)@
                    })
                },
                Err(f) => {
                    &&& binary@.len() > MEM_SIZE - PROGRAM_ENTRY
                    &&& f == (Fault::ProgramTooLarge { size: binary@.len() as usize })
                    &&& final(self)@ == old(self)@
                },
            },
    {
        if binary.len() > MEM_SIZE - (PROGRAM_ENTRY as usize) {
            return Err(Fault::ProgramTooLarge { size: binary.len() });
        }
        let font = font_charmap();
        let mut k: usize = 0;
        while k < 80
            invariant
                self.wf(),
                k <= 80,
                font@ == font_map(),
                self@ == (CpuView { memory: self@.memory, ..old(self)@ }),
                forall|j: int| 0 <= j < k ==> self@.memory[j] == font_map()[j],
                forall|j: int| k <= j < MEM_SIZE ==> self@.memory[j] == old(self)@.memory[j],
            decreases 80 - k,
        {
            self.memory[k] = font[k];
            k = k + 1;
        }
        let len = binary.len();
        let mut b: usize = 0;
        while b < len
            invariant
                self.wf(),
                b <= len,
                len == binary@.len(),
                len <= MEM_SIZE - PROGRAM_ENTRY,
                self@ == (CpuView { memory: self@.memory, ..old(self)@ }),
                forall|j: int| 0 <= j < 80 ==> self@.memory[j] == font_map()[j],
                forall|j: int|
                    PROGRAM_ENTRY <= j < PROGRAM_ENTRY + b ==> self@.memory[j] == binary@[j
                        - PROGRAM_ENTRY],
                forall|j: int|
                    80 <= j < MEM_SIZE && !(PROGRAM_ENTRY <= j < PROGRAM_ENTRY + b)
                        ==> self@.memory[j] == old(self)@.memory[j],
            decreases len - b,
        {
            self.memory[PROGRAM_ENTRY as usize + b] = binary[b];
            b = b + 1;
        }
        proof {
            assert(self@.memory =~= spec_loaded(old(self)@.memory, binary@));
            assert(self@ =~= (CpuView {
                memory: spec_loaded(old(self)@.memory, binary@),
                ..old(self)@
            }));
        }
        Ok(())
    }

    /// Decrements each countdown timer that is nonzero.
    pub fn tick(&mut self)
        requires
            old(self).wf(),
        ensures
            final(self).wf(),
            final(self)@ == (CpuView {
                timers: old(self)@.timers.update(1, count_down(old(self)@.timers[1])).update(
                    0,
                    count_down(old(self)@.timers[0]),
                ),
                ..old(self)@
            }),
    {
        if self.timers[DELAY] > 0 {
            let v = self.timers[DELAY];
            self.timers[DELAY] = v - 1;
        }
        if self.timers[SOUND] > 0 {
            let v = self.timers[SOUND];
            self.timers[SOUND] = v - 1;
        }
        proof {
            assert(self@.timers =~= old(self)@.timers.update(
                1,
                count_down(old(self)@.timers[1]),
            ).update(0, count_down(old(self)@.timers[0])));
        }
    }

    /// Marks the key as pressed; while a key-wait is pending, also latches the
    /// key value and the "received" flag.
    pub fn press_key(&mut self, key: u8)
        requires
            old(self).wf(),
            key < 16,
        ensures
            final(self).wf(),
            final(self)@ == (CpuView {
                keyboard: old(self)@.keyboard.update(key as int, true),
                key_received: old(self)@.wait_for_key || old(self)@.key_received,
                key: if old(self)@.wait_for_key {
                    key
                } else {
                    old(self)@.key
                },
                ..old(self)@
            }),
    {
        self.keyboard[key as usize] = true;
        if self.wait_for_key {
            self.key_received = true;
            self.key = key;
        }
    }

    /// Marks the key as released, unconditionally.
    pub fn release_key(&mut self, key: u8)
        requires
            old(self).wf(),
            key < 16,
        ensures
            final(self).wf(),
            final(self)@ == (CpuView {
                keyboard: old(self)@.keyboard.update(key as int, false),
                ..old(self)@
            }),
    {
        self.keyboard[key as usize] = false;
    }

    /// The big-endian instruction word at the program counter.
    fn read_opcode(&self) -> (r: Opcode)
        requires
            self.wf(),
            self.pc as int + 1 < MEM_SIZE,
        ensures
            r.value == spec_fetch(self@),
    {
        let high = self.memory[self.pc as usize] as u16;
        let low = self.memory[self.pc as usize + 1] as u16;
        Opcode { value: (high << 8u16) | low }
    }

    /// Fetches the big-endian word at the program counter, decodes it, and
    /// dispatches on it: one full fetch-decode-execute step. The new state is
    /// exactly what `step_spec` yields from the prior state and the byte that
    /// the randomized-load instruction drew; a step that faults reports why
    /// and changes nothing.
    pub fn execute(&mut self) -> (r: Result<(), Fault>)
        requires
            old(self).wf(),
        ensures
            final(self).wf(),
            match r {
                Ok(()) => exists|rnd: u8|
                    (#[trigger] step_spec(old(self)@, rnd)) == Ok::<CpuView, Fault>(final(self)@),
                Err(f) => final(self)@ == old(self)@ && forall|rnd: u8|
                    (#[trigger] step_spec(old(self)@, rnd)) == Err::<CpuView, Fault>(f),
            },
    {
        if self.pc >= 0xFFFE {
            return Err(Fault::AddressOutOfRange { pc: self.pc });
        }
        let opcode = self.read_opcode();
        proof {
            lemma_field_ranges(opcode.value);
        }
        match opcode.first() {
            0x0 => self.op_sys(opcode),
            0x1 | 0x2 | 0xA | 0xB => self.op_flow(opcode),
            0x3 | 0x4 | 0x5 | 0x9 => self.op_skip_cmp(opcode),
            0x6 | 0x7 => self.op_imm(opcode),
            0x8 => self.op_alu(opcode),
            0xC => self.op_rand(opcode),
            0xD => self.op_draw(opcode),
            0xE => self.op_key_skip(opcode),
            0xF => {
                let nn16 = opcode.nn();
                if nn16 == 0x33 || nn16 == 0x55 || nn16 == 0x65 {
                    self.op_fx_mem(opcode)
                } else {
                    self.op_fx_regs(opcode)
                }
            },
            _ => {
                proof {
                    assert(false);
                }
                Err(Fault::UnknownOpcode { pc: self.pc, opcode: opcode.value })
            },
        }
    }

    /// Display clear and subroutine return.
    fn op_sys(&mut self, opcode: Opcode) -> (r: Result<(), Fault>)
        requires
            old(self).wf(),
            old(self).pc as int + 1 < MEM_SIZE,
            opcode.value == spec_fetch(old(self)@),
            spec_first(opcode.value) == 0x0,
        ensures
            final(self).wf(),
            match r {
                Ok(()) => exists|rnd: u8|
                    (#[trigger] step_spec(old(self)@, rnd)) == Ok::<CpuView, Fault>(final(self)@),
                Err(f) => final(self)@ == old(self)@ && forall|rnd: u8|
                    (#[trigger] step_spec(old(self)@, rnd)) == Err::<CpuView, Fault>(f),
            },
    {
        let ghost pre = self@;
        proof {
            lemma_field_ranges(opcode.value);
        }
        match opcode.nn() {
            0xE0 => {
                // Clear display
                self.frame_buf.clear(0x00);
                self.pc = self.pc + 2;
                proof {
                    assert(step_spec(pre, 0) matches Ok(v) && v =~= self@);
                }
            },
            0xEE => {
                // Return from subroutine
                if self.sp == 0 {
                    return Err(Fault::StackUnderflow { pc: self.pc });
                }
                self.sp = self.sp - 1;
                let ra = self.stack[self.sp as usize];
                self.pc = ra;
                proof {
                    assert(step_spec(pre, 0) matches Ok(v) && v =~= self@);
                }
            },
            _ => {
                return Err(Fault::UnknownOpcode { pc: self.pc, opcode: opcode.value });
            },
        }
        Ok(())
    }

    /// Unconditional jump, subroutine call, address-register load, and the
    /// register-relative jump.
    fn op_flow(&mut self, opcode: Opcode) -> (r: Result<(), Fault>)
        requires
            old(self).wf(),
            old(self).pc as int + 1 < MEM_SIZE,
            opcode.value == spec_fetch(old(self)@),
            spec_first(opcode.value) == 0x1 || spec_first(opcode.value) == 0x2 || spec_first(
                opcode.value,
            ) == 0xA || spec_first(opcode.value) == 0xB,
        ensures
            final(self).wf(),
            match r {
                Ok(()) => exists|rnd: u8|
                    (#[trigger] step_spec(old(self)@, rnd)) == Ok::<CpuView, Fault>(final(self)@),
                Err(f) => final(self)@ == old(self)@ && forall|rnd: u8|
                    (#[trigger] step_spec(old(self)@, rnd)) == Err::<CpuView, Fault>(f),
            },
    {
        let ghost pre = self@;
        proof {
            lemma_field_ranges(opcode.value);
        }
        let nnn = opcode.nnn();
        match opcode.first() {
            0x1 => {
                // Goto NNN
                self.pc = nnn;
            },
            0x2 => {
                // Call NNN
                if self.sp as usize >= STACK_SIZE {
                    return Err(Fault::StackOverflow { pc: self.pc });
                }
                self.stack[self.sp as usize] = self.pc + 2;
                self.sp = self.sp + 1;
                self.pc = nnn;
            },
            0xA => {
                // I = NNN
                self.i = nnn;
                self.pc = self.pc + 2;
            },
            _ => {
                // Goto NNN + V0
                let v = self.regs[V0];
                self.pc = nnn + v as u16;
            },
        }
        proof {
            assert(step_spec(pre, 0) matches Ok(v) && v =~= self@);
        }
        Ok(())
    }

    /// The four conditional skips that compare registers and immediates.
    fn op_skip_cmp(&mut self, opcode: Opcode) -> (r: Result<(), Fault>)
        requires
            old(self).wf(),
            old(self).pc as int + 1 < MEM_SIZE,
            opcode.value == spec_fetch(old(self)@),
            spec_first(opcode.value) == 0x3 || spec_first(opcode.value) == 0x4 || spec_first(
                opcode.value,
            ) == 0x5 || spec_first(opcode.value) == 0x9,
        ensures
            final(self).wf(),
            match r {
                Ok(()) => exists|rnd: u8|
                    (#[trigger] step_spec(old(self)@, rnd)) == Ok::<CpuView, Fault>(final(self)@),
                Err(f) => final(self)@ == old(self)@ && forall|rnd: u8|
                    (#[trigger] step_spec(old(self)@, rnd)) == Err::<CpuView, Fault>(f),
            },
    {
        let ghost pre = self@;
        proof {
            lemma_field_ranges(opcode.value);
        }
        let vx = opcode.x() as usize;
        let vy = opcode.y() as usize;
        let nn8 = opcode.nn() as u8;
        let first = opcode.first();
        let cond = if first == 0x3 {
            // Skip next instruction if VX == NN
            self.regs[vx] == nn8
        } else if first == 0x4 {
            // Skip next instruction if VX != NN
            self.regs[vx] != nn8
        } else if first == 0x5 {
            // Skip next instruction if VX == VY
            self.regs[vx] == self.regs[vy]
        } else {
            // Skip next instruction if VX != VY
            self.regs[vx] != self.regs[vy]
        };
        if let Err(f) = self.skip_if(cond) {
            return Err(f);
        }
        proof {
            assert(step_spec(pre, 0) matches Ok(v) && v =~= self@);
        }
        Ok(())
    }

    /// Immediate load and the wrapping immediate add, which sets no flag.
    fn op_imm(&mut self, opcode: Opcode) -> (r: Result<(), Fault>)
        requires
            old(self).wf(),
            old(self).pc as int + 1 < MEM_SIZE,
            opcode.value == spec_fetch(old(self)@),
            spec_first(opcode.value) == 0x6 || spec_first(opcode.value) == 0x7,
        ensures
            final(self).wf(),
            match r {
                Ok(()) => exists|rnd: u8|
                    (#[trigger] step_spec(old(self)@, rnd)) == Ok::<CpuView, Fault>(final(self)@),
                Err(f) => final(self)@ == old(self)@ && forall|rnd: u8|
                    (#[trigger] step_spec(old(self)@, rnd)) == Err::<CpuView, Fault>(f),
            },
    {
        let ghost pre = self@;
        proof {
            lemma_field_ranges(opcode.value);
        }
        let vx = opcode.x() as usize;
        let nn8 = opcode.nn() as u8;
        if opcode.first() == 0x6 {
            // VX = NN
            self.regs[vx] = nn8;
        } else {
            // VX += NN, wrapping, no flag
            let v = self.regs[vx];
            self.regs[vx] = v.wrapping_add(nn8);
        }
        self.pc = self.pc + 2;
        proof {
            assert(step_spec(pre, 0) matches Ok(v) && v =~= self@);
        }
        Ok(())
    }

    /// The eight register-register operations, with their literal carry,
    /// borrow and shift-bit flag conventions.
    fn op_alu(&mut self, opcode: Opcode) -> (r: Result<(), Fault>)
        requires
            old(self).wf(),
            old(self).pc as int + 1 < MEM_SIZE,
            opcode.value == spec_fetch(old(self)@),
            spec_first(opcode.value) == 0x8,
        ensures
            final(self).wf(),
            match r {
                Ok(()) => exists|rnd: u8|
                    (#[trigger] step_spec(old(self)@, rnd)) == Ok::<CpuView, Fault>(final(self)@),
                Err(f) => final(self)@ == old(self)@ && forall|rnd: u8|
                    (#[trigger] step_spec(old(self)@, rnd)) == Err::<CpuView, Fault>(f),
            },
    {
        let ghost pre = self@;
        proof {
            lemma_field_ranges(opcode.value);
        }
        let vx = opcode.x() as usize;
        let vy = opcode.y() as usize;
        match opcode.last() {
            0x0 => {
                // VX = VY
                let v = self.regs[vy];
                self.regs[vx] = v;
            },
            0x1 => {
                // VX |= VY
                let a = self.regs[vx];
                let b = self.regs[vy];
                self.regs[vx] = a | b;
            },
            0x2 => {
                // VX &= VY
                let a = self.regs[vx];
                let b = self.regs[vy];
                self.regs[vx] = a & b;
            },
            0x3 => {
                // VX ^= VY
                let a = self.regs[vx];
                let b = self.regs[vy];
                self.regs[vx] = a ^ b;
            },
            0x4 => {
                // VX += VY, VF = 1 iff the addition wrapped
                let a = self.regs[vx];
                let b = self.regs[vy];
                self.regs[vx] = a.wrapping_add(b);
                self.regs[VF] = if a as u16 + b as u16 >= 256 {
                    1
                } else {
                    0
                };
            },
            0x5 => {
                // VX -= VY, VF = 1 iff the subtraction wrapped
                let a = self.regs[vx];
                let b = self.regs[vy];
                self.regs[vx] = a.wrapping_sub(b);
                self.regs[VF] = if a < b {
                    1
                } else {
                    0
                };
            },
            0x6 => {
                // VX >>= 1, VF = bit 0 of VX before the shift
                let a = self.regs[vx];
                self.regs[VF] = a & 0x1;
                let cur = self.regs[vx];
                self.regs[vx] = cur >> 1u8;
            },
            0x7 => {
                // VX = VY - VX, VF = 1 iff the subtraction wrapped
                let a = self.regs[vx];
                let b = self.regs[vy];
                self.regs[vx] = b.wrapping_sub(a);
                self.regs[VF] = if b < a {
                    1
                } else {
                    0
                };
            },
            0xE => {
                // VX <<= 1, VF = bit 7 of VX before the shift
                let a = self.regs[vx];
                self.regs[VF] = (a >> 7u8) & 0x1;
                let cur = self.regs[vx];
                self.regs[vx] = cur << 1u8;
            },
            _ => {
                return Err(Fault::UnknownOpcode { pc: self.pc, opcode: opcode.value });
            },
        }
        self.pc = self.pc + 2;
        proof {
            assert(step_spec(pre, 0) matches Ok(v) && v =~= self@);
        }
        Ok(())
    }

    /// The randomized masked load.
    fn op_rand(&mut self, opcode: Opcode) -> (r: Result<(), Fault>)
        requires
            old(self).wf(),
            old(self).pc as int + 1 < MEM_SIZE,
            opcode.value == spec_fetch(old(self)@),
            spec_first(opcode.value) == 0xC,
        ensures
            final(self).wf(),
            match r {
                Ok(()) => exists|rnd: u8|
                    (#[trigger] step_spec(old(self)@, rnd)) == Ok::<CpuView, Fault>(final(self)@),
                Err(f) => final(self)@ == old(self)@ && forall|rnd: u8|
                    (#[trigger] step_spec(old(self)@, rnd)) == Err::<CpuView, Fault>(f),
            },
    {
        let ghost pre = self@;
        proof {
            lemma_field_ranges(opcode.value);
        }
        let vx = opcode.x() as usize;
        let nn8 = opcode.nn() as u8;
        // VX = rand() & NN
        let rand_v = random_byte();
        self.regs[vx] = rand_v & nn8;
        self.pc = self.pc + 2;
        proof {
            assert(step_spec(pre, rand_v) matches Ok(v) && v =~= self@);
        }
        Ok(())
    }

    /// The sprite draw.
    fn op_draw(&mut self, opcode: Opcode) -> (r: Result<(), Fault>)
        requires
            old(self).wf(),
            old(self).pc as int + 1 < MEM_SIZE,
            opcode.value == spec_fetch(old(self)@),
            spec_first(opcode.value) == 0xD,
        ensures
            final(self).wf(),
            match r {
                Ok(()) => exists|rnd: u8|
                    (#[trigger] step_spec(old(self)@, rnd)) == Ok::<CpuView, Fault>(final(self)@),
                Err(f) => final(self)@ == old(self)@ && forall|rnd: u8|
                    (#[trigger] step_spec(old(self)@, rnd)) == Err::<CpuView, Fault>(f),
            },
    {
        let ghost pre = self@;
        proof {
            lemma_field_ranges(opcode.value);
        }
        let vx = opcode.x() as usize;
        let vy = opcode.y() as usize;
        let last = opcode.last();
        if last > 0 {
            if self.i as usize + (last as usize - 1) >= MEM_SIZE {
                return Err(Fault::AddressOutOfRange { pc: self.pc });
            }
        }
        let xv = self.regs[vx];
        let yv = self.regs[vy];
        let flipped = self.draw_sprite(xv, yv, last as u8);
        self.draw_flag = true;
        self.regs[VF] = if flipped {
            1
        } else {
            0
        };
        self.frame_buf.request_draw();
        self.pc = self.pc + 2;
        proof {
            assert(step_spec(pre, 0) matches Ok(v) && v =~= self@);
        }
        Ok(())
    }

    /// The two key-state skips.
    fn op_key_skip(&mut self, opcode: Opcode) -> (r: Result<(), Fault>)
        requires
            old(self).wf(),
            old(self).pc as int + 1 < MEM_SIZE,
            opcode.value == spec_fetch(old(self)@),
            spec_first(opcode.value) == 0xE,
        ensures
            final(self).wf(),
            match r {
                Ok(()) => exists|rnd: u8|
                    (#[trigger] step_spec(old(self)@, rnd)) == Ok::<CpuView, Fault>(final(self)@),
                Err(f) => final(self)@ == old(self)@ && forall|rnd: u8|
                    (#[trigger] step_spec(old(self)@, rnd)) == Err::<CpuView, Fault>(f),
            },
    {
        let ghost pre = self@;
        proof {
            lemma_field_ranges(opcode.value);
        }
        let vx = opcode.x() as usize;
        let kv = self.regs[vx];
        match opcode.nn() {
            0x9E => {
                // Skip next instruction if key[VX] is pressed
                if kv >= 16 {
                    return Err(Fault::KeyOutOfRange { pc: self.pc });
                }
                let cond = self.keyboard[kv as usize];
                if let Err(f) = self.skip_if(cond) {
                    return Err(f);
                }
                proof {
                    assert(step_spec(pre, 0) matches Ok(v) && v =~= self@);
                }
            },
            0xA1 => {
                // Skip next instruction if key[VX] is not pressed
                if kv >= 16 {
                    return Err(Fault::KeyOutOfRange { pc: self.pc });
                }
                let cond = !self.keyboard[kv as usize];
                if let Err(f) = self.skip_if(cond) {
                    return Err(f);
                }
                proof {
                    assert(step_spec(pre, 0) matches Ok(v) && v =~= self@);
                }
            },
            _ => {
                return Err(Fault::UnknownOpcode { pc: self.pc, opcode: opcode.value });
            },
        }
        Ok(())
    }

    /// The timer transfers, the blocking key-wait, the address-register add,
    /// and the font-glyph address lookup.
    fn op_fx_regs(&mut self, opcode: Opcode) -> (r: Result<(), Fault>)
        requires
            old(self).wf(),
            old(self).pc as int + 1 < MEM_SIZE,
            opcode.value == spec_fetch(old(self)@),
            spec_first(opcode.value) == 0xF,
            spec_nn(opcode.value) != 0x33 && spec_nn(opcode.value) != 0x55 && spec_nn(
                opcode.value,
            ) != 0x65,
        ensures
            final(self).wf(),
            match r {
                Ok(()) => exists|rnd: u8|
                    (#[trigger] step_spec(old(self)@, rnd)) == Ok::<CpuView, Fault>(final(self)@),
                Err(f) => final(self)@ == old(self)@ && forall|rnd: u8|
                    (#[trigger] step_spec(old(self)@, rnd)) == Err::<CpuView, Fault>(f),
            },
    {
        let ghost pre = self@;
        proof {
            lemma_field_ranges(opcode.value);
        }
        let vx = opcode.x() as usize;
        match opcode.nn() {
            0x07 => {
                // VX = delay
                let t = self.timers[DELAY];
                self.regs[vx] = t;
                self.pc = self.pc + 2;
                proof {
                    assert(step_spec(pre, 0) matches Ok(v) && v =~= self@);
                }
            },
            0x0A => {
                // Wait for keypress
                if self.wait_for_key && self.key_received {
                    self.wait_for_key = false;
                    self.key_received = false;
                    let k = self.key;
                    self.regs[vx] = k;
                    self.pc = self.pc + 2;
                } else {
                    self.wait_for_key = true;
                }
                proof {
                    assert(step_spec(pre, 0) matches Ok(v) && v =~= self@);
                }
            },
            0x15 => {
                // delay = VX
                let v = self.regs[vx];
                self.timers[DELAY] = v;
                self.pc = self.pc + 2;
                proof {
                    assert(step_spec(pre, 0) matches Ok(v) && v =~= self@);
                }
            },
            0x18 => {
                // sound = VX
                let v = self.regs[vx];
                self.timers[SOUND] = v;
                self.pc = self.pc + 2;
                proof {
                    assert(step_spec(pre, 0) matches Ok(v) && v =~= self@);
                }
            },
            0x1E => {
                // I += VX, VF = 1 iff the sum leaves the 12-bit space
                let add_v = self.regs[vx];
                let sum: u32 = self.i as u32 + add_v as u32;
                if sum > 0xFFFF {
                    return Err(Fault::AddressOutOfRange { pc: self.pc });
                }
                self.i = sum as u16;
                self.regs[VF] = if sum > 0xFFF {
                    1
                } else {
                    0
                };
                self.pc = self.pc + 2;
                proof {
                    assert(step_spec(pre, 0) matches Ok(v) && v =~= self@);
                }
            },
            0x29 => {
                // I = sprite_addr[VX]
                let d = self.regs[vx];
                self.i = (d as u16) * 5;
                self.pc = self.pc + 2;
                proof {
                    assert(step_spec(pre, 0) matches Ok(v) && v =~= self@);
                }
            },
            _ => {
                return Err(Fault::UnknownOpcode { pc: self.pc, opcode: opcode.value });
            },
        }
        Ok(())
    }

    /// The decimal decomposition and the block register dump and reload.
    fn op_fx_mem(&mut self, opcode: Opcode) -> (r: Result<(), Fault>)
        requires
            old(self).wf(),
            old(self).pc as int + 1 < MEM_SIZE,
            opcode.value == spec_fetch(old(self)@),
            spec_first(opcode.value) == 0xF,
            spec_nn(opcode.value) == 0x33 || spec_nn(opcode.value) == 0x55 || spec_nn(
                opcode.value,
            ) == 0x65,
        ensures
            final(self).wf(),
            match r {
                Ok(()) => exists|rnd: u8|
                    (#[trigger] step_spec(old(self)@, rnd)) == Ok::<CpuView, Fault>(final(self)@),
                Err(f) => final(self)@ == old(self)@ && forall|rnd: u8|
                    (#[trigger] step_spec(old(self)@, rnd)) == Err::<CpuView, Fault>(f),
            },
    {
        let ghost pre = self@;
        proof {
            lemma_field_ranges(opcode.value);
        }
        let vx = opcode.x() as usize;
        match opcode.nn() {
            0x33 => {
                // Store BCD(VX) at I
                if self.i as usize + 2 >= MEM_SIZE {
                    return Err(Fault::AddressOutOfRange { pc: self.pc });
                }
                let offset = self.i as usize;
                let val = self.regs[vx];
                self.memory[offset] = val / 100;
                self.memory[offset + 1] = (val / 10) % 10;
                self.memory[offset + 2] = val % 10;
                self.pc = self.pc + 2;
                proof {
                    assert(step_spec(pre, 0) matches Ok(v) && v =~= self@);
                }
            },
            0x55 => {
                // Dump V0-VX at I
                if self.i as usize + vx >= MEM_SIZE {
                    return Err(Fault::AddressOutOfRange { pc: self.pc });
                }
                let mut address = self.i as usize;
                let mut k: usize = 0;
                while k < vx + 1
                    invariant
                        self.wf(),
                        k <= vx + 1,
                        vx < 16,
                        pre.i as int + vx < MEM_SIZE,
                        address == pre.i as int + k,
                        self@ == (CpuView { memory: self@.memory, ..pre }),
                        self@.memory == spec_dump(pre.memory, pre.i, pre.regs, k as int),
                    decreases vx + 1 - k,
                {
                    let v = self.regs[k];
                    self.memory[address] = v;
                    address = address + 1;
                    k = k + 1;
                }
                self.pc = self.pc + 2;
                proof {
                    assert(step_spec(pre, 0) matches Ok(v) && v =~= self@);
                }
            },
            _ => {
                // Read V0-VX from I
                if self.i as usize + vx >= MEM_SIZE {
                    return Err(Fault::AddressOutOfRange { pc: self.pc });
                }
                let mut address = self.i as usize;
                let mut k: usize = 0;
                while k < vx + 1
                    invariant
                        self.wf(),
                        k <= vx + 1,
                        vx < 16,
                        pre.i as int + vx < MEM_SIZE,
                        address == pre.i as int + k,
                        self@ == (CpuView { regs: self@.regs, ..pre }),
                        self@.regs == spec_load_regs(pre.regs, pre.memory, pre.i, k as int),
                    decreases vx + 1 - k,
                {
                    let v = self.memory[address];
                    self.regs[k] = v;
                    address = address + 1;
                    k = k + 1;
                }
                self.pc = self.pc + 2;
                proof {
                    assert(step_spec(pre, 0) matches Ok(v) && v =~= self@);
                }
            },
        }
        Ok(())
    }


    /// A conditional skip of the next instruction.
    fn skip_if(&mut self, cond: bool) -> (r: Result<(), Fault>)
        requires
            old(self).wf(),
            old(self).pc as int + 1 < MEM_SIZE,
        ensures
            final(self).wf(),
            match r {
                Ok(()) => spec_skip(old(self)@, cond) == Ok::<CpuView, Fault>(final(self)@),
                Err(f) => final(self)@ == old(self)@ && spec_skip(old(self)@, cond) == Err::<
                    CpuView,
                    Fault,
                >(f),
            },
    {
        if cond {
            if self.pc >= 0xFFFC {
                return Err(Fault::AddressOutOfRange { pc: self.pc });
            }
            self.pc = self.pc + 4;
        } else {
            self.pc = self.pc + 2;
        }
        proof {
            assert(spec_skip(old(self)@, cond)->Ok_0 =~= self@);
        }
        Ok(())
    }

    /// XOR-draws a sprite of `height` rows read from the index address, with
    /// destination coordinates wrapped bytewise and out-of-grid pixels
    /// dropped; reports whether any pixel went from unset to set.
    fn draw_sprite(&mut self, x: u8, y: u8, height: u8) -> (r: bool)
        requires
            old(self).wf(),
            height <= 15,
            height > 0 ==> old(self).i as int + height - 1 < MEM_SIZE,
        ensures
            final(self).wf(),
            ({
                let drawn = draw_sprite_rows(
                    old(self)@.frame,
                    old(self)@.memory,
                    old(self)@.i,
                    x,
                    y,
                    height as int,
                );
                &&& final(self)@ == (CpuView { frame: drawn.0, ..old(self)@ })
                &&& r == drawn.1
            }),
    {
        let mut ret = false;
        let mut row: u8 = 0;
        while row < height
            invariant
                self.wf(),
                row <= height,
                height <= 15,
                height > 0 ==> old(self).i as int + height - 1 < MEM_SIZE,
                self@ == (CpuView { frame: self@.frame, ..old(self)@ }),
                ({
                    let drawn = draw_sprite_rows(
                        old(self)@.frame,
                        old(self)@.memory,
                        old(self)@.i,
                        x,
                        y,
                        row as int,
                    );
                    self@.frame == drawn.0 && ret == drawn.1
                }),
            decreases height - row,
        {
            let line = self.memory[(self.i + row as u16) as usize];
            let cy = y.wrapping_add(row);
            let ghost row_prev = draw_sprite_rows(
                old(self)@.frame,
                old(self)@.memory,
                old(self)@.i,
                x,
                y,
                row as int,
            );
            let mut j: u8 = 0;
            while j < 8
                invariant
                    self.wf(),
                    j <= 8,
                    row < height,
                    height <= 15,
                    height > 0 ==> old(self).i as int + height - 1 < MEM_SIZE,
                    cy == wrap_add(y, row),
                    line == old(self)@.memory[old(self)@.i as int + row],
                    self@ == (CpuView { frame: self@.frame, ..old(self)@ }),
                    row_prev == draw_sprite_rows(
                        old(self)@.frame,
                        old(self)@.memory,
                        old(self)@.i,
                        x,
                        y,
                        row as int,
                    ),
                    ({
                        let cur = draw_row(row_prev.0, line, x, cy, j as int);
                        self@.frame == cur.0 && ret == (row_prev.1 || cur.1)
                    }),
                decreases 8 - j,
            {
                let mask: u8 = 1u8 << (7 - j);
                if line & mask != 0 {
                    let cx = x.wrapping_add(j);
                    if cx < 64 && cy < 32 {
                        if self.frame_buf.read(cx as u32, cy as u32) == 0x00 {
                            self.frame_buf.write(cx as u32, cy as u32, 0xFF);
                            ret = true;
                        } else {
                            self.frame_buf.write(cx as u32, cy as u32, 0x00);
                        }
                    }
                }
                proof {
                    let cur = draw_row(row_prev.0, line, x, cy, j as int);
                    let next = draw_row(row_prev.0, line, x, cy, j as int + 1);
                    assert(bit_at(line, j as int) == (line & mask != 0));
                    assert(self@.frame =~= next.0);
                }
                j = j + 1;
            }
            proof {
                let next = draw_sprite_rows(
                    old(self)@.frame,
                    old(self)@.memory,
                    old(self)@.i,
                    x,
                    y,
                    row as int + 1,
                );
                assert(self@.frame =~= next.0);
            }
            row = row + 1;
        }
        ret
    }
}

/// Relies on rand::random: draws one byte from the thread-local generator.
/// Nothing is promised of the value; callers state what holds of every
/// outcome.
#[verifier::external_body]
fn random_byte() -> u8 {
    rand::random()
}

} // verus!
