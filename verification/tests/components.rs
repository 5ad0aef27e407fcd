use chip8emu::clock::Clock;
use chip8emu::cpu::{CPU, PROGRAM_ENTRY, V0, VF};
use chip8emu::epx::EpxGPU as OwnedEpxGPU;
use chip8emu::epx_gpu::{EpxGPU, GPU};
use chip8emu::fault::Fault;
use chip8emu::frame_buffer::FrameBuffer;
use chip8emu::gpu::{ArrayGPU, GPU as DisplayGPU};
use chip8emu::keyboard::Keyboard;

#[test]
fn load_rejects_oversized_program() {
    let mut cpu = CPU::new();
    let image = vec![0u8; 0xFFFF - 0x200 + 1];
    assert_eq!(
        cpu.load_program(&image),
        Err(Fault::ProgramTooLarge { size: 0xFFFF - 0x200 + 1 })
    );
    // Nothing was written: the load never partially applies.
    assert_eq!(cpu.memory[0], 0);
    assert_eq!(cpu.memory[0x200], 0);

    let image = vec![0x60u8; 0xFFFF - 0x200];
    assert!(cpu.load_program(&image).is_ok());
    assert_eq!(cpu.memory[0x200], 0x60);
}

#[test]
fn load_places_font_at_lowest_addresses() {
    let mut cpu = CPU::new();
    cpu.load_program(&[0x00, 0xE0]).unwrap();
    // Glyph for digit 0.
    assert_eq!(&cpu.memory[0..5], &[0xF0, 0x90, 0x90, 0x90, 0xF0]);
    // Glyph for digit F.
    assert_eq!(&cpu.memory[75..80], &[0xF0, 0x80, 0xF0, 0x80, 0x80]);
    assert_eq!(&cpu.memory[0x200..0x202], &[0x00, 0xE0]);
}

#[test]
fn unknown_opcode_faults_with_address_and_word() {
    let mut cpu = CPU::new();
    cpu.load_program(&[0x00, 0x00]).unwrap();
    assert_eq!(
        cpu.execute(),
        Err(Fault::UnknownOpcode { pc: PROGRAM_ENTRY, opcode: 0x0000 })
    );
    // The faulting step changed nothing.
    assert_eq!(cpu.pc, PROGRAM_ENTRY);

    cpu.load_program(&[0x80, 0x18]).unwrap();
    assert_eq!(
        cpu.execute(),
        Err(Fault::UnknownOpcode { pc: PROGRAM_ENTRY, opcode: 0x8018 })
    );
}

#[test]
fn stack_underflow_and_overflow_fault() {
    let mut cpu = CPU::new();
    cpu.load_program(&[0x00, 0xEE]).unwrap();
    assert_eq!(cpu.execute(), Err(Fault::StackUnderflow { pc: PROGRAM_ENTRY }));

    let mut cpu = CPU::new();
    cpu.sp = 64;
    cpu.load_program(&[0x22, 0x00]).unwrap();
    assert_eq!(cpu.execute(), Err(Fault::StackOverflow { pc: PROGRAM_ENTRY }));
}

#[test]
fn address_faults() {
    // A fetch that cannot read two bytes.
    let mut cpu = CPU::new();
    cpu.pc = 0xFFFE;
    assert_eq!(cpu.execute(), Err(Fault::AddressOutOfRange { pc: 0xFFFE }));

    // An index add that would leave the 16-bit address space.
    let mut cpu = CPU::new();
    cpu.load_program(&[0xF0, 0x1E]).unwrap();
    cpu.i = 0xFFFF;
    cpu.regs[V0] = 1;
    assert_eq!(cpu.execute(), Err(Fault::AddressOutOfRange { pc: PROGRAM_ENTRY }));

    // A sprite whose rows would be read past the end of memory.
    let mut cpu = CPU::new();
    cpu.load_program(&[0xD0, 0x12]).unwrap();
    cpu.i = 0xFFFE;
    assert_eq!(cpu.execute(), Err(Fault::AddressOutOfRange { pc: PROGRAM_ENTRY }));
}

#[test]
fn key_out_of_range_faults() {
    let mut cpu = CPU::new();
    cpu.load_program(&[0xE0, 0x9E]).unwrap();
    cpu.regs[V0] = 16;
    assert_eq!(cpu.execute(), Err(Fault::KeyOutOfRange { pc: PROGRAM_ENTRY }));
}

#[test]
fn index_add_sets_flag_past_fff() {
    let mut cpu = CPU::new();
    cpu.load_program(&[0xF0, 0x1E]).unwrap();
    cpu.i = 0xFFF;
    cpu.regs[V0] = 1;
    cpu.execute().unwrap();
    assert_eq!(cpu.i, 0x1000);
    assert_eq!(cpu.regs[VF], 1);

    let mut cpu = CPU::new();
    cpu.load_program(&[0xF0, 0x1E]).unwrap();
    cpu.i = 0xFFE;
    cpu.regs[V0] = 1;
    cpu.execute().unwrap();
    assert_eq!(cpu.i, 0xFFF);
    assert_eq!(cpu.regs[VF], 0);
}

#[test]
fn bcd_writes_three_digits() {
    let mut cpu = CPU::new();
    cpu.load_program(&[0xF0, 0x33]).unwrap();
    cpu.i = 0x300;
    cpu.regs[V0] = 255;
    cpu.execute().unwrap();
    assert_eq!(&cpu.memory[0x300..0x303], &[2, 5, 5]);
}

#[test]
fn bcd_pads_with_leading_and_trailing_zeros() {
    // All three digit bytes are written, zero digits included.
    let mut cpu = CPU::new();
    cpu.load_program(&[0xF0, 0x33]).unwrap();
    cpu.i = 0x300;
    cpu.regs[V0] = 100;
    cpu.execute().unwrap();
    assert_eq!(&cpu.memory[0x300..0x303], &[1, 0, 0]);

    let mut cpu = CPU::new();
    cpu.load_program(&[0xF0, 0x33]).unwrap();
    cpu.i = 0x300;
    cpu.regs[V0] = 30;
    cpu.execute().unwrap();
    assert_eq!(&cpu.memory[0x300..0x303], &[0, 3, 0]);

    let mut cpu = CPU::new();
    cpu.load_program(&[0xF0, 0x33]).unwrap();
    cpu.i = 0x300;
    cpu.regs[V0] = 7;
    cpu.execute().unwrap();
    assert_eq!(&cpu.memory[0x300..0x303], &[0, 0, 7]);
}

// Loading an immediate and stepping once: register 0 takes the value and the
// program counter moves two bytes past the entry point.
#[test]
fn end_to_end_immediate_load() {
    let mut cpu = CPU::new();
    cpu.load_program(&[0x60, 0xFF]).unwrap();
    cpu.execute().unwrap();
    assert_eq!(cpu.regs[V0], 0xFF);
    assert_eq!(cpu.pc, PROGRAM_ENTRY + 2);
}

// A call as the first instruction pushes the return address entry + 2, sets
// the stack pointer to one, and jumps to the call target.
#[test]
fn end_to_end_first_call() {
    let mut cpu = CPU::new();
    cpu.load_program(&[0x22, 0x00]).unwrap();
    cpu.execute().unwrap();
    assert_eq!(cpu.stack[0], PROGRAM_ENTRY + 2);
    assert_eq!(cpu.sp, 1);
    assert_eq!(cpu.pc, 0x200);
}

// An all-set sprite of 8 rows toggles exactly 8 x 8 pixels; drawing it again
// restores the buffer. On an empty region the first draw collides and the
// second does not, since the second finds every covered pixel set.
#[test]
fn full_sprite_double_draw_restores() {
    let mut cpu = CPU::new();
    cpu.load_program(&[0xD0, 0x18, 0xD0, 0x18]).unwrap();
    cpu.i = 0x400;
    for r in 0..8 {
        cpu.memory[0x400 + r] = 0xFF;
    }
    cpu.regs[V0] = 4;
    cpu.regs[1] = 2;

    cpu.execute().unwrap();
    let mut set_pixels = 0;
    for y in 0..32 {
        for x in 0..64 {
            if cpu.frame_buf.read(x, y) != 0 {
                set_pixels += 1;
                assert!(4 <= x && x < 12 && 2 <= y && y < 10);
            }
        }
    }
    assert_eq!(set_pixels, 64);
    assert_eq!(cpu.regs[VF], 1);

    cpu.execute().unwrap();
    for y in 0..32 {
        for x in 0..64 {
            assert_eq!(cpu.frame_buf.read(x, y), 0);
        }
    }
    assert_eq!(cpu.regs[VF], 0);
}

// With both set and unset pixels under the sprite, both draws collide and the
// buffer is restored.
#[test]
fn full_sprite_double_draw_mixed_collides_twice() {
    let mut cpu = CPU::new();
    cpu.load_program(&[0xD0, 0x18, 0xD0, 0x18]).unwrap();
    cpu.i = 0x400;
    for r in 0..8 {
        cpu.memory[0x400 + r] = 0xFF;
    }
    cpu.regs[V0] = 4;
    cpu.regs[1] = 2;
    cpu.frame_buf.write(5, 3, 0xFF);

    cpu.execute().unwrap();
    assert_eq!(cpu.regs[VF], 1);
    cpu.execute().unwrap();
    assert_eq!(cpu.regs[VF], 1);
    for y in 0..32 {
        for x in 0..64 {
            let expected = if (x, y) == (5, 3) { 0xFF } else { 0 };
            assert_eq!(cpu.frame_buf.read(x, y), expected);
        }
    }
}

#[test]
fn draw_marks_frame_dirty_for_handoff() {
    let mut cpu = CPU::new();
    cpu.load_program(&[0xD0, 0x01]).unwrap();
    cpu.memory[0] = 0x80;
    cpu.i = 0;
    cpu.execute().unwrap();
    assert!(cpu.draw_flag);
    // The hand-off is consumed exactly once.
    assert!(cpu.frame_buf.handle_draw());
    assert!(!cpu.frame_buf.handle_draw());
}

#[test]
fn timers_count_down_to_zero() {
    let mut cpu = CPU::new();
    cpu.timers[chip8emu::cpu::DELAY] = 2;
    cpu.timers[chip8emu::cpu::SOUND] = 1;
    cpu.tick();
    assert_eq!(cpu.timers[chip8emu::cpu::DELAY], 1);
    assert_eq!(cpu.timers[chip8emu::cpu::SOUND], 0);
    cpu.tick();
    cpu.tick();
    assert_eq!(cpu.timers[chip8emu::cpu::DELAY], 0);
    assert_eq!(cpu.timers[chip8emu::cpu::SOUND], 0);
}

#[test]
fn keyboard_latches_while_waiting() {
    let mut kb = Keyboard::new();
    kb.press_key(3);
    assert!(kb.state[3]);
    assert!(!kb.key_received);

    kb.wait_for_key = true;
    kb.press_key(7);
    assert!(kb.key_received);
    assert_eq!(kb.key, 7);

    kb.release_key(7);
    assert!(!kb.state[7]);
    assert!(kb.state[3]);
}

#[test]
fn frame_buffer_ignores_out_of_range_writes() {
    let mut buf: FrameBuffer<u8> = FrameBuffer::new(4, 4, 0);
    buf.write(1, 1, 9);
    buf.write(4, 1, 7);
    buf.write(1, 4, 7);
    assert_eq!(buf.read(1, 1), 9);
    let frame = buf.frame();
    assert_eq!(frame.len(), 16);
    assert_eq!(frame.iter().filter(|p| **p == 7).count(), 0);
    assert_eq!(buf.width(), 4);
    assert_eq!(buf.height(), 4);
}

#[test]
fn frame_buffer_handoff_is_exactly_once() {
    let mut buf: FrameBuffer<u8> = FrameBuffer::new(2, 2, 0);
    assert!(!buf.handle_draw());
    buf.request_draw();
    buf.request_draw();
    assert!(buf.handle_draw());
    assert!(!buf.handle_draw());
    buf.clear(5);
    assert_eq!(buf.read(0, 0), 5);
    assert_eq!(buf.read(1, 1), 5);
}

// The filter on a uniform source: the output is uniform at the same value
// and holds four times as many pixels.
#[test]
fn filter_uniform_source_stays_uniform() {
    let gpu = EpxGPU::new();
    let input: FrameBuffer<u8> = FrameBuffer::new(4, 3, 0xFF);
    let mut output: FrameBuffer<u8> = FrameBuffer::new(8, 6, 0);
    gpu.process(&input, &mut output);
    let frame = output.frame();
    assert_eq!(frame.len(), 4 * input.frame().len());
    assert!(frame.iter().all(|p| *p == 0xFF));
    // The filter marks its output ready for the next stage.
    assert!(output.handle_draw());
}

// A single differing pixel does not propagate corner overrides beyond the
// blocks of the pixel and its direct neighbors: with one odd pixel the
// corner rules never fire at all, so every block is a plain broadcast.
#[test]
fn filter_lone_pixel_stays_local() {
    let gpu = EpxGPU::new();
    let mut input: FrameBuffer<u8> = FrameBuffer::new(8, 8, 0);
    input.write(3, 3, 0xFF);
    let mut output: FrameBuffer<u8> = FrameBuffer::new(16, 16, 7);
    gpu.process(&input, &mut output);
    for dy in 0..16u32 {
        for dx in 0..16u32 {
            let expected = if (dx / 2, dy / 2) == (3, 3) { 0xFF } else { 0 };
            assert_eq!(output.read(dx, dy), expected);
        }
    }
}

// An edge pattern where the corner rule fires: the filter is more than a
// broadcast when distinct neighbor pairs agree.
#[test]
fn filter_corner_override_fires() {
    let gpu = EpxGPU::new();
    let mut input: FrameBuffer<u8> = FrameBuffer::new(3, 3, 0);
    // A diagonal edge: the pixel left of and above the center are set.
    input.write(1, 0, 0xFF);
    input.write(0, 1, 0xFF);
    let mut output: FrameBuffer<u8> = FrameBuffer::new(6, 6, 0);
    gpu.process(&input, &mut output);
    // The center source pixel is unset, but its upper-left destination corner
    // takes the matching neighbor pair's value.
    assert_eq!(output.read(2, 2), 0xFF);
    assert_eq!(output.read(3, 3), 0);
}

#[test]
fn filter_disabled_only_broadcasts() {
    let mut gpu = EpxGPU::new();
    gpu.enabled = false;
    let mut input: FrameBuffer<u8> = FrameBuffer::new(3, 3, 0);
    input.write(1, 0, 0xFF);
    input.write(0, 1, 0xFF);
    let mut output: FrameBuffer<u8> = FrameBuffer::new(6, 6, 0);
    gpu.process(&input, &mut output);
    // Without smoothing the corner above stays a plain broadcast of its
    // unset source pixel.
    assert_eq!(output.read(2, 2), 0);
    for dy in 0..6u32 {
        for dx in 0..6u32 {
            assert_eq!(output.read(dx, dy), input.read(dx / 2, dy / 2));
        }
    }
}

#[test]
fn array_gpu_xor_writes() {
    let mut gpu = ArrayGPU::new();
    assert!(gpu.write(5, 5, 0xFF));
    assert_eq!(gpu.read(5, 5), 0xFF);
    assert!(!gpu.write(5, 5, 0xFF));
    assert_eq!(gpu.read(5, 5), 0x00);
    assert!(!gpu.write(6, 6, 0x00));
    assert_eq!(gpu.read(6, 6), 0x00);
    assert_eq!(gpu.buffer_width(), 64);
    assert_eq!(gpu.buffer_height(), 32);
    gpu.write(7, 7, 0xFF);
    gpu.clear_buf(0);
    assert_eq!(gpu.read(7, 7), 0);
    gpu.process_frame();
    assert_eq!(gpu.get_output_buffer().len(), 64 * 32);
}

#[test]
fn owned_epx_gpu_smooths_into_output() {
    let mut gpu = OwnedEpxGPU::new();
    assert_eq!(gpu.buffer_width(), 128);
    assert_eq!(gpu.buffer_height(), 64);
    assert!(gpu.write(10, 10, 0xFF));
    assert_eq!(gpu.read(10, 10), 0xFF);
    gpu.process_frame();
    let out = gpu.get_output_buffer();
    assert_eq!(out.len(), 128 * 64);
    // The lone set pixel broadcasts to its 2x2 block and nowhere else.
    for dy in 0..64usize {
        for dx in 0..128usize {
            let expected = if (dx / 2, dy / 2) == (10, 10) { 0xFF } else { 0 };
            assert_eq!(out[dy * 128 + dx], expected);
        }
    }
    gpu.clear_buf(0);
    assert_eq!(gpu.read(10, 10), 0);
}

#[test]
fn clock_gates_at_fixed_cadence() {
    let mut clock = Clock::new(100);
    // Delay is 10 ms per cycle. Nothing due right away without sync.
    assert_eq!(clock.tick(0, false), (false, 0));
    // Due once a full delay has elapsed; the reference advances by the
    // delay, not to "now", so no drift accumulates.
    assert_eq!(clock.tick(10, false), (true, 0));
    assert_eq!(clock.tick(10, false), (false, 0));
    // Late by 5 ms: still due, and the next gate opens 10 ms after the
    // previous reference.
    assert_eq!(clock.tick(25, false), (true, 0));
    assert_eq!(clock.tick(30, false), (true, 0));
    // A synchronized tick asks the caller to wait out the remainder.
    assert_eq!(clock.tick(32, true), (true, 8));
}

#[test]
fn clock_slow_frequency_rounds_delay_down() {
    let mut clock = Clock::new(540);
    // 1000 / 540 rounds down to 1 ms.
    assert_eq!(clock.tick(1, false), (true, 0));
    assert_eq!(clock.tick(1, false), (false, 0));
    assert_eq!(clock.tick(2, false), (true, 0));
}

#[test]
fn wait_for_key_then_release_keeps_latch() {
    let mut cpu = CPU::new();
    cpu.load_program(&[0xF0, 0x0A]).unwrap();
    cpu.execute().unwrap();
    assert!(cpu.wait_for_key);
    assert_eq!(cpu.pc, PROGRAM_ENTRY);

    cpu.press_key(5);
    cpu.release_key(5);
    cpu.execute().unwrap();
    assert_eq!(cpu.regs[V0], 5);
    assert_eq!(cpu.pc, PROGRAM_ENTRY + 2);
    assert!(!cpu.wait_for_key);
    assert!(!cpu.key_received);
}

#[test]
fn opcode_fields_decode_by_masks() {
    let op = chip8emu::opcode::Opcode { value: 0xD123 };
    assert_eq!(op.first(), 0xD);
    assert_eq!(op.x(), 0x1);
    assert_eq!(op.y(), 0x2);
    assert_eq!(op.last(), 0x3);
    assert_eq!(op.nn(), 0x23);
    assert_eq!(op.nnn(), 0x123);
}
