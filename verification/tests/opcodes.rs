#![allow(non_snake_case)]

use chip8emu::cpu::{CPU, DELAY, PROGRAM_ENTRY, SOUND, V0, V1, VF};
use chip8emu::gpu::{GFX_BUF_HEIGHT, GFX_BUF_WIDTH};

#[test]
fn test_opcode_00E0() {
    let mut cpu = CPU::new();

    for y in 0..GFX_BUF_HEIGHT {
        for x in 0..GFX_BUF_WIDTH {
            cpu.frame_buf.write(x as u32, y as u32, 255);
        }
    }

    cpu.load_program(&[0x00, 0xE0]).unwrap();
    cpu.execute().unwrap();

    for y in 0..GFX_BUF_HEIGHT {
        for x in 0..GFX_BUF_WIDTH {
            assert_eq!(cpu.frame_buf.read(x as u32, y as u32), 0);
        }
    }
}

#[test]
fn test_opcode_00EE() {
    let mut cpu = CPU::new();

    // Store address on stack
    cpu.stack[cpu.sp as usize] = 0xFFFF;
    cpu.sp += 1;

    cpu.load_program(&[0x00, 0xEE]).unwrap();
    cpu.execute().unwrap();

    assert_eq!(cpu.pc, 0xFFFF);
    assert_eq!(cpu.sp, 0);
}

#[test]
fn test_opcode_1NNN() {
    let mut cpu = CPU::new();

    cpu.load_program(&[0x1F, 0xFF]).unwrap();
    cpu.execute().unwrap();

    assert_eq!(cpu.pc, 0x0FFF);
}

#[test]
fn test_opcode_2NNN() {
    let mut cpu = CPU::new();

    cpu.load_program(&[0x2F, 0xFF]).unwrap();
    cpu.execute().unwrap();

    assert_eq!(cpu.sp, 1);
    assert_eq!(cpu.stack[0], PROGRAM_ENTRY + 2);
    assert_eq!(cpu.pc, 0x0FFF);
}

#[test]
fn test_opcode_3XNN() {
    let mut cpu = CPU::new();

    cpu.load_program(&[0x30, 0xFF]).unwrap();
    cpu.execute().unwrap();

    assert_eq!(cpu.pc, PROGRAM_ENTRY + 2);

    cpu.pc = 0x200;
    cpu.regs[V0] = 0xFF;
    cpu.execute().unwrap();

    assert_eq!(cpu.pc, PROGRAM_ENTRY + 4);
}

#[test]
fn test_opcode_4XNN() {
    let mut cpu = CPU::new();

    cpu.load_program(&[0x40, 0xFF]).unwrap();
    cpu.execute().unwrap();

    assert_eq!(cpu.pc, PROGRAM_ENTRY + 4);

    cpu.pc = 0x200;
    cpu.regs[V0] = 0xFF;
    cpu.execute().unwrap();

    assert_eq!(cpu.pc, PROGRAM_ENTRY + 2);
}

#[test]
fn test_opcode_5XY0() {
    let mut cpu = CPU::new();

    cpu.load_program(&[0x50, 0x10]).unwrap();
    cpu.execute().unwrap();

    assert_eq!(cpu.pc, PROGRAM_ENTRY + 4);

    cpu.regs[V0] = 0xFF;
    cpu.pc = PROGRAM_ENTRY;
    cpu.execute().unwrap();

    assert_eq!(cpu.pc, PROGRAM_ENTRY + 2);
}

#[test]
fn test_opcode_6XNN() {
    let mut cpu = CPU::new();

    cpu.load_program(&[0x60, 0xFF]).unwrap();
    cpu.execute().unwrap();

    assert_eq!(cpu.regs[V0], 0xFF);
}

#[test]
fn test_opcode_7XNN() {
    let mut cpu = CPU::new();

    cpu.regs[V0] = 10;
    cpu.load_program(&[0x70, 20]).unwrap();
    cpu.execute().unwrap();

    assert_eq!(cpu.regs[V0], 10 + 20);
}

#[test]
fn test_opcode_8XY0() {
    let mut cpu = CPU::new();

    cpu.regs[V1] = 0xFF;
    cpu.load_program(&[0x80, 0x10]).unwrap();
    cpu.execute().unwrap();

    assert_eq!(cpu.regs[V0], 0xFF);
}

#[test]
fn test_opcode_8XY1() {
    let mut cpu = CPU::new();

    cpu.regs[V0] = 0b01010101;
    cpu.regs[V1] = 0b10101010;

    cpu.load_program(&[0x80, 0x11]).unwrap();
    cpu.execute().unwrap();

    assert_eq!(cpu.regs[V0], 0xFF);
}

#[test]
fn test_opcode_8XY2() {
    let mut cpu = CPU::new();

    cpu.regs[V0] = 0b01010101;
    cpu.regs[V1] = 0b00000001;

    cpu.load_program(&[0x80, 0x12]).unwrap();
    cpu.execute().unwrap();

    assert_eq!(cpu.regs[V0], 1);
}

#[test]
fn test_opcode_8XY3() {
    let mut cpu = CPU::new();

    cpu.regs[V0] = 0b01010101;
    cpu.regs[V1] = 0b10101010;

    cpu.load_program(&[0x80, 0x13]).unwrap();
    cpu.execute().unwrap();

    assert_eq!(cpu.regs[V0], 0xFF);
}

#[test]
fn test_opcode_8XY4() {
    let mut cpu = CPU::new();

    cpu.regs[V0] = 10;
    cpu.regs[V1] = 20;

    cpu.load_program(&[0x80, 0x14]).unwrap();
    cpu.execute().unwrap();

    assert_eq!(cpu.regs[V0], 10 + 20);
    assert_eq!(cpu.regs[VF], 0);

    cpu.regs[V0] = 255;
    cpu.regs[V1] = 1;

    cpu.pc = PROGRAM_ENTRY;
    cpu.execute().unwrap();

    assert_eq!(cpu.regs[V0], 0);
    assert_eq!(cpu.regs[VF], 1);
}

#[test]
fn test_opcode_8XY5() {
    let mut cpu = CPU::new();

    cpu.regs[V0] = 20;
    cpu.regs[V1] = 10;

    cpu.load_program(&[0x80, 0x15]).unwrap();
    cpu.execute().unwrap();

    assert_eq!(cpu.regs[V0], 20 - 10);
    assert_eq!(cpu.regs[VF], 0);

    cpu.regs[V0] = 0;
    cpu.regs[V1] = 1;

    cpu.pc = PROGRAM_ENTRY;
    cpu.execute().unwrap();

    assert_eq!(cpu.regs[V0], 255);
    assert_eq!(cpu.regs[VF], 1);
}

#[test]
fn test_opcode_8XY6() {
    let mut cpu = CPU::new();

    cpu.regs[V0] = 0b00000001;

    cpu.load_program(&[0x80, 0x16]).unwrap();
    cpu.execute().unwrap();

    assert_eq!(cpu.regs[V0], 0);
    assert_eq!(cpu.regs[VF], 1);
}

#[test]
fn test_opcode_8XY7() {
    let mut cpu = CPU::new();

    cpu.regs[V0] = 5;
    cpu.regs[V1] = 10;

    cpu.load_program(&[0x80, 0x17]).unwrap();
    cpu.execute().unwrap();

    assert_eq!(cpu.regs[V0], 5);
    cpu.regs[V0] = 11;
    cpu.pc = PROGRAM_ENTRY;
    cpu.execute().unwrap();

    assert_eq!(cpu.regs[V0], 255);
    assert_eq!(cpu.regs[VF], 1);
}

#[test]
fn test_opcode_8XYE() {
    let mut cpu = CPU::new();

    cpu.regs[V0] = 0b10000000;

    cpu.load_program(&[0x80, 0x1E]).unwrap();
    cpu.execute().unwrap();

    assert_eq!(cpu.regs[V0], 0);
    assert_eq!(cpu.regs[VF], 1);
}

#[test]
fn test_opcode_9XY0() {
    let mut cpu = CPU::new();

    cpu.regs[V0] = 0;
    cpu.regs[V1] = 0;

    cpu.load_program(&[0x90, 0x10]).unwrap();
    cpu.execute().unwrap();

    assert_eq!(cpu.pc, PROGRAM_ENTRY + 2);
    cpu.regs[V1] = 1;
    cpu.pc = PROGRAM_ENTRY;
    cpu.execute().unwrap();

    assert_eq!(cpu.pc, PROGRAM_ENTRY + 4);
}

#[test]
fn test_opcode_ANNN() {
    let mut cpu = CPU::new();

    cpu.load_program(&[0xAF, 0xFF]).unwrap();
    cpu.execute().unwrap();

    assert_eq!(cpu.i, 0xFFF);
}

#[test]
fn test_opcode_BNNN() {
    let mut cpu = CPU::new();

    cpu.regs[V0] = 0xF;
    cpu.load_program(&[0xBF, 0xF0]).unwrap();
    cpu.execute().unwrap();

    assert_eq!(cpu.pc, 0xFFF);
}

#[test]
fn test_opcode_CNNN() {
    let mut cpu = CPU::new();

    cpu.load_program(&[0xC0, 0x10]).unwrap();
    cpu.execute().unwrap();

    assert!(cpu.regs[V0] <= 0x10);
}

#[test]
fn test_opcode_DXYN() {
    let mut cpu = CPU::new();

    cpu.regs[V0] = 0;
    cpu.regs[V1] = 0;
    cpu.i = 0xFFF;
    cpu.memory[cpu.i as usize] = 0b11000011;
    cpu.load_program(&[0xD0, 0x11]).unwrap();
    cpu.execute().unwrap();

    assert_eq!(cpu.frame_buf.read(0, 0), 255);
    assert_eq!(cpu.frame_buf.read(1, 0), 255);
    assert_eq!(cpu.frame_buf.read(2, 0), 0);
    assert_eq!(cpu.frame_buf.read(3, 0), 0);
    assert_eq!(cpu.frame_buf.read(4, 0), 0);
    assert_eq!(cpu.frame_buf.read(5, 0), 0);
    assert_eq!(cpu.frame_buf.read(6, 0), 255);
    assert_eq!(cpu.frame_buf.read(7, 0), 255);
}

#[test]
fn test_opcode_EX9E() {
    let mut cpu = CPU::new();

    cpu.load_program(&[0xE0, 0x9E]).unwrap();
    cpu.execute().unwrap();

    assert_eq!(cpu.pc, PROGRAM_ENTRY + 2);

    cpu.keyboard[0] = true;
    cpu.pc = PROGRAM_ENTRY;
    cpu.execute().unwrap();

    assert_eq!(cpu.pc, PROGRAM_ENTRY + 4);
}

#[test]
fn test_opcode_EXA1() {
    let mut cpu = CPU::new();

    cpu.load_program(&[0xE0, 0xA1]).unwrap();
    cpu.execute().unwrap();

    assert_eq!(cpu.pc, PROGRAM_ENTRY + 4);

    cpu.keyboard[0] = true;
    cpu.pc = PROGRAM_ENTRY;
    cpu.execute().unwrap();

    assert_eq!(cpu.pc, PROGRAM_ENTRY + 2);
}

#[test]
fn test_opcode_FX07() {
    let mut cpu = CPU::new();

    cpu.timers[DELAY] = 10;
    cpu.load_program(&[0xF0, 0x07]).unwrap();
    cpu.execute().unwrap();

    assert_eq!(cpu.regs[V0], 10);
}

#[test]
fn test_opcode_FX0A() {
    let mut cpu = CPU::new();

    cpu.load_program(&[0xF0, 0x0A]).unwrap();

    for _i in 0..100 {
        cpu.execute().unwrap();
        assert_eq!(cpu.pc, PROGRAM_ENTRY);
    }

    cpu.press_key(1);
    cpu.execute().unwrap();

    assert_eq!(cpu.regs[V0], 1);
    assert_eq!(cpu.pc, PROGRAM_ENTRY + 2);
}

#[test]
fn test_opcode_FX15() {
    let mut cpu = CPU::new();

    cpu.regs[V0] = 0xFF;
    cpu.load_program(&[0xF0, 0x15]).unwrap();
    cpu.execute().unwrap();

    assert_eq!(cpu.timers[DELAY], 0xFF);
}

#[test]
fn test_opcode_FX18() {
    let mut cpu = CPU::new();

    cpu.regs[V0] = 0xFF;
    cpu.load_program(&[0xF0, 0x18]).unwrap();
    cpu.execute().unwrap();

    assert_eq!(cpu.timers[SOUND], 0xFF);
}

#[test]
fn test_opcode_FX29() {
    let mut cpu = CPU::new();

    cpu.regs[V0] = 0xF;
    cpu.load_program(&[0xF0, 0x29]).unwrap();
    cpu.execute().unwrap();

    assert_eq!(cpu.i, 0xF * 5);
}

#[test]
fn test_opcode_FX55() {
    let mut cpu = CPU::new();

    for i in 0..(VF + 1) {
        cpu.regs[i] = i as u8;
    }

    cpu.load_program(&[0xFF, 0x55]).unwrap();
    cpu.execute().unwrap();

    for i in 0..(VF + 1) {
        assert_eq!(cpu.memory[i], i as u8);
    }
}

#[test]
fn test_opcode_FX65() {
    let mut cpu = CPU::new();

    for i in 0..(VF + 1) {
        cpu.regs[i] = i as u8;
    }

    cpu.i = 0xFFF;
    cpu.load_program(&[0xFF, 0x65]).unwrap();
    cpu.execute().unwrap();

    for i in 0..(VF + 1) {
        assert_eq!(cpu.regs[i], 0);
    }
}
