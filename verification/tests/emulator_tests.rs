use chip8::emulator::{decode, Emulator, Fault, Instr};

fn run(emu: &mut Emulator, steps: usize) {
    for _ in 0..steps {
        assert!(emu.tick().is_ok());
    }
}

#[test]
fn decode_recognizes_each_family() {
    assert_eq!(decode(0x00E0), Some(Instr::Cls));
    assert_eq!(decode(0x00EE), Some(Instr::Ret));
    assert_eq!(decode(0x1ABC), Some(Instr::Jump { nnn: 0xABC }));
    assert_eq!(decode(0x2345), Some(Instr::Call { nnn: 0x345 }));
    assert_eq!(decode(0x3A7F), Some(Instr::SkipEqImm { x: 0xA, kk: 0x7F }));
    assert_eq!(decode(0x4A7F), Some(Instr::SkipNeImm { x: 0xA, kk: 0x7F }));
    assert_eq!(decode(0x5120), Some(Instr::SkipEqReg { x: 1, y: 2 }));
    assert_eq!(decode(0x6B42), Some(Instr::LoadImm { x: 0xB, kk: 0x42 }));
    assert_eq!(decode(0x7B42), Some(Instr::AddImm { x: 0xB, kk: 0x42 }));
    assert_eq!(decode(0x8120), Some(Instr::Move { x: 1, y: 2 }));
    assert_eq!(decode(0x8121), Some(Instr::Or { x: 1, y: 2 }));
    assert_eq!(decode(0x8122), Some(Instr::And { x: 1, y: 2 }));
    assert_eq!(decode(0x8123), Some(Instr::Xor { x: 1, y: 2 }));
    assert_eq!(decode(0x8124), Some(Instr::AddReg { x: 1, y: 2 }));
    assert_eq!(decode(0x8125), Some(Instr::SubReg { x: 1, y: 2 }));
    assert_eq!(decode(0x8126), Some(Instr::Shr { x: 1 }));
    assert_eq!(decode(0x8127), Some(Instr::SubFrom { x: 1, y: 2 }));
    assert_eq!(decode(0x812E), Some(Instr::Shl { x: 1 }));
    assert_eq!(decode(0x9120), Some(Instr::SkipNeReg { x: 1, y: 2 }));
    assert_eq!(decode(0xA9AB), Some(Instr::LoadIndex { nnn: 0x9AB }));
    assert_eq!(decode(0xB9AB), Some(Instr::JumpPlus { nnn: 0x9AB }));
    assert_eq!(decode(0xC30F), Some(Instr::Random { x: 3, kk: 0x0F }));
    assert_eq!(decode(0xD125), Some(Instr::Draw { x: 1, y: 2, n: 5 }));
    assert_eq!(decode(0xE39E), Some(Instr::SkipKey { x: 3 }));
    assert_eq!(decode(0xE3A1), Some(Instr::SkipNoKey { x: 3 }));
    assert_eq!(decode(0xF307), Some(Instr::ReadDelay { x: 3 }));
    assert_eq!(decode(0xF30A), Some(Instr::WaitKey { x: 3 }));
    assert_eq!(decode(0xF315), Some(Instr::SetDelay { x: 3 }));
    assert_eq!(decode(0xF318), Some(Instr::SetSound { x: 3 }));
    assert_eq!(decode(0xF31E), Some(Instr::AddIndex { x: 3 }));
    assert_eq!(decode(0xF329), Some(Instr::FontIndex { x: 3 }));
    assert_eq!(decode(0xF333), Some(Instr::StoreBcd { x: 3 }));
    assert_eq!(decode(0xF355), Some(Instr::StoreRegs { x: 3 }));
    assert_eq!(decode(0xF365), Some(Instr::LoadRegs { x: 3 }));
}

#[test]
fn decode_rejects_gaps() {
    assert_eq!(decode(0x0000), None);
    assert_eq!(decode(0x0123), None);
    assert_eq!(decode(0x5121), None);
    assert_eq!(decode(0x8128), None);
    assert_eq!(decode(0x812F), None);
    assert_eq!(decode(0x9121), None);
    assert_eq!(decode(0xE39F), None);
    assert_eq!(decode(0xF300), None);
    assert_eq!(decode(0xF3FF), None);
}

#[test]
fn end_to_end_clear_load_add() {
    let mut emu = Emulator::new();
    emu.load_rom(&[0x00, 0xE0, 0x60, 0x05, 0x70, 0x03]);

    run(&mut emu, 3);

    assert_eq!(emu.register(0), 8);
    for row in 0..32 {
        for col in 0..64 {
            assert!(!emu.display.screen[row][col]);
        }
    }
}

#[test]
fn add_reg_sets_carry_iff_sum_exceeds_255() {
    let mut emu = Emulator::new();
    // V2 = 0xFF, V3 = 0x01, V2 += V3: carry.
    emu.load_rom(&[0x62, 0xFF, 0x63, 0x01, 0x82, 0x34]);
    run(&mut emu, 3);
    assert_eq!(emu.register(2), 0x00);
    assert_eq!(emu.register(0xF), 1);

    let mut emu2 = Emulator::new();
    // V2 = 5, V3 = 3, V2 += V3: no carry.
    emu2.load_rom(&[0x62, 0x05, 0x63, 0x03, 0x82, 0x34]);
    run(&mut emu2, 3);
    assert_eq!(emu2.register(2), 8);
    assert_eq!(emu2.register(0xF), 0);
}

#[test]
fn sub_reg_sets_flag_iff_vx_greater() {
    let mut emu = Emulator::new();
    // V2 = 10, V3 = 5: flag 1, V2 = 5.
    emu.load_rom(&[0x62, 0x0A, 0x63, 0x05, 0x82, 0x35]);
    run(&mut emu, 3);
    assert_eq!(emu.register(2), 5);
    assert_eq!(emu.register(0xF), 1);

    let mut emu2 = Emulator::new();
    // V2 = 5, V3 = 10: flag 0, V2 wraps to 251.
    emu2.load_rom(&[0x62, 0x05, 0x63, 0x0A, 0x82, 0x35]);
    run(&mut emu2, 3);
    assert_eq!(emu2.register(2), 251);
    assert_eq!(emu2.register(0xF), 0);
}

#[test]
fn sub_from_sets_flag_iff_vy_greater() {
    let mut emu = Emulator::new();
    // V2 = 5, V3 = 10, V2 = V3 - V2: flag 1, V2 = 5.
    emu.load_rom(&[0x62, 0x05, 0x63, 0x0A, 0x82, 0x37]);
    run(&mut emu, 3);
    assert_eq!(emu.register(2), 5);
    assert_eq!(emu.register(0xF), 1);

    let mut emu2 = Emulator::new();
    // V2 = 10, V3 = 5, V2 = V3 - V2: flag 0, wraps to 251.
    emu2.load_rom(&[0x62, 0x0A, 0x63, 0x05, 0x82, 0x37]);
    run(&mut emu2, 3);
    assert_eq!(emu2.register(2), 251);
    assert_eq!(emu2.register(0xF), 0);
}

#[test]
fn shifts_capture_the_moved_out_bit() {
    let mut emu = Emulator::new();
    // V2 = 7, shift right: V2 = 3, VF = 1.
    emu.load_rom(&[0x62, 0x07, 0x82, 0x06]);
    run(&mut emu, 2);
    assert_eq!(emu.register(2), 3);
    assert_eq!(emu.register(0xF), 1);

    let mut emu2 = Emulator::new();
    // V2 = 0x81, shift left: V2 = 2, VF = 1.
    emu2.load_rom(&[0x62, 0x81, 0x82, 0x0E]);
    run(&mut emu2, 2);
    assert_eq!(emu2.register(2), 2);
    assert_eq!(emu2.register(0xF), 1);
}

#[test]
fn skips_and_jumps_move_the_program_counter() {
    let mut emu = Emulator::new();
    // V0 = 7; skip-if-equal taken: pc jumps over one instruction.
    emu.load_rom(&[0x60, 0x07, 0x30, 0x07]);
    run(&mut emu, 2);
    assert_eq!(emu.pc(), 512 + 2 + 4);

    let mut emu2 = Emulator::new();
    // Jump to 0x300.
    emu2.load_rom(&[0x13, 0x00]);
    run(&mut emu2, 1);
    assert_eq!(emu2.pc(), 0x300);

    let mut emu3 = Emulator::new();
    // V0 = 4, then jump to 0x300 + V0.
    emu3.load_rom(&[0x60, 0x04, 0xB3, 0x00]);
    run(&mut emu3, 2);
    assert_eq!(emu3.pc(), 0x304);
}

#[test]
fn call_and_return_use_the_stack() {
    let mut emu = Emulator::new();
    // Call 0x208, which holds a return; execution resumes after the call.
    emu.load_rom(&[0x22, 0x08, 0x60, 0x01, 0x00, 0x00, 0x00, 0x00, 0x00, 0xEE]);
    run(&mut emu, 1);
    assert_eq!(emu.pc(), 0x208);
    run(&mut emu, 1);
    assert_eq!(emu.pc(), 0x202);
    run(&mut emu, 1);
    assert_eq!(emu.register(0), 1);
}

#[test]
fn key_wait_blocks_until_lowest_key() {
    let mut emu = Emulator::new();
    emu.load_rom(&[0xF5, 0x0A]);

    // No key pressed: the program counter is net-unchanged.
    assert!(emu.tick().is_ok());
    assert_eq!(emu.pc(), 512);
    assert!(emu.tick().is_ok());
    assert_eq!(emu.pc(), 512);

    // Key 0x3 becomes the lowest pressed key: V5 = 3 and the counter moves.
    emu.keyboard.replace(&[0x7, 0x3]);
    assert!(emu.tick().is_ok());
    assert_eq!(emu.register(5), 0x3);
    assert_eq!(emu.pc(), 514);
}

#[test]
fn key_skips_read_the_snapshot() {
    let mut emu = Emulator::new();
    // V0 = 3; skip-if-pressed with key 3 down: skip taken.
    emu.load_rom(&[0x60, 0x03, 0xE0, 0x9E]);
    emu.keyboard.replace(&[0x3]);
    run(&mut emu, 2);
    assert_eq!(emu.pc(), 512 + 2 + 4);

    let mut emu2 = Emulator::new();
    // V0 = 3; skip-if-not-pressed with key 3 down: not taken.
    emu2.load_rom(&[0x60, 0x03, 0xE0, 0xA1]);
    emu2.keyboard.replace(&[0x3]);
    run(&mut emu2, 2);
    assert_eq!(emu2.pc(), 512 + 2 + 2);
}

#[test]
fn timers_count_down_to_zero_and_stop() {
    let mut emu = Emulator::new();
    // V0 = 3, delay timer = V0.
    emu.load_rom(&[0x60, 0x03, 0xF0, 0x15]);
    run(&mut emu, 2);
    assert_eq!(emu.delay_timer(), 3);

    emu.tick_timers();
    assert_eq!(emu.delay_timer(), 2);
    emu.tick_timers();
    assert_eq!(emu.delay_timer(), 1);
    emu.tick_timers();
    assert_eq!(emu.delay_timer(), 0);
    emu.tick_timers();
    assert_eq!(emu.delay_timer(), 0);
    emu.tick_timers();
    assert_eq!(emu.delay_timer(), 0);
}

#[test]
fn sound_timer_loads_and_counts_down() {
    let mut emu = Emulator::new();
    emu.load_rom(&[0x60, 0x02, 0xF0, 0x18]);
    run(&mut emu, 2);
    assert_eq!(emu.sound_timer(), 2);
    emu.tick_timers();
    assert_eq!(emu.sound_timer(), 1);
    emu.tick_timers();
    assert_eq!(emu.sound_timer(), 0);
}

#[test]
fn read_delay_copies_the_timer() {
    let mut emu = Emulator::new();
    // delay = 5 via V0, then V7 = delay.
    emu.load_rom(&[0x60, 0x05, 0xF0, 0x15, 0xF7, 0x07]);
    run(&mut emu, 3);
    assert_eq!(emu.register(7), 5);
}

#[test]
fn bcd_stores_three_decimal_digits() {
    let mut emu = Emulator::new();
    // V0 = 254, I = 0x300, store BCD, then load three bytes into V0..V2.
    emu.load_rom(&[0x60, 0xFE, 0xA3, 0x00, 0xF0, 0x33, 0xF2, 0x65]);
    run(&mut emu, 4);
    assert_eq!(emu.register(0), 2);
    assert_eq!(emu.register(1), 5);
    assert_eq!(emu.register(2), 4);
}

#[test]
fn store_and_load_registers_round_trip() {
    let mut emu = Emulator::new();
    emu.load_rom(&[
        0x60, 0x11, // V0 = 0x11
        0x61, 0x22, // V1 = 0x22
        0x62, 0x33, // V2 = 0x33
        0xA4, 0x00, // I = 0x400
        0xF2, 0x55, // store V0..=V2
        0x60, 0x00, // V0 = 0
        0x61, 0x00, // V1 = 0
        0x62, 0x00, // V2 = 0
        0xF2, 0x65, // load V0..=V2 back
    ]);
    run(&mut emu, 9);
    assert_eq!(emu.register(0), 0x11);
    assert_eq!(emu.register(1), 0x22);
    assert_eq!(emu.register(2), 0x33);
}

#[test]
fn font_index_and_add_index() {
    let mut emu = Emulator::new();
    // V0 = 0xA: I = 10 * 5 = 50.
    emu.load_rom(&[0x60, 0x0A, 0xF0, 0x29]);
    run(&mut emu, 2);
    assert_eq!(emu.index(), 50);

    let mut emu2 = Emulator::new();
    // I = 0xFFF, V0 = 0xFF, I += V0: masked into the address space.
    emu2.load_rom(&[0xAF, 0xFF, 0x60, 0xFF, 0xF0, 0x1E]);
    run(&mut emu2, 3);
    assert_eq!(emu2.index(), (0xFFF + 0xFF) % 4096);
}

#[test]
fn draw_instruction_draws_the_font_glyph() {
    let mut emu = Emulator::new();
    // I stays 0, the glyph for 0; draw 5 rows at (V0, V0) = (0, 0).
    emu.load_rom(&[0xD0, 0x05]);
    run(&mut emu, 1);
    assert_eq!(emu.register(0xF), 0);
    assert_eq!(emu.display.screen[0][..4], [true, true, true, true]);
    assert_eq!(emu.display.screen[1][..4], [true, false, false, true]);
    assert_eq!(emu.display.screen[4][..4], [true, true, true, true]);

    // Drawing the same glyph again erases it and reports the collision.
    let mut emu2 = Emulator::new();
    emu2.load_rom(&[0xD0, 0x05, 0xD0, 0x05]);
    run(&mut emu2, 2);
    assert_eq!(emu2.register(0xF), 1);
    for row in 0..32 {
        for col in 0..64 {
            assert!(!emu2.display.screen[row][col]);
        }
    }
}

#[test]
fn random_is_masked() {
    let mut emu = Emulator::new();
    // VA = random & 0x00: always zero.  VB = random & 0x0F: high nibble clear.
    emu.load_rom(&[0xCA, 0x00, 0xCB, 0x0F]);
    run(&mut emu, 2);
    assert_eq!(emu.register(0xA), 0);
    assert_eq!(emu.register(0xB) & 0xF0, 0);
}

#[test]
fn unknown_opcode_faults_and_preserves_state() {
    let mut emu = Emulator::new();
    // Fresh memory at the load base holds 0x0000, which no pattern matches.
    assert_eq!(emu.tick(), Err(Fault::UnknownOpcode));
    assert_eq!(emu.pc(), 512);
}

#[test]
fn return_with_empty_stack_faults() {
    let mut emu = Emulator::new();
    emu.load_rom(&[0x00, 0xEE]);
    assert_eq!(emu.tick(), Err(Fault::StackUnderflow));
    assert_eq!(emu.pc(), 512);
}

#[test]
fn sixteenth_nested_call_faults() {
    let mut emu = Emulator::new();
    // 0x200 calls itself forever; slot 0 is structurally unused, so 15
    // nested calls fit and the 16th overflows.
    emu.load_rom(&[0x22, 0x00]);
    for _ in 0..15 {
        assert!(emu.tick().is_ok());
    }
    assert_eq!(emu.tick(), Err(Fault::StackOverflow));
}

#[test]
fn memory_range_faults() {
    let mut emu = Emulator::new();
    // I = 0xFFF, then store V0..=V3 at I..: past the end of memory.
    emu.load_rom(&[0xAF, 0xFF, 0xF3, 0x55]);
    run(&mut emu, 1);
    assert_eq!(emu.tick(), Err(Fault::MemoryOutOfRange));

    let mut emu2 = Emulator::new();
    // I = 0xFFF, then draw a 5-row sprite from I: sprite bytes out of range.
    emu2.load_rom(&[0xAF, 0xFF, 0xD0, 0x05]);
    run(&mut emu2, 1);
    assert_eq!(emu2.tick(), Err(Fault::MemoryOutOfRange));
}

#[test]
fn key_code_above_fifteen_faults() {
    let mut emu = Emulator::new();
    emu.load_rom(&[0x60, 0xFF, 0xE0, 0x9E]);
    run(&mut emu, 1);
    assert_eq!(emu.tick(), Err(Fault::KeyOutOfRange));
}

#[test]
fn program_counter_leaving_memory_faults() {
    let mut emu = Emulator::new();
    emu.load_rom(&[0x1F, 0xFF]);
    run(&mut emu, 1);
    assert_eq!(emu.pc(), 0xFFF);
    assert_eq!(emu.tick(), Err(Fault::PcOutOfRange));
}

#[test]
fn register_ops_match_their_table_entries() {
    let mut emu = Emulator::new();
    emu.load_rom(&[
        0x60, 0x0C, // V0 = 0x0C
        0x61, 0x0A, // V1 = 0x0A
        0x82, 0x00, // V2 = V0
        0x82, 0x11, // V2 |= V1  -> 0x0E
        0x83, 0x00, // V3 = V0
        0x83, 0x12, // V3 &= V1  -> 0x08
        0x84, 0x00, // V4 = V0
        0x84, 0x13, // V4 ^= V1  -> 0x06
        0x75, 0xFF, // V5 += 0xFF (wraps from 0) -> 0xFF
        0x75, 0x02, // V5 += 2 -> 0x01
    ]);
    run(&mut emu, 10);
    assert_eq!(emu.register(2), 0x0E);
    assert_eq!(emu.register(3), 0x08);
    assert_eq!(emu.register(4), 0x06);
    assert_eq!(emu.register(5), 0x01);
}

#[test]
fn load_rom_accepts_the_largest_program() {
    let mut emu = Emulator::new();
    let rom: Vec<u8> = vec![0x00; 3584];
    emu.load_rom(&rom);
    assert_eq!(emu.tick(), Err(Fault::UnknownOpcode));
}

#[test]
fn remaining_skip_variants() {
    let mut emu = Emulator::new();
    // V0 = 7; skip-if-not-equal with 8: taken.
    emu.load_rom(&[0x60, 0x07, 0x40, 0x08]);
    run(&mut emu, 2);
    assert_eq!(emu.pc(), 518);

    let mut emu2 = Emulator::new();
    // V0 = V1 = 0: skip-if-registers-equal taken (jumping over one word),
    // then skip-if-registers-unequal not taken.
    emu2.load_rom(&[0x50, 0x10, 0x00, 0x00, 0x90, 0x10]);
    run(&mut emu2, 2);
    assert_eq!(emu2.pc(), 518);
}
