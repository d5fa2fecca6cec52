use r8::cpu::CPU;
use r8::isa::CpuError;

fn boot(rom: &[u8]) -> CPU {
    let mut cpu = CPU::new();
    cpu.load(rom).unwrap();
    cpu
}

#[test]
fn fresh_machine() {
    let cpu = CPU::new();
    assert_eq!(cpu.program_counter(), 0x200);
    assert_eq!(cpu.index_reg(), 0);
    assert_eq!(cpu.stack_depth(), 0);
    assert_eq!(cpu.delay_timer(), 0);
    assert_eq!(cpu.sound_timer(), 0);
    assert!(!cpu.changed());
    assert!(!cpu.waiting());
    // the font table sits at the very start of memory
    assert_eq!(cpu.mem_byte(0), 0xF0);
    assert_eq!(cpu.mem_byte(4), 0xF0);
    assert_eq!(cpu.mem_byte(79), 0x80);
    assert_eq!(cpu.mem_byte(80), 0);
    for x in 0..64 {
        for y in 0..32 {
            assert_eq!(cpu.pixel(x, y), 0);
        }
    }
    for r in 0..16 {
        assert_eq!(cpu.reg(r), 0);
    }
}

#[test]
fn clear_screen_clears_and_flags() {
    // draw one sprite row (0xF0, the first font byte) then clear-screen
    let mut cpu = boot(&[0xD0, 0x01, 0x00, 0xE0]);
    cpu.step().unwrap();
    assert_eq!(cpu.pixel(0, 0), 1);
    assert!(cpu.changed());
    cpu.step().unwrap();
    for x in 0..64 {
        for y in 0..32 {
            assert_eq!(cpu.pixel(x, y), 0);
        }
    }
    assert!(cpu.changed());
    assert_eq!(cpu.program_counter(), 0x204);
}

#[test]
fn load_imm_then_add_imm() {
    let mut cpu = boot(&[0x60, 0x05, 0x70, 0x10]);
    cpu.step().unwrap();
    cpu.step().unwrap();
    assert_eq!(cpu.reg(0), 0x15);
    assert_eq!(cpu.reg(15), 0);
}

#[test]
fn add_imm_wraps_without_flag() {
    let mut cpu = boot(&[0x60, 0xFF, 0x70, 0x03]);
    cpu.step().unwrap();
    cpu.step().unwrap();
    assert_eq!(cpu.reg(0), 0x02);
    assert_eq!(cpu.reg(15), 0);
}

#[test]
fn add_reg_sets_carry() {
    let mut cpu = boot(&[0x60, 0xFF, 0x61, 0x01, 0x80, 0x14]);
    for _ in 0..3 {
        cpu.step().unwrap();
    }
    assert_eq!(cpu.reg(0), 0x00);
    assert_eq!(cpu.reg(15), 1);
}

#[test]
fn add_reg_no_carry() {
    let mut cpu = boot(&[0x60, 0x12, 0x61, 0x22, 0x80, 0x14]);
    for _ in 0..3 {
        cpu.step().unwrap();
    }
    assert_eq!(cpu.reg(0), 0x34);
    assert_eq!(cpu.reg(15), 0);
}

#[test]
fn sub_borrows_and_wraps() {
    let mut cpu = boot(&[0x60, 0x01, 0x61, 0x02, 0x80, 0x15]);
    for _ in 0..3 {
        cpu.step().unwrap();
    }
    assert_eq!(cpu.reg(15), 0);
    assert_eq!(cpu.reg(0), 0xFF);
}

#[test]
fn sub_without_borrow() {
    let mut cpu = boot(&[0x60, 0x07, 0x61, 0x02, 0x80, 0x15]);
    for _ in 0..3 {
        cpu.step().unwrap();
    }
    assert_eq!(cpu.reg(15), 1);
    assert_eq!(cpu.reg(0), 0x05);
}

#[test]
fn subn_reverse_subtraction() {
    let mut cpu = boot(&[0x60, 0x01, 0x61, 0x02, 0x80, 0x17]);
    for _ in 0..3 {
        cpu.step().unwrap();
    }
    assert_eq!(cpu.reg(0), 0x01);
    assert_eq!(cpu.reg(15), 1);
}

#[test]
fn or_and_xor() {
    let mut cpu = boot(&[0x60, 0x0F, 0x61, 0x35, 0x80, 0x11]);
    for _ in 0..3 {
        cpu.step().unwrap();
    }
    assert_eq!(cpu.reg(0), 0x3F);

    let mut cpu = boot(&[0x60, 0x0F, 0x61, 0x35, 0x80, 0x12]);
    for _ in 0..3 {
        cpu.step().unwrap();
    }
    assert_eq!(cpu.reg(0), 0x05);

    let mut cpu = boot(&[0x60, 0x0F, 0x61, 0x35, 0x80, 0x13]);
    for _ in 0..3 {
        cpu.step().unwrap();
    }
    assert_eq!(cpu.reg(0), 0x3A);
}

#[test]
fn move_copies_register() {
    let mut cpu = boot(&[0x61, 0x2A, 0x80, 0x10]);
    cpu.step().unwrap();
    cpu.step().unwrap();
    assert_eq!(cpu.reg(0), 0x2A);
}

#[test]
fn shr_reports_low_bit() {
    let mut cpu = boot(&[0x60, 0x05, 0x80, 0x06]);
    cpu.step().unwrap();
    cpu.step().unwrap();
    assert_eq!(cpu.reg(0), 0x02);
    assert_eq!(cpu.reg(15), 1);
}

#[test]
fn shl_reports_top_bit() {
    let mut cpu = boot(&[0x60, 0x81, 0x80, 0x0E]);
    cpu.step().unwrap();
    cpu.step().unwrap();
    assert_eq!(cpu.reg(0), 0x02);
    assert_eq!(cpu.reg(15), 1);
}

#[test]
fn skip_instructions_move_pc() {
    let mut cpu = boot(&[0x30, 0x00]);
    cpu.step().unwrap();
    assert_eq!(cpu.program_counter(), 0x204);

    let mut cpu = boot(&[0x30, 0x01]);
    cpu.step().unwrap();
    assert_eq!(cpu.program_counter(), 0x202);

    let mut cpu = boot(&[0x40, 0x01]);
    cpu.step().unwrap();
    assert_eq!(cpu.program_counter(), 0x204);

    // V0 == V1 == 0 initially
    let mut cpu = boot(&[0x50, 0x10]);
    cpu.step().unwrap();
    assert_eq!(cpu.program_counter(), 0x204);

    let mut cpu = boot(&[0x60, 0x01, 0x90, 0x10]);
    cpu.step().unwrap();
    cpu.step().unwrap();
    assert_eq!(cpu.program_counter(), 0x206);
}

#[test]
fn skip_on_key_state() {
    // V1 = 0x12: only the low four bits select the key, slot 2
    let mut cpu = boot(&[0x61, 0x12, 0xE1, 0x9E]);
    cpu.key_down(2);
    cpu.step().unwrap();
    cpu.step().unwrap();
    assert_eq!(cpu.program_counter(), 0x206);

    let mut cpu = boot(&[0x61, 0x02, 0xE1, 0x9E]);
    cpu.step().unwrap();
    cpu.step().unwrap();
    assert_eq!(cpu.program_counter(), 0x204);

    let mut cpu = boot(&[0x61, 0x02, 0xE1, 0xA1]);
    cpu.key_down(2);
    cpu.key_up(2);
    cpu.step().unwrap();
    cpu.step().unwrap();
    assert_eq!(cpu.program_counter(), 0x206);
}

#[test]
fn jump_sets_pc() {
    let mut cpu = boot(&[0x12, 0x34]);
    cpu.step().unwrap();
    assert_eq!(cpu.program_counter(), 0x234);
}

#[test]
fn jump_offset_adds_v0() {
    let mut cpu = boot(&[0x60, 0x10, 0xB2, 0x06]);
    cpu.step().unwrap();
    cpu.step().unwrap();
    assert_eq!(cpu.program_counter(), 0x216);
}

#[test]
fn sixteen_calls_then_overflow() {
    let mut rom = Vec::new();
    for k in 0..17u16 {
        let target = 0x202 + 2 * k;
        let word = 0x2000 | target;
        rom.push((word >> 8) as u8);
        rom.push((word & 0xFF) as u8);
    }
    let mut cpu = boot(&rom);
    for k in 0..16 {
        cpu.step().unwrap();
        assert_eq!(cpu.stack_depth(), k + 1);
    }
    let pc_before = cpu.program_counter();
    assert_eq!(cpu.step(), Err(CpuError::StackOverflow));
    assert_eq!(cpu.stack_depth(), 16);
    assert_eq!(cpu.program_counter(), pc_before);
}

#[test]
fn return_without_call_underflows() {
    let mut cpu = boot(&[0x00, 0xEE]);
    assert_eq!(cpu.step(), Err(CpuError::StackUnderflow));
    assert_eq!(cpu.program_counter(), 0x200);
}

#[test]
fn call_then_return_restores_pc_and_depth() {
    let mut rom = vec![0u8; 8];
    rom[0] = 0x22;
    rom[1] = 0x06; // call 0x206
    rom[6] = 0x00;
    rom[7] = 0xEE; // return
    let mut cpu = boot(&rom);
    cpu.step().unwrap();
    assert_eq!(cpu.program_counter(), 0x206);
    assert_eq!(cpu.stack_depth(), 1);
    cpu.step().unwrap();
    assert_eq!(cpu.program_counter(), 0x202);
    assert_eq!(cpu.stack_depth(), 0);
}

#[test]
fn wait_key_blocks_until_lowest_key() {
    // V0 = 5, DT = 5, then wait on register 5
    let mut cpu = boot(&[0x60, 0x05, 0xF0, 0x15, 0xF5, 0x0A]);
    cpu.step().unwrap();
    cpu.step().unwrap();
    assert_eq!(cpu.delay_timer(), 5);
    cpu.step().unwrap();
    assert_eq!(cpu.delay_timer(), 4);
    assert!(cpu.waiting());
    assert_eq!(cpu.program_counter(), 0x206);
    for _ in 0..3 {
        cpu.step().unwrap();
        assert!(cpu.waiting());
        assert_eq!(cpu.reg(5), 0);
        assert_eq!(cpu.program_counter(), 0x206);
        // timers are frozen while blocked
        assert_eq!(cpu.delay_timer(), 4);
    }
    cpu.key_down(9);
    cpu.key_down(4);
    cpu.step().unwrap();
    assert_eq!(cpu.reg(5), 4);
    assert!(!cpu.waiting());
    assert_eq!(cpu.program_counter(), 0x206);
    assert_eq!(cpu.delay_timer(), 4);
}

#[test]
fn timers_count_down_to_zero() {
    // V0 = 3, DT = 3, ST = 3, then spin on a jump
    let mut cpu = boot(&[0x60, 0x03, 0xF0, 0x15, 0xF0, 0x18, 0x12, 0x06]);
    cpu.step().unwrap();
    cpu.step().unwrap();
    cpu.step().unwrap();
    assert_eq!(cpu.delay_timer(), 2);
    assert_eq!(cpu.sound_timer(), 3);
    cpu.step().unwrap();
    assert_eq!(cpu.delay_timer(), 1);
    assert_eq!(cpu.sound_timer(), 2);
    for _ in 0..5 {
        cpu.step().unwrap();
    }
    assert_eq!(cpu.delay_timer(), 0);
    assert_eq!(cpu.sound_timer(), 0);
}

#[test]
fn load_dt_reads_timer() {
    let mut cpu = boot(&[0x60, 0x04, 0xF0, 0x15, 0xF1, 0x07]);
    cpu.step().unwrap();
    cpu.step().unwrap();
    cpu.step().unwrap();
    // DT was 4, decremented once before the read
    assert_eq!(cpu.reg(1), 3);
}

#[test]
fn bcd_writes_three_digits() {
    let mut cpu = boot(&[0x60, 0xEA, 0xA3, 0x00, 0xF0, 0x33]);
    for _ in 0..3 {
        cpu.step().unwrap();
    }
    assert_eq!(cpu.index_reg(), 0x300);
    assert_eq!(cpu.mem_byte(0x300), 2);
    assert_eq!(cpu.mem_byte(0x301), 3);
    assert_eq!(cpu.mem_byte(0x302), 4);
}

#[test]
fn font_addr_points_at_glyph() {
    let mut cpu = boot(&[0x60, 0x0A, 0xF0, 0x29]);
    cpu.step().unwrap();
    cpu.step().unwrap();
    assert_eq!(cpu.index_reg(), 50);
}

#[test]
fn add_i_flags_above_bound() {
    let mut cpu = boot(&[0x60, 0xFF, 0xAF, 0x00, 0xF0, 0x1E]);
    for _ in 0..3 {
        cpu.step().unwrap();
    }
    assert_eq!(cpu.index_reg(), 0xFFF);
    assert_eq!(cpu.reg(15), 1);

    let mut cpu = boot(&[0x60, 0x02, 0xA0, 0x10, 0xF0, 0x1E]);
    for _ in 0..3 {
        cpu.step().unwrap();
    }
    assert_eq!(cpu.index_reg(), 0x12);
    assert_eq!(cpu.reg(15), 0);
}

#[test]
fn store_and_load_registers() {
    let rom = [
        0x60, 0x0A, // V0 = 0x0A
        0x61, 0x14, // V1 = 0x14
        0xA3, 0x00, // I = 0x300
        0xF1, 0x55, // store V0..=V1
        0x60, 0x00, // V0 = 0
        0x61, 0x00, // V1 = 0
        0xF1, 0x65, // load V0..=V1 back
    ];
    let mut cpu = boot(&rom);
    for _ in 0..4 {
        cpu.step().unwrap();
    }
    assert_eq!(cpu.mem_byte(0x300), 0x0A);
    assert_eq!(cpu.mem_byte(0x301), 0x14);
    for _ in 0..3 {
        cpu.step().unwrap();
    }
    assert_eq!(cpu.reg(0), 0x0A);
    assert_eq!(cpu.reg(1), 0x14);
}

#[test]
fn store_regs_past_memory_end_fails() {
    let mut cpu = boot(&[0xAF, 0xFF, 0xF1, 0x55]);
    cpu.step().unwrap();
    assert_eq!(cpu.step(), Err(CpuError::IllegalOpcode));
}

#[test]
fn draw_twice_erases_and_collides() {
    // I = 0, so the sprite is the 5-byte font glyph for 0
    let mut cpu = boot(&[0xD0, 0x05, 0xD0, 0x05]);
    cpu.step().unwrap();
    assert!(cpu.changed());
    assert_eq!(cpu.reg(15), 0);
    assert_eq!(cpu.pixel(0, 0), 1);
    assert_eq!(cpu.pixel(3, 0), 1);
    assert_eq!(cpu.pixel(1, 1), 0);
    cpu.step().unwrap();
    assert_eq!(cpu.reg(15), 1);
    for x in 0..64 {
        for y in 0..32 {
            assert_eq!(cpu.pixel(x, y), 0);
        }
    }
}

#[test]
fn draw_wraps_both_axes() {
    let mut cpu = boot(&[0x60, 0x3E, 0x61, 0x1F, 0xD0, 0x11]);
    for _ in 0..3 {
        cpu.step().unwrap();
    }
    // the 0xF0 row lands on columns 62, 63, 0, 1 of row 31
    assert_eq!(cpu.pixel(62, 31), 1);
    assert_eq!(cpu.pixel(63, 31), 1);
    assert_eq!(cpu.pixel(0, 31), 1);
    assert_eq!(cpu.pixel(1, 31), 1);
    assert_eq!(cpu.pixel(2, 31), 0);
    assert_eq!(cpu.pixel(0, 0), 0);
    assert_eq!(cpu.reg(15), 0);
}

#[test]
fn rand_is_masked() {
    // a zero mask pins the result whatever byte was drawn
    let mut cpu = boot(&[0xC0, 0x00, 0xC1, 0x0F]);
    cpu.step().unwrap();
    assert_eq!(cpu.reg(0), 0);
    // the deterministic entry point fixes the drawn byte
    cpu.step_with(0xAB).unwrap();
    assert_eq!(cpu.reg(1), 0x0B);
}

#[test]
fn illegal_opcodes_are_reported() {
    for rom in [
        [0x00u8, 0x00],
        [0x00, 0xE1],
        [0x50, 0x11],
        [0x80, 0x08],
        [0xE0, 0x00],
        [0xF0, 0xFF],
    ] {
        let mut cpu = boot(&rom);
        assert_eq!(cpu.step(), Err(CpuError::IllegalOpcode));
        assert_eq!(cpu.program_counter(), 0x200);
    }
}

#[test]
fn load_copies_rom_at_program_start() {
    let rom: Vec<u8> = (0..3584u32).map(|i| (i % 251) as u8).collect();
    let mut cpu = CPU::new();
    cpu.load(&rom).unwrap();
    for i in 0..3584 {
        assert_eq!(cpu.mem_byte(0x200 + i), (i % 251) as u8);
    }
    // the reserved region, font included, is untouched
    assert_eq!(cpu.mem_byte(0), 0xF0);
    assert_eq!(cpu.mem_byte(0x1FF), 0);
}

#[test]
fn oversized_rom_is_refused() {
    let rom = vec![0x77u8; 3585];
    let mut cpu = CPU::new();
    assert_eq!(cpu.load(&rom), Err(CpuError::RomTooLarge));
    assert_eq!(cpu.mem_byte(0x200), 0);
    assert_eq!(cpu.mem_byte(0xFFF), 0);
}

#[test]
fn draw_past_memory_end_fails() {
    // I = 0xFFE, a three-row sprite would read past the last byte
    let mut cpu = boot(&[0xAF, 0xFE, 0xD0, 0x03]);
    cpu.step().unwrap();
    assert_eq!(cpu.step(), Err(CpuError::IllegalOpcode));

    // I = 0xFFD ends exactly on the last byte and is fine
    let mut cpu = boot(&[0xAF, 0xFD, 0xD0, 0x03]);
    cpu.step().unwrap();
    cpu.step().unwrap();
    assert!(cpu.changed());
}

#[test]
fn bcd_past_memory_end_fails() {
    let mut cpu = boot(&[0xAF, 0xFE, 0xF0, 0x33]);
    cpu.step().unwrap();
    assert_eq!(cpu.step(), Err(CpuError::IllegalOpcode));

    let mut cpu = boot(&[0xAF, 0xFD, 0xF0, 0x33]);
    cpu.step().unwrap();
    cpu.step().unwrap();
    assert_eq!(cpu.mem_byte(0xFFD), 0);
    assert_eq!(cpu.mem_byte(0xFFF), 0);
}

#[test]
fn empty_rom_loads_and_fetches_illegal_word() {
    let mut cpu = CPU::new();
    cpu.load(&[]).unwrap();
    assert_eq!(cpu.step(), Err(CpuError::IllegalOpcode));
}
