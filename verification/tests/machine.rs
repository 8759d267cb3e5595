//! The machine: construction, timers, fetch, ROM loading and every
//! instruction family through the public execute step.

use chip8::cpu::CPU;
use chip8::pixel::Pixel;

fn blank() -> (CPU, Vec<Pixel>) {
    (CPU::new(), Pixel::init())
}

#[test]
fn new_machine_state() {
    let cpu = CPU::new();
    assert_eq!(cpu.pc, 0x200);
    assert_eq!(cpu.i, 0);
    assert_eq!(cpu.number_jump, 0);
    assert_eq!(cpu.game_counter, 0);
    assert_eq!(cpu.sound_counter, 0);
    assert_eq!(cpu.memory.len(), 4096);
    assert_eq!(cpu.v.len(), 16);
    assert_eq!(cpu.jump.len(), 16);
    assert_eq!(cpu.key.len(), 16);
    assert!(cpu.v.iter().all(|&r| r == 0));
    assert!(cpu.memory[80..].iter().all(|&m| m == 0));
}

#[test]
fn font_is_loaded_at_bottom_of_memory() {
    let cpu = CPU::new();
    // glyph 0 starts with 0xF0, glyph 1 with 0x20, glyph F ends with 0x80
    assert_eq!(cpu.memory[0], 0xF0);
    assert_eq!(cpu.memory[4], 0xF0);
    assert_eq!(cpu.memory[5], 0x20);
    assert_eq!(cpu.memory[9], 0x70);
    assert_eq!(cpu.memory[75], 0xF0);
    assert_eq!(cpu.memory[79], 0x80);
}

#[test]
fn load_font_rewrites_only_the_glyph_area() {
    let mut cpu = CPU::new();
    for m in 0..80 {
        cpu.memory[m] = 0xAA;
    }
    cpu.memory[80] = 0x55;
    cpu.load_font();
    assert_eq!(cpu.memory[0], 0xF0);
    assert_eq!(cpu.memory[79], 0x80);
    assert_eq!(cpu.memory[80], 0x55);
}

#[test]
fn count_down_floors_at_zero() {
    let mut cpu = CPU::new();
    cpu.game_counter = 2;
    cpu.sound_counter = 1;
    cpu.count_down();
    assert_eq!(cpu.game_counter, 1);
    assert_eq!(cpu.sound_counter, 0);
    cpu.count_down();
    assert_eq!(cpu.game_counter, 0);
    assert_eq!(cpu.sound_counter, 0);
    cpu.count_down();
    assert_eq!(cpu.game_counter, 0);
    assert_eq!(cpu.sound_counter, 0);
}

#[test]
fn load_rom_copies_bytes_from_0x200() {
    let mut cpu = CPU::new();
    let rom = vec![0xAB, 0xCD, 0xEF];
    let started = cpu.load_rom(&rom);
    assert!(started);
    assert_eq!(cpu.memory[0x200], 0xAB);
    assert_eq!(cpu.memory[0x201], 0xCD);
    assert_eq!(cpu.memory[0x202], 0xEF);
    assert_eq!(cpu.memory[0x1FF], 0);
    assert_eq!(cpu.memory[0x203], 0);
}

#[test]
fn get_opcode_reads_big_endian_word() {
    let mut cpu = CPU::new();
    cpu.memory[0x200] = 0x12;
    cpu.memory[0x201] = 0x34;
    assert_eq!(cpu.get_opcode(), 0x1234);
}

#[test]
fn unknown_word_only_advances_pc() {
    let (mut cpu, mut pixels) = blank();
    cpu.execute_opcode(0x0123, &mut pixels);
    assert_eq!(cpu.pc, 0x202);
    assert!(cpu.v.iter().all(|&r| r == 0));
    assert_eq!(cpu.i, 0);
}

#[test]
fn jump_sets_pc_to_target() {
    let (mut cpu, mut pixels) = blank();
    cpu.execute_opcode(0x1ABC, &mut pixels);
    assert_eq!(cpu.pc, 0x0ABC);
}

#[test]
fn jump_plus_v0_adds_register_zero() {
    let (mut cpu, mut pixels) = blank();
    cpu.v[0] = 4;
    cpu.execute_opcode(0xB300, &mut pixels);
    assert_eq!(cpu.pc, 0x0304);
}

#[test]
fn call_then_return_restores_pc_after_call() {
    let (mut cpu, mut pixels) = blank();
    assert_eq!(cpu.pc, 0x200);
    cpu.execute_opcode(0x2ABC, &mut pixels);
    assert_eq!(cpu.pc, 0x0ABC);
    assert_eq!(cpu.number_jump, 1);
    assert_eq!(cpu.jump[0], 0x200);
    cpu.execute_opcode(0x00EE, &mut pixels);
    assert_eq!(cpu.pc, 0x202);
    assert_eq!(cpu.number_jump, 0);
}

#[test]
fn return_on_empty_stack_is_a_no_op() {
    let (mut cpu, mut pixels) = blank();
    cpu.execute_opcode(0x00EE, &mut pixels);
    assert_eq!(cpu.pc, 0x202);
    assert_eq!(cpu.number_jump, 0);
}

#[test]
fn calls_beyond_capacity_are_dropped() {
    let (mut cpu, mut pixels) = blank();
    for _ in 0..20 {
        cpu.execute_opcode(0x2400, &mut pixels);
    }
    assert_eq!(cpu.number_jump, 15);
}

#[test]
fn skip_if_equal_kk() {
    let (mut cpu, mut pixels) = blank();
    cpu.v[0xA] = 0x12;
    cpu.execute_opcode(0x3A12, &mut pixels);
    assert_eq!(cpu.pc, 0x204);
    cpu.execute_opcode(0x3A13, &mut pixels);
    assert_eq!(cpu.pc, 0x206);
}

#[test]
fn skip_if_not_equal_kk() {
    let (mut cpu, mut pixels) = blank();
    cpu.v[0xA] = 0x12;
    cpu.execute_opcode(0x4A13, &mut pixels);
    assert_eq!(cpu.pc, 0x204);
    cpu.execute_opcode(0x4A12, &mut pixels);
    assert_eq!(cpu.pc, 0x206);
}

#[test]
fn skip_if_registers_equal_and_not_equal() {
    let (mut cpu, mut pixels) = blank();
    cpu.v[1] = 7;
    cpu.v[2] = 7;
    cpu.execute_opcode(0x5120, &mut pixels);
    assert_eq!(cpu.pc, 0x204);
    cpu.execute_opcode(0x9120, &mut pixels);
    assert_eq!(cpu.pc, 0x206);
    cpu.v[2] = 8;
    cpu.execute_opcode(0x9120, &mut pixels);
    assert_eq!(cpu.pc, 0x20A);
}

#[test]
fn set_and_add_immediate() {
    let (mut cpu, mut pixels) = blank();
    cpu.execute_opcode(0x6A12, &mut pixels);
    assert_eq!(cpu.v[0xA], 0x12);
    cpu.execute_opcode(0x7A05, &mut pixels);
    assert_eq!(cpu.v[0xA], 0x17);
    // 7XNN wraps silently and never touches V[F]
    cpu.v[0xA] = 250;
    cpu.execute_opcode(0x7A0A, &mut pixels);
    assert_eq!(cpu.v[0xA], 4);
    assert_eq!(cpu.v[0xF], 0);
}

#[test]
fn register_moves_and_bitwise_ops() {
    let (mut cpu, mut pixels) = blank();
    cpu.v[1] = 0b1100;
    cpu.v[2] = 0b1010;
    cpu.execute_opcode(0x8120, &mut pixels);
    assert_eq!(cpu.v[1], 0b1010);
    cpu.v[1] = 0b1100;
    cpu.execute_opcode(0x8121, &mut pixels);
    assert_eq!(cpu.v[1], 0b1110);
    cpu.v[1] = 0b1100;
    cpu.execute_opcode(0x8122, &mut pixels);
    assert_eq!(cpu.v[1], 0b1000);
    cpu.v[1] = 0b1100;
    cpu.execute_opcode(0x8123, &mut pixels);
    assert_eq!(cpu.v[1], 0b0110);
}

#[test]
fn add_with_carry_sets_flag_and_wraps() {
    let (mut cpu, mut pixels) = blank();
    cpu.v[1] = 250;
    cpu.v[2] = 10;
    cpu.execute_opcode(0x8124, &mut pixels);
    assert_eq!(cpu.v[1], 4);
    assert_eq!(cpu.v[0xF], 1);

    let (mut cpu, mut pixels) = blank();
    cpu.v[1] = 10;
    cpu.v[2] = 10;
    cpu.execute_opcode(0x8124, &mut pixels);
    assert_eq!(cpu.v[1], 20);
    assert_eq!(cpu.v[0xF], 0);
}

#[test]
fn sub_with_borrow_flag_holds_not_borrow() {
    let (mut cpu, mut pixels) = blank();
    cpu.v[1] = 5;
    cpu.v[2] = 10;
    cpu.execute_opcode(0x8125, &mut pixels);
    assert_eq!(cpu.v[1], 251);
    assert_eq!(cpu.v[0xF], 0);

    let (mut cpu, mut pixels) = blank();
    cpu.v[1] = 10;
    cpu.v[2] = 5;
    cpu.execute_opcode(0x8125, &mut pixels);
    assert_eq!(cpu.v[1], 5);
    assert_eq!(cpu.v[0xF], 1);

    // equal operands borrow nothing: the NOT-borrow flag is 1
    let (mut cpu, mut pixels) = blank();
    cpu.v[1] = 7;
    cpu.v[2] = 7;
    cpu.execute_opcode(0x8125, &mut pixels);
    assert_eq!(cpu.v[1], 0);
    assert_eq!(cpu.v[0xF], 1);
}

#[test]
fn sub_reverse_with_borrow() {
    let (mut cpu, mut pixels) = blank();
    cpu.v[1] = 10;
    cpu.v[2] = 25;
    cpu.execute_opcode(0x8127, &mut pixels);
    assert_eq!(cpu.v[1], 15);
    assert_eq!(cpu.v[0xF], 1);

    let (mut cpu, mut pixels) = blank();
    cpu.v[1] = 25;
    cpu.v[2] = 10;
    cpu.execute_opcode(0x8127, &mut pixels);
    assert_eq!(cpu.v[1], 241);
    assert_eq!(cpu.v[0xF], 0);

    // equal operands borrow nothing: the NOT-borrow flag is 1
    let (mut cpu, mut pixels) = blank();
    cpu.v[1] = 9;
    cpu.v[2] = 9;
    cpu.execute_opcode(0x8127, &mut pixels);
    assert_eq!(cpu.v[1], 0);
    assert_eq!(cpu.v[0xF], 1);
}

#[test]
fn shifts_report_the_outgoing_bit() {
    let (mut cpu, mut pixels) = blank();
    cpu.v[0xA] = 5;
    cpu.execute_opcode(0x8A06, &mut pixels);
    assert_eq!(cpu.v[0xA], 2);
    assert_eq!(cpu.v[0xF], 1);

    let (mut cpu, mut pixels) = blank();
    cpu.v[0xA] = 0x81;
    cpu.execute_opcode(0x8A0E, &mut pixels);
    assert_eq!(cpu.v[0xA], 0x02);
    assert_eq!(cpu.v[0xF], 1);
}

#[test]
fn set_index_register() {
    let (mut cpu, mut pixels) = blank();
    cpu.execute_opcode(0xAABC, &mut pixels);
    assert_eq!(cpu.i, 0x0ABC);
}

#[test]
fn random_value_is_reduced_by_kk_plus_one() {
    for _ in 0..50 {
        let (mut cpu, mut pixels) = blank();
        cpu.execute_opcode(0xC105, &mut pixels);
        assert!(cpu.v[1] <= 5);
    }
    // with KK = 0 the only possible value is 0
    let (mut cpu, mut pixels) = blank();
    cpu.execute_opcode(0xC100, &mut pixels);
    assert_eq!(cpu.v[1], 0);
}

#[test]
fn key_conditioned_skips_read_key_state() {
    let (mut cpu, mut pixels) = blank();
    cpu.v[0] = 3;
    cpu.key[3] = true;
    cpu.execute_opcode(0xE09E, &mut pixels);
    assert_eq!(cpu.pc, 0x204);
    cpu.execute_opcode(0xE0A1, &mut pixels);
    assert_eq!(cpu.pc, 0x206);
    cpu.key[3] = false;
    cpu.execute_opcode(0xE09E, &mut pixels);
    assert_eq!(cpu.pc, 0x208);
    cpu.execute_opcode(0xE0A1, &mut pixels);
    assert_eq!(cpu.pc, 0x20C);
}

#[test]
fn timers_set_and_read_through_registers() {
    let (mut cpu, mut pixels) = blank();
    cpu.v[4] = 42;
    cpu.execute_opcode(0xF415, &mut pixels);
    assert_eq!(cpu.game_counter, 42);
    cpu.execute_opcode(0xF418, &mut pixels);
    assert_eq!(cpu.sound_counter, 42);
    cpu.execute_opcode(0xF507, &mut pixels);
    assert_eq!(cpu.v[5], 42);
}

#[test]
fn key_wait_is_a_no_op_that_advances_pc() {
    let (mut cpu, mut pixels) = blank();
    cpu.v[6] = 9;
    cpu.execute_opcode(0xF60A, &mut pixels);
    assert_eq!(cpu.pc, 0x202);
    assert_eq!(cpu.v[6], 9);
}

#[test]
fn add_register_to_index_with_overflow_flag() {
    let (mut cpu, mut pixels) = blank();
    cpu.i = 0xFFE;
    cpu.v[0] = 2;
    cpu.execute_opcode(0xF01E, &mut pixels);
    assert_eq!(cpu.i, 0x1000);
    assert_eq!(cpu.v[0xF], 1);

    let (mut cpu, mut pixels) = blank();
    cpu.i = 0x10;
    cpu.v[0] = 2;
    cpu.execute_opcode(0xF01E, &mut pixels);
    assert_eq!(cpu.i, 0x12);
    assert_eq!(cpu.v[0xF], 0);
}

#[test]
fn font_sprite_address_is_five_bytes_per_digit() {
    let (mut cpu, mut pixels) = blank();
    cpu.v[2] = 0xA;
    cpu.execute_opcode(0xF229, &mut pixels);
    assert_eq!(cpu.i, 50);
}

#[test]
fn bcd_store_decomposes_into_decimal_digits() {
    let (mut cpu, mut pixels) = blank();
    cpu.v[3] = 123;
    cpu.i = 0x300;
    cpu.execute_opcode(0xF333, &mut pixels);
    assert_eq!(cpu.memory[0x300], 1);
    assert_eq!(cpu.memory[0x301], 2);
    assert_eq!(cpu.memory[0x302], 3);

    cpu.v[3] = 7;
    cpu.execute_opcode(0xF333, &mut pixels);
    assert_eq!(cpu.memory[0x300], 0);
    assert_eq!(cpu.memory[0x301], 0);
    assert_eq!(cpu.memory[0x302], 7);
}

#[test]
fn dump_then_zero_then_load_restores_registers() {
    let (mut cpu, mut pixels) = blank();
    for r in 0..6 {
        cpu.v[r] = (10 + r) as u8;
    }
    cpu.i = 0x300;
    cpu.execute_opcode(0xF555, &mut pixels);
    for r in 0..6 {
        assert_eq!(cpu.memory[0x300 + r], (10 + r) as u8);
    }
    assert_eq!(cpu.i, 0x300);
    for r in 0..6 {
        cpu.v[r] = 0;
    }
    cpu.execute_opcode(0xF565, &mut pixels);
    for r in 0..6 {
        assert_eq!(cpu.v[r], (10 + r) as u8);
    }
    assert_eq!(cpu.i, 0x300);
    // the registers above X are untouched by the load
    assert_eq!(cpu.v[6], 0);
}

#[test]
fn step_allowed_guards_memory_bounds() {
    let mut cpu = CPU::new();
    assert!(cpu.step_allowed(0x00E0));
    assert!(cpu.step_allowed(0x1200));
    // a jump target below the pre-subtracted width is refused
    assert!(!cpu.step_allowed(0x1001));
    // a draw reading past the top of memory is refused
    cpu.i = 4090;
    assert!(!cpu.step_allowed(0xD00F));
    assert!(cpu.step_allowed(0xD005));
    // a BCD store at the very top is refused
    cpu.i = 4094;
    assert!(!cpu.step_allowed(0xF333));
    cpu.i = 4093;
    assert!(cpu.step_allowed(0xF333));
    // a register dump past the top is refused
    cpu.i = 4090;
    assert!(!cpu.step_allowed(0xF755));
    assert!(cpu.step_allowed(0xF555));
}
