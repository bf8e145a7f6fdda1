use chip8::machine::Machine;

fn mk() -> Machine {
    Machine::new(64, 32)
}

fn run(m: &mut Machine, program: Vec<u8>) {
    m.load(&program);
    let steps = program.len() / 2;
    for _ in 0..steps {
        assert_eq!(m.step_with(0, 0), Ok(()));
    }
}

#[test]
fn jump_sets_pc() {
    let mut m = mk();
    run(&mut m, vec![0x13, 0x45]);
    assert_eq!(m.pc, 0x345);
}

#[test]
fn load_and_add_immediate() {
    let mut m = mk();
    run(&mut m, vec![0x60, 0x2A, 0x70, 0x05]);
    assert_eq!(m.v[0], 0x2F);
}

#[test]
fn add_immediate_wraps_without_flag() {
    let mut m = mk();
    m.v[0xF] = 7;
    run(&mut m, vec![0x60, 0xFF, 0x70, 0x02]);
    assert_eq!(m.v[0], 0x01);
    assert_eq!(m.v[0xF], 7);
}

#[test]
fn skip_if_equal_immediate() {
    let mut m = mk();
    run(&mut m, vec![0x60, 0x11, 0x30, 0x11]);
    assert_eq!(m.pc, 0x206);
}

#[test]
fn no_skip_if_unequal_immediate() {
    let mut m = mk();
    run(&mut m, vec![0x60, 0x11, 0x30, 0x12]);
    assert_eq!(m.pc, 0x204);
}

#[test]
fn skip_if_not_equal_immediate() {
    let mut m = mk();
    run(&mut m, vec![0x60, 0x11, 0x40, 0x12]);
    assert_eq!(m.pc, 0x206);
}

#[test]
fn skip_if_registers_equal_and_not() {
    let mut m = mk();
    m.v[1] = 9;
    m.v[2] = 9;
    run(&mut m, vec![0x51, 0x20]);
    assert_eq!(m.pc, 0x204);
    let mut m2 = mk();
    m2.v[1] = 9;
    m2.v[2] = 8;
    run(&mut m2, vec![0x91, 0x20]);
    assert_eq!(m2.pc, 0x204);
}

#[test]
fn register_copy_and_bitwise_ops() {
    let mut m = mk();
    m.v[1] = 0b1100;
    m.v[2] = 0b1010;
    run(&mut m, vec![0x83, 0x10]);
    assert_eq!(m.v[3], 0b1100);
    let mut m_or = mk();
    m_or.v[1] = 0b1100;
    m_or.v[2] = 0b1010;
    run(&mut m_or, vec![0x81, 0x21]);
    assert_eq!(m_or.v[1], 0b1110);
    let mut m_and = mk();
    m_and.v[1] = 0b1100;
    m_and.v[2] = 0b1010;
    run(&mut m_and, vec![0x81, 0x22]);
    assert_eq!(m_and.v[1], 0b1000);
    let mut m_xor = mk();
    m_xor.v[1] = 0b1100;
    m_xor.v[2] = 0b1010;
    run(&mut m_xor, vec![0x81, 0x23]);
    assert_eq!(m_xor.v[1], 0b0110);
}

#[test]
fn add_registers_sets_carry_exactly_on_overflow() {
    let mut m = mk();
    m.v[0] = 200;
    m.v[1] = 100;
    run(&mut m, vec![0x80, 0x14]);
    assert_eq!(m.v[0], 44);
    assert_eq!(m.v[0xF], 1);
    let mut m2 = mk();
    m2.v[0] = 155;
    m2.v[1] = 100;
    run(&mut m2, vec![0x80, 0x14]);
    assert_eq!(m2.v[0], 255);
    assert_eq!(m2.v[0xF], 0);
}

#[test]
fn sub_registers_sets_no_borrow_exactly_when_minuend_ge() {
    let mut m = mk();
    m.v[0] = 20;
    m.v[1] = 10;
    run(&mut m, vec![0x80, 0x15]);
    assert_eq!(m.v[0], 10);
    assert_eq!(m.v[0xF], 1);
    let mut m2 = mk();
    m2.v[0] = 10;
    m2.v[1] = 20;
    run(&mut m2, vec![0x80, 0x15]);
    assert_eq!(m2.v[0], 246);
    assert_eq!(m2.v[0xF], 0);
    let mut m3 = mk();
    m3.v[0] = 10;
    m3.v[1] = 10;
    run(&mut m3, vec![0x80, 0x15]);
    assert_eq!(m3.v[0], 0);
    assert_eq!(m3.v[0xF], 1);
}

#[test]
fn sub_negated_registers() {
    let mut m = mk();
    m.v[0] = 10;
    m.v[1] = 25;
    run(&mut m, vec![0x80, 0x17]);
    assert_eq!(m.v[0], 15);
    assert_eq!(m.v[0xF], 1);
    let mut m2 = mk();
    m2.v[0] = 25;
    m2.v[1] = 10;
    run(&mut m2, vec![0x80, 0x17]);
    assert_eq!(m2.v[0], 241);
    assert_eq!(m2.v[0xF], 0);
}

#[test]
fn shift_right_keeps_low_bit_in_flag() {
    let mut m = mk();
    m.v[0] = 5;
    run(&mut m, vec![0x80, 0x06]);
    assert_eq!(m.v[0], 2);
    assert_eq!(m.v[0xF], 1);
    let mut m2 = mk();
    m2.v[0] = 4;
    run(&mut m2, vec![0x80, 0x06]);
    assert_eq!(m2.v[0], 2);
    assert_eq!(m2.v[0xF], 0);
}

#[test]
fn shift_left_keeps_high_bit_in_flag() {
    let mut m = mk();
    m.v[0] = 0x81;
    run(&mut m, vec![0x80, 0x0E]);
    assert_eq!(m.v[0], 0x02);
    assert_eq!(m.v[0xF], 1);
    let mut m2 = mk();
    m2.v[0] = 0x41;
    run(&mut m2, vec![0x80, 0x0E]);
    assert_eq!(m2.v[0], 0x82);
    assert_eq!(m2.v[0xF], 0);
}

#[test]
fn set_index_register() {
    let mut m = mk();
    run(&mut m, vec![0xA1, 0x23]);
    assert_eq!(m.i, 0x123);
}

#[test]
fn jump_plus_v0() {
    let mut m = mk();
    m.v[0] = 4;
    run(&mut m, vec![0xB3, 0x00]);
    assert_eq!(m.pc, 0x304);
}

#[test]
fn random_masks_the_drawn_byte() {
    let mut m = mk();
    m.load(&vec![0xC0, 0x0F]);
    assert_eq!(m.step_with(0xAB, 0), Ok(()));
    assert_eq!(m.v[0], 0x0B);
    let mut m2 = mk();
    m2.load(&vec![0xC0, 0xFF]);
    assert_eq!(m2.step_with(0xAB, 0), Ok(()));
    assert_eq!(m2.v[0], 0xAB);
}

#[test]
fn add_to_index_wraps_at_memory_end() {
    let mut m = mk();
    m.i = 0xFFF;
    m.v[0] = 2;
    run(&mut m, vec![0xF0, 0x1E]);
    assert_eq!(m.i, 1);
}

#[test]
fn font_address_is_five_bytes_per_glyph() {
    let mut m = mk();
    m.v[0] = 0xA;
    run(&mut m, vec![0xF0, 0x29]);
    assert_eq!(m.i, 50);
    // The glyph for a value above 0xF uses only the low nibble.
    let mut m2 = mk();
    m2.v[0] = 0x1A;
    run(&mut m2, vec![0xF0, 0x29]);
    assert_eq!(m2.i, 50);
}

#[test]
fn bcd_writes_three_digits() {
    let mut m = mk();
    m.v[3] = 255;
    m.i = 0x400;
    run(&mut m, vec![0xF3, 0x33]);
    assert_eq!(m.memory[0x400], 2);
    assert_eq!(m.memory[0x401], 5);
    assert_eq!(m.memory[0x402], 5);
}

#[test]
fn bcd_of_a_small_value() {
    let mut m = mk();
    m.v[3] = 7;
    m.i = 0x400;
    run(&mut m, vec![0xF3, 0x33]);
    assert_eq!(m.memory[0x400], 0);
    assert_eq!(m.memory[0x401], 0);
    assert_eq!(m.memory[0x402], 7);
}

#[test]
fn store_and_load_registers_inclusive() {
    let mut m = mk();
    for j in 0..16 {
        m.v[j] = (j as u8) + 1;
    }
    m.i = 0x500;
    run(&mut m, vec![0xF2, 0x55]);
    assert_eq!(m.memory[0x500], 1);
    assert_eq!(m.memory[0x501], 2);
    assert_eq!(m.memory[0x502], 3);
    assert_eq!(m.memory[0x503], 0);
    let mut m2 = mk();
    m2.memory[0x500] = 11;
    m2.memory[0x501] = 22;
    m2.memory[0x502] = 33;
    m2.i = 0x500;
    m2.v[2] = 99;
    m2.v[3] = 44;
    run(&mut m2, vec![0xF2, 0x65]);
    assert_eq!(m2.v[0], 11);
    assert_eq!(m2.v[1], 22);
    assert_eq!(m2.v[2], 33);
    assert_eq!(m2.v[3], 44);
}
