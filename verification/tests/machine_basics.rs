use chip8::machine::Machine;
use chip8::semantics::Fault;

fn mk() -> Machine {
    Machine::new(64, 32)
}

#[test]
fn new_installs_font_and_zeroes_memory() {
    let m = mk();
    assert_eq!(m.memory.len(), 4096);
    assert_eq!(m.memory[0], 0xF0);
    assert_eq!(m.memory[4], 0xF0);
    assert_eq!(m.memory[5], 0x20);
    assert_eq!(m.memory[79], 0x80);
    for j in 80..4096 {
        assert_eq!(m.memory[j], 0);
    }
}

#[test]
fn new_starts_at_load_address() {
    let m = mk();
    assert_eq!(m.pc, 0x200);
    assert_eq!(m.sp, 0);
    assert_eq!(m.i, 0);
    assert_eq!(m.dt, 0);
    assert_eq!(m.st, 0);
    assert!(m.dirty);
    assert_eq!(m.timing_error, 0);
    for j in 0..16 {
        assert_eq!(m.v[j], 0);
        assert!(!m.keyboard[j]);
    }
    assert_eq!(m.display.len(), 64 * 32);
    assert!(m.display.iter().all(|p| !p));
    assert!(m.is_well_formed());
}

#[test]
fn load_copies_program_at_load_address() {
    let mut m = mk();
    let program = vec![0x12u8, 0x34, 0x56];
    m.load(&program);
    assert_eq!(m.memory[0x200], 0x12);
    assert_eq!(m.memory[0x201], 0x34);
    assert_eq!(m.memory[0x202], 0x56);
    assert_eq!(m.memory[0x203], 0);
    assert_eq!(m.memory[0x1FF], 0);
}

#[test]
fn write_byte_and_set_key() {
    let mut m = mk();
    m.write_byte(0x300, 0xAB);
    assert_eq!(m.memory[0x300], 0xAB);
    m.set_key(5, true);
    assert!(m.keyboard[5]);
    m.set_key(5, false);
    assert!(!m.keyboard[5]);
}

#[test]
fn pixel_and_clear_dirty() {
    let mut m = mk();
    assert!(!m.pixel(0, 0));
    m.display[3 * 64 + 2] = true;
    assert!(m.pixel(2, 3));
    m.clear_dirty();
    assert!(!m.dirty);
}

#[test]
fn stack_overflow_faults_and_leaves_state() {
    let mut m = mk();
    // A call to its own address keeps re-executing the same call.
    m.load(&vec![0x22, 0x00]);
    for _ in 0..16 {
        assert_eq!(m.step_with(0, 0), Ok(()));
    }
    assert_eq!(m.sp, 16);
    assert_eq!(m.pc, 0x200);
    let r = m.step_with(0, 0);
    assert_eq!(r, Err(Fault::StackOverflow));
    assert_eq!(m.sp, 16);
    assert_eq!(m.pc, 0x200);
}

#[test]
fn stack_underflow_faults_and_leaves_state() {
    let mut m = mk();
    m.load(&vec![0x00, 0xEE]);
    let r = m.step_with(0, 0);
    assert_eq!(r, Err(Fault::StackUnderflow));
    assert_eq!(m.pc, 0x200);
    assert_eq!(m.sp, 0);
}

#[test]
fn call_then_ret_round_trip() {
    let mut m = mk();
    m.load(&vec![0x22, 0x08]);
    m.write_byte(0x208, 0x00);
    m.write_byte(0x209, 0xEE);
    assert_eq!(m.step_with(0, 0), Ok(()));
    assert_eq!(m.pc, 0x208);
    assert_eq!(m.sp, 1);
    assert_eq!(m.stack[0], 0x202);
    assert_eq!(m.step_with(0, 0), Ok(()));
    assert_eq!(m.pc, 0x202);
    assert_eq!(m.sp, 0);
}

#[test]
fn step_draws_a_random_byte_and_masks_it() {
    let mut m = mk();
    // `C0F0` keeps only the high nibble of the random byte, whatever it was.
    m.load(&vec![0xC0, 0xF0]);
    assert_eq!(m.step(0), Ok(()));
    assert_eq!(m.v[0] & 0x0F, 0);
    assert_eq!(m.pc, 0x202);
}

#[test]
fn unassigned_encodings_are_no_ops() {
    let mut m = mk();
    // 5xy1, 8xy8, 0nnn, ExFF, FxFF: all unassigned, all no-ops.
    m.load(&vec![0x50, 0x11, 0x80, 0x18, 0x01, 0x23, 0xE0, 0xFF, 0xF0, 0xFF]);
    let before_v = m.v.clone();
    for k in 0..5u16 {
        assert_eq!(m.step_with(0, 0), Ok(()));
        assert_eq!(m.pc, 0x202 + 2 * k);
    }
    assert_eq!(m.v, before_v);
}
