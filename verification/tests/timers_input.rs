use chip8::machine::Machine;

fn mk() -> Machine {
    Machine::new(64, 32)
}

#[test]
fn timers_load_and_read_back() {
    let mut m = mk();
    m.v[1] = 42;
    m.load(&vec![0xF1, 0x15, 0xF1, 0x18, 0xF2, 0x07]);
    for _ in 0..3 {
        assert_eq!(m.step_with(0, 0), Ok(()));
    }
    assert_eq!(m.dt, 42);
    assert_eq!(m.st, 42);
    assert_eq!(m.v[2], 42);
}

#[test]
fn one_second_decrements_timers_by_sixty() {
    let mut m = mk();
    m.dt = 255;
    m.st = 30;
    // Four quarter-second steps over no-op instructions: exactly one second
    // of wall time in total, however many steps it was spread over.
    for _ in 0..4 {
        assert_eq!(m.step_with(0, 250_000_000), Ok(()));
    }
    assert_eq!(m.dt, 195);
    // The sound timer cannot go below zero.
    assert_eq!(m.st, 0);
}

#[test]
fn many_fast_steps_tick_no_faster() {
    let mut m = mk();
    m.dt = 255;
    // A thousand steps in the same second: still sixty ticks.
    for _ in 0..1000 {
        assert_eq!(m.step_with(0, 1_000_000), Ok(()));
    }
    assert_eq!(m.dt, 195);
}

#[test]
fn zero_elapsed_time_leaves_timers() {
    let mut m = mk();
    m.dt = 9;
    m.st = 9;
    for _ in 0..50 {
        assert_eq!(m.step_with(0, 0), Ok(()));
    }
    assert_eq!(m.dt, 9);
    assert_eq!(m.st, 9);
}

#[test]
fn skip_if_key_pressed() {
    let mut m = mk();
    m.v[4] = 7;
    m.set_key(7, true);
    m.load(&vec![0xE4, 0x9E]);
    assert_eq!(m.step_with(0, 0), Ok(()));
    assert_eq!(m.pc, 0x204);
    let mut m2 = mk();
    m2.v[4] = 7;
    m2.load(&vec![0xE4, 0x9E]);
    assert_eq!(m2.step_with(0, 0), Ok(()));
    assert_eq!(m2.pc, 0x202);
}

#[test]
fn skip_if_key_not_pressed() {
    let mut m = mk();
    m.v[4] = 7;
    m.load(&vec![0xE4, 0xA1]);
    assert_eq!(m.step_with(0, 0), Ok(()));
    assert_eq!(m.pc, 0x204);
    let mut m2 = mk();
    m2.v[4] = 7;
    m2.set_key(7, true);
    m2.load(&vec![0xE4, 0xA1]);
    assert_eq!(m2.step_with(0, 0), Ok(()));
    assert_eq!(m2.pc, 0x202);
}

#[test]
fn wait_key_holds_pc_until_a_key_arrives() {
    let mut m = mk();
    m.load(&vec![0xF3, 0x0A]);
    for _ in 0..5 {
        assert_eq!(m.step_with(0, 0), Ok(()));
        assert_eq!(m.pc, 0x200);
    }
    m.set_key(5, true);
    assert_eq!(m.step_with(0, 0), Ok(()));
    assert_eq!(m.v[3], 5);
    assert_eq!(m.pc, 0x202);
}

#[test]
fn wait_key_takes_the_lowest_pressed_key() {
    let mut m = mk();
    m.set_key(9, true);
    m.set_key(4, true);
    m.load(&vec![0xF3, 0x0A]);
    assert_eq!(m.step_with(0, 0), Ok(()));
    assert_eq!(m.v[3], 4);
    assert_eq!(m.pc, 0x202);
}
