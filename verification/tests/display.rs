use chip8::machine::Machine;

fn mk() -> Machine {
    Machine::new(64, 32)
}

fn lit_cells(m: &Machine) -> Vec<(usize, usize)> {
    let mut out = Vec::new();
    for y in 0..32 {
        for x in 0..64 {
            if m.pixel(x, y) {
                out.push((x, y));
            }
        }
    }
    out
}

#[test]
fn clear_screen_unlights_everything_and_marks_dirty() {
    let mut m = mk();
    m.display[0] = true;
    m.display[64 * 32 - 1] = true;
    m.clear_dirty();
    m.load(&vec![0x00, 0xE0]);
    assert_eq!(m.step_with(0, 0), Ok(()));
    assert!(lit_cells(&m).is_empty());
    assert!(m.dirty);
}

#[test]
fn draw_after_clear_shows_exactly_the_sprite() {
    let mut m = mk();
    // Sprite: two rows, 0xA5 and 0xFF, at (3, 4).
    m.memory[0x300] = 0xA5;
    m.memory[0x301] = 0xFF;
    m.i = 0x300;
    m.v[0] = 3;
    m.v[1] = 4;
    m.load(&vec![0x00, 0xE0, 0xD0, 0x12]);
    assert_eq!(m.step_with(0, 0), Ok(()));
    assert_eq!(m.step_with(0, 0), Ok(()));
    let mut expected = Vec::new();
    for dx in 0..8 {
        if 0xA5u8 & (0x80 >> dx) != 0 {
            expected.push((3 + dx, 4));
        }
    }
    for dx in 0..8 {
        expected.push((3 + dx, 5));
    }
    assert_eq!(lit_cells(&m), expected);
    assert_eq!(m.v[0xF], 0);
}

#[test]
fn double_draw_restores_the_framebuffer_and_reports_collision() {
    let mut m = mk();
    m.memory[0x300] = 0x3C;
    m.memory[0x301] = 0x42;
    m.memory[0x302] = 0x81;
    m.i = 0x300;
    m.v[0] = 10;
    m.v[1] = 7;
    // A pre-existing lit pixel away from the sprite.
    m.display[0] = true;
    m.load(&vec![0xD0, 0x13, 0xD0, 0x13]);
    assert_eq!(m.step_with(0, 0), Ok(()));
    // First draw touches no lit pixel: no collision.
    assert_eq!(m.v[0xF], 0);
    assert_eq!(m.step_with(0, 0), Ok(()));
    // Second draw erases every pixel it had lit: collision, and the
    // framebuffer is exactly the prior one again.
    assert_eq!(m.v[0xF], 1);
    assert_eq!(lit_cells(&m), vec![(0, 0)]);
}

#[test]
fn draw_overlapping_a_lit_pixel_reports_collision_on_first_draw() {
    let mut m = mk();
    m.memory[0x300] = 0x80;
    m.i = 0x300;
    m.v[0] = 12;
    m.v[1] = 9;
    m.display[9 * 64 + 12] = true;
    m.load(&vec![0xD0, 0x11]);
    assert_eq!(m.step_with(0, 0), Ok(()));
    assert_eq!(m.v[0xF], 1);
    assert!(!m.pixel(12, 9));
}

#[test]
fn sprite_at_bottom_right_corner_wraps_both_ways() {
    let mut m = mk();
    // Two rows of 0xC0: pixels at columns 0 and 1 of each row.
    m.memory[0x300] = 0xC0;
    m.memory[0x301] = 0xC0;
    m.i = 0x300;
    m.v[0] = 63;
    m.v[1] = 31;
    m.load(&vec![0xD0, 0x12]);
    assert_eq!(m.step_with(0, 0), Ok(()));
    // Row 31 holds columns 63 and 0; the second row wraps to row 0.
    assert_eq!(lit_cells(&m), vec![(0, 0), (63, 0), (0, 31), (63, 31)]);
    assert_eq!(m.v[0xF], 0);
}

#[test]
fn coordinates_wrap_modulo_the_display_size() {
    let mut m = mk();
    m.memory[0x300] = 0x80;
    m.i = 0x300;
    m.v[0] = 64 + 2;
    m.v[1] = 32 + 3;
    m.load(&vec![0xD0, 0x11]);
    assert_eq!(m.step_with(0, 0), Ok(()));
    assert_eq!(lit_cells(&m), vec![(2, 3)]);
}

#[test]
fn draw_marks_dirty_only_for_set_pixels() {
    let mut m = mk();
    m.memory[0x300] = 0x00;
    m.i = 0x300;
    m.clear_dirty();
    m.load(&vec![0xD0, 0x11, 0xD0, 0x11]);
    assert_eq!(m.step_with(0, 0), Ok(()));
    assert!(!m.dirty);
    m.memory[0x300] = 0x01;
    assert_eq!(m.step_with(0, 0), Ok(()));
    assert!(m.dirty);
}

#[test]
fn zero_row_draw_changes_nothing_and_clears_flag() {
    let mut m = mk();
    m.v[0xF] = 1;
    m.i = 0x300;
    m.load(&vec![0xD0, 0x10]);
    assert_eq!(m.step_with(0, 0), Ok(()));
    assert!(lit_cells(&m).is_empty());
    assert_eq!(m.v[0xF], 0);
}

#[test]
fn font_glyph_draws_as_its_bitmap() {
    let mut m = mk();
    // Point i at glyph 1 through Fx29 and draw its five rows at (0, 0).
    m.v[2] = 1;
    m.load(&vec![0xF2, 0x29, 0xD0, 0x05]);
    assert_eq!(m.step_with(0, 0), Ok(()));
    assert_eq!(m.i, 5);
    assert_eq!(m.step_with(0, 0), Ok(()));
    // Glyph 1 is 0x20, 0x60, 0x20, 0x20, 0x70.
    let lit = lit_cells(&m);
    assert!(lit.contains(&(2, 0)));
    assert!(lit.contains(&(1, 1)));
    assert!(lit.contains(&(2, 1)));
    assert!(lit.contains(&(1, 4)));
    assert!(lit.contains(&(2, 4)));
    assert!(lit.contains(&(3, 4)));
    assert_eq!(lit.len(), 8);
}
