//! Laws of the instruction set: properties that relate several operations or
//! several steps, proved once and for all states the engine can reach.

use vstd::prelude::*;

use crate::decode::{decode_spec, Instr};
use crate::machine::{lemma_row_major_in_bounds, State, MEM_SIZE, TICK_NANOS};
use crate::semantics::{
    advanced, draw_pixel, draw_row, draw_rows, draw_sprite, fetch_word, instr_effect,
    lowest_key_from, px_on, sprite_at, step_spec, ticked, Frame,
};

verus! {

broadcast use vstd::arithmetic::div_mod::lemma_mod_division_less_than_divisor;

/// The add-with-carry law: `8xy4` leaves the carry flag 1 exactly when
/// `v[x] + v[y]` overflows a byte, and leaves the wrapped sum in `v[x]`.
/// With `x = 0xF` the sum itself lands in the flag register and overwrites
/// the carry, so the flag register is excluded as the destination.
pub proof fn lemma_add_sets_carry(s: State, x: u8, y: u8, rand: u8)
    requires
        s.wf(),
        x < 15,
        y < 16,
    ensures
        instr_effect(s, Instr::Add { x, y }, rand).v[0xF] == (if s.v[x as int] + s.v[y as int]
            > 255 {
            1u8
        } else {
            0u8
        }),
        instr_effect(s, Instr::Add { x, y }, rand).v[x as int] == (if s.v[x as int] + s.v[y as int]
            > 255 {
            (s.v[x as int] + s.v[y as int] - 256) as u8
        } else {
            (s.v[x as int] + s.v[y as int]) as u8
        }),
{
}

/// The subtract-borrow law: `8xy5` leaves the no-borrow flag 1 exactly when
/// `v[x] >= v[y]`, and leaves the wrapped difference in `v[x]`. As with the
/// carry law, the flag register is excluded as the destination.
pub proof fn lemma_sub_sets_no_borrow(s: State, x: u8, y: u8, rand: u8)
    requires
        s.wf(),
        x < 15,
        y < 16,
    ensures
        instr_effect(s, Instr::Sub { x, y }, rand).v[0xF] == (if s.v[x as int] >= s.v[y as int] {
            1u8
        } else {
            0u8
        }),
        instr_effect(s, Instr::Sub { x, y }, rand).v[x as int] == (if s.v[x as int] - s.v[y as int]
            < 0 {
            (s.v[x as int] - s.v[y as int] + 256) as u8
        } else {
            (s.v[x as int] - s.v[y as int]) as u8
        }),
{
}

/// The timer pacer is additive in elapsed wall time: pacing with `e1` then
/// `e2` nanoseconds leaves exactly the state of pacing once with `e1 + e2`.
/// Timer decay therefore depends only on total elapsed wall time, never on
/// how many steps that time was spread over.
pub proof fn lemma_ticked_additive(s: State, e1: u64, e2: u64)
    requires
        s.wf(),
        e1 + e2 <= u64::MAX,
    ensures
        ticked(ticked(s, e1), e2) =~= ticked(s, (e1 + e2) as u64),
{
    let tick: int = TICK_NANOS as int;
    let acc1: int = s.terr + e1;
    let t1: int = acc1 / tick;
    let r1: int = acc1 % tick;
    let acc2: int = r1 + e2;
    let t2: int = acc2 / tick;
    let r2: int = acc2 % tick;
    let total: int = s.terr + e1 + e2;
    vstd::arithmetic::div_mod::lemma_fundamental_div_mod(acc1, tick);
    vstd::arithmetic::div_mod::lemma_fundamental_div_mod(acc2, tick);
    vstd::arithmetic::div_mod::lemma_div_pos_is_pos(acc1, tick);
    vstd::arithmetic::div_mod::lemma_div_pos_is_pos(acc2, tick);
    assert(total == (t1 + t2) * tick + r2) by (nonlinear_arith)
        requires
            acc1 == t1 * tick + r1,
            acc2 == t2 * tick + r2,
            acc2 == r1 + e2,
            total == s.terr + e1 + e2,
            acc1 == s.terr + e1,
    ;
    vstd::arithmetic::div_mod::lemma_fundamental_div_mod_converse(total, tick, t1 + t2, r2);
}

/// One second of wall time makes a full timer lose exactly sixty counts: the
/// concrete 60 Hz pacing rate, stated for a fresh remainder.
pub proof fn lemma_one_second_is_sixty_ticks(s: State, e: u64)
    requires
        s.wf(),
        s.terr == 0,
        e == 1000000000,
    ensures
        ticked(s, e).dt == (if s.dt >= 60 { (s.dt - 60) as u8 } else { 0u8 }),
        ticked(s, e).st == (if s.st >= 60 { (s.st - 60) as u8 } else { 0u8 }),
{
    let tick: int = TICK_NANOS as int;
    vstd::arithmetic::div_mod::lemma_fundamental_div_mod_converse(1000000000, tick, 60, 40);
}

/// With no key held, the key-wait instruction makes no progress: the program
/// counter and every register, the memory, the stack and the framebuffer come
/// out unchanged, so the same instruction re-executes on the next step. Only
/// the timers advance with wall time.
pub proof fn lemma_wait_key_blocks(s: State, rand: u8, elapsed: u64)
    requires
        s.wf(),
        decode_spec(fetch_word(s)) is WaitKey,
        forall|j: int| 0 <= j < 16 ==> !s.keys[j],
    ensures
        step_spec(s, rand, elapsed) matches Ok(u) && u.pc == s.pc && u.v == s.v && u.mem == s.mem
            && u.i == s.i && u.sp == s.sp && u.stack == s.stack && u.disp == s.disp,
{
    lemma_no_pressed_key_scans_empty(s.keys, 0);
    lemma_pc_advance_then_rewind(s.pc as int);
}

/// Once some key is held, the key-wait instruction stores the lowest-numbered
/// pressed key in its destination register and lets the program counter
/// advance normally.
pub proof fn lemma_wait_key_proceeds(s: State, rand: u8, elapsed: u64)
    requires
        s.wf(),
        decode_spec(fetch_word(s)) is WaitKey,
        lowest_key_from(s.keys, 0) is Some,
    ensures
        step_spec(s, rand, elapsed) matches Ok(u) && u.pc == (s.pc + 2) % (MEM_SIZE as int) && (
        decode_spec(fetch_word(s)) matches Instr::WaitKey { x } && (lowest_key_from(s.keys, 0)
            matches Some(key) && u.v == s.v.update(x as int, key))),
{
}

/// A call pushes the address of the instruction after it, and a later return
/// that finds that stack frame intact restores the program counter to exactly
/// that address, with the stack depth back to the caller's: the call/return
/// round trip.
pub proof fn lemma_call_ret_round_trip(
    s: State,
    rand1: u8,
    e1: u64,
    t: State,
    rand2: u8,
    e2: u64,
)
    requires
        s.wf(),
        t.wf(),
        decode_spec(fetch_word(s)) is Call,
        s.sp < 16,
        decode_spec(fetch_word(t)) is Ret,
        t.sp == s.sp + 1,
        (step_spec(s, rand1, e1) matches Ok(s1) && t.stack[s.sp as int] == s1.stack[s.sp as int]),
    ensures
        (step_spec(s, rand1, e1) matches Ok(s1) && s1.sp == s.sp + 1 && s1.stack[s.sp as int]
            == ((s.pc + 2) % (MEM_SIZE as int)) as u16 && (decode_spec(fetch_word(s))
            matches Instr::Call { n } && s1.pc == n)),
        (step_spec(t, rand2, e2) matches Ok(u) && u.pc == (s.pc + 2) % (MEM_SIZE as int) && u.sp
            == s.sp),
{
}

/// The framebuffer cell that sprite pixel `(dx, dy)` of a sprite drawn at
/// `(x0, y0)` lands on: column and row each wrap independently.
pub open spec fn cell_of(w: int, h: int, x0: int, y0: int, dx: int, dy: int) -> int {
    ((y0 + dy) % h) * w + ((x0 + dx) % w)
}

/// Whether any sprite pixel of rows `dy0..n` lands on framebuffer cell `c`.
pub open spec fn sprite_hits(w: int, h: int, x0: int, y0: int, n: int, dy0: int, c: int) -> bool {
    exists|dy: int, dx: int|
        dy0 <= dy < n && 0 <= dx < 8 && #[trigger] cell_of(w, h, x0, y0, dx, dy) == c
}

/// Whether some set sprite pixel of rows `dy0..` lands on a lit cell of
/// `disp`: the condition under which a draw reports a collision.
pub open spec fn sprite_overlap(
    disp: Seq<bool>,
    w: int,
    h: int,
    x0: int,
    y0: int,
    sprite: Seq<u8>,
    dy0: int,
) -> bool {
    exists|dy: int, dx: int|
        dy0 <= dy < sprite.len() && 0 <= dx < 8 && px_on(sprite[dy], dx) && disp[#[trigger] cell_of(
            w,
            h,
            x0,
            y0,
            dx,
            dy,
        )]
}

/// A number in `[0, 2m)` reduces modulo `m` by at most one subtraction.
proof fn lemma_mod_in_range(x: int, m: int)
    requires
        1 <= m,
        0 <= x < 2 * m,
    ensures
        x % m == (if x < m {
            x
        } else {
            x - m
        }),
{
    if x < m {
        vstd::arithmetic::div_mod::lemma_small_mod(x as nat, m as nat);
    } else {
        assert((m * 1 + (x - m)) % m == (x - m) % m) by {
            vstd::arithmetic::div_mod::lemma_mod_multiples_vanish(1, x - m, m);
        }
        vstd::arithmetic::div_mod::lemma_small_mod((x - m) as nat, m as nat);
    }
}

/// Two distinct offsets within a window narrower than the modulus land on
/// distinct residues.
proof fn lemma_wrap_distinct(base: int, d1: int, d2: int, m: int)
    requires
        1 <= m,
        0 <= base,
        0 <= d1 < d2,
        d2 - d1 < m,
    ensures
        (base + d1) % m != (base + d2) % m,
{
    let r1 = (base + d1) % m;
    let r2 = (base + d2) % m;
    vstd::arithmetic::div_mod::lemma_fundamental_div_mod(base + d1, m);
    vstd::arithmetic::div_mod::lemma_fundamental_div_mod(base + d2, m);
    let q1 = (base + d1) / m;
    let q2 = (base + d2) / m;
    if r1 == r2 {
        assert(d2 - d1 == (q2 - q1) * m) by (nonlinear_arith)
            requires
                base + d1 == m * q1 + r1,
                base + d2 == m * q2 + r2,
                r1 == r2,
        ;
        assert(false) by (nonlinear_arith)
            requires
                d2 - d1 == (q2 - q1) * m,
                0 < d2 - d1 < m,
        ;
    }
}

/// Cells with distinct rows, or the same row and distinct columns, differ.
proof fn lemma_cell_distinct(w: int, ny1: int, c1: int, ny2: int, c2: int)
    requires
        1 <= w,
        0 <= c1 < w,
        0 <= c2 < w,
        0 <= ny1,
        0 <= ny2,
        ny1 != ny2 || c1 != c2,
    ensures
        ny1 * w + c1 != ny2 * w + c2,
{
    assert(ny1 * w + c1 != ny2 * w + c2) by (nonlinear_arith)
        requires
            1 <= w,
            0 <= c1 < w,
            0 <= c2 < w,
            0 <= ny1,
            0 <= ny2,
            ny1 != ny2 || c1 != c2,
    ;
}

/// The framebuffer cell that pixel `dx` of a sprite row drawn at display
/// row `ny` lands on.
pub open spec fn row_cell(w: int, x0: int, ny: int, dx: int) -> int {
    ny * w + ((x0 + dx) % w)
}

/// Whether some pixel `dx0..8` of a sprite row at display row `ny` lands on
/// cell `c`.
pub open spec fn row_hits(w: int, x0: int, ny: int, dx0: int, c: int) -> bool {
    exists|dx: int| dx0 <= dx < 8 && #[trigger] row_cell(w, x0, ny, dx) == c
}

/// Whether some set pixel `dx0..8` of sprite-row byte `b` lands on a lit
/// cell of `disp`.
pub open spec fn row_overlap(disp: Seq<bool>, w: int, x0: int, ny: int, b: u8, dx0: int) -> bool {
    exists|dx: int|
        dx0 <= dx < 8 && px_on(b, dx) && disp[#[trigger] row_cell(w, x0, ny, dx)]
}

/// Pointwise account of drawing one sprite row when the display is at least
/// eight pixels wide: the row's eight cells are distinct, so each is toggled
/// by exactly its own sprite pixel, every other cell keeps its value, and a
/// collision is recorded exactly when a set pixel lands on a lit cell.
proof fn lemma_row_pointwise(f: Frame, w: int, x0: int, ny: int, b: u8, dx0: int)
    requires
        8 <= w,
        0 <= x0,
        0 <= ny,
        (ny + 1) * w <= f.disp.len(),
        0 <= dx0,
    ensures
        ({
            let g = draw_row(f, w, x0, ny, b, dx0);
            &&& g.disp.len() == f.disp.len()
            &&& forall|dx: int|
                dx0 <= dx < 8 ==> g.disp[#[trigger] row_cell(w, x0, ny, dx)] == (f.disp[row_cell(
                    w,
                    x0,
                    ny,
                    dx,
                )] != px_on(b, dx))
            &&& forall|c: int|
                0 <= c < f.disp.len() && !row_hits(w, x0, ny, dx0, c) ==> #[trigger] g.disp[c]
                    == f.disp[c]
            &&& g.vf == (f.vf || row_overlap(f.disp, w, x0, ny, b, dx0))
        }),
    decreases 8 - dx0,
{
    broadcast use vstd::arithmetic::div_mod::lemma_mod_division_less_than_divisor;

    if dx0 < 8 {
        let idx0 = row_cell(w, x0, ny, dx0);
        let on0 = px_on(b, dx0);
        assert((ny + 1) * w == ny * w + w) by (nonlinear_arith);
        assert(0 <= ny * w) by (nonlinear_arith)
            requires
                0 <= ny,
                1 <= w,
        ;
        assert(0 <= idx0 < f.disp.len());
        let f1 = draw_pixel(f, idx0, on0);
        lemma_row_pointwise(f1, w, x0, ny, b, dx0 + 1);
        let g = draw_row(f, w, x0, ny, b, dx0);
        assert(g == draw_row(f1, w, x0, ny, b, dx0 + 1));
        assert forall|dx: int| dx0 < dx < 8 implies #[trigger] row_cell(w, x0, ny, dx)
            != idx0 by {
            lemma_wrap_distinct(x0, dx0, dx, w);
        }
        assert(!row_hits(w, x0, ny, dx0 + 1, idx0)) by {
            if row_hits(w, x0, ny, dx0 + 1, idx0) {
                let dxw = choose|dx: int|
                    dx0 + 1 <= dx < 8 && #[trigger] row_cell(w, x0, ny, dx) == idx0;
                assert(false);
            }
        }
        // Each cell of the row is toggled by its own pixel.
        assert forall|dx: int| dx0 <= dx < 8 implies #[trigger] g.disp[row_cell(w, x0, ny, dx)]
            == (f.disp[row_cell(w, x0, ny, dx)] != px_on(b, dx)) by {
            if dx == dx0 {
                assert(g.disp[idx0] == f1.disp[idx0]);
                assert(f1.disp[idx0] == (f.disp[idx0] != on0));
            } else {
                assert(row_cell(w, x0, ny, dx) != idx0);
                assert(f1.disp[row_cell(w, x0, ny, dx)] == f.disp[row_cell(w, x0, ny, dx)]);
            }
        }
        // Cells the row does not hit keep their value.
        assert forall|c: int|
            0 <= c < f.disp.len() && !row_hits(w, x0, ny, dx0, c) implies #[trigger] g.disp[c]
            == f.disp[c] by {
            assert(row_cell(w, x0, ny, dx0) == idx0);
            assert(c != idx0);
            assert(f1.disp[c] == f.disp[c]);
            assert(!row_hits(w, x0, ny, dx0 + 1, c)) by {
                if row_hits(w, x0, ny, dx0 + 1, c) {
                    let dxw = choose|dx: int|
                        dx0 + 1 <= dx < 8 && #[trigger] row_cell(w, x0, ny, dx) == c;
                    assert(row_hits(w, x0, ny, dx0, c));
                }
            }
        }
        // The collision flag accumulates exactly the overlaps.
        assert forall|dx: int| dx0 < dx < 8 implies f1.disp[#[trigger] row_cell(w, x0, ny, dx)]
            == f.disp[row_cell(w, x0, ny, dx)] by {
            assert(row_cell(w, x0, ny, dx) != idx0);
        }
        assert(g.vf == (f1.vf || row_overlap(f1.disp, w, x0, ny, b, dx0 + 1)));
        assert(row_overlap(f1.disp, w, x0, ny, b, dx0 + 1) == row_overlap(
            f.disp,
            w,
            x0,
            ny,
            b,
            dx0 + 1,
        )) by {
            if row_overlap(f1.disp, w, x0, ny, b, dx0 + 1) {
                let dxw = choose|dx: int|
                    dx0 + 1 <= dx < 8 && px_on(b, dx) && f1.disp[#[trigger] row_cell(w, x0, ny, dx)];
                assert(px_on(b, dxw) && f.disp[row_cell(w, x0, ny, dxw)]);
            }
            if row_overlap(f.disp, w, x0, ny, b, dx0 + 1) {
                let dxw = choose|dx: int|
                    dx0 + 1 <= dx < 8 && px_on(b, dx) && f.disp[#[trigger] row_cell(w, x0, ny, dx)];
                assert(px_on(b, dxw) && f1.disp[row_cell(w, x0, ny, dxw)]);
            }
        }
        assert(row_overlap(f.disp, w, x0, ny, b, dx0) == ((on0 && f.disp[idx0]) || row_overlap(
            f.disp,
            w,
            x0,
            ny,
            b,
            dx0 + 1,
        ))) by {
            if on0 && f.disp[idx0] {
                assert(dx0 <= dx0 < 8 && px_on(b, dx0) && f.disp[row_cell(w, x0, ny, dx0)]);
                assert(row_overlap(f.disp, w, x0, ny, b, dx0));
            }
            if row_overlap(f.disp, w, x0, ny, b, dx0 + 1) {
                let dxw = choose|dx: int|
                    dx0 + 1 <= dx < 8 && px_on(b, dx) && f.disp[#[trigger] row_cell(w, x0, ny, dx)];
                assert(dx0 <= dxw < 8 && px_on(b, dxw) && f.disp[row_cell(w, x0, ny, dxw)]);
                assert(row_overlap(f.disp, w, x0, ny, b, dx0));
            }
            if row_overlap(f.disp, w, x0, ny, b, dx0) {
                let dxw = choose|dx: int|
                    dx0 <= dx < 8 && px_on(b, dx) && f.disp[#[trigger] row_cell(w, x0, ny, dx)];
                if dxw != dx0 {
                    assert(dx0 + 1 <= dxw < 8 && px_on(b, dxw) && f.disp[row_cell(w, x0, ny, dxw)]);
                    assert(row_overlap(f.disp, w, x0, ny, b, dx0 + 1));
                }
            }
        }
    }
}

/// Pointwise account of a whole sprite draw when the display is at least
/// eight pixels wide and the sprite no taller than the display: every sprite
/// pixel lands on its own cell, so each hit cell is XOR-toggled by exactly
/// its own sprite pixel, every other cell keeps its value, and the collision
/// flag comes out set exactly when some set pixel landed on a lit cell.
pub proof fn lemma_draw_pointwise(
    f: Frame,
    w: int,
    h: int,
    x0: int,
    y0: int,
    sprite: Seq<u8>,
    dy0: int,
)
    requires
        8 <= w,
        1 <= h,
        sprite.len() <= h,
        f.disp.len() == w * h,
        0 <= x0,
        0 <= y0,
        0 <= dy0,
    ensures
        ({
            let g = draw_rows(f, w, h, x0, y0, sprite, dy0);
            &&& g.disp.len() == f.disp.len()
            &&& forall|dy: int, dx: int|
                dy0 <= dy < sprite.len() && 0 <= dx < 8 ==> g.disp[#[trigger] cell_of(
                    w,
                    h,
                    x0,
                    y0,
                    dx,
                    dy,
                )] == (f.disp[cell_of(w, h, x0, y0, dx, dy)] != px_on(sprite[dy], dx))
            &&& forall|c: int|
                0 <= c < f.disp.len() && !sprite_hits(w, h, x0, y0, sprite.len() as int, dy0, c)
                    ==> #[trigger] g.disp[c] == f.disp[c]
            &&& g.vf == (f.vf || sprite_overlap(f.disp, w, h, x0, y0, sprite, dy0))
        }),
    decreases sprite.len() - dy0,
{
    broadcast use vstd::arithmetic::div_mod::lemma_mod_division_less_than_divisor;

    let n = sprite.len() as int;
    let g = draw_rows(f, w, h, x0, y0, sprite, dy0);
    if dy0 >= n {
        assert(!sprite_overlap(f.disp, w, h, x0, y0, sprite, dy0)) by {
            if sprite_overlap(f.disp, w, h, x0, y0, sprite, dy0) {
                let (dyw, dxw) = choose|dy: int, dx: int|
                    dy0 <= dy < sprite.len() && 0 <= dx < 8 && px_on(sprite[dy], dx)
                        && f.disp[#[trigger] cell_of(w, h, x0, y0, dx, dy)];
                assert(false);
            }
        }
    } else {
        let ny0 = (y0 + dy0) % h;
        let b0 = sprite[dy0];
        assert((ny0 + 1) * w <= h * w && h * w == w * h) by (nonlinear_arith)
            requires
                0 <= ny0 < h,
                1 <= w,
        ;
        lemma_row_pointwise(f, w, x0, ny0, b0, 0);
        let f1 = draw_row(f, w, x0, ny0, b0, 0);
        lemma_draw_pointwise(f1, w, h, x0, y0, sprite, dy0 + 1);
        assert(g == draw_rows(f1, w, h, x0, y0, sprite, dy0 + 1));
        // A later row's cell is never one of this row's cells.
        assert forall|dy: int, dx: int| dy0 < dy < n && 0 <= dx < 8 implies !row_hits(
            w,
            x0,
            ny0,
            0,
            #[trigger] cell_of(w, h, x0, y0, dx, dy),
        ) by {
            let nyd = (y0 + dy) % h;
            lemma_wrap_distinct(y0, dy0, dy, h);
            if row_hits(w, x0, ny0, 0, cell_of(w, h, x0, y0, dx, dy)) {
                let dxw = choose|dxx: int|
                    0 <= dxx < 8 && #[trigger] row_cell(w, x0, ny0, dxx) == cell_of(
                        w,
                        h,
                        x0,
                        y0,
                        dx,
                        dy,
                    );
                lemma_cell_distinct(w, ny0, (x0 + dxw) % w, nyd, (x0 + dx) % w);
            }
        }
        // This row's cells are never hit by the later rows.
        assert forall|dx: int| 0 <= dx < 8 implies !sprite_hits(
            w,
            h,
            x0,
            y0,
            n,
            dy0 + 1,
            #[trigger] row_cell(w, x0, ny0, dx),
        ) by {
            if sprite_hits(w, h, x0, y0, n, dy0 + 1, row_cell(w, x0, ny0, dx)) {
                let (dyw, dxw) = choose|dy: int, dx2: int|
                    dy0 + 1 <= dy < n && 0 <= dx2 < 8 && #[trigger] cell_of(w, h, x0, y0, dx2, dy)
                        == row_cell(w, x0, ny0, dx);
                lemma_wrap_distinct(y0, dy0, dyw, h);
                lemma_cell_distinct(w, (y0 + dyw) % h, (x0 + dxw) % w, ny0, (x0 + dx) % w);
            }
        }
        // Every cell a sprite pixel lands on is inside the framebuffer.
        assert forall|dy: int, dx: int| 0 <= dx < 8 implies 0 <= #[trigger] cell_of(
            w,
            h,
            x0,
            y0,
            dx,
            dy,
        ) < w * h by {
            lemma_row_major_in_bounds(w, h, (x0 + dx) % w, (y0 + dy) % h);
        }
        // Each sprite pixel toggles exactly its own cell.
        assert forall|dy: int, dx: int| dy0 <= dy < n && 0 <= dx < 8 implies g.disp[#[trigger] cell_of(
            w,
            h,
            x0,
            y0,
            dx,
            dy,
        )] == (f.disp[cell_of(w, h, x0, y0, dx, dy)] != px_on(sprite[dy], dx)) by {
            if dy == dy0 {
                assert(cell_of(w, h, x0, y0, dx, dy0) == row_cell(w, x0, ny0, dx));
                assert(f1.disp[row_cell(w, x0, ny0, dx)] == (f.disp[row_cell(w, x0, ny0, dx)]
                    != px_on(b0, dx)));
                assert(g.disp[row_cell(w, x0, ny0, dx)] == f1.disp[row_cell(w, x0, ny0, dx)]);
            } else {
                assert(cell_of(w, h, x0, y0, dx, dy) == row_cell(w, x0, (y0 + dy) % h, dx));
                assert(f1.disp[cell_of(w, h, x0, y0, dx, dy)] == f.disp[cell_of(
                    w,
                    h,
                    x0,
                    y0,
                    dx,
                    dy,
                )]);
            }
        }
        // Cells no sprite pixel lands on keep their value.
        assert forall|c: int|
            0 <= c < f.disp.len() && !sprite_hits(w, h, x0, y0, n, dy0, c) implies #[trigger] g.disp[c]
            == f.disp[c] by {
            assert(!row_hits(w, x0, ny0, 0, c)) by {
                if row_hits(w, x0, ny0, 0, c) {
                    let dxw = choose|dx: int|
                        0 <= dx < 8 && #[trigger] row_cell(w, x0, ny0, dx) == c;
                    assert(cell_of(w, h, x0, y0, dxw, dy0) == c);
                    assert(sprite_hits(w, h, x0, y0, n, dy0, c));
                }
            }
            assert(f1.disp[c] == f.disp[c]);
            assert(!sprite_hits(w, h, x0, y0, n, dy0 + 1, c)) by {
                if sprite_hits(w, h, x0, y0, n, dy0 + 1, c) {
                    let (dyw, dxw) = choose|dy: int, dx: int|
                        dy0 + 1 <= dy < n && 0 <= dx < 8 && #[trigger] cell_of(w, h, x0, y0, dx, dy)
                            == c;
                    assert(sprite_hits(w, h, x0, y0, n, dy0, c));
                }
            }
        }
        // The collision flag accumulates exactly the overlaps.
        assert(g.vf == (f1.vf || sprite_overlap(f1.disp, w, h, x0, y0, sprite, dy0 + 1)));
        assert(f1.vf == (f.vf || row_overlap(f.disp, w, x0, ny0, b0, 0)));
        assert(sprite_overlap(f1.disp, w, h, x0, y0, sprite, dy0 + 1) == sprite_overlap(
            f.disp,
            w,
            h,
            x0,
            y0,
            sprite,
            dy0 + 1,
        )) by {
            if sprite_overlap(f1.disp, w, h, x0, y0, sprite, dy0 + 1) {
                let (dyw, dxw) = choose|dy: int, dx: int|
                    dy0 + 1 <= dy < sprite.len() && 0 <= dx < 8 && px_on(sprite[dy], dx)
                        && f1.disp[#[trigger] cell_of(w, h, x0, y0, dx, dy)];
                assert(f1.disp[cell_of(w, h, x0, y0, dxw, dyw)] == f.disp[cell_of(
                    w,
                    h,
                    x0,
                    y0,
                    dxw,
                    dyw,
                )]);
                assert(sprite_overlap(f.disp, w, h, x0, y0, sprite, dy0 + 1));
            }
            if sprite_overlap(f.disp, w, h, x0, y0, sprite, dy0 + 1) {
                let (dyw, dxw) = choose|dy: int, dx: int|
                    dy0 + 1 <= dy < sprite.len() && 0 <= dx < 8 && px_on(sprite[dy], dx)
                        && f.disp[#[trigger] cell_of(w, h, x0, y0, dx, dy)];
                assert(f1.disp[cell_of(w, h, x0, y0, dxw, dyw)] == f.disp[cell_of(
                    w,
                    h,
                    x0,
                    y0,
                    dxw,
                    dyw,
                )]);
                assert(sprite_overlap(f1.disp, w, h, x0, y0, sprite, dy0 + 1));
            }
        }
        assert(sprite_overlap(f.disp, w, h, x0, y0, sprite, dy0) == (row_overlap(
            f.disp,
            w,
            x0,
            ny0,
            b0,
            0,
        ) || sprite_overlap(f.disp, w, h, x0, y0, sprite, dy0 + 1))) by {
            if row_overlap(f.disp, w, x0, ny0, b0, 0) {
                let dxw = choose|dx: int|
                    0 <= dx < 8 && px_on(b0, dx) && f.disp[#[trigger] row_cell(w, x0, ny0, dx)];
                assert(cell_of(w, h, x0, y0, dxw, dy0) == row_cell(w, x0, ny0, dxw));
                assert(sprite_overlap(f.disp, w, h, x0, y0, sprite, dy0));
            }
            if sprite_overlap(f.disp, w, h, x0, y0, sprite, dy0 + 1) {
                let (dyw, dxw) = choose|dy: int, dx: int|
                    dy0 + 1 <= dy < sprite.len() && 0 <= dx < 8 && px_on(sprite[dy], dx)
                        && f.disp[#[trigger] cell_of(w, h, x0, y0, dx, dy)];
                assert(sprite_overlap(f.disp, w, h, x0, y0, sprite, dy0));
            }
            if sprite_overlap(f.disp, w, h, x0, y0, sprite, dy0) {
                let (dyw, dxw) = choose|dy: int, dx: int|
                    dy0 <= dy < sprite.len() && 0 <= dx < 8 && px_on(sprite[dy], dx)
                        && f.disp[#[trigger] cell_of(w, h, x0, y0, dx, dy)];
                if dyw == dy0 {
                    assert(cell_of(w, h, x0, y0, dxw, dy0) == row_cell(w, x0, ny0, dxw));
                    assert(row_overlap(f.disp, w, x0, ny0, b0, 0));
                } else {
                    assert(sprite_overlap(f.disp, w, h, x0, y0, sprite, dy0 + 1));
                }
            }
        }
    }
}

/// A draw onto a cleared framebuffer lights exactly the sprite's set pixels:
/// each sprite pixel's cell shows that pixel, every other cell stays unlit,
/// and no collision is reported.
pub proof fn lemma_clear_then_draw(
    dirty0: bool,
    w: int,
    h: int,
    x0: int,
    y0: int,
    sprite: Seq<u8>,
)
    requires
        8 <= w,
        1 <= h,
        sprite.len() <= h,
        0 <= x0,
        0 <= y0,
    ensures
        ({
            let blank = Seq::new((w * h) as nat, |c: int| false);
            let g = draw_sprite(blank, dirty0, w, h, x0, y0, sprite);
            &&& g.disp.len() == w * h
            &&& forall|dy: int, dx: int|
                0 <= dy < sprite.len() && 0 <= dx < 8 ==> g.disp[#[trigger] cell_of(
                    w,
                    h,
                    x0,
                    y0,
                    dx,
                    dy,
                )] == px_on(sprite[dy], dx)
            &&& forall|c: int|
                0 <= c < w * h && !sprite_hits(w, h, x0, y0, sprite.len() as int, 0, c)
                    ==> !(#[trigger] g.disp[c])
            &&& !g.vf
        }),
{
    broadcast use vstd::arithmetic::div_mod::lemma_mod_division_less_than_divisor;

    assert(0 < w * h) by (nonlinear_arith)
        requires
            1 <= w,
            1 <= h,
    ;
    let blank = Seq::new((w * h) as nat, |c: int| false);
    let f = Frame { disp: blank, vf: false, dirty: dirty0 };
    lemma_draw_pointwise(f, w, h, x0, y0, sprite, 0);
    let g = draw_rows(f, w, h, x0, y0, sprite, 0);
    assert forall|dy: int, dx: int| 0 <= dy < sprite.len() && 0 <= dx < 8 implies g.disp[#[trigger] cell_of(
        w,
        h,
        x0,
        y0,
        dx,
        dy,
    )] == px_on(sprite[dy], dx) by {
        lemma_row_major_in_bounds(w, h, (x0 + dx) % w, (y0 + dy) % h);
        assert(!blank[cell_of(w, h, x0, y0, dx, dy)]);
    }
    assert(!sprite_overlap(blank, w, h, x0, y0, sprite, 0)) by {
        if sprite_overlap(blank, w, h, x0, y0, sprite, 0) {
            let (dyw, dxw) = choose|dy: int, dx: int|
                0 <= dy < sprite.len() && 0 <= dx < 8 && px_on(sprite[dy], dx)
                    && blank[#[trigger] cell_of(w, h, x0, y0, dx, dy)];
            lemma_row_major_in_bounds(w, h, (x0 + dxw) % w, (y0 + dyw) % h);
        }
    }
}

/// Drawing the same sprite twice at the same position restores the prior
/// framebuffer exactly (XOR is an involution), and the first draw reports a
/// collision exactly where a previously lit pixel stood under a set sprite
/// pixel.
pub proof fn lemma_double_draw_restores(
    disp: Seq<bool>,
    dirty0: bool,
    w: int,
    h: int,
    x0: int,
    y0: int,
    sprite: Seq<u8>,
)
    requires
        8 <= w,
        1 <= h,
        sprite.len() <= h,
        disp.len() == w * h,
        0 <= x0,
        0 <= y0,
    ensures
        ({
            let g1 = draw_sprite(disp, dirty0, w, h, x0, y0, sprite);
            let g2 = draw_sprite(g1.disp, g1.dirty, w, h, x0, y0, sprite);
            &&& g2.disp =~= disp
            &&& g1.vf == sprite_overlap(disp, w, h, x0, y0, sprite, 0)
        }),
{
    broadcast use vstd::arithmetic::div_mod::lemma_mod_division_less_than_divisor;

    let n = sprite.len() as int;
    let f = Frame { disp, vf: false, dirty: dirty0 };
    lemma_draw_pointwise(f, w, h, x0, y0, sprite, 0);
    let g1 = draw_rows(f, w, h, x0, y0, sprite, 0);
    let f2 = Frame { disp: g1.disp, vf: false, dirty: g1.dirty };
    lemma_draw_pointwise(f2, w, h, x0, y0, sprite, 0);
    let g2 = draw_rows(f2, w, h, x0, y0, sprite, 0);
    assert forall|c: int| 0 <= c < disp.len() implies g2.disp[c] == disp[c] by {
        if sprite_hits(w, h, x0, y0, n, 0, c) {
            let (dyw, dxw) = choose|dy: int, dx: int|
                0 <= dy < n && 0 <= dx < 8 && #[trigger] cell_of(w, h, x0, y0, dx, dy) == c;
            assert(g1.disp[c] == (disp[c] != px_on(sprite[dyw], dxw)));
            assert(g2.disp[c] == (g1.disp[c] != px_on(sprite[dyw], dxw)));
        }
    }
    assert(g2.disp =~= disp);
}

/// The instruction-level form of the clear-then-draw law: a `00E0` followed
/// by any `Dxyn` leaves a framebuffer with exactly the drawn sprite's set
/// pixels lit, no residual pixels, and no collision. Stated for a display at
/// least eight pixels wide and a sprite no taller than the display, where no
/// two sprite pixels share a cell.
pub proof fn lemma_cls_then_draw(s: State, x: u8, y: u8, rows: u8, rand: u8)
    requires
        s.wf(),
        x < 16,
        y < 16,
        rows < 16,
        8 <= s.width,
        rows <= s.height,
    ensures
        ({
            let cleared = instr_effect(s, Instr::Cls, rand);
            let drawn = instr_effect(cleared, Instr::Draw { x, y, rows }, rand);
            let w = s.width as int;
            let h = s.height as int;
            let x0 = s.v[x as int] as int;
            let y0 = s.v[y as int] as int;
            let sprite = sprite_at(s, rows);
            &&& drawn.disp.len() == s.disp.len()
            &&& forall|dy: int, dx: int|
                0 <= dy < rows && 0 <= dx < 8 ==> drawn.disp[#[trigger] cell_of(
                    w,
                    h,
                    x0,
                    y0,
                    dx,
                    dy,
                )] == px_on(sprite[dy], dx)
            &&& forall|c: int|
                0 <= c < s.disp.len() && !sprite_hits(w, h, x0, y0, rows as int, 0, c) ==> !(
                #[trigger] drawn.disp[c])
            &&& drawn.v[0xF] == 0
        }),
{
    let cleared = instr_effect(s, Instr::Cls, rand);
    let w = s.width as int;
    let h = s.height as int;
    let x0 = s.v[x as int] as int;
    let y0 = s.v[y as int] as int;
    let sprite = sprite_at(s, rows);
    let blank = Seq::new((w * h) as nat, |c: int| false);
    assert(cleared.disp =~= blank);
    assert(sprite_at(cleared, rows) =~= sprite);
    lemma_clear_then_draw(cleared.dirty, w, h, x0, y0, sprite);
}

/// The instruction-level form of the double-draw law: two consecutive `Dxyn`
/// draws of the same sprite at the same position restore the framebuffer
/// exactly, and the first draw reports a collision exactly where a
/// previously lit pixel stood under a set sprite pixel. The coordinate
/// registers exclude the flag register, which the first draw overwrites.
pub proof fn lemma_draw_twice_restores(s: State, x: u8, y: u8, rows: u8, rand: u8)
    requires
        s.wf(),
        x < 15,
        y < 15,
        rows < 16,
        8 <= s.width,
        rows <= s.height,
    ensures
        ({
            let once = instr_effect(s, Instr::Draw { x, y, rows }, rand);
            let twice = instr_effect(once, Instr::Draw { x, y, rows }, rand);
            let w = s.width as int;
            let h = s.height as int;
            let x0 = s.v[x as int] as int;
            let y0 = s.v[y as int] as int;
            &&& twice.disp =~= s.disp
            &&& once.v[0xF] == (if sprite_overlap(s.disp, w, h, x0, y0, sprite_at(s, rows), 0) {
                1u8
            } else {
                0u8
            })
        }),
{
    let w = s.width as int;
    let h = s.height as int;
    let x0 = s.v[x as int] as int;
    let y0 = s.v[y as int] as int;
    let sprite = sprite_at(s, rows);
    let once = instr_effect(s, Instr::Draw { x, y, rows }, rand);
    assert(sprite_at(once, rows) =~= sprite);
    lemma_double_draw_restores(s.disp, s.dirty, w, h, x0, y0, sprite);
}

/// A sprite drawn at the bottom-right corner is wrapped, not clipped: each
/// out-of-range pixel column and row comes back in at zero independently, so
/// sprite pixel `(dx, dy)` with `dx, dy >= 1` lands at cell `(dx-1, dy-1)`,
/// while pixel `(0, 0)` stays at the corner itself.
pub proof fn lemma_corner_draw_wraps(w: int, h: int, dx: int, dy: int)
    requires
        8 <= w,
        1 <= h,
        1 <= dx < 8,
        1 <= dy <= h,
    ensures
        cell_of(w, h, w - 1, h - 1, dx, dy) == (dy - 1) * w + (dx - 1),
        cell_of(w, h, w - 1, h - 1, 0, 0) == (h - 1) * w + (w - 1),
{
    lemma_mod_in_range(w - 1 + dx, w);
    lemma_mod_in_range(h - 1 + dy, h);
    lemma_mod_in_range(w - 1, w);
    lemma_mod_in_range(h - 1, h);
}

/// Scanning an all-unpressed key matrix finds nothing.
proof fn lemma_no_pressed_key_scans_empty(keys: Seq<bool>, j: int)
    requires
        keys.len() == 16,
        forall|a: int| 0 <= a < 16 ==> !keys[a],
        0 <= j,
    ensures
        lowest_key_from(keys, j) is None,
    decreases 16 - j,
{
    if j < 16 {
        lemma_no_pressed_key_scans_empty(keys, j + 1);
    }
}

/// Advancing the program counter one instruction and then rewinding it one
/// instruction, both wrapping at the end of memory, returns to the start.
proof fn lemma_pc_advance_then_rewind(p: int)
    requires
        0 <= p < MEM_SIZE,
    ensures
        ((p + 2) % (MEM_SIZE as int) + (MEM_SIZE - 2)) % (MEM_SIZE as int) == p,
{
    let m: int = MEM_SIZE as int;
    if p + 2 < m {
        vstd::arithmetic::div_mod::lemma_small_mod((p + 2) as nat, m as nat);
        assert((m * 1 + p) % m == p % m) by {
            vstd::arithmetic::div_mod::lemma_mod_multiples_vanish(1, p, m);
        }
        vstd::arithmetic::div_mod::lemma_small_mod(p as nat, m as nat);
    } else {
        assert((m * 1 + (p + 2 - m)) % m == (p + 2 - m) % m) by {
            vstd::arithmetic::div_mod::lemma_mod_multiples_vanish(1, p + 2 - m, m);
        }
        vstd::arithmetic::div_mod::lemma_small_mod((p + 2 - m) as nat, m as nat);
        vstd::arithmetic::div_mod::lemma_small_mod(p as nat, m as nat);
    }
}

} // verus!
