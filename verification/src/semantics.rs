//! The pure transition semantics of the engine.
//!
//! [`step_spec`] maps a machine state, the random byte drawn for this step,
//! and the wall-clock nanoseconds elapsed since the previous step, to either
//! the next state or a fault. `Machine::step_with` is proved to implement it
//! exactly.
//!
//! Address policy: the program counter, the index register and every computed
//! memory address are kept inside the 4096-byte memory by reducing them
//! modulo the memory size, and key numbers taken from a register use only the
//! low nibble; the two call-stack misuses (a call with sixteen frames in use,
//! a return with none) surface as a [`Fault`] and leave the state untouched.

use vstd::prelude::*;

use crate::decode::{decode_spec, Instr};
use crate::machine::{State, MEM_SIZE, TICK_NANOS};

verus! {

/// A fault detected during a step. The faulting step changes nothing.
#[derive(Clone, Copy, PartialEq, Eq, Structural, Debug)]
pub enum Fault {
    /// A `2nnn` call arrived with all sixteen stack slots in use.
    StackOverflow,
    /// A `00EE` return arrived with no stack slot in use.
    StackUnderflow,
}

/// The 16-bit big-endian instruction word at the program counter. The second
/// byte wraps around to address 0 when the counter sits on the last byte.
pub open spec fn fetch_word(s: State) -> u16 {
    ((s.mem[s.pc as int] as u16) << 8) | (s.mem[((s.pc + 1) % (MEM_SIZE as int)) as int] as u16)
}

/// The state with the program counter advanced one instruction, wrapping at
/// the end of memory.
pub open spec fn advanced(s: State) -> State {
    State { pc: ((s.pc + 2) % (MEM_SIZE as int)) as u16, ..s }
}

/// The timer pacer: adds the elapsed wall-clock nanoseconds to the carried
/// remainder, decrements both timers by the number of whole tick periods that
/// fit (each clamped at zero), and carries the rest forward. Timer decay
/// thereby depends only on accumulated wall time, not on the step rate.
pub open spec fn ticked(s: State, elapsed: u64) -> State {
    let acc: int = s.terr + elapsed;
    let t: int = acc / (TICK_NANOS as int);
    State {
        dt: if t >= s.dt { 0u8 } else { (s.dt - t) as u8 },
        st: if t >= s.st { 0u8 } else { (s.st - t) as u8 },
        terr: (acc % (TICK_NANOS as int)) as u64,
        ..s
    }
}

/// The lowest-numbered pressed key at or above position `j`, if any.
pub open spec fn lowest_key_from(keys: Seq<bool>, j: int) -> Option<u8>
    decreases 16 - j,
{
    if j < 0 || j >= 16 {
        None
    } else if keys[j] {
        Some(j as u8)
    } else {
        lowest_key_from(keys, j + 1)
    }
}

/// The two states agree on everything but the framebuffer and the dirty mark.
pub open spec fn eq_except_disp(a: State, b: State) -> bool {
    &&& a.mem == b.mem
    &&& a.v == b.v
    &&& a.i == b.i
    &&& a.dt == b.dt
    &&& a.st == b.st
    &&& a.pc == b.pc
    &&& a.sp == b.sp
    &&& a.stack == b.stack
    &&& a.width == b.width
    &&& a.height == b.height
    &&& a.keys == b.keys
    &&& a.terr == b.terr
}

/// A framebuffer with the two side outputs of a sprite draw: the collision
/// flag and the dirty mark.
#[verifier::ext_equal]
pub ghost struct Frame {
    pub disp: Seq<bool>,
    pub vf: bool,
    pub dirty: bool,
}

/// Whether sprite-row byte `b` has its pixel at column `dx` (0 = leftmost) set.
pub open spec fn px_on(b: u8, dx: int) -> bool {
    b & (0x80u8 >> (dx as u8)) != 0
}

/// XOR-composites one sprite pixel onto framebuffer cell `idx`: a set sprite
/// pixel toggles the cell, records a collision if the cell was lit, and marks
/// the frame dirty; a clear sprite pixel changes nothing.
pub open spec fn draw_pixel(f: Frame, idx: int, on: bool) -> Frame {
    if on {
        Frame { disp: f.disp.update(idx, !f.disp[idx]), vf: f.vf || f.disp[idx], dirty: true }
    } else {
        f
    }
}

/// Draws the pixels of sprite-row byte `b` from column `dx` on, at display
/// row `ny`, each column wrapped modulo the display width independently.
pub open spec fn draw_row(f: Frame, width: int, x0: int, ny: int, b: u8, dx: int) -> Frame
    decreases 8 - dx,
{
    if dx >= 8 {
        f
    } else {
        let idx = ny * width + ((x0 + dx) % width);
        draw_row(draw_pixel(f, idx, px_on(b, dx)), width, x0, ny, b, dx + 1)
    }
}

/// Draws the sprite rows from `dy` on, each row wrapped modulo the display
/// height independently.
pub open spec fn draw_rows(
    f: Frame,
    width: int,
    height: int,
    x0: int,
    y0: int,
    sprite: Seq<u8>,
    dy: int,
) -> Frame
    decreases sprite.len() - dy,
{
    if dy >= sprite.len() {
        f
    } else {
        let ny = (y0 + dy) % height;
        draw_rows(draw_row(f, width, x0, ny, sprite[dy], 0), width, height, x0, y0, sprite, dy + 1)
    }
}

/// XOR-composites a whole sprite onto the framebuffer at `(x0 mod width,
/// y0 mod height)`, wrapping each drawn pixel's column and row independently.
/// The collision flag starts clear: it ends set exactly when some pixel
/// transitioned lit to unlit.
pub open spec fn draw_sprite(
    disp: Seq<bool>,
    dirty: bool,
    width: int,
    height: int,
    x0: int,
    y0: int,
    sprite: Seq<u8>,
) -> Frame {
    draw_rows(Frame { disp, vf: false, dirty }, width, height, x0, y0, sprite, 0)
}

/// The sprite read for a `Dxyn` draw: `rows` bytes starting at the index
/// register, wrapping at the end of memory.
pub open spec fn sprite_at(s: State, rows: u8) -> Seq<u8> {
    Seq::new(rows as nat, |dy: int| s.mem[((s.i + dy) % (MEM_SIZE as int)) as int])
}

/// Registers `v[0..=x]` written to memory at the index register on, each
/// address wrapped at the end of memory (the `Fx55` bulk copy, done in
/// ascending register order).
pub open spec fn bulk_store(mem: Seq<u8>, v: Seq<u8>, i: int, j: int, x: int) -> Seq<u8>
    decreases x - j + 1,
{
    if j > x || j < 0 {
        mem
    } else {
        bulk_store(mem.update((i + j) % (MEM_SIZE as int), v[j]), v, i, j + 1, x)
    }
}

/// Registers `v[0..=x]` replaced by the memory bytes at the index register
/// on, each address wrapped at the end of memory (the `Fx65` bulk copy).
pub open spec fn bulk_load(v: Seq<u8>, mem: Seq<u8>, i: int, j: int, x: int) -> Seq<u8>
    decreases x - j + 1,
{
    if j > x || j < 0 {
        v
    } else {
        bulk_load(v.update(j, mem[(i + j) % (MEM_SIZE as int)]), mem, i, j + 1, x)
    }
}

/// The effect of one decoded instruction on a state whose program counter has
/// already been advanced past it and whose timers have already been paced.
/// `rand` is the random byte a `Cxkk` consumes. Callers have already ruled
/// the two stack faults out.
pub open spec fn instr_effect(s: State, instr: Instr, rand: u8) -> State {
    match instr {
        Instr::Nop => s,
        Instr::Cls => State {
            disp: Seq::new(s.disp.len(), |p: int| false),
            dirty: true,
            ..s
        },
        Instr::Ret => State { pc: s.stack[s.sp - 1], sp: (s.sp - 1) as usize, ..s },
        Instr::Jump { n } => State { pc: n, ..s },
        Instr::Call { n } => State {
            stack: s.stack.update(s.sp as int, s.pc),
            sp: (s.sp + 1) as usize,
            pc: n,
            ..s
        },
        Instr::SkipEqK { x, k } => if s.v[x as int] == k { advanced(s) } else { s },
        Instr::SkipNeK { x, k } => if s.v[x as int] != k { advanced(s) } else { s },
        Instr::SkipEqV { x, y } => if s.v[x as int] == s.v[y as int] { advanced(s) } else { s },
        Instr::SetK { x, k } => State { v: s.v.update(x as int, k), ..s },
        Instr::AddK { x, k } => {
            let a = s.v[x as int];
            let sum: u8 = if a + k > 255 { (a + k - 256) as u8 } else { (a + k) as u8 };
            State { v: s.v.update(x as int, sum), ..s }
        },
        Instr::Copy { x, y } => State { v: s.v.update(x as int, s.v[y as int]), ..s },
        Instr::Or { x, y } => State { v: s.v.update(x as int, s.v[x as int] | s.v[y as int]), ..s },
        Instr::And { x, y } => State { v: s.v.update(x as int, s.v[x as int] & s.v[y as int]), ..s },
        Instr::Xor { x, y } => State { v: s.v.update(x as int, s.v[x as int] ^ s.v[y as int]), ..s },
        Instr::Add { x, y } => {
            let a = s.v[x as int];
            let b = s.v[y as int];
            let flag: u8 = if a + b > 255 { 1 } else { 0 };
            let sum: u8 = if a + b > 255 { (a + b - 256) as u8 } else { (a + b) as u8 };
            State { v: s.v.update(0xF, flag).update(x as int, sum), ..s }
        },
        Instr::Sub { x, y } => {
            let a = s.v[x as int];
            let b = s.v[y as int];
            let flag: u8 = if a >= b { 1 } else { 0 };
            let diff: u8 = if a - b < 0 { (a - b + 256) as u8 } else { (a - b) as u8 };
            State { v: s.v.update(0xF, flag).update(x as int, diff), ..s }
        },
        Instr::ShiftRight { x } => {
            let v1 = s.v.update(0xF, s.v[x as int] & 1);
            State { v: v1.update(x as int, v1[x as int] >> 1u8), ..s }
        },
        Instr::SubNeg { x, y } => {
            let a = s.v[x as int];
            let b = s.v[y as int];
            let flag: u8 = if b >= a { 1 } else { 0 };
            let diff: u8 = if b - a < 0 { (b - a + 256) as u8 } else { (b - a) as u8 };
            State { v: s.v.update(0xF, flag).update(x as int, diff), ..s }
        },
        Instr::ShiftLeft { x } => {
            let v1 = s.v.update(0xF, (s.v[x as int] >> 7u8) & 1);
            State { v: v1.update(x as int, v1[x as int] << 1u8), ..s }
        },
        Instr::SkipNeV { x, y } => if s.v[x as int] != s.v[y as int] { advanced(s) } else { s },
        Instr::SetIndex { n } => State { i: n, ..s },
        Instr::JumpPlusV0 { n } => State {
            pc: ((n + s.v[0]) % (MEM_SIZE as int)) as u16,
            ..s
        },
        Instr::Random { x, k } => State { v: s.v.update(x as int, rand & k), ..s },
        Instr::Draw { x, y, rows } => {
            let f = draw_sprite(
                s.disp,
                s.dirty,
                s.width as int,
                s.height as int,
                s.v[x as int] as int,
                s.v[y as int] as int,
                sprite_at(s, rows),
            );
            State {
                disp: f.disp,
                dirty: f.dirty,
                v: s.v.update(0xF, if f.vf { 1u8 } else { 0u8 }),
                ..s
            }
        },
        Instr::SkipKey { x } => {
            if s.keys[(s.v[x as int] & 0xF) as int] { advanced(s) } else { s }
        },
        Instr::SkipNoKey { x } => {
            if !s.keys[(s.v[x as int] & 0xF) as int] { advanced(s) } else { s }
        },
        Instr::GetDelay { x } => State { v: s.v.update(x as int, s.dt), ..s },
        Instr::WaitKey { x } => match lowest_key_from(s.keys, 0) {
            Some(key) => State { v: s.v.update(x as int, key), ..s },
            None => State { pc: ((s.pc + (MEM_SIZE - 2)) % (MEM_SIZE as int)) as u16, ..s },
        },
        Instr::SetDelay { x } => State { dt: s.v[x as int], ..s },
        Instr::SetSound { x } => State { st: s.v[x as int], ..s },
        Instr::AddIndex { x } => State {
            i: ((s.i + s.v[x as int]) % (MEM_SIZE as int)) as u16,
            ..s
        },
        Instr::FontAddr { x } => State { i: (5 * (s.v[x as int] & 0xF)) as u16, ..s },
        Instr::StoreBcd { x } => {
            let val = s.v[x as int];
            State {
                mem: s.mem
                    .update(s.i as int, (val / 100) as u8)
                    .update((s.i + 1) % (MEM_SIZE as int), ((val / 10) % 10) as u8)
                    .update((s.i + 2) % (MEM_SIZE as int), (val % 10) as u8),
                ..s
            }
        },
        Instr::StoreRegs { x } => State {
            mem: bulk_store(s.mem, s.v, s.i as int, 0, x as int),
            ..s
        },
        Instr::LoadRegs { x } => State {
            v: bulk_load(s.v, s.mem, s.i as int, 0, x as int),
            ..s
        },
    }
}

/// One whole step: fetch the word at the program counter, decode it, fault on
/// a stack misuse (leaving the state untouched), otherwise advance the
/// program counter, pace the timers, and apply the instruction's effect.
pub open spec fn step_spec(pre: State, rand: u8, elapsed: u64) -> Result<State, Fault> {
    let instr = decode_spec(fetch_word(pre));
    if instr is Call && pre.sp >= 16 {
        Err(Fault::StackOverflow)
    } else if instr is Ret && pre.sp == 0 {
        Err(Fault::StackUnderflow)
    } else {
        Ok(instr_effect(ticked(advanced(pre), elapsed), instr, rand))
    }
}

/// A step preserves well-formedness.
pub proof fn lemma_step_spec_wf(pre: State, rand: u8, elapsed: u64)
    requires
        pre.wf(),
        step_spec(pre, rand, elapsed) is Ok,
    ensures
        (step_spec(pre, rand, elapsed) matches Ok(post) && post.wf()),
{
    let instr = decode_spec(fetch_word(pre));
    crate::decode::lemma_decode_wf(fetch_word(pre));
    let s = ticked(advanced(pre), elapsed);
    assert(s.wf()) by {
        lemma_ticked_wf(advanced(pre), elapsed);
    }
    lemma_instr_effect_wf(s, instr, rand, pre.sp as int);
}

/// The timer pacer preserves well-formedness; in particular the carried
/// remainder stays below one tick period.
pub proof fn lemma_ticked_wf(s: State, elapsed: u64)
    requires
        s.wf(),
    ensures
        ticked(s, elapsed).wf(),
        ticked(s, elapsed).terr < TICK_NANOS,
{
    let acc: int = s.terr + elapsed;
    vstd::arithmetic::div_mod::lemma_mod_bound(acc, TICK_NANOS as int);
}

/// The effect of any well-formed instruction on a well-formed state is well
/// formed, provided the stack-fault conditions were ruled out.
pub proof fn lemma_instr_effect_wf(s: State, instr: Instr, rand: u8, pre_sp: int)
    requires
        s.wf(),
        instr.wf(),
        s.sp == pre_sp,
        instr is Call ==> pre_sp < 16,
        instr is Ret ==> pre_sp > 0,
    ensures
        instr_effect(s, instr, rand).wf(),
{
    broadcast use vstd::arithmetic::div_mod::lemma_mod_division_less_than_divisor;

    let post = instr_effect(s, instr, rand);
    match instr {
        Instr::Draw { x, y, rows } => {
            lemma_draw_rows_len(
                Frame { disp: s.disp, vf: false, dirty: s.dirty },
                s.width as int,
                s.height as int,
                s.v[x as int] as int,
                s.v[y as int] as int,
                sprite_at(s, rows),
                0,
            );
        },
        Instr::FontAddr { x } => {
            let val = s.v[x as int];
            assert(val & 0xF < 16) by (bit_vector);
        },
        Instr::StoreRegs { x } => {
            lemma_bulk_store_len(s.mem, s.v, s.i as int, 0, x as int);
        },
        Instr::LoadRegs { x } => {
            lemma_bulk_load_len(s.v, s.mem, s.i as int, 0, x as int);
        },
        _ => {},
    }
}

/// The bulk register store keeps the memory's length.
pub proof fn lemma_bulk_store_len(mem: Seq<u8>, v: Seq<u8>, i: int, j: int, x: int)
    requires
        mem.len() == MEM_SIZE,
    ensures
        bulk_store(mem, v, i, j, x).len() == MEM_SIZE,
    decreases x - j + 1,
{
    broadcast use vstd::arithmetic::div_mod::lemma_mod_division_less_than_divisor;

    if 0 <= j <= x {
        lemma_bulk_store_len(mem.update((i + j) % (MEM_SIZE as int), v[j]), v, i, j + 1, x);
    }
}

/// The bulk register load keeps the register file's length.
pub proof fn lemma_bulk_load_len(v: Seq<u8>, mem: Seq<u8>, i: int, j: int, x: int)
    requires
        v.len() == 16,
        x < 16,
    ensures
        bulk_load(v, mem, i, j, x).len() == 16,
    decreases x - j + 1,
{
    if 0 <= j <= x {
        lemma_bulk_load_len(v.update(j, mem[(i + j) % (MEM_SIZE as int)]), mem, i, j + 1, x);
    }
}

/// Drawing one sprite row never changes the framebuffer's length.
pub proof fn lemma_draw_row_len(f: Frame, width: int, x0: int, ny: int, b: u8, dx: int)
    requires
        1 <= width,
        0 <= ny,
        (ny + 1) * width <= f.disp.len(),
    ensures
        draw_row(f, width, x0, ny, b, dx).disp.len() == f.disp.len(),
    decreases 8 - dx,
{
    broadcast use vstd::arithmetic::div_mod::lemma_mod_division_less_than_divisor;

    if dx < 8 {
        let idx = ny * width + ((x0 + dx) % width);
        assert((ny + 1) * width == ny * width + width) by (nonlinear_arith);
        assert(0 <= ny * width) by (nonlinear_arith)
            requires
                0 <= ny,
                1 <= width,
        ;
        lemma_draw_row_len(draw_pixel(f, idx, px_on(b, dx)), width, x0, ny, b, dx + 1);
    }
}

/// Drawing a sprite never changes the framebuffer's length.
pub proof fn lemma_draw_rows_len(
    f: Frame,
    width: int,
    height: int,
    x0: int,
    y0: int,
    sprite: Seq<u8>,
    dy: int,
)
    requires
        1 <= width,
        1 <= height,
        f.disp.len() == width * height,
    ensures
        draw_rows(f, width, height, x0, y0, sprite, dy).disp.len() == f.disp.len(),
    decreases sprite.len() - dy,
{
    broadcast use vstd::arithmetic::div_mod::lemma_mod_division_less_than_divisor;

    if dy < sprite.len() {
        let ny = (y0 + dy) % height;
        assert((ny + 1) * width <= height * width) by (nonlinear_arith)
            requires
                0 <= ny,
                ny < height,
                1 <= width,
        ;
        assert(height * width == width * height) by (nonlinear_arith);
        lemma_draw_row_len(f, width, x0, ny, sprite[dy], 0);
        lemma_draw_rows_len(
            draw_row(f, width, x0, ny, sprite[dy], 0),
            width,
            height,
            x0,
            y0,
            sprite,
            dy + 1,
        );
    }
}

} // verus!
