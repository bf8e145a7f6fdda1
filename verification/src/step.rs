//! The executable step: fetch, decode, fault check, timer pacing, dispatch.
//!
//! [`Machine::step_with`] takes the random byte and the elapsed wall-clock
//! time as arguments and is proved to implement [`step_spec`] exactly, so a
//! host (or a test) can drive it deterministically. [`Machine::step`] draws
//! the random byte from the process-wide generator.

use vstd::prelude::*;

use crate::decode::{decode, Instr};
use crate::machine::{lemma_row_major_in_bounds, Machine, State, MEM_SIZE, TICK_NANOS};
use crate::semantics::{
    advanced, draw_pixel, draw_row, draw_rows, draw_sprite, eq_except_disp, fetch_word,
    instr_effect, lemma_step_spec_wf, lemma_ticked_wf, lowest_key_from, px_on, sprite_at,
    step_spec, ticked, bulk_load, bulk_store, Fault, Frame,
};

verus! {

broadcast use vstd::arithmetic::div_mod::lemma_mod_division_less_than_divisor;

/// Relies on `rand::random::<u8>`: a byte from the thread-local generator.
/// Nothing is promised of the value; callers state what holds of every byte.
#[verifier::external_body]
fn random_byte() -> u8 {
    rand::random::<u8>()
}

/// How one call of [`Machine::step`] relates the old and the new state for
/// the random byte it consumed.
pub open spec fn step_outcome(
    pre: State,
    post: State,
    r: Result<(), Fault>,
    rand: u8,
    elapsed: u64,
) -> bool {
    match r {
        Ok(()) => step_spec(pre, rand, elapsed) == Ok::<State, Fault>(post),
        Err(f) => step_spec(pre, rand, elapsed) == Err::<State, Fault>(f) && post == pre,
    }
}

impl Machine {
    /// The timer pacer: accumulates elapsed wall-clock time into the carried
    /// remainder, takes whole tick periods out of it, and decrements both
    /// timers by that many ticks, clamping at zero.
    fn tick_timers(&mut self, elapsed: u64)
        requires
            old(self)@.wf(),
        ensures
            final(self)@ =~= ticked(old(self)@, elapsed),
            final(self)@.wf(),
    {
        proof {
            lemma_ticked_wf(old(self)@, elapsed);
        }
        let acc: u128 = (self.timing_error as u128) + (elapsed as u128);
        let tick: u128 = TICK_NANOS as u128;
        let t: u128 = acc / tick;
        if t >= self.dt as u128 {
            self.dt = 0;
        } else {
            self.dt = self.dt - (t as u8);
        }
        if t >= self.st as u128 {
            self.st = 0;
        } else {
            self.st = self.st - (t as u8);
        }
        self.timing_error = (acc % tick) as u64;
    }

    /// Scans the key matrix for the lowest-numbered pressed key.
    fn lowest_pressed(&self) -> (r: Option<u8>)
        requires
            self@.wf(),
        ensures
            r == lowest_key_from(self@.keys, 0),
    {
        let mut j: usize = 0;
        while j < 16
            invariant
                self@.wf(),
                j <= 16,
                lowest_key_from(self@.keys, 0) == lowest_key_from(self@.keys, j as int),
            decreases 16 - j,
        {
            if self.keyboard[j] {
                return Some(j as u8);
            }
            j = j + 1;
        }
        None
    }

    /// Clears every pixel and marks the framebuffer dirty (the `00E0` clear).
    fn clear_display(&mut self)
        requires
            old(self)@.wf(),
        ensures
            final(self)@ =~= (State {
                disp: Seq::new(old(self)@.disp.len(), |p: int| false),
                dirty: true,
                ..old(self)@
            }),
    {
        let len = self.display.len();
        let mut p: usize = 0;
        while p < len
            invariant
                len == self.display@.len(),
                p <= len,
                eq_except_disp(self@, old(self)@),
                self.display@.len() == old(self)@.disp.len(),
                self.dirty == old(self)@.dirty,
                forall|q: int| 0 <= q < p ==> !self.display@[q],
            decreases len - p,
        {
            self.display.set(p, false);
            p = p + 1;
        }
        self.dirty = true;
        proof {
            assert(self.display@ =~= Seq::new(old(self)@.disp.len(), |q: int| false));
        }
    }

    /// XOR-composites the `rows`-byte sprite at the index register onto the
    /// framebuffer at `(x0 mod width, y0 mod height)`, wrapping each drawn
    /// pixel independently; returns whether any pixel went lit to unlit.
    fn exec_draw(&mut self, x0: u8, y0: u8, rows: u8) -> (coll: bool)
        requires
            old(self)@.wf(),
            rows < 16,
        ensures
            ({
                let f = draw_sprite(
                    old(self)@.disp,
                    old(self)@.dirty,
                    old(self)@.width as int,
                    old(self)@.height as int,
                    x0 as int,
                    y0 as int,
                    sprite_at(old(self)@, rows),
                );
                final(self)@ =~= (State { disp: f.disp, dirty: f.dirty, ..old(self)@ })
                    && coll == f.vf
            }),
    {
        let ghost s0 = self@;
        let ghost sprite = sprite_at(s0, rows);
        let ghost f0 = Frame { disp: s0.disp, vf: false, dirty: s0.dirty };
        let w = self.width;
        let h = self.height;
        let mut coll = false;
        let mut dy: usize = 0;
        while dy < rows as usize
            invariant
                s0.wf(),
                eq_except_disp(self@, s0),
                self@.disp.len() == s0.disp.len(),
                w == s0.width,
                h == s0.height,
                rows < 16,
                dy <= rows as usize,
                sprite == sprite_at(s0, rows),
                f0 == (Frame { disp: s0.disp, vf: false, dirty: s0.dirty }),
                draw_rows(f0, w as int, h as int, x0 as int, y0 as int, sprite, 0)
                    == draw_rows(
                    Frame { disp: self@.disp, vf: coll, dirty: self@.dirty },
                    w as int,
                    h as int,
                    x0 as int,
                    y0 as int,
                    sprite,
                    dy as int,
                ),
            decreases rows as int - dy,
        {
            let b = self.memory[(self.i as usize + dy) % MEM_SIZE];
            proof {
                assert(b == sprite[dy as int]);
            }
            let ny = (y0 as usize + dy) % h;
            let ghost frow = Frame { disp: self@.disp, vf: coll, dirty: self@.dirty };
            let mut dx: u8 = 0;
            while dx < 8
                invariant
                    s0.wf(),
                    eq_except_disp(self@, s0),
                    self@.disp.len() == s0.disp.len(),
                    w == s0.width,
                    h == s0.height,
                    dx <= 8,
                    dy < rows as usize,
                    rows < 16,
                    b == sprite[dy as int],
                    ny == (y0 as int + dy as int) % (h as int),
                    draw_row(frow, w as int, x0 as int, ny as int, b, 0) == draw_row(
                        Frame { disp: self@.disp, vf: coll, dirty: self@.dirty },
                        w as int,
                        x0 as int,
                        ny as int,
                        b,
                        dx as int,
                    ),
                decreases 8 - dx,
            {
                let mask: u8 = 0x80u8 >> dx;
                let ghost fcur = Frame { disp: self@.disp, vf: coll, dirty: self@.dirty };
                let ghost idx_s: int = (ny as int) * (w as int) + ((x0 as int + dx as int) % (
                w as int));
                proof {
                    assert(px_on(b, dx as int) == (b & mask != 0));
                }
                if b & mask != 0 {
                    self.dirty = true;
                    let nx = (x0 as usize + dx as usize) % w;
                    proof {
                        assert(self.display.len() == self@.disp.len());
                        lemma_row_major_in_bounds(w as int, h as int, nx as int, ny as int);
                        assert(ny * w + nx == idx_s);
                    }
                    let idx = ny * w + nx;
                    let cur = self.display[idx];
                    if cur {
                        coll = true;
                    }
                    self.display.set(idx, !cur);
                }
                proof {
                    assert(Frame { disp: self@.disp, vf: coll, dirty: self@.dirty } =~= draw_pixel(
                        fcur,
                        idx_s,
                        px_on(b, dx as int),
                    ));
                    assert(draw_row(fcur, w as int, x0 as int, ny as int, b, dx as int) == draw_row(
                        draw_pixel(fcur, idx_s, px_on(b, dx as int)),
                        w as int,
                        x0 as int,
                        ny as int,
                        b,
                        dx as int + 1,
                    ));
                }
                dx = dx + 1;
            }
            proof {
                assert(draw_row(
                    Frame { disp: self@.disp, vf: coll, dirty: self@.dirty },
                    w as int,
                    x0 as int,
                    ny as int,
                    b,
                    8,
                ) == (Frame { disp: self@.disp, vf: coll, dirty: self@.dirty }));
                assert(draw_rows(frow, w as int, h as int, x0 as int, y0 as int, sprite, dy as int)
                    == draw_rows(
                    draw_row(frow, w as int, x0 as int, ny as int, b, 0),
                    w as int,
                    h as int,
                    x0 as int,
                    y0 as int,
                    sprite,
                    dy as int + 1,
                ));
            }
            dy = dy + 1;
        }
        proof {
            assert(draw_rows(
                Frame { disp: self@.disp, vf: coll, dirty: self@.dirty },
                w as int,
                h as int,
                x0 as int,
                y0 as int,
                sprite,
                rows as int,
            ) == (Frame { disp: self@.disp, vf: coll, dirty: self@.dirty }));
        }
        coll
    }

    /// The `Fx55` bulk copy: registers `v[0..=x]` into memory at the index
    /// register on, each address wrapped at the end of memory.
    fn store_regs(&mut self, x: u8)
        requires
            old(self)@.wf(),
            x < 16,
        ensures
            final(self)@ =~= (State {
                mem: bulk_store(old(self)@.mem, old(self)@.v, old(self)@.i as int, 0, x as int),
                ..old(self)@
            }),
    {
        let ghost s0 = self@;
        let mut j: usize = 0;
        while j <= x as usize
            invariant
                s0.wf(),
                x < 16,
                j <= x as usize + 1,
                self@ =~= (State { mem: self@.mem, ..s0 }),
                self@.mem.len() == MEM_SIZE,
                bulk_store(s0.mem, s0.v, s0.i as int, 0, x as int) == bulk_store(
                    self@.mem,
                    s0.v,
                    s0.i as int,
                    j as int,
                    x as int,
                ),
            decreases x as int - j as int + 1,
        {
            let ghost mem_before = self@.mem;
            self.memory.set((self.i as usize + j) % MEM_SIZE, self.v[j]);
            proof {
                assert(bulk_store(mem_before, s0.v, s0.i as int, j as int, x as int) == bulk_store(
                    mem_before.update((s0.i as int + j as int) % (MEM_SIZE as int), s0.v[j as int]),
                    s0.v,
                    s0.i as int,
                    j as int + 1,
                    x as int,
                ));
            }
            j = j + 1;
        }
        proof {
            assert(bulk_store(self@.mem, s0.v, s0.i as int, x as int + 1, x as int) == self@.mem);
        }
    }

    /// The `Fx65` bulk copy: memory at the index register on into registers
    /// `v[0..=x]`, each address wrapped at the end of memory.
    fn load_regs(&mut self, x: u8)
        requires
            old(self)@.wf(),
            x < 16,
        ensures
            final(self)@ =~= (State {
                v: bulk_load(old(self)@.v, old(self)@.mem, old(self)@.i as int, 0, x as int),
                ..old(self)@
            }),
    {
        let ghost s0 = self@;
        let mut j: usize = 0;
        while j <= x as usize
            invariant
                s0.wf(),
                x < 16,
                j <= x as usize + 1,
                self@ =~= (State { v: self@.v, ..s0 }),
                self@.v.len() == 16,
                bulk_load(s0.v, s0.mem, s0.i as int, 0, x as int) == bulk_load(
                    self@.v,
                    s0.mem,
                    s0.i as int,
                    j as int,
                    x as int,
                ),
            decreases x as int - j as int + 1,
        {
            let ghost v_before = self@.v;
            let byte = self.memory[(self.i as usize + j) % MEM_SIZE];
            self.v.set(j, byte);
            proof {
                assert(bulk_load(v_before, s0.mem, s0.i as int, j as int, x as int) == bulk_load(
                    v_before.update(j as int, s0.mem[(s0.i as int + j as int) % (MEM_SIZE as int)]),
                    s0.mem,
                    s0.i as int,
                    j as int + 1,
                    x as int,
                ));
            }
            j = j + 1;
        }
        proof {
            assert(bulk_load(self@.v, s0.mem, s0.i as int, x as int + 1, x as int) == self@.v);
        }
    }

    /// Executes exactly one instruction with the given random byte and the
    /// given elapsed wall-clock nanoseconds: the whole transition semantics
    /// in one call, [`step_spec`] made executable. On a fault the state is
    /// left untouched.
    pub fn step_with(&mut self, rand: u8, elapsed_nanos: u64) -> (r: Result<(), Fault>)
        requires
            old(self)@.wf(),
        ensures
            final(self)@.wf(),
            (match r {
                Ok(()) => step_spec(old(self)@, rand, elapsed_nanos) == Ok::<State, Fault>(
                    final(self)@,
                ),
                Err(f) => step_spec(old(self)@, rand, elapsed_nanos) == Err::<State, Fault>(f)
                    && final(self)@ == old(self)@,
            }),
    {
        let ghost pre = self@;
        let hi = self.memory[self.pc as usize];
        let lo = self.memory[((self.pc as usize) + 1) % MEM_SIZE];
        let word: u16 = ((hi as u16) << 8u16) | (lo as u16);
        proof {
            assert(word == fetch_word(pre));
        }
        let instr = decode(word);
        let is_call = match instr {
            Instr::Call { .. } => true,
            _ => false,
        };
        let is_ret = match instr {
            Instr::Ret => true,
            _ => false,
        };
        if is_call && self.sp >= 16 {
            return Err(Fault::StackOverflow);
        }
        if is_ret && self.sp == 0 {
            return Err(Fault::StackUnderflow);
        }
        self.pc = (self.pc + 2) % (MEM_SIZE as u16);
        proof {
            assert(self@ =~= advanced(pre));
        }
        self.tick_timers(elapsed_nanos);
        let ghost base = self@;
        proof {
            assert(base =~= ticked(advanced(pre), elapsed_nanos));
        }
        match instr {
            Instr::Nop => {
                proof {
                    assert(self@ =~= instr_effect(base, instr, rand));
                }
            },
            Instr::Cls => {
                self.clear_display();
                proof {
                    assert(self@ =~= instr_effect(base, instr, rand));
                }
            },
            Instr::Ret => {
                let ret = self.stack[self.sp - 1];
                self.sp = self.sp - 1;
                self.pc = ret;
                proof {
                    assert(self@ =~= instr_effect(base, instr, rand));
                }
            },
            Instr::Jump { n } => {
                self.pc = n;
                proof {
                    assert(self@ =~= instr_effect(base, instr, rand));
                }
            },
            Instr::Call { n } => {
                self.stack.set(self.sp, self.pc);
                self.sp = self.sp + 1;
                self.pc = n;
                proof {
                    assert(self@ =~= instr_effect(base, instr, rand));
                }
            },
            Instr::SkipEqK { x, k } => {
                if self.v[x as usize] == k {
                    self.pc = (self.pc + 2) % (MEM_SIZE as u16);
                }
                proof {
                    assert(self@ =~= instr_effect(base, instr, rand));
                }
            },
            Instr::SkipNeK { x, k } => {
                if self.v[x as usize] != k {
                    self.pc = (self.pc + 2) % (MEM_SIZE as u16);
                }
                proof {
                    assert(self@ =~= instr_effect(base, instr, rand));
                }
            },
            Instr::SkipEqV { x, y } => {
                if self.v[x as usize] == self.v[y as usize] {
                    self.pc = (self.pc + 2) % (MEM_SIZE as u16);
                }
                proof {
                    assert(self@ =~= instr_effect(base, instr, rand));
                }
            },
            Instr::SetK { x, k } => {
                self.v.set(x as usize, k);
                proof {
                    assert(self@ =~= instr_effect(base, instr, rand));
                }
            },
            Instr::AddK { x, k } => {
                let a = self.v[x as usize];
                self.v.set(x as usize, a.wrapping_add(k));
                proof {
                    assert(self@ =~= instr_effect(base, instr, rand));
                }
            },
            Instr::Copy { x, y } => {
                let b = self.v[y as usize];
                self.v.set(x as usize, b);
                proof {
                    assert(self@ =~= instr_effect(base, instr, rand));
                }
            },
            Instr::Or { x, y } => {
                let r = self.v[x as usize] | self.v[y as usize];
                self.v.set(x as usize, r);
                proof {
                    assert(self@ =~= instr_effect(base, instr, rand));
                }
            },
            Instr::And { x, y } => {
                let r = self.v[x as usize] & self.v[y as usize];
                self.v.set(x as usize, r);
                proof {
                    assert(self@ =~= instr_effect(base, instr, rand));
                }
            },
            Instr::Xor { x, y } => {
                let r = self.v[x as usize] ^ self.v[y as usize];
                self.v.set(x as usize, r);
                proof {
                    assert(self@ =~= instr_effect(base, instr, rand));
                }
            },
            Instr::Add { x, y } => {
                let a = self.v[x as usize];
                let b = self.v[y as usize];
                let flag: u8 = if (a as u16) + (b as u16) > 255 {
                    1
                } else {
                    0
                };
                let sum = a.wrapping_add(b);
                self.v.set(15, flag);
                self.v.set(x as usize, sum);
                proof {
                    assert(self@ =~= instr_effect(base, instr, rand));
                }
            },
            Instr::Sub { x, y } => {
                let a = self.v[x as usize];
                let b = self.v[y as usize];
                let flag: u8 = if a >= b {
                    1
                } else {
                    0
                };
                let diff = a.wrapping_sub(b);
                self.v.set(15, flag);
                self.v.set(x as usize, diff);
                proof {
                    assert(self@ =~= instr_effect(base, instr, rand));
                }
            },
            Instr::ShiftRight { x } => {
                let a = self.v[x as usize];
                self.v.set(15, a & 1);
                let cur = self.v[x as usize];
                self.v.set(x as usize, cur >> 1u8);
                proof {
                    assert(self@ =~= instr_effect(base, instr, rand));
                }
            },
            Instr::SubNeg { x, y } => {
                let a = self.v[x as usize];
                let b = self.v[y as usize];
                let flag: u8 = if b >= a {
                    1
                } else {
                    0
                };
                let diff = b.wrapping_sub(a);
                self.v.set(15, flag);
                self.v.set(x as usize, diff);
                proof {
                    assert(self@ =~= instr_effect(base, instr, rand));
                }
            },
            Instr::ShiftLeft { x } => {
                let a = self.v[x as usize];
                self.v.set(15, (a >> 7u8) & 1);
                let cur = self.v[x as usize];
                self.v.set(x as usize, cur << 1u8);
                proof {
                    assert(self@ =~= instr_effect(base, instr, rand));
                }
            },
            Instr::SkipNeV { x, y } => {
                if self.v[x as usize] != self.v[y as usize] {
                    self.pc = (self.pc + 2) % (MEM_SIZE as u16);
                }
                proof {
                    assert(self@ =~= instr_effect(base, instr, rand));
                }
            },
            Instr::SetIndex { n } => {
                self.i = n;
                proof {
                    assert(self@ =~= instr_effect(base, instr, rand));
                }
            },
            Instr::JumpPlusV0 { n } => {
                self.pc = ((n as usize + self.v[0] as usize) % MEM_SIZE) as u16;
                proof {
                    assert(self@ =~= instr_effect(base, instr, rand));
                }
            },
            Instr::Random { x, k } => {
                self.v.set(x as usize, rand & k);
                proof {
                    assert(self@ =~= instr_effect(base, instr, rand));
                }
            },
            Instr::Draw { x, y, rows } => {
                let x0 = self.v[x as usize];
                let y0 = self.v[y as usize];
                let coll = self.exec_draw(x0, y0, rows);
                let flag: u8 = if coll {
                    1
                } else {
                    0
                };
                self.v.set(15, flag);
                proof {
                    assert(self@ =~= instr_effect(base, instr, rand));
                }
            },
            Instr::SkipKey { x } => {
                let key = self.v[x as usize] & 0xF;
                proof {
                    let vb: u8 = self.v@[x as int];
                    assert(vb & 0xF < 16) by (bit_vector);
                }
                if self.keyboard[key as usize] {
                    self.pc = (self.pc + 2) % (MEM_SIZE as u16);
                }
                proof {
                    assert(self@ =~= instr_effect(base, instr, rand));
                }
            },
            Instr::SkipNoKey { x } => {
                let key = self.v[x as usize] & 0xF;
                proof {
                    let vb: u8 = self.v@[x as int];
                    assert(vb & 0xF < 16) by (bit_vector);
                }
                if !self.keyboard[key as usize] {
                    self.pc = (self.pc + 2) % (MEM_SIZE as u16);
                }
                proof {
                    assert(self@ =~= instr_effect(base, instr, rand));
                }
            },
            Instr::GetDelay { x } => {
                let d = self.dt;
                self.v.set(x as usize, d);
                proof {
                    assert(self@ =~= instr_effect(base, instr, rand));
                }
            },
            Instr::WaitKey { x } => {
                match self.lowest_pressed() {
                    Some(key) => {
                        self.v.set(x as usize, key);
                    },
                    None => {
                        self.pc = (self.pc + (MEM_SIZE as u16 - 2)) % (MEM_SIZE as u16);
                    },
                }
                proof {
                    assert(self@ =~= instr_effect(base, instr, rand));
                }
            },
            Instr::SetDelay { x } => {
                self.dt = self.v[x as usize];
                proof {
                    assert(self@ =~= instr_effect(base, instr, rand));
                }
            },
            Instr::SetSound { x } => {
                self.st = self.v[x as usize];
                proof {
                    assert(self@ =~= instr_effect(base, instr, rand));
                }
            },
            Instr::AddIndex { x } => {
                self.i = ((self.i as usize + self.v[x as usize] as usize) % MEM_SIZE) as u16;
                proof {
                    assert(self@ =~= instr_effect(base, instr, rand));
                }
            },
            Instr::FontAddr { x } => {
                let digit = self.v[x as usize] & 0xF;
                proof {
                    let vb: u8 = self.v@[x as int];
                    assert(vb & 0xF < 16) by (bit_vector);
                }
                self.i = 5 * (digit as u16);
                proof {
                    assert(self@ =~= instr_effect(base, instr, rand));
                }
            },
            Instr::StoreBcd { x } => {
                let val = self.v[x as usize];
                let i0 = self.i as usize;
                self.memory.set(i0, val / 100);
                self.memory.set((i0 + 1) % MEM_SIZE, (val / 10) % 10);
                self.memory.set((i0 + 2) % MEM_SIZE, val % 10);
                proof {
                    assert(self@ =~= instr_effect(base, instr, rand));
                }
            },
            Instr::StoreRegs { x } => {
                self.store_regs(x);
                proof {
                    assert(self@ =~= instr_effect(base, instr, rand));
                }
            },
            Instr::LoadRegs { x } => {
                self.load_regs(x);
                proof {
                    assert(self@ =~= instr_effect(base, instr, rand));
                }
            },
        }
        proof {
            assert(step_spec(pre, rand, elapsed_nanos) == Ok::<State, Fault>(self@));
            lemma_step_spec_wf(pre, rand, elapsed_nanos);
        }
        Ok(())
    }

    /// Executes exactly one instruction, drawing the random byte a `Cxkk`
    /// consumes from the process-wide generator. `elapsed_nanos` is the
    /// wall-clock time since the previous step, which paces the timers.
    pub fn step(&mut self, elapsed_nanos: u64) -> (r: Result<(), Fault>)
        requires
            old(self)@.wf(),
        ensures
            final(self)@.wf(),
            exists|rand: u8| #[trigger] step_outcome(
                old(self)@,
                final(self)@,
                r,
                rand,
                elapsed_nanos,
            ),
    {
        let rand = random_byte();
        let r = self.step_with(rand, elapsed_nanos);
        proof {
            assert(step_outcome(old(self)@, self@, r, rand, elapsed_nanos));
        }
        r
    }
}

} // verus!
