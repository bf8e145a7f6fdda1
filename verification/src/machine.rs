//! The machine state: memory, registers, stack, timers, framebuffer, keys.

use vstd::prelude::*;

verus! {

/// Size of the byte-addressable memory.
pub const MEM_SIZE: usize = 4096;

/// Address at which a program is loaded and at which execution starts.
pub const LOAD_ADDR: usize = 0x200;

/// Length of the timer tick period in nanoseconds (one sixtieth of a second,
/// rounded down). The delay and sound timers lose one count per elapsed tick.
pub const TICK_NANOS: u64 = 16666666;

/// The mathematical value of a machine: every executable field as a sequence
/// or plain integer. All contracts of the engine are stated over this view.
#[verifier::ext_equal]
pub ghost struct State {
    /// The 4096 memory bytes.
    pub mem: Seq<u8>,
    /// The sixteen general registers `v[0x0]..v[0xF]`.
    pub v: Seq<u8>,
    /// The memory index register.
    pub i: u16,
    /// The delay timer.
    pub dt: u8,
    /// The sound timer.
    pub st: u8,
    /// The program counter.
    pub pc: u16,
    /// Number of call-stack entries in use.
    pub sp: usize,
    /// The sixteen call-stack slots (only the first `sp` are meaningful).
    pub stack: Seq<u16>,
    /// The framebuffer, row-major: pixel `(x, y)` is `disp[y * width + x]`.
    pub disp: Seq<bool>,
    /// Framebuffer width in pixels.
    pub width: usize,
    /// Framebuffer height in pixels.
    pub height: usize,
    /// The sixteen key states, true while the key is held.
    pub keys: Seq<bool>,
    /// True whenever the framebuffer changed since the host last consumed it.
    pub dirty: bool,
    /// Wall-clock nanoseconds carried over toward the next timer tick.
    pub terr: u64,
}

impl State {
    /// Well-formedness: the sizes and ranges that every engine operation
    /// establishes and preserves.
    pub open spec fn wf(self) -> bool {
        &&& self.mem.len() == MEM_SIZE
        &&& self.v.len() == 16
        &&& self.stack.len() == 16
        &&& self.keys.len() == 16
        &&& self.sp <= 16
        &&& self.pc < MEM_SIZE
        &&& self.i < MEM_SIZE
        &&& forall|j: int| 0 <= j < 16 ==> self.stack[j] < MEM_SIZE
        &&& 1 <= self.width
        &&& 1 <= self.height
        &&& self.disp.len() == self.width * self.height
        &&& self.terr < TICK_NANOS
    }
}

/// The CHIP-8 machine.
///
/// Fields are public: the host writes `keyboard` between steps, loads a
/// program into `memory`, and reads `display` and `dirty` after a step, as
/// the instruction set intends. All methods require and preserve
/// [`State::wf`] on the view; the host-facing fields a host ordinarily
/// writes (key booleans, memory bytes through [`Machine::write_byte`] or
/// [`Machine::load`]) cannot break it.
pub struct Machine {
    pub memory: Vec<u8>,
    pub v: Vec<u8>,
    pub i: u16,
    pub dt: u8,
    pub st: u8,
    pub pc: u16,
    pub sp: usize,
    pub stack: Vec<u16>,
    pub display: Vec<bool>,
    pub width: usize,
    pub height: usize,
    pub keyboard: Vec<bool>,
    pub dirty: bool,
    pub timing_error: u64,
}

impl View for Machine {
    type V = State;

    open spec fn view(&self) -> State {
        State {
            mem: self.memory@,
            v: self.v@,
            i: self.i,
            dt: self.dt,
            st: self.st,
            pc: self.pc,
            sp: self.sp,
            stack: self.stack@,
            disp: self.display@,
            width: self.width,
            height: self.height,
            keys: self.keyboard@,
            dirty: self.dirty,
            terr: self.timing_error,
        }
    }
}

/// The fixed 80-byte hexadecimal font: five bytes per glyph `0x0..0xF`,
/// installed at memory address 0 when a machine is created.
pub open spec fn font_sprites() -> Seq<u8> {
    seq![
        0xF0, 0x90, 0x90, 0x90, 0xF0, // 0
        0x20, 0x60, 0x20, 0x20, 0x70, // 1
        0xF0, 0x10, 0xF0, 0x80, 0xF0, // 2
        0xF0, 0x10, 0xF0, 0x10, 0xF0, // 3
        0x90, 0x90, 0xF0, 0x10, 0x10, // 4
        0xF0, 0x80, 0xF0, 0x10, 0xF0, // 5
        0xF0, 0x80, 0xF0, 0x90, 0xF0, // 6
        0xF0, 0x10, 0x20, 0x40, 0x40, // 7
        0xF0, 0x90, 0xF0, 0x90, 0xF0, // 8
        0xF0, 0x90, 0xF0, 0x10, 0xF0, // 9
        0xF0, 0x90, 0xF0, 0x90, 0x90, // A
        0xE0, 0x90, 0xE0, 0x90, 0xE0, // B
        0xF0, 0x80, 0x80, 0x80, 0xF0, // C
        0xE0, 0x90, 0x90, 0x90, 0xE0, // D
        0xF0, 0x80, 0xF0, 0x80, 0xF0, // E
        0xF0, 0x80, 0xF0, 0x80, 0x80, // F
    ]
}

/// Builds the font table as a vector.
fn font_bytes() -> (r: Vec<u8>)
    ensures
        r@ =~= font_sprites(),
        r@.len() == 80,
{
    let mut f: Vec<u8> = Vec::new();
    f.push(0xF0); f.push(0x90); f.push(0x90); f.push(0x90); f.push(0xF0);
    f.push(0x20); f.push(0x60); f.push(0x20); f.push(0x20); f.push(0x70);
    f.push(0xF0); f.push(0x10); f.push(0xF0); f.push(0x80); f.push(0xF0);
    f.push(0xF0); f.push(0x10); f.push(0xF0); f.push(0x10); f.push(0xF0);
    f.push(0x90); f.push(0x90); f.push(0xF0); f.push(0x10); f.push(0x10);
    f.push(0xF0); f.push(0x80); f.push(0xF0); f.push(0x10); f.push(0xF0);
    f.push(0xF0); f.push(0x80); f.push(0xF0); f.push(0x90); f.push(0xF0);
    f.push(0xF0); f.push(0x10); f.push(0x20); f.push(0x40); f.push(0x40);
    f.push(0xF0); f.push(0x90); f.push(0xF0); f.push(0x90); f.push(0xF0);
    f.push(0xF0); f.push(0x90); f.push(0xF0); f.push(0x10); f.push(0xF0);
    f.push(0xF0); f.push(0x90); f.push(0xF0); f.push(0x90); f.push(0x90);
    f.push(0xE0); f.push(0x90); f.push(0xE0); f.push(0x90); f.push(0xE0);
    f.push(0xF0); f.push(0x80); f.push(0x80); f.push(0x80); f.push(0xF0);
    f.push(0xE0); f.push(0x90); f.push(0x90); f.push(0x90); f.push(0xE0);
    f.push(0xF0); f.push(0x80); f.push(0xF0); f.push(0x80); f.push(0xF0);
    f.push(0xF0); f.push(0x80); f.push(0xF0); f.push(0x80); f.push(0x80);
    f
}

impl Machine {
    /// Creates a machine with the given framebuffer dimensions: memory zeroed
    /// except for the font table at address 0, registers and timers zero, the
    /// program counter at the load address, an empty call stack, all pixels
    /// unlit, no key held, and the framebuffer marked dirty so a host draws
    /// the initial blank screen. The canonical dimensions are 64 by 32.
    pub fn new(width: usize, height: usize) -> (m: Machine)
        requires
            1 <= width,
            1 <= height,
            width * height <= usize::MAX,
        ensures
            m@.wf(),
            m@.width == width,
            m@.height == height,
            m@.mem.len() == MEM_SIZE,
            forall|j: int| 0 <= j < 80 ==> m@.mem[j] == font_sprites()[j],
            forall|j: int| 80 <= j < MEM_SIZE ==> m@.mem[j] == 0,
            forall|j: int| 0 <= j < 16 ==> m@.v[j] == 0,
            forall|j: int| 0 <= j < 16 ==> m@.stack[j] == 0,
            forall|j: int| 0 <= j < 16 ==> !m@.keys[j],
            forall|j: int| 0 <= j < m@.disp.len() ==> !m@.disp[j],
            m@.i == 0,
            m@.dt == 0,
            m@.st == 0,
            m@.pc == LOAD_ADDR,
            m@.sp == 0,
            m@.dirty,
            m@.terr == 0,
    {
        let mut memory: Vec<u8> = font_bytes();
        while memory.len() < MEM_SIZE
            invariant
                80 <= memory@.len() <= MEM_SIZE,
                forall|j: int| 0 <= j < 80 ==> memory@[j] == font_sprites()[j],
                forall|j: int| 80 <= j < memory@.len() ==> memory@[j] == 0,
            decreases MEM_SIZE - memory@.len(),
        {
            memory.push(0);
        }
        let mut v: Vec<u8> = Vec::new();
        let mut stack: Vec<u16> = Vec::new();
        let mut keyboard: Vec<bool> = Vec::new();
        while v.len() < 16
            invariant
                v@.len() <= 16,
                stack@.len() == v@.len(),
                keyboard@.len() == v@.len(),
                forall|j: int| 0 <= j < v@.len() ==> v@[j] == 0,
                forall|j: int| 0 <= j < v@.len() ==> stack@[j] == 0,
                forall|j: int| 0 <= j < v@.len() ==> !keyboard@[j],
            decreases 16 - v@.len(),
        {
            v.push(0);
            stack.push(0);
            keyboard.push(false);
        }
        let mut display: Vec<bool> = Vec::new();
        let ghost pixels: int = width * height;
        let mut filled: usize = 0;
        while filled < width * height
            invariant
                width * height <= usize::MAX,
                filled == display@.len(),
                display@.len() <= pixels,
                pixels == width * height,
                forall|j: int| 0 <= j < display@.len() ==> !display@[j],
            decreases pixels - display@.len(),
        {
            display.push(false);
            filled = filled + 1;
        }
        Machine {
            memory,
            v,
            i: 0,
            dt: 0,
            st: 0,
            pc: LOAD_ADDR as u16,
            sp: 0,
            stack,
            display,
            width,
            height,
            keyboard,
            dirty: true,
            timing_error: 0,
        }
    }

    /// Reports whether the state is well formed. A host that only mutates the
    /// machine through the engine's methods always finds this true; it lets
    /// unverified callers check the precondition of `step` before calling it.
    pub fn is_well_formed(&self) -> (b: bool)
        ensures
            b == self@.wf(),
    {
        let disp_len: usize = self.display.len();
        let mut stack_ok = self.stack.len() == 16;
        let mut j: usize = 0;
        while j < self.stack.len()
            invariant
                j <= self.stack@.len(),
                stack_ok == (self.stack@.len() == 16 && forall|a: int|
                    0 <= a < j ==> self.stack@[a] < MEM_SIZE),
            decreases self.stack@.len() - j,
        {
            if self.stack[j] as usize >= MEM_SIZE {
                stack_ok = false;
            }
            j = j + 1;
        }
        self.memory.len() == MEM_SIZE
            && self.v.len() == 16
            && stack_ok
            && self.keyboard.len() == 16
            && self.sp <= 16
            && (self.pc as usize) < MEM_SIZE
            && (self.i as usize) < MEM_SIZE
            && 1 <= self.width
            && 1 <= self.height
            && (match self.width.checked_mul(self.height) {
                Some(p) => disp_len == p,
                None => false,
            })
            && self.timing_error < TICK_NANOS
    }

    /// Writes one memory byte; the host's byte-addressable load interface.
    pub fn write_byte(&mut self, addr: usize, value: u8)
        requires
            old(self)@.wf(),
            addr < MEM_SIZE,
        ensures
            final(self)@ =~= (State { mem: old(self)@.mem.update(addr as int, value), ..old(self)@ }),
            final(self)@.wf(),
    {
        self.memory.set(addr, value);
    }

    /// Copies a program into memory starting at the load address. Programs
    /// longer than the memory region above the load address do not fit.
    pub fn load(&mut self, program: &Vec<u8>)
        requires
            old(self)@.wf(),
            program@.len() <= MEM_SIZE - LOAD_ADDR,
        ensures
            final(self)@.wf(),
            final(self)@.mem.len() == MEM_SIZE,
            forall|j: int|
                0 <= j < program@.len() ==> final(self)@.mem[LOAD_ADDR + j] == program@[j],
            forall|j: int|
                0 <= j < MEM_SIZE && !(LOAD_ADDR <= j < LOAD_ADDR + program@.len())
                    ==> final(self)@.mem[j] == old(self)@.mem[j],
            final(self)@ =~= (State { mem: final(self)@.mem, ..old(self)@ }),
    {
        let mut j: usize = 0;
        while j < program.len()
            invariant
                old(self)@.wf(),
                program@.len() <= MEM_SIZE - LOAD_ADDR,
                j <= program@.len(),
                self@.mem.len() == MEM_SIZE,
                forall|a: int| 0 <= a < j ==> self@.mem[LOAD_ADDR + a] == program@[a],
                forall|a: int|
                    0 <= a < MEM_SIZE && !(LOAD_ADDR <= a < LOAD_ADDR + j)
                        ==> self@.mem[a] == old(self)@.mem[a],
                self@ =~= (State { mem: self@.mem, ..old(self)@ }),
            decreases program@.len() - j,
        {
            self.memory.set(LOAD_ADDR + j, program[j]);
            j = j + 1;
        }
    }

    /// Sets one key of the 16-key matrix; the host's input interface.
    pub fn set_key(&mut self, key: usize, pressed: bool)
        requires
            old(self)@.wf(),
            key < 16,
        ensures
            final(self)@ =~= (State { keys: old(self)@.keys.update(key as int, pressed), ..old(self)@ }),
            final(self)@.wf(),
    {
        self.keyboard.set(key, pressed);
    }

    /// Reads one framebuffer pixel; the host's output interface.
    pub fn pixel(&self, x: usize, y: usize) -> (lit: bool)
        requires
            self@.wf(),
            x < self@.width,
            y < self@.height,
        ensures
            lit == self@.disp[y * self@.width + x],
    {
        proof {
            assert(self.display.len() == self@.disp.len());
            lemma_row_major_in_bounds(self@.width as int, self@.height as int, x as int, y as int);
        }
        self.display[y * self.width + x]
    }

    /// Clears the dirty flag; the host calls this after consuming the frame.
    pub fn clear_dirty(&mut self)
        requires
            old(self)@.wf(),
        ensures
            final(self)@ =~= (State { dirty: false, ..old(self)@ }),
            final(self)@.wf(),
    {
        self.dirty = false;
    }
}

/// A row-major pixel index is within the framebuffer.
pub proof fn lemma_row_major_in_bounds(width: int, height: int, x: int, y: int)
    by (nonlinear_arith)
    requires
        0 <= x < width,
        0 <= y < height,
    ensures
        0 <= y * width + x < width * height,
{
}

} // verus!
