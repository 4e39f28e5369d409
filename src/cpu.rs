//! The interpreter: machine state, instruction decoding and execution.
use vstd::prelude::*;

use crate::platform::{nanos_since, now, random_byte};

verus! {

pub const DISPLAY_WIDTH: usize = 64;
pub const DISPLAY_HEIGHT: usize = 32;
pub const DISPLAY_SIZE: usize = DISPLAY_WIDTH * DISPLAY_HEIGHT;
pub const MEMORY_SIZE: usize = 4096;
pub const KEY_COUNT: usize = 16;
pub const REGISTER_COUNT: usize = 16;
pub const FONT_START: usize = 0x50;
pub const FONT_HEIGHT: usize = 5;
pub const PROGRAM_START: u16 = 0x200;
/// The timer period, 1/60 s, in nanoseconds.
pub const TIMER_PERIOD_NANOS: u128 = 16_666_666;
/// VF, the register that doubles as carry, borrow and collision flag.
pub const FLAG: usize = 15;

/// The abstract state of the machine: everything but the wall-clock reference.
pub struct Machine {
    pub memory: Seq<u8>,
    pub pc: u16,
    pub i: u16,
    pub v: Seq<u8>,
    pub stack: Seq<u16>,
    pub delay_timer: u8,
    pub sound_timer: u8,
    pub display: Seq<bool>,
    pub display_modified: bool,
    pub keys: Seq<bool>,
}

/// The virtual machine: memory, registers, call stack, timers, display and
/// keypad. Its abstract state is `Machine`; the wall-clock reference of the
/// timer gate is left out of it.
pub struct Cpu {
    memory: [u8; MEMORY_SIZE],
    program_counter: u16,
    i: u16,
    v: [u8; REGISTER_COUNT],
    stack: Vec<u16>,
    delay_timer: u8,
    sound_timer: u8,
    prev_timer_time: std::time::Instant,
    display: [bool; DISPLAY_SIZE],
    display_modified: bool,
    pressed_keys: [bool; KEY_COUNT],
}

impl View for Cpu {
    type V = Machine;

    closed spec fn view(&self) -> Machine {
        Machine {
            memory: self.memory@,
            pc: self.program_counter,
            i: self.i,
            v: self.v@,
            stack: self.stack@,
            delay_timer: self.delay_timer,
            sound_timer: self.sound_timer,
            display: self.display@,
            display_modified: self.display_modified,
            keys: self.pressed_keys@,
        }
    }
}

/// One step of a timer toward zero.
pub open spec fn tick(t: u8) -> u8 {
    if t > 0 { (t - 1) as u8 } else { 0 }
}

/// Both timers after one decrement.
pub open spec fn tick_timers(m: Machine) -> Machine {
    Machine { delay_timer: tick(m.delay_timer), sound_timer: tick(m.sound_timer), ..m }
}


/// The instruction family: the high nibble of the instruction word.
pub open spec fn family(op: u16) -> u16 {
    op >> 12
}

/// The first register operand: the second nibble.
pub open spec fn reg_x(op: u16) -> int {
    ((op >> 8) & 0xF) as int
}

/// The second register operand: the third nibble.
pub open spec fn reg_y(op: u16) -> int {
    ((op >> 4) & 0xF) as int
}

/// The low nibble: a sub-operation or a sprite height.
pub open spec fn nibble(op: u16) -> u16 {
    op & 0xF
}

/// The low byte: an immediate value or a sub-operation.
pub open spec fn low_byte(op: u16) -> u8 {
    (op & 0xFF) as u8
}

/// The low twelve bits: an address.
pub open spec fn address(op: u16) -> u16 {
    op & 0xFFF
}

/// The operand fields of an instruction word fit their widths.
pub proof fn lemma_decode_bounds(op: u16)
    ensures
        family(op) < 16,
        0 <= reg_x(op) < 16,
        0 <= reg_y(op) < 16,
        nibble(op) < 16,
        address(op) < 4096,
        family(op) != 0 ==> op != 0x00E0 && op != 0x00EE,
{
    assert(op >> 12 != 0 ==> op != 0xE0 && op != 0xEE) by (bit_vector);
    assert(op >> 12 < 16) by (bit_vector);
    assert((op >> 8) & 0xF < 16) by (bit_vector);
    assert((op >> 4) & 0xF < 16) by (bit_vector);
    assert(op & 0xF < 16) by (bit_vector);
    assert(op & 0xFFF < 4096) by (bit_vector);
}

/// The sizes every machine state has.
pub open spec fn well_formed(m: Machine) -> bool {
    &&& m.memory.len() == MEMORY_SIZE
    &&& m.v.len() == REGISTER_COUNT
    &&& m.display.len() == DISPLAY_SIZE
    &&& m.keys.len() == KEY_COUNT
}

/// Writes `val` to register `x`.
pub open spec fn set_reg(m: Machine, x: int, val: u8) -> Machine {
    Machine { v: m.v.update(x, val), ..m }
}

/// Writes `val` to register `x`, then `flag` to VF: the flag wins when `x` is VF.
pub open spec fn set_reg_flag(m: Machine, x: int, val: u8, flag: u8) -> Machine {
    Machine { v: m.v.update(x, val).update(FLAG as int, flag), ..m }
}

/// Skips the next instruction when `cond` holds.
pub open spec fn skip_if(m: Machine, cond: bool) -> Machine {
    if cond {
        Machine { pc: (m.pc + 2) as u16, ..m }
    } else {
        m
    }
}

/// The index of the lowest pressed key at or above `k`, or `KEY_COUNT` when none is.
pub open spec fn first_pressed(keys: Seq<bool>, k: int) -> int
    decreases KEY_COUNT - k,
{
    if k >= KEY_COUNT {
        KEY_COUNT as int
    } else if keys[k] {
        k
    } else {
        first_pressed(keys, k + 1)
    }
}

/// Bit `j` of a sprite row, counted from the most significant bit.
pub open spec fn sprite_bit(b: u8, j: int) -> bool {
    (b >> ((7 - j) as u8)) & 1u8 == 1u8
}

/// Whether a draw with origin `(x0, y0)` and `n` rows read from `I` lights the
/// sprite bit over column `c`, row `r`.
pub open spec fn hit(m: Machine, x0: int, y0: int, n: int, c: int, r: int) -> bool {
    &&& x0 <= c < x0 + 8
    &&& y0 <= r < y0 + n
    &&& sprite_bit(m.memory[m.i + (r - y0)], c - x0)
}

/// Whether the draw toggles display cell `p`.
pub open spec fn hit_cell(m: Machine, vx: u8, vy: u8, n: int, p: int) -> bool {
    hit(m, vx as int % 64, vy as int % 32, n, p % 64, p / 64)
}

/// Whether the draw turns off a pixel that was on.
pub open spec fn collides(m: Machine, vx: u8, vy: u8, n: int) -> bool {
    exists|p: int| 0 <= p < DISPLAY_SIZE && #[trigger] hit_cell(m, vx, vy, n, p) && m.display[p]
}

/// Sprite draw: every lit sprite bit whose pixel lies on the display toggles it;
/// VF tells whether a lit pixel was turned off.
pub open spec fn draw(m: Machine, vx: u8, vy: u8, n: int) -> Machine {
    Machine {
        display: Seq::new(DISPLAY_SIZE as nat, |p: int| m.display[p] != hit_cell(m, vx, vy, n, p)),
        v: m.v.update(FLAG as int, if collides(m, vx, vy, n) { 1u8 } else { 0u8 }),
        display_modified: true,
        ..m
    }
}

/// The register-register family (`8xyN`).
pub open spec fn exec_alu(m: Machine, x: int, y: int, n: u16) -> Machine {
    let vx = m.v[x];
    let vy = m.v[y];
    if n == 0 {
        set_reg(m, x, vy)
    } else if n == 1 {
        set_reg(m, x, vx | vy)
    } else if n == 2 {
        set_reg(m, x, vx & vy)
    } else if n == 3 {
        set_reg(m, x, vx ^ vy)
    } else if n == 4 {
        set_reg_flag(m, x, ((vx + vy) % 256) as u8, if vx + vy > 255 { 1 } else { 0 })
    } else if n == 5 {
        set_reg_flag(m, x, ((vx - vy) % 256) as u8, if vx >= vy { 1 } else { 0 })
    } else if n == 6 {
        set_reg_flag(m, x, vx >> 1, vx & 1)
    } else if n == 7 {
        set_reg_flag(m, x, ((vy - vx) % 256) as u8, if vy >= vx { 1 } else { 0 })
    } else if n == 0xE {
        set_reg_flag(m, x, ((vx * 2) % 256) as u8, if vx >= 128 { 1 } else { 0 })
    } else {
        m
    }
}

/// The timer, key, index and memory family (`FxNN`).
pub open spec fn exec_misc(m: Machine, x: int, nn: u8) -> Machine {
    let vx = m.v[x];
    if nn == 0x07 {
        set_reg(m, x, m.delay_timer)
    } else if nn == 0x0A {
        let k = first_pressed(m.keys, 0);
        if k < KEY_COUNT {
            set_reg(m, x, k as u8)
        } else {
            Machine { pc: (m.pc - 2) as u16, ..m }
        }
    } else if nn == 0x15 {
        Machine { delay_timer: vx, ..m }
    } else if nn == 0x18 {
        Machine { sound_timer: vx, ..m }
    } else if nn == 0x1E {
        Machine { i: ((m.i + vx) % 0x10000) as u16, ..m }
    } else if nn == 0x29 {
        Machine { i: (FONT_START + FONT_HEIGHT * (vx % 16)) as u16, ..m }
    } else if nn == 0x33 {
        Machine {
            memory: m.memory.update(m.i as int, vx / 100).update(m.i + 1, (vx / 10) % 10).update(
                m.i + 2,
                vx % 10,
            ),
            ..m
        }
    } else if nn == 0x55 {
        Machine {
            memory: Seq::new(
                MEMORY_SIZE as nat,
                |a: int| if m.i <= a <= m.i + x { m.v[a - m.i] } else { m.memory[a] },
            ),
            ..m
        }
    } else if nn == 0x65 {
        Machine {
            v: Seq::new(
                REGISTER_COUNT as nat,
                |r: int| if r <= x { m.memory[m.i + r] } else { m.v[r] },
            ),
            ..m
        }
    } else {
        m
    }
}

/// The effect of executing instruction `op` once the program counter has moved
/// past it; `rnd` is the random byte that `Cxnn` masks. A word that matches no
/// instruction changes nothing.
pub open spec fn execute(m: Machine, op: u16, rnd: u8) -> Machine {
    let f = family(op);
    let x = reg_x(op);
    let y = reg_y(op);
    let n = nibble(op);
    let nn = low_byte(op);
    let nnn = address(op);
    let vx = m.v[x];
    let vy = m.v[y];
    if op == 0x00E0 {
        Machine {
            display: Seq::new(DISPLAY_SIZE as nat, |p: int| false),
            display_modified: true,
            ..m
        }
    } else if op == 0x00EE {
        Machine {
            pc: m.stack.last(),
            stack: m.stack.subrange(0, m.stack.len() - 1),
            ..m
        }
    } else if f == 1 {
        Machine { pc: nnn, ..m }
    } else if f == 2 {
        Machine { pc: nnn, stack: m.stack.push(m.pc), ..m }
    } else if f == 3 {
        skip_if(m, vx == nn)
    } else if f == 4 {
        skip_if(m, vx != nn)
    } else if f == 5 && n == 0 {
        skip_if(m, vx == vy)
    } else if f == 6 {
        set_reg(m, x, nn)
    } else if f == 7 {
        set_reg(m, x, ((vx + nn) % 256) as u8)
    } else if f == 8 {
        exec_alu(m, x, y, n)
    } else if f == 9 && n == 0 {
        skip_if(m, vx != vy)
    } else if f == 0xA {
        Machine { i: nnn, ..m }
    } else if f == 0xB {
        Machine { pc: (nnn + m.v[0]) as u16, ..m }
    } else if f == 0xC {
        set_reg(m, x, rnd & nn)
    } else if f == 0xD {
        draw(m, vx, vy, n as int)
    } else if f == 0xE && nn == 0x9E {
        skip_if(m, m.keys[vx as int])
    } else if f == 0xE && nn == 0xA1 {
        skip_if(m, !m.keys[vx as int])
    } else if f == 0xF {
        exec_misc(m, x, nn)
    } else {
        m
    }
}

/// The inputs on which executing `op` is defined: a return needs a return
/// address, key tests need a key number, and memory accesses stay in memory.
pub open spec fn can_execute(m: Machine, op: u16) -> bool {
    let f = family(op);
    let x = reg_x(op);
    let n = nibble(op);
    let nn = low_byte(op);
    &&& 2 <= m.pc <= 0xFFFD
    &&& op == 0x00EE ==> m.stack.len() > 0
    &&& f == 0xD ==> m.i + n <= MEMORY_SIZE
    &&& f == 0xE && (nn == 0x9E || nn == 0xA1) ==> m.v[x] < KEY_COUNT
    &&& f == 0xF && nn == 0x33 ==> m.i + 2 < MEMORY_SIZE
    &&& f == 0xF && (nn == 0x55 || nn == 0x65) ==> m.i + x < MEMORY_SIZE
}

/// Whether cell `p` is toggled by one of the first `k` sprite bits, taken row by
/// row and most significant bit first.
pub open spec fn painted(m: Machine, vx: u8, vy: u8, n: int, p: int, k: int) -> bool {
    &&& hit_cell(m, vx, vy, n, p)
    &&& (p / 64 - vy as int % 32) * 8 + (p % 64 - vx as int % 64) < k
}

/// The instruction word stored big-endian at address `a`.
pub open spec fn instruction_at(m: Machine, a: int) -> u16 {
    (m.memory[a] * 256 + m.memory[a + 1]) as u16
}

/// The state after the program counter moves past the instruction it points at.
pub open spec fn advanced(m: Machine) -> Machine {
    Machine { pc: (m.pc + 2) as u16, ..m }
}

/// One cycle: a timer decrement when one is due, then fetch and execute.
pub open spec fn next_state(m: Machine, timer_due: bool, rnd: u8) -> Machine {
    let t = if timer_due { tick_timers(m) } else { m };
    execute(advanced(t), instruction_at(t, t.pc as int), rnd)
}

/// The states from which a cycle is defined: the instruction lies in memory and
/// can be executed.
pub open spec fn can_step(m: Machine) -> bool {
    m.pc + 1 < MEMORY_SIZE && can_execute(advanced(m), instruction_at(m, m.pc as int))
}

/// The glyphs of the hexadecimal digits, five rows each.
pub open spec fn font_glyphs() -> Seq<u8> {
    seq![
        0xF0u8, 0x90, 0x90, 0x90, 0xF0, 0x20, 0x60, 0x20, 0x20, 0x70,
        0xF0, 0x10, 0xF0, 0x80, 0xF0, 0xF0, 0x10, 0xF0, 0x10, 0xF0,
        0x90, 0x90, 0xF0, 0x10, 0x10, 0xF0, 0x80, 0xF0, 0x10, 0xF0,
        0xF0, 0x80, 0xF0, 0x90, 0xF0, 0xF0, 0x10, 0x20, 0x40, 0x40,
        0xF0, 0x90, 0xF0, 0x90, 0xF0, 0xF0, 0x90, 0xF0, 0x10, 0xF0,
        0xF0, 0x90, 0xF0, 0x90, 0x90, 0xE0, 0x90, 0xE0, 0x90, 0xE0,
        0xF0, 0x80, 0x80, 0x80, 0xF0, 0xE0, 0x90, 0x90, 0x90, 0xE0,
        0xF0, 0x80, 0xF0, 0x80, 0xF0, 0xF0, 0x80, 0xF0, 0x80, 0x80,
    ]
}

/// The machine as constructed from a program image: fonts and program in
/// memory, everything else zero, the program counter at the load address.
pub open spec fn initial(rom: Seq<u8>) -> Machine {
    Machine {
        memory: Seq::new(
            MEMORY_SIZE as nat,
            |a: int|
                if FONT_START <= a < FONT_START + 80 {
                    font_glyphs()[a - FONT_START]
                } else if PROGRAM_START <= a < PROGRAM_START + rom.len() {
                    rom[a - PROGRAM_START]
                } else {
                    0u8
                },
        ),
        pc: PROGRAM_START,
        i: 0,
        v: Seq::new(REGISTER_COUNT as nat, |r: int| 0u8),
        stack: Seq::empty(),
        delay_timer: 0,
        sound_timer: 0,
        display: Seq::new(DISPLAY_SIZE as nat, |p: int| false),
        display_modified: false,
        keys: Seq::new(KEY_COUNT as nat, |k: int| false),
    }
}

/// Two bytes joined big-endian into a word.
pub proof fn lemma_word(hi: u8, lo: u8)
    ensures
        ((hi as u16) << 8) | (lo as u16) == hi * 256 + lo,
{
    assert(((hi as u16) << 8) | (lo as u16) == (hi as u16) * 256 + (lo as u16)) by (bit_vector);
}

impl Cpu {
    /// A machine with `rom` loaded at the program start address and the font
    /// glyphs below it.
    pub fn new(rom: &[u8]) -> (cpu: Cpu)
        requires
            rom@.len() <= MEMORY_SIZE - PROGRAM_START,
        ensures
            cpu@ == initial(rom@),
    {
        let fonts: [u8; 80] = [
            0xF0, 0x90, 0x90, 0x90, 0xF0, 0x20, 0x60, 0x20, 0x20, 0x70,
            0xF0, 0x10, 0xF0, 0x80, 0xF0, 0xF0, 0x10, 0xF0, 0x10, 0xF0,
            0x90, 0x90, 0xF0, 0x10, 0x10, 0xF0, 0x80, 0xF0, 0x10, 0xF0,
            0xF0, 0x80, 0xF0, 0x90, 0xF0, 0xF0, 0x10, 0x20, 0x40, 0x40,
            0xF0, 0x90, 0xF0, 0x90, 0xF0, 0xF0, 0x90, 0xF0, 0x10, 0xF0,
            0xF0, 0x90, 0xF0, 0x90, 0x90, 0xE0, 0x90, 0xE0, 0x90, 0xE0,
            0xF0, 0x80, 0x80, 0x80, 0xF0, 0xE0, 0x90, 0x90, 0x90, 0xE0,
            0xF0, 0x80, 0xF0, 0x80, 0xF0, 0xF0, 0x80, 0xF0, 0x80, 0x80,
        ];
        assert(fonts@ =~= font_glyphs());
        let mut memory = [0u8; MEMORY_SIZE];
        let ghost target = initial(rom@).memory;
        let mut k: usize = 0;
        while k < 80
            invariant
                k <= 80,
                fonts@ == font_glyphs(),
                rom@.len() <= MEMORY_SIZE - PROGRAM_START,
                target == initial(rom@).memory,
                forall|a: int|
                    0 <= a < MEMORY_SIZE ==> #[trigger] memory@[a] == if FONT_START <= a
                        < FONT_START + k {
                        target[a]
                    } else {
                        0u8
                    },
            decreases 80 - k,
        {
            memory[FONT_START + k] = fonts[k];
            k += 1;
        }
        let start = PROGRAM_START as usize;
        let mut k: usize = 0;
        while k < rom.len()
            invariant
                k <= rom@.len(),
                rom@.len() <= MEMORY_SIZE - PROGRAM_START,
                start == PROGRAM_START,
                target == initial(rom@).memory,
                forall|a: int|
                    0 <= a < MEMORY_SIZE ==> #[trigger] memory@[a] == if FONT_START <= a
                        < FONT_START + 80 || PROGRAM_START <= a < PROGRAM_START + k {
                        target[a]
                    } else {
                        0u8
                    },
            decreases rom@.len() - k,
        {
            memory[start + k] = rom[k];
            k += 1;
        }
        let cpu = Cpu {
            memory,
            program_counter: PROGRAM_START,
            i: 0,
            v: [0u8; REGISTER_COUNT],
            stack: Vec::new(),
            delay_timer: 0,
            sound_timer: 0,
            prev_timer_time: now(),
            display: [false; DISPLAY_SIZE],
            display_modified: false,
            pressed_keys: [false; KEY_COUNT],
        };
        assert(cpu@.memory =~= initial(rom@).memory);
        assert(cpu@.v =~= initial(rom@).v);
        assert(cpu@.stack =~= initial(rom@).stack);
        assert(cpu@.display =~= initial(rom@).display);
        assert(cpu@.keys =~= initial(rom@).keys);
        cpu
    }

    /// A copy of the display, row-major, `DISPLAY_WIDTH` cells per row.
    pub fn display(&self) -> (r: [bool; DISPLAY_SIZE])
        ensures
            r@ == self@.display,
    {
        self.display
    }

    /// Whether the tone should sound: the sound timer is running.
    pub fn beep(&self) -> (r: bool)
        ensures
            r == (self@.sound_timer > 0),
    {
        self.sound_timer > 0
    }

    /// Replaces the set of pressed keys; numbers outside `0..KEY_COUNT` are ignored.
    pub fn set_keys(&mut self, keys: Vec<usize>)
        ensures
            final(self)@ == (Machine {
                keys: Seq::new(KEY_COUNT as nat, |k: int| keys@.contains(k as usize)),
                ..old(self)@
            }),
    {
        let ghost m = self@;
        let mut pressed = [false; KEY_COUNT];
        let mut j: usize = 0;
        while j < keys.len()
            invariant
                j <= keys@.len(),
                forall|k: int|
                    0 <= k < KEY_COUNT ==> #[trigger] pressed@[k] == keys@.subrange(
                        0,
                        j as int,
                    ).contains(k as usize),
            decreases keys@.len() - j,
        {
            let key = keys[j];
            assert forall|k: int| 0 <= k < KEY_COUNT implies #[trigger] keys@.subrange(
                0,
                j + 1,
            ).contains(k as usize) == (keys@.subrange(0, j as int).contains(k as usize) || key
                == k) by {
                let s = keys@.subrange(0, j + 1);
                if s.contains(k as usize) {
                    let w = choose|w: int| 0 <= w < s.len() && s[w] == k as usize;
                    if w < j {
                        assert(keys@.subrange(0, j as int)[w] == k as usize);
                    }
                }
                if keys@.subrange(0, j as int).contains(k as usize) {
                    let w = choose|w: int|
                        0 <= w < j && keys@.subrange(0, j as int)[w] == k as usize;
                    assert(s[w] == k as usize);
                }
                if key == k {
                    assert(s[j as int] == k as usize);
                }
            }
            if key < KEY_COUNT {
                pressed[key] = true;
            }
            j += 1;
        }
        assert(keys@.subrange(0, keys@.len() as int) =~= keys@);
        self.pressed_keys = pressed;
        assert(self@.keys =~= Seq::new(KEY_COUNT as nat, |k: int| keys@.contains(k as usize)));
    }

    /// Whether the next cycle is defined: the instruction at the program
    /// counter lies in memory, a return has an address to return to, key tests
    /// name a key, and memory accesses stay in memory.
    pub fn can_cycle(&self) -> (r: bool)
        ensures
            r == can_step(self@),
    {
        let pc = self.program_counter as usize;
        if pc + 1 >= MEMORY_SIZE {
            return false;
        }
        let hi = self.memory[pc];
        let lo = self.memory[pc + 1];
        proof {
            lemma_word(hi, lo);
        }
        let op = ((hi as u16) << 8) | (lo as u16);
        proof {
            lemma_decode_bounds(op);
        }
        let family = op >> 12;
        let x = ((op >> 8) & 0xF) as usize;
        let n = (op & 0xF) as usize;
        let nn = (op & 0xFF) as u8;
        let i = self.i as usize;
        if op == 0x00EE && self.stack.len() == 0 {
            false
        } else if family == 0xD && i + n > MEMORY_SIZE {
            false
        } else if family == 0xE && (nn == 0x9E || nn == 0xA1) && self.v[x] as usize >= KEY_COUNT {
            false
        } else if family == 0xF && nn == 0x33 && i + 2 >= MEMORY_SIZE {
            false
        } else if family == 0xF && (nn == 0x55 || nn == 0x65) && i + x >= MEMORY_SIZE {
            false
        } else {
            true
        }
    }

    /// Advances the machine by one instruction, decrementing the timers first
    /// when at least a sixtieth of a second has passed since they last were.
    /// Missed periods are not caught up.
    pub fn cycle(&mut self)
        requires
            can_step(old(self)@),
        ensures
            exists|timer_due: bool, random: u8|
                final(self)@ == #[trigger] next_state(old(self)@, timer_due, random),
    {
        let timer_due = nanos_since(&self.prev_timer_time) >= TIMER_PERIOD_NANOS;
        if timer_due {
            self.prev_timer_time = now();
        }
        let random = random_byte();
        self.step(timer_due, random);
    }

    /// Advances the machine by one instruction. `timer_due` says whether a
    /// timer period has passed since the last decrement; `random` is the byte
    /// that a random-number instruction masks.
    pub fn step(&mut self, timer_due: bool, random: u8)
        requires
            can_step(old(self)@),
        ensures
            final(self)@ == next_state(old(self)@, timer_due, random),
    {
        if timer_due {
            self.process_timers();
        }
        let opcode = self.fetch();
        self.process_opcode(opcode, random);
    }

    /// Decrements both timers, stopping at zero.
    fn process_timers(&mut self)
        ensures
            final(self)@ == tick_timers(old(self)@),
            final(self).prev_timer_time == old(self).prev_timer_time,
    {
        self.delay_timer = self.delay_timer.saturating_sub(1);
        self.sound_timer = self.sound_timer.saturating_sub(1);
    }

    /// Reads the big-endian instruction word at the program counter and moves
    /// the program counter past it.
    fn fetch(&mut self) -> (op: u16)
        requires
            old(self).program_counter + 1 < MEMORY_SIZE,
        ensures
            op == instruction_at(old(self)@, old(self)@.pc as int),
            final(self)@ == advanced(old(self)@),
            final(self).prev_timer_time == old(self).prev_timer_time,
    {
        let pc = self.program_counter as usize;
        let hi = self.memory[pc];
        let lo = self.memory[pc + 1];
        proof {
            lemma_word(hi, lo);
        }
        let op = ((hi as u16) << 8) | (lo as u16);
        self.program_counter = self.program_counter + 2;
        op
    }

    /// Decodes and executes one instruction word; a word that matches no
    /// instruction is skipped.
    fn process_opcode(&mut self, opcode: u16, random: u8)
        requires
            can_execute(old(self)@, opcode),
        ensures
            final(self)@ == execute(old(self)@, opcode, random),
            final(self).prev_timer_time == old(self).prev_timer_time,
    {
        proof {
            lemma_decode_bounds(opcode);
        }
        let ghost m = self@;
        let family = opcode >> 12;
        let x = ((opcode >> 8) & 0xF) as usize;
        let y = ((opcode >> 4) & 0xF) as usize;
        let n = opcode & 0xF;
        let nn = (opcode & 0xFF) as u8;
        let nnn = opcode & 0xFFF;
        let vx = self.v[x];
        let vy = self.v[y];
        if opcode == 0x00E0 {
            self.display = [false; DISPLAY_SIZE];
            self.display_modified = true;
            assert(self.display@ =~= execute(m, opcode, random).display);
        } else if opcode == 0x00EE {
            if let Some(address) = self.stack.pop() {
                self.program_counter = address;
            }
        } else if family == 1 {
            self.program_counter = nnn;
        } else if family == 2 {
            self.stack.push(self.program_counter);
            self.program_counter = nnn;
        } else if family == 3 {
            if vx == nn {
                self.program_counter = self.program_counter + 2;
            }
        } else if family == 4 {
            if vx != nn {
                self.program_counter = self.program_counter + 2;
            }
        } else if family == 5 && n == 0 {
            if vx == vy {
                self.program_counter = self.program_counter + 2;
            }
        } else if family == 6 {
            self.v[x] = nn;
        } else if family == 7 {
            self.v[x] = vx.wrapping_add(nn);
        } else if family == 8 {
            self.alu_opcode(x, y, n);
        } else if family == 9 && n == 0 {
            if vx != vy {
                self.program_counter = self.program_counter + 2;
            }
        } else if family == 0xA {
            self.i = nnn;
        } else if family == 0xB {
            self.program_counter = nnn + self.v[0] as u16;
        } else if family == 0xC {
            self.v[x] = random & nn;
        } else if family == 0xD {
            self.display_opcode(vx, vy, n as u8);
        } else if family == 0xE && nn == 0x9E {
            if self.pressed_keys[vx as usize] {
                self.program_counter = self.program_counter + 2;
            }
        } else if family == 0xE && nn == 0xA1 {
            if !self.pressed_keys[vx as usize] {
                self.program_counter = self.program_counter + 2;
            }
        } else if family == 0xF {
            self.misc_opcode(x, nn);
        }
        assert(self.v@ =~= execute(m, opcode, random).v);
    }

    /// The register-register family (`8xyN`).
    fn alu_opcode(&mut self, x: usize, y: usize, n: u16)
        requires
            x < REGISTER_COUNT,
            y < REGISTER_COUNT,
        ensures
            final(self)@ == exec_alu(old(self)@, x as int, y as int, n),
            final(self).prev_timer_time == old(self).prev_timer_time,
    {
        let ghost m = self@;
        let vx = self.v[x];
        let vy = self.v[y];
        if n == 0 {
            self.v[x] = vy;
        } else if n == 1 {
            self.v[x] = vx | vy;
        } else if n == 2 {
            self.v[x] = vx & vy;
        } else if n == 3 {
            self.v[x] = vx ^ vy;
        } else if n == 4 {
            let carry: u8 = if vx as u16 + vy as u16 > 255 { 1 } else { 0 };
            self.v[x] = vx.wrapping_add(vy);
            self.v[FLAG] = carry;
        } else if n == 5 {
            let no_borrow: u8 = if vx >= vy { 1 } else { 0 };
            self.v[x] = vx.wrapping_sub(vy);
            self.v[FLAG] = no_borrow;
        } else if n == 6 {
            self.v[x] = vx >> 1;
            self.v[FLAG] = vx & 1;
        } else if n == 7 {
            let no_borrow: u8 = if vy >= vx { 1 } else { 0 };
            self.v[x] = vy.wrapping_sub(vx);
            self.v[FLAG] = no_borrow;
        } else if n == 0xE {
            let high: u8 = if vx & 0x80 == 0 { 0 } else { 1 };
            assert(vx << 1 == ((vx * 2) % 256) as u8) by (bit_vector);
            assert((vx & 0x80 == 0) == (vx < 128)) by (bit_vector);
            self.v[x] = vx << 1;
            self.v[FLAG] = high;
        }
        assert(self.v@ =~= exec_alu(m, x as int, y as int, n).v);
    }

    /// The timer, key, index and memory family (`FxNN`).
    fn misc_opcode(&mut self, x: usize, nn: u8)
        requires
            x < REGISTER_COUNT,
            2 <= old(self)@.pc,
            nn == 0x33 ==> old(self).i + 2 < MEMORY_SIZE,
            nn == 0x55 || nn == 0x65 ==> old(self).i + x < MEMORY_SIZE,
        ensures
            final(self)@ == exec_misc(old(self)@, x as int, nn),
            final(self).prev_timer_time == old(self).prev_timer_time,
    {
        let ghost m = self@;
        let vx = self.v[x];
        if nn == 0x07 {
            self.v[x] = self.delay_timer;
        } else if nn == 0x0A {
            let k = self.first_pressed_key();
            if k < KEY_COUNT {
                self.v[x] = k as u8;
            } else {
                self.program_counter = self.program_counter - 2;
            }
        } else if nn == 0x15 {
            self.delay_timer = vx;
        } else if nn == 0x18 {
            self.sound_timer = vx;
        } else if nn == 0x1E {
            self.i = self.i.wrapping_add(vx as u16);
        } else if nn == 0x29 {
            self.i = (FONT_START + FONT_HEIGHT * (vx & 0x0F) as usize) as u16;
            assert(vx & 0x0F == vx % 16) by (bit_vector);
        } else if nn == 0x33 {
            let i = self.i as usize;
            self.memory[i] = vx / 100 % 10;
            self.memory[i + 1] = vx / 10 % 10;
            self.memory[i + 2] = vx % 10;
            assert(self.memory@ =~= exec_misc(m, x as int, nn).memory);
        } else if nn == 0x55 {
            let base = self.i as usize;
            let mut index: usize = 0;
            while index <= x
                invariant
                    base == m.i,
                    base + x < MEMORY_SIZE,
                    x < REGISTER_COUNT,
                    index <= x + 1,
                    self@ == (Machine { memory: self@.memory, ..m }),
                    self.prev_timer_time == old(self).prev_timer_time,
                    forall|a: int|
                        0 <= a < MEMORY_SIZE ==> #[trigger] self@.memory[a] == if base <= a < base
                            + index {
                            m.v[a - base]
                        } else {
                            m.memory[a]
                        },
                decreases x + 1 - index,
            {
                self.memory[base + index] = self.v[index];
                index += 1;
            }
            assert(self.memory@ =~= exec_misc(m, x as int, nn).memory);
        } else if nn == 0x65 {
            let base = self.i as usize;
            let mut index: usize = 0;
            while index <= x
                invariant
                    base == m.i,
                    base + x < MEMORY_SIZE,
                    x < REGISTER_COUNT,
                    index <= x + 1,
                    self@ == (Machine { v: self@.v, ..m }),
                    self.prev_timer_time == old(self).prev_timer_time,
                    forall|r: int|
                        0 <= r < REGISTER_COUNT ==> #[trigger] self@.v[r] == if r < index {
                            m.memory[base + r]
                        } else {
                            m.v[r]
                        },
                decreases x + 1 - index,
            {
                self.v[index] = self.memory[base + index];
                index += 1;
            }
            assert(self.v@ =~= exec_misc(m, x as int, nn).v);
        }
        assert(self.v@ =~= exec_misc(m, x as int, nn).v);
    }

    /// The index of the lowest pressed key, or `KEY_COUNT` when none is pressed.
    fn first_pressed_key(&self) -> (r: usize)
        ensures
            r == first_pressed(self@.keys, 0),
    {
        let mut k: usize = 0;
        while k < KEY_COUNT
            invariant
                k <= KEY_COUNT,
                first_pressed(self@.keys, 0) == first_pressed(self@.keys, k as int),
            decreases KEY_COUNT - k,
        {
            if self.pressed_keys[k] {
                return k;
            }
            k += 1;
        }
        k
    }

    /// Draws the `height`-row sprite at `I` with its origin at `(x, y)`, wrapped
    /// onto the display; pixels past the right or bottom edge are dropped.
    fn display_opcode(&mut self, x: u8, y: u8, height: u8)
        requires
            old(self).i + height <= MEMORY_SIZE,
        ensures
            final(self)@ == draw(old(self)@, x, y, height as int),
            final(self).prev_timer_time == old(self).prev_timer_time,
    {
        let ghost m = self@;
        let ghost n = height as int;
        let x0 = x as usize % DISPLAY_WIDTH;
        let y0 = y as usize % DISPLAY_HEIGHT;
        let total = height as usize * 8;
        let mut display = self.display;
        let mut collided = false;
        let mut k: usize = 0;
        while k < total
            invariant
                self@ == m,
                m.i + n <= MEMORY_SIZE,
                total == n * 8,
                x0 == x as int % 64,
                y0 == y as int % 32,
                k <= total,
                forall|p: int|
                    0 <= p < DISPLAY_SIZE ==> display@[p] == (m.display[p] != painted(
                        m,
                        x,
                        y,
                        n,
                        p,
                        k as int,
                    )),
                collided == exists|p: int|
                    0 <= p < DISPLAY_SIZE && #[trigger] painted(m, x, y, n, p, k as int)
                        && m.display[p],
            decreases total - k,
        {
            let row = k / 8;
            let col = k % 8;
            let sprite = self.memory[self.i as usize + row];
            let bit = (sprite >> (7 - col as u8)) & 1;
            let cx = x0 + col;
            let cy = y0 + row;
            let ghost done = |p: int| painted(m, x, y, n, p, k as int);
            let ghost was_collided = collided;
            assert(sprite == m.memory[m.i + row]);
            assert forall|p: int| 0 <= p < DISPLAY_SIZE && #[trigger] painted(m, x, y, n, p, k + 1) && !done(p)
                implies p % 64 == cx && p / 64 == cy && bit == 1 && cx < 64 && cy < 32 by {
                assert(p == (p / 64) * 64 + p % 64);
            }
            if bit == 1 && cx < DISPLAY_WIDTH && cy < DISPLAY_HEIGHT {
                let idx = cx + DISPLAY_WIDTH * cy;
                proof {
                    vstd::arithmetic::div_mod::lemma_fundamental_div_mod_converse(
                        idx as int,
                        64,
                        cy as int,
                        cx as int,
                    );
                    assert(painted(m, x, y, n, idx as int, k + 1));
                    assert(!done(idx as int));
                }
                if display[idx] {
                    collided = true;
                }
                display[idx] = !display[idx];
            }
            proof {
                let next = k + 1;
                if collided && was_collided {
                    let w = choose|p: int|
                        0 <= p < DISPLAY_SIZE && #[trigger] painted(m, x, y, n, p, k as int)
                            && m.display[p];
                    assert(painted(m, x, y, n, w, next));
                } else if collided {
                    let idx = cx + 64 * cy;
                    assert(painted(m, x, y, n, idx, next) && m.display[idx]);
                } else {
                    assert forall|p: int|
                        0 <= p < DISPLAY_SIZE && #[trigger] painted(m, x, y, n, p, next)
                            implies !m.display[p] by {
                        if !done(p) {
                            vstd::arithmetic::div_mod::lemma_fundamental_div_mod_converse(
                                (cx + 64 * cy) as int,
                                64,
                                cy as int,
                                cx as int,
                            );
                        }
                    }
                }
            }
            k += 1;
        }
        assert forall|p: int| 0 <= p < DISPLAY_SIZE implies #[trigger] painted(m, x, y, n, p, k as int)
            == hit_cell(m, x, y, n, p) by {}
        self.display = display;
        self.v[FLAG] = if collided { 1 } else { 0 };
        self.display_modified = true;
        assert(self.display@ =~= draw(m, x, y, n).display);
        assert(self.v@ =~= draw(m, x, y, n).v);
    }

    /// The value of register `V{r}`.
    pub fn register(&self, r: usize) -> (val: u8)
        requires
            r < REGISTER_COUNT,
        ensures
            val == self@.v[r as int],
    {
        self.v[r]
    }

    /// The address of the next instruction.
    pub fn program_counter(&self) -> (pc: u16)
        ensures
            pc == self@.pc,
    {
        self.program_counter
    }

    /// The index register `I`.
    pub fn index_register(&self) -> (i: u16)
        ensures
            i == self@.i,
    {
        self.i
    }

    /// The byte of memory at `address`.
    pub fn memory_at(&self, address: usize) -> (b: u8)
        requires
            address < MEMORY_SIZE,
        ensures
            b == self@.memory[address as int],
    {
        self.memory[address]
    }

    /// The delay timer.
    pub fn delay_timer(&self) -> (t: u8)
        ensures
            t == self@.delay_timer,
    {
        self.delay_timer
    }

    /// The sound timer.
    pub fn sound_timer(&self) -> (t: u8)
        ensures
            t == self@.sound_timer,
    {
        self.sound_timer
    }

    /// The number of return addresses on the call stack.
    pub fn stack_depth(&self) -> (d: usize)
        ensures
            d == self@.stack.len(),
    {
        self.stack.len()
    }

    /// Whether the display changed since construction.
    pub fn display_modified(&self) -> (b: bool)
        ensures
            b == self@.display_modified,
    {
        self.display_modified
    }
}

} // verus!
