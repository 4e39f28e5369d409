//! Properties of the instruction set, proved over the machine model.
use vstd::prelude::*;

use crate::cpu::{
    can_step, execute, family, first_pressed, hit_cell, instruction_at,
    lemma_decode_bounds, low_byte, next_state, nibble, reg_x, reg_y, sprite_bit, tick_timers,
    well_formed, Machine, DISPLAY_SIZE, FLAG, KEY_COUNT, MEMORY_SIZE,
};

verus! {

/// `8xy4`: VF is 1 exactly when `Vx + Vy` exceeds 255, and 0 otherwise; unless
/// `x` is VF itself, `Vx` becomes the sum modulo 256.
pub proof fn law_add_carry(m: Machine, op: u16, rnd: u8)
    requires
        well_formed(m),
        family(op) == 8,
        nibble(op) == 4,
    ensures
        ({
            let a = m.v[reg_x(op)];
            let b = m.v[reg_y(op)];
            let r = execute(m, op, rnd);
            &&& r.v[FLAG as int] == if a + b > 255 { 1u8 } else { 0u8 }
            &&& reg_x(op) != FLAG ==> r.v[reg_x(op)] == (a + b) % 256
        }),
{
    lemma_decode_bounds(op);
}

/// `8xy5`: VF is 1 exactly when `Vx >= Vy` (no borrow), and 0 otherwise; unless
/// `x` is VF itself, `Vx` becomes the difference modulo 256.
pub proof fn law_sub_borrow(m: Machine, op: u16, rnd: u8)
    requires
        well_formed(m),
        family(op) == 8,
        nibble(op) == 5,
    ensures
        ({
            let a = m.v[reg_x(op)];
            let b = m.v[reg_y(op)];
            let r = execute(m, op, rnd);
            &&& r.v[FLAG as int] == if a >= b { 1u8 } else { 0u8 }
            &&& reg_x(op) != FLAG ==> r.v[reg_x(op)] == (a - b) % 256
        }),
{
    lemma_decode_bounds(op);
}

/// `8xy6`: VF receives the low bit of `Vx`; unless `x` is VF itself, `Vx` is
/// shifted right by one.
pub proof fn law_shift_right(m: Machine, op: u16, rnd: u8)
    requires
        well_formed(m),
        family(op) == 8,
        nibble(op) == 6,
    ensures
        ({
            let a = m.v[reg_x(op)];
            let r = execute(m, op, rnd);
            &&& r.v[FLAG as int] == a & 1
            &&& reg_x(op) != FLAG ==> r.v[reg_x(op)] == a >> 1
        }),
{
    lemma_decode_bounds(op);
}

/// `8xyE`: VF is 1 exactly when bit 7 of `Vx` is set, and 0 otherwise; unless
/// `x` is VF itself, `Vx` becomes `Vx << 1` modulo 256.
pub proof fn law_shift_left(m: Machine, op: u16, rnd: u8)
    requires
        well_formed(m),
        family(op) == 8,
        nibble(op) == 0xE,
    ensures
        ({
            let a = m.v[reg_x(op)];
            let r = execute(m, op, rnd);
            &&& r.v[FLAG as int] == if a & 0x80 == 0x80 { 1u8 } else { 0u8 }
            &&& reg_x(op) != FLAG ==> r.v[reg_x(op)] == (a * 2) % 256
            &&& reg_x(op) != FLAG ==> r.v[reg_x(op)] == ((a as u16) << 1u16) % 256
        }),
{
    lemma_decode_bounds(op);
    let a = m.v[reg_x(op)];
    assert((a & 0x80 == 0x80) == (a >= 128)) by (bit_vector);
    assert(((a as u16) << 1u16) == a as u16 * 2) by (bit_vector);
}

/// Clearing the screen leaves a display of 64 × 32 cells, all off.
pub proof fn law_clear_screen(m: Machine, rnd: u8)
    requires
        well_formed(m),
    ensures
        execute(m, 0x00E0, rnd).display.len() == 64 * 32,
        forall|p: int| 0 <= p < 64 * 32 ==> !#[trigger] execute(m, 0x00E0, rnd).display[p],
{
}

/// Drawing a sprite twice at the same place restores the display. VF after the
/// second draw tells whether the first one left any pixel of the sprite lit; when
/// no pixel under the sprite was lit before, the first draw reports no
/// collision and the second reports one exactly when the sprite lit a pixel.
/// (The sprite must not be placed by VF, which the first draw overwrites.)
pub proof fn law_draw_twice(m: Machine, op: u16, rnd1: u8, rnd2: u8)
    requires
        well_formed(m),
        family(op) == 0xD,
        reg_x(op) != FLAG,
        reg_y(op) != FLAG,
        m.i + nibble(op) <= MEMORY_SIZE,
    ensures
        ({
            let vx = m.v[reg_x(op)];
            let vy = m.v[reg_y(op)];
            let n = nibble(op) as int;
            let m1 = execute(m, op, rnd1);
            let m2 = execute(m1, op, rnd2);
            &&& m2.display == m.display
            &&& m2.v[FLAG as int] == if exists|p: int|
                0 <= p < DISPLAY_SIZE && hit_cell(m, vx, vy, n, p) && #[trigger] m1.display[p] {
                1u8
            } else {
                0u8
            }
            &&& (forall|p: int| 0 <= p < DISPLAY_SIZE && #[trigger] hit_cell(m, vx, vy, n, p) ==> !m.display[p])
                ==> {
                &&& m1.v[FLAG as int] == 0
                &&& (m2.v[FLAG as int] == 1 <==> exists|p: int|
                    0 <= p < DISPLAY_SIZE && #[trigger] hit_cell(m, vx, vy, n, p))
            }
        }),
{
    lemma_decode_bounds(op);
    let vx = m.v[reg_x(op)];
    let vy = m.v[reg_y(op)];
    let n = nibble(op) as int;
    let m1 = execute(m, op, rnd1);
    let m2 = execute(m1, op, rnd2);
    assert(m1.v[reg_x(op)] == vx && m1.v[reg_y(op)] == vy);
    assert forall|p: int| 0 <= p < DISPLAY_SIZE implies #[trigger] hit_cell(m1, vx, vy, n, p)
        == hit_cell(m, vx, vy, n, p) by {}
    assert(m2.display =~= m.display);
    if exists|p: int| 0 <= p < DISPLAY_SIZE && hit_cell(m, vx, vy, n, p) && #[trigger] m1.display[p] {
        let p = choose|p: int| 0 <= p < DISPLAY_SIZE && hit_cell(m, vx, vy, n, p) && #[trigger] m1.display[p];
        assert(hit_cell(m1, vx, vy, n, p));
    }
    if forall|p: int| 0 <= p < DISPLAY_SIZE && #[trigger] hit_cell(m, vx, vy, n, p) ==> !m.display[p] {
        if exists|p: int| 0 <= p < DISPLAY_SIZE && #[trigger] hit_cell(m, vx, vy, n, p) {
            let p = choose|p: int| 0 <= p < DISPLAY_SIZE && #[trigger] hit_cell(m, vx, vy, n, p);
            assert(m1.display[p]);
        }
    }
}

/// Drawing wraps only the sprite's origin onto the display: every cell it
/// changes lies within the sprite's extent to the right of and below the
/// wrapped origin, so bits that fall past the right or bottom edge are dropped;
/// and every lit sprite bit that lands on the display toggles its cell.
pub proof fn law_draw_clips(m: Machine, op: u16, rnd: u8)
    requires
        well_formed(m),
        family(op) == 0xD,
        m.i + nibble(op) <= MEMORY_SIZE,
    ensures
        ({
            let x0 = m.v[reg_x(op)] as int % 64;
            let y0 = m.v[reg_y(op)] as int % 32;
            let n = nibble(op) as int;
            let r = execute(m, op, rnd);
            &&& forall|p: int|
                0 <= p < DISPLAY_SIZE && #[trigger] r.display[p] != m.display[p] ==> {
                    &&& x0 <= p % 64 < x0 + 8
                    &&& y0 <= p / 64 < y0 + n
                }
            &&& forall|row: int, col: int|
                0 <= row < n && 0 <= col < 8 && x0 + col < 64 && y0 + row < 32 && sprite_bit(
                    m.memory[m.i + row],
                    col,
                ) ==> #[trigger] r.display[(x0 + col) + 64 * (y0 + row)] != m.display[(x0 + col)
                    + 64 * (y0 + row)]
        }),
{
    lemma_decode_bounds(op);
    let x0 = m.v[reg_x(op)] as int % 64;
    let y0 = m.v[reg_y(op)] as int % 32;
    let n = nibble(op) as int;
    let r = execute(m, op, rnd);
    assert forall|row: int, col: int|
        0 <= row < n && 0 <= col < 8 && x0 + col < 64 && y0 + row < 32 && sprite_bit(
            m.memory[m.i + row],
            col,
        ) implies #[trigger] r.display[(x0 + col) + 64 * (y0 + row)] != m.display[(x0 + col) + 64
        * (y0 + row)] by {
        let p = (x0 + col) + 64 * (y0 + row);
        vstd::arithmetic::div_mod::lemma_fundamental_div_mod_converse(p, 64, y0 + row, x0 + col);
    }
}

/// A call followed, at its target, by a return resumes at the instruction after
/// the call, with the call stack as it was.
pub proof fn law_call_return(m: Machine, due1: bool, rnd1: u8, due2: bool, rnd2: u8)
    requires
        well_formed(m),
        can_step(m),
        family(instruction_at(m, m.pc as int)) == 2,
        instruction_at(next_state(m, due1, rnd1), next_state(m, due1, rnd1).pc as int) == 0x00EE,
    ensures
        next_state(next_state(m, due1, rnd1), due2, rnd2).pc == m.pc + 2,
        next_state(next_state(m, due1, rnd1), due2, rnd2).stack == m.stack,
{
    lemma_decode_bounds(instruction_at(m, m.pc as int));
    let m1 = next_state(m, due1, rnd1);
    let m2 = next_state(m1, due2, rnd2);
    assert(m1.stack == m.stack.push((m.pc + 2) as u16));
    assert(m2.stack =~= m.stack);
}

/// The timers after `k` decrements.
pub open spec fn tick_times(m: Machine, k: nat) -> Machine
    decreases k,
{
    if k == 0 {
        m
    } else {
        tick_timers(tick_times(m, (k - 1) as nat))
    }
}

/// However many decrements are applied, each timer stops at zero: after `k`
/// of them it holds its old value less `k`, or zero when that would be negative.
pub proof fn law_timers_saturate(m: Machine, k: nat)
    ensures
        tick_times(m, k).delay_timer == if m.delay_timer >= k { m.delay_timer - k } else { 0 },
        tick_times(m, k).sound_timer == if m.sound_timer >= k { m.sound_timer - k } else { 0 },
    decreases k,
{
    if k > 0 {
        law_timers_saturate(m, (k - 1) as nat);
    }
}

/// `first_pressed` finds the lowest pressed key at or above `k`.
pub proof fn lemma_first_pressed(keys: Seq<bool>, k: int)
    requires
        0 <= k <= KEY_COUNT,
        keys.len() == KEY_COUNT,
    ensures
        k <= first_pressed(keys, k) <= KEY_COUNT,
        first_pressed(keys, k) < KEY_COUNT ==> keys[first_pressed(keys, k)],
        forall|j: int| k <= j < first_pressed(keys, k) ==> !#[trigger] keys[j],
    decreases KEY_COUNT - k,
{
    if k < KEY_COUNT && !keys[k] {
        lemma_first_pressed(keys, k + 1);
    }
}

/// Waiting for a key (`Fx0A`): with no key pressed the cycle changes nothing
/// but the timers, so the program counter stays on the same instruction; with a key pressed `Vx` receives the lowest pressed
/// key and execution moves on.
pub proof fn law_wait_key(m: Machine, due: bool, rnd: u8)
    requires
        well_formed(m),
        can_step(m),
        family(instruction_at(m, m.pc as int)) == 0xF,
        low_byte(instruction_at(m, m.pc as int)) == 0x0A,
    ensures
        ({
            let x = reg_x(instruction_at(m, m.pc as int));
            let r = next_state(m, due, rnd);
            &&& (forall|k: int| 0 <= k < KEY_COUNT ==> !#[trigger] m.keys[k]) ==> r == (Machine {
                delay_timer: r.delay_timer,
                sound_timer: r.sound_timer,
                ..m
            })
            &&& forall|k: int|
                0 <= k < KEY_COUNT && #[trigger] m.keys[k] && (forall|j: int|
                    0 <= j < k ==> !#[trigger] m.keys[j]) ==> {
                    &&& r.pc == m.pc + 2
                    &&& r.v[x] == k
                }
        }),
{
    let op = instruction_at(m, m.pc as int);
    lemma_decode_bounds(op);
    lemma_first_pressed(m.keys, 0);
}

/// The state after one cycle for each timer decision and random byte given.
pub open spec fn run(m: Machine, dues: Seq<bool>, rnds: Seq<u8>) -> Machine
    decreases dues.len(),
{
    if dues.len() == 0 || rnds.len() == 0 {
        m
    } else {
        run(next_state(m, dues[0], rnds[0]), dues.drop_first(), rnds.drop_first())
    }
}

/// While no key is pressed, any number of cycles from a wait-for-key
/// instruction leave the program counter on it and change nothing but the timers.
pub proof fn law_wait_key_blocks(m: Machine, dues: Seq<bool>, rnds: Seq<u8>)
    requires
        well_formed(m),
        can_step(m),
        family(instruction_at(m, m.pc as int)) == 0xF,
        low_byte(instruction_at(m, m.pc as int)) == 0x0A,
        forall|k: int| 0 <= k < KEY_COUNT ==> !#[trigger] m.keys[k],
    ensures
        ({
            let r = run(m, dues, rnds);
            r == (Machine { delay_timer: r.delay_timer, sound_timer: r.sound_timer, ..m })
        }),
    decreases dues.len(),
{
    if dues.len() > 0 && rnds.len() > 0 {
        law_wait_key(m, dues[0], rnds[0]);
        law_wait_key_blocks(next_state(m, dues[0], rnds[0]), dues.drop_first(), rnds.drop_first());
    }
}

} // verus!
