//! The interpreter's global properties, stated over the model of
//! [`crate::model`] and proved once and for all.

use vstd::prelude::*;

use crate::model::{
    advanced, covers, draw_collision, draw_model, exec_model, first_pressed_from, fontset,
    init_model, op_at, op_d1, op_d4, op_x, op_y, pix_index, set_v, sprite_bit, sprite_row, step,
    timers_model, wait_key_model, Chip8Error, Model,
};

verus! {

/// Law: a `reset` leaves the machine byte-identical to a fresh one — both
/// stand at [`init_model`] — so whatever a loaded ROM did to memory, the
/// font table afterwards again holds exactly the built-in glyphs and the
/// rest of memory is zero.
pub proof fn lemma_reset_restores_font()
    ensures
        init_model().ram.len() == 4096,
        forall|k: int| 0 <= k < 80 ==> init_model().ram[k] == fontset()[k],
        forall|k: int| 80 <= k < 4096 ==> init_model().ram[k] == 0u8,
{
}

/// Law: the add-with-carry opcode (family 8, subtype 4) leaves in Vx the
/// 8-bit sum of the old Vx and Vy, and VF is 1 exactly when the true sum
/// exceeds 255, else 0.  VF is the flag's home, so the sum statement asks
/// that Vx not be VF itself.
pub proof fn lemma_add_with_carry(m: Model, op: u16, rnd: u8)
    requires
        m.wf(),
        op_d1(op) == 8,
        op_d4(op) == 4,
        op_x(op) != 15,
    ensures
        exec_model(m, op, rnd) is Ok,
        exec_model(m, op, rnd) matches Ok(m2) ==> m2.v_reg[op_x(op)] == (m.v_reg[op_x(op)]
            + m.v_reg[op_y(op)]) % 256,
        exec_model(m, op, rnd) matches Ok(m2) ==> (m2.v_reg[15] == 1 <==> m.v_reg[op_x(op)]
            + m.v_reg[op_y(op)] > 255),
        exec_model(m, op, rnd) matches Ok(m2) ==> (m2.v_reg[15] == 0 <==> m.v_reg[op_x(op)]
            + m.v_reg[op_y(op)] <= 255),
{
}

/// Law: the subtract-with-borrow opcode (family 8, subtype 5) leaves in Vx
/// the 8-bit difference Vx - Vy, and VF is 0 exactly when a borrow occurred,
/// that is when Vx < Vy, else 1.
pub proof fn lemma_sub_with_borrow(m: Model, op: u16, rnd: u8)
    requires
        m.wf(),
        op_d1(op) == 8,
        op_d4(op) == 5,
        op_x(op) != 15,
    ensures
        exec_model(m, op, rnd) is Ok,
        exec_model(m, op, rnd) matches Ok(m2) ==> m2.v_reg[op_x(op)] == (m.v_reg[op_x(op)]
            - m.v_reg[op_y(op)]) % 256,
        exec_model(m, op, rnd) matches Ok(m2) ==> (m2.v_reg[15] == 0 <==> m.v_reg[op_x(op)]
            < m.v_reg[op_y(op)]),
{
}

/// Law: drawing a sprite twice at the same origin restores the display to
/// its state before the first draw — XOR is an involution — and the second
/// draw reports a collision in VF exactly when some set sprite bit lands on
/// a pixel that was off before the first draw (after the first draw it is
/// on, so it is the collision surface).  With the whole sprite region lit by
/// the first draw, a nonempty sprite makes the second draw report VF = 1.
pub proof fn lemma_draw_twice(m: Model, x: int, y: int, n: int)
    requires
        m.wf(),
        0 <= x < 16,
        0 <= y < 16,
        x != 15,
        y != 15,
        0 <= n <= 15,
    ensures
        draw_model(draw_model(m, x, y, n), x, y, n).screen == m.screen,
        draw_model(draw_model(m, x, y, n), x, y, n).v_reg[15] == 1 <==> (exists|row: int, col: int|
            0 <= row < n && 0 <= col < 8 && sprite_bit(sprite_row(m.ram, m.i_reg, row), col)
                && !m.screen[#[trigger] pix_index(m.v_reg[x], m.v_reg[y], row, col)]),
{
    let x0 = m.v_reg[x];
    let y0 = m.v_reg[y];
    let m1 = draw_model(m, x, y, n);
    let m2 = draw_model(m1, x, y, n);
    assert(m1.v_reg[x] == x0 && m1.v_reg[y] == y0);
    assert(m1.ram == m.ram && m1.i_reg == m.i_reg);
    assert forall|p: int| 0 <= p < 2048 implies m2.screen[p] == m.screen[p] by {
        assert(m1.screen[p] == (m.screen[p] != covers(m.ram, m.i_reg, x0, y0, n, p)));
    }
    assert(m2.screen =~= m.screen);
    if draw_collision(m1, x0, y0, n) {
        let (row, col) = choose|row: int, col: int|
            0 <= row < n && 0 <= col < 8 && sprite_bit(sprite_row(m1.ram, m1.i_reg, row), col)
                && m1.screen[#[trigger] pix_index(x0, y0, row, col)];
        let p = pix_index(x0, y0, row, col);
        assert(0 <= p < 2048);
        assert(covers(m.ram, m.i_reg, x0, y0, n, p));
        assert(!m.screen[p]);
    }
    if exists|row: int, col: int|
        0 <= row < n && 0 <= col < 8 && sprite_bit(sprite_row(m.ram, m.i_reg, row), col)
            && !m.screen[#[trigger] pix_index(x0, y0, row, col)] {
        let (row, col) = choose|row: int, col: int|
            0 <= row < n && 0 <= col < 8 && sprite_bit(sprite_row(m.ram, m.i_reg, row), col)
                && !m.screen[#[trigger] pix_index(x0, y0, row, col)];
        let p = pix_index(x0, y0, row, col);
        assert(0 <= p < 2048);
        assert(covers(m.ram, m.i_reg, x0, y0, n, p));
        assert(m1.screen[p]);
        assert(draw_collision(m1, x0, y0, n));
    }
}

/// No key at or above index `k` is pressed, so the scan from `k` finds none.
proof fn lemma_no_key_from(keys: Seq<bool>, k: int)
    requires
        forall|j: int| 0 <= j < 16 ==> !keys[j],
        0 <= k,
    ensures
        first_pressed_from(keys, k) is None,
    decreases 16 - k,
{
    if k < 16 {
        lemma_no_key_from(keys, k + 1);
    }
}

/// Key `k` is pressed and none below it down to `j` is, so the scan from `j`
/// finds `k`.
proof fn lemma_first_key_from(keys: Seq<bool>, j: int, k: int)
    requires
        0 <= j <= k < 16,
        keys[k],
        forall|jj: int| j <= jj < k ==> !keys[jj],
    ensures
        first_pressed_from(keys, j) == Some(k),
    decreases k - j,
{
    if j < k {
        lemma_first_key_from(keys, j + 1, k);
    }
}

/// Law: the wait-for-key opcode (F, _, 0, A) with no key pressed leaves the
/// machine exactly as it was — the program counter is wound back onto the
/// instruction, so the next tick decodes it again.
pub proof fn lemma_wait_key_blocks(m: Model, rnd: u8)
    requires
        m.wf(),
        m.pc <= 4094,
        op_d1(op_at(m)) == 0xF,
        op_y(op_at(m)) == 0,
        op_d4(op_at(m)) == 0xA,
        forall|k: int| 0 <= k < 16 ==> !m.keys[k],
    ensures
        step(m, rnd) == Ok::<Model, Chip8Error>(m),
{
    lemma_no_key_from(m.keys, 0);
    assert(wait_key_model(advanced(m), op_x(op_at(m))) =~= m);
}

/// Law: the wait-for-key opcode with key `k` pressed and none below it loads
/// `k` into Vx and lets the program counter advance past the instruction.
pub proof fn lemma_wait_key_pressed(m: Model, rnd: u8, k: int)
    requires
        m.wf(),
        m.pc <= 4094,
        op_d1(op_at(m)) == 0xF,
        op_y(op_at(m)) == 0,
        op_d4(op_at(m)) == 0xA,
        0 <= k < 16,
        m.keys[k],
        forall|j: int| 0 <= j < k ==> !m.keys[j],
    ensures
        step(m, rnd) == Ok::<Model, Chip8Error>(set_v(advanced(m), op_x(op_at(m)), k as u8)),
{
    lemma_first_key_from(m.keys, 0, k);
}

/// Law: the machine is deterministic but for the random-number opcode
/// (family C): on any state whose next instruction is of another family,
/// a tick's outcome is the same whatever byte the generator draws.
pub proof fn lemma_step_ignores_randomness(m: Model, rnd1: u8, rnd2: u8)
    requires
        m.pc <= 4094 ==> op_d1(op_at(m)) != 0xC,
    ensures
        step(m, rnd1) == step(m, rnd2),
{
}

/// The machine after `n` whole frames of timer decrements.
pub open spec fn timers_after(m: Model, n: nat) -> Model
    decreases n,
{
    if n == 0 {
        m
    } else {
        timers_model(timers_after(m, (n - 1) as nat))
    }
}

/// Law: `n` frames of `tick_timers` leave a countdown that began at `t` at
/// `t - n` floored at zero: it reaches zero after `t` frames and stays there,
/// and never passes below.
pub proof fn lemma_timers_floor(m: Model, n: nat)
    ensures
        timers_after(m, n).dt == (if n >= m.dt {
            0u8
        } else {
            (m.dt - n) as u8
        }),
        timers_after(m, n).st == (if n >= m.st {
            0u8
        } else {
            (m.st - n) as u8
        }),
    decreases n,
{
    if n > 0 {
        lemma_timers_floor(m, (n - 1) as nat);
    }
}

} // verus!

