//! The executable CHIP-8 machine, verified against [`crate::model`].
//!
//! Every public method states its effect over the ghost [`Model`] the machine
//! views as; `tick` is proved to follow [`step`], the specification of the
//! whole instruction set, for every reachable state and every instruction
//! word.

use vstd::prelude::*;

use crate::model::{
    advanced, bcd_model, call_model, cls_model, covers, draw_collision, draw_model, exec_model,
    exec_outcome, first_pressed_from, fontset, init_model, load_model, load_regs, op_at, op_d1,
    op_d4, op_nn, op_nnn, op_x, op_y, pix_index, ret_model, set_v, skip_if, sprite_bit,
    sprite_row, step_outcome, store_regs, timers_model, w16, w8, wait_key_model, with_dt, with_i,
    with_pc, with_ram, with_screen, with_st, with_v, Chip8Error, Model,
};
use vstd::arithmetic::div_mod::lemma_fundamental_div_mod;

verus! {

/// Width of the display in pixels.
pub const SCREEN_WIDTH: usize = 64;

/// Height of the display in pixels.
pub const SCREEN_HEIGHT: usize = 32;

/// Bytes of addressable memory.
pub const RAM_SIZE: usize = 4096;

/// Number of general registers.
pub const NUM_REGS: usize = 16;

/// Depth of the call stack.
pub const STACK_SIZE: usize = 16;

/// Number of keypad keys.
pub const NUM_KEYS: usize = 16;

/// Entry address of a loaded ROM.
pub const START_ADDR: u16 = 0x200;

/// Bytes of the built-in font table.
pub const FONTSET_SIZE: usize = 80;

/// The CHIP-8 machine: all architectural state, exclusively owned.
pub struct Emu {
    pc: u16,
    ram: Vec<u8>,
    screen: Vec<bool>,
    v_reg: Vec<u8>,
    i_reg: u16,
    sp: u16,
    stack: Vec<u16>,
    keys: Vec<bool>,
    dt: u8,
    st: u8,
}

impl View for Emu {
    type V = Model;

    closed spec fn view(&self) -> Model {
        Model {
            pc: self.pc,
            ram: self.ram@,
            screen: self.screen@,
            v_reg: self.v_reg@,
            i_reg: self.i_reg,
            sp: self.sp,
            stack: self.stack@,
            keys: self.keys@,
            dt: self.dt,
            st: self.st,
        }
    }
}

/// A vector of `n` copies of `val`.
fn filled<T: Copy>(n: usize, val: T) -> (v: Vec<T>)
    ensures
        v@ == Seq::new(n as nat, |k: int| val),
{
    let mut v: Vec<T> = Vec::new();
    let mut k: usize = 0;
    while k < n
        invariant
            k <= n,
            v@.len() == k,
            forall|j: int| 0 <= j < k ==> v@[j] == val,
        decreases n - k,
    {
        v.push(val);
        k = k + 1;
    }
    proof {
        assert(v@ =~= Seq::new(n as nat, |k: int| val));
    }
    v
}

/// The font table as bytes, equal to its specification [`fontset`].
fn font() -> (v: Vec<u8>)
    ensures
        v@ == fontset(),
{
    let mut v: Vec<u8> = Vec::new();
    v.push(0xF0); v.push(0x90); v.push(0x90); v.push(0x90); v.push(0xF0); // 0
    v.push(0x20); v.push(0x60); v.push(0x20); v.push(0x20); v.push(0x70); // 1
    v.push(0xF0); v.push(0x10); v.push(0xF0); v.push(0x80); v.push(0xF0); // 2
    v.push(0xF0); v.push(0x10); v.push(0xF0); v.push(0x10); v.push(0xF0); // 3
    v.push(0x90); v.push(0x90); v.push(0xF0); v.push(0x10); v.push(0x10); // 4
    v.push(0xF0); v.push(0x80); v.push(0xF0); v.push(0x10); v.push(0xF0); // 5
    v.push(0xF0); v.push(0x80); v.push(0xF0); v.push(0x90); v.push(0xF0); // 6
    v.push(0xF0); v.push(0x10); v.push(0x20); v.push(0x40); v.push(0x40); // 7
    v.push(0xF0); v.push(0x90); v.push(0xF0); v.push(0x90); v.push(0xF0); // 8
    v.push(0xF0); v.push(0x90); v.push(0xF0); v.push(0x10); v.push(0xF0); // 9
    v.push(0xF0); v.push(0x90); v.push(0xF0); v.push(0x90); v.push(0x90); // A
    v.push(0xE0); v.push(0x90); v.push(0xE0); v.push(0x90); v.push(0xE0); // B
    v.push(0xF0); v.push(0x80); v.push(0x80); v.push(0x80); v.push(0xF0); // C
    v.push(0xE0); v.push(0x90); v.push(0x90); v.push(0x90); v.push(0xE0); // D
    v.push(0xF0); v.push(0x80); v.push(0xF0); v.push(0x80); v.push(0xF0); // E
    v.push(0xF0); v.push(0x80); v.push(0xF0); v.push(0x80); v.push(0x80); // F
    proof {
        assert(v@ =~= fontset());
    }
    v
}

/// Zeroed memory with the font table written over its first 80 bytes.
fn fresh_ram() -> (ram: Vec<u8>)
    ensures
        ram@ == init_model().ram,
{
    let mut ram = filled::<u8>(RAM_SIZE, 0);
    let f = font();
    let mut k: usize = 0;
    while k < FONTSET_SIZE
        invariant
            k <= 80,
            ram@.len() == 4096,
            f@ == fontset(),
            forall|a: int| 0 <= a < k ==> ram@[a] == fontset()[a],
            forall|a: int| k <= a < 4096 ==> ram@[a] == 0u8,
        decreases 80 - k,
    {
        ram[k] = f[k];
        k = k + 1;
    }
    proof {
        assert(ram@ =~= init_model().ram);
    }
    ram
}

impl Emu {
    /// States reachable through this API keep the machine's shape.
    pub open spec fn wf(&self) -> bool {
        self@.wf()
    }

    /// A fresh machine: font table seeded, program counter at 0x200,
    /// everything else zeroed.
    pub fn new() -> (r: Emu)
        ensures
            r@ == init_model(),
            r.wf(),
    {
        let e = Emu {
            pc: START_ADDR,
            ram: fresh_ram(),
            screen: filled::<bool>(SCREEN_WIDTH * SCREEN_HEIGHT, false),
            v_reg: filled::<u8>(NUM_REGS, 0),
            i_reg: 0,
            sp: 0,
            stack: filled::<u16>(STACK_SIZE, 0),
            keys: filled::<bool>(NUM_KEYS, false),
            dt: 0,
            st: 0,
        };
        proof {
            assert(e@ =~= init_model());
        }
        e
    }

    /// Return every field to its initial state, the font table re-seeded:
    /// afterwards the machine is indistinguishable from a fresh one.
    pub fn reset(&mut self)
        ensures
            final(self)@ == init_model(),
            final(self).wf(),
    {
        self.pc = START_ADDR;
        self.ram = fresh_ram();
        self.screen = filled::<bool>(SCREEN_WIDTH * SCREEN_HEIGHT, false);
        self.v_reg = filled::<u8>(NUM_REGS, 0);
        self.i_reg = 0;
        self.sp = 0;
        self.stack = filled::<u16>(STACK_SIZE, 0);
        self.keys = filled::<bool>(NUM_KEYS, false);
        self.dt = 0;
        self.st = 0;
        proof {
            assert(self@ =~= init_model());
        }
    }

    /// Copy a ROM image into memory from address 0x200 on.  An image over
    /// 3584 bytes does not fit and is rejected whole, the state untouched.
    pub fn load(&mut self, data: &[u8]) -> (r: Result<(), Chip8Error>)
        requires
            old(self).wf(),
        ensures
            final(self).wf(),
            data@.len() <= 3584 ==> r == Ok::<(), Chip8Error>(())
                && final(self)@ == load_model(old(self)@, data@),
            data@.len() > 3584 ==> r == Err::<(), Chip8Error>(Chip8Error::MalformedRom)
                && final(self)@ == old(self)@,
    {
        if data.len() > 3584 {
            return Err(Chip8Error::MalformedRom);
        }
        let ghost m0 = self@;
        let mut k: usize = 0;
        while k < data.len()
            invariant
                m0.wf(),
                k <= data@.len() <= 3584,
                self@.ram.len() == 4096,
                forall|a: int| 0x200 <= a < 0x200 + k ==> self@.ram[a] == data@[a - 0x200],
                forall|a: int|
                    0 <= a < 4096 && !(0x200 <= a < 0x200 + k) ==> self@.ram[a] == m0.ram[a],
                self@ == with_ram(m0, self@.ram),
            decreases data@.len() - k,
        {
            let b = data[k];
            self.ram[0x200 + k] = b;
            k = k + 1;
        }
        proof {
            assert(self@.ram =~= load_model(m0, data@).ram);
            assert(self@ =~= load_model(m0, data@));
        }
        Ok(())
    }

    /// Decrement each countdown once, floored at zero.  The sound timer
    /// reaching zero is the collaborator's cue to stop its tone.
    pub fn tick_timers(&mut self)
        ensures
            final(self)@ == timers_model(old(self)@),
    {
        if self.dt > 0 {
            self.dt = self.dt - 1;
        }
        if self.st > 0 {
            self.st = self.st - 1;
        }
        proof {
            assert(self@ =~= timers_model(old(self)@));
        }
    }

    /// The display, row-major: pixel (x, y) at index y * 64 + x.
    pub fn get_display(&self) -> (r: &[bool])
        ensures
            r@ == self@.screen,
    {
        self.screen.as_slice()
    }

    /// Set or clear one key's state.
    pub fn keypress(&mut self, index: usize, pressed: bool)
        requires
            old(self).wf(),
            index < 16,
        ensures
            final(self).wf(),
            final(self)@ == (Model { keys: old(self)@.keys.update(index as int, pressed), ..old(self)@ }),
    {
        self.keys[index] = pressed;
        proof {
            assert(self@ =~= (Model {
                keys: old(self)@.keys.update(index as int, pressed),
                ..old(self)@
            }));
        }
    }

    /// The delay timer's current value.
    pub fn get_delay_timer(&self) -> (r: u8)
        ensures
            r == self@.dt,
    {
        self.dt
    }

    /// The sound timer's current value; a tone plays while it is nonzero.
    pub fn get_sound_timer(&self) -> (r: u8)
        ensures
            r == self@.st,
    {
        self.st
    }
}

// Scaffolding for the draw-sprite proof.  The sprite's bits are walked in
// row-major order; `t` counts the bits walked so far, so bit `t` sits at row
// `t / 8`, column `t % 8`.

/// Whether one of the first `t` sprite bits is set and lands on cell `p`.
spec fn covers_upto(ram: Seq<u8>, i0: u16, x0: u8, y0: u8, t: int, p: int) -> bool
    decreases t,
{
    if t <= 0 {
        false
    } else {
        covers_upto(ram, i0, x0, y0, t - 1, p) || (sprite_bit(
            sprite_row(ram, i0, (t - 1) / 8),
            (t - 1) % 8,
        ) && pix_index(x0, y0, (t - 1) / 8, (t - 1) % 8) == p)
    }
}

/// Whether one of the first `t` sprite bits is set and lands on a cell of
/// `screen` that is on.
spec fn hit_upto(ram: Seq<u8>, i0: u16, screen: Seq<bool>, x0: u8, y0: u8, t: int) -> bool
    decreases t,
{
    if t <= 0 {
        false
    } else {
        hit_upto(ram, i0, screen, x0, y0, t - 1) || (sprite_bit(
            sprite_row(ram, i0, (t - 1) / 8),
            (t - 1) % 8,
        ) && screen[pix_index(x0, y0, (t - 1) / 8, (t - 1) % 8)])
    }
}

/// Distinct sprite bits land on distinct display cells: with at most 32 rows
/// and 8 columns, the per-pixel wraps cannot make two offsets coincide.
proof fn lemma_pix_inj(x0: u8, y0: u8, r1: int, c1: int, r2: int, c2: int)
    requires
        0 <= r1 < 32,
        0 <= r2 < 32,
        0 <= c1 < 64,
        0 <= c2 < 64,
        pix_index(x0, y0, r1, c1) == pix_index(x0, y0, r2, c2),
    ensures
        r1 == r2,
        c1 == c2,
{
    let yy1 = (y0 + r1) % 32;
    let yy2 = (y0 + r2) % 32;
    let xx1 = (x0 + c1) % 64;
    let xx2 = (x0 + c2) % 64;
    assert(0 <= yy1 < 32 && 0 <= yy2 < 32 && 0 <= xx1 < 64 && 0 <= xx2 < 64);
    assert(yy1 == yy2 && xx1 == xx2);
    lemma_fundamental_div_mod(y0 + r1, 32);
    lemma_fundamental_div_mod(y0 + r2, 32);
    lemma_fundamental_div_mod(x0 + c1, 64);
    lemma_fundamental_div_mod(x0 + c2, 64);
    assert(r1 - r2 == 32 * ((y0 + r1) / 32 - (y0 + r2) / 32)) by (nonlinear_arith)
        requires
            (y0 + r1) == 32 * ((y0 + r1) / 32) + yy1,
            (y0 + r2) == 32 * ((y0 + r2) / 32) + yy2,
            yy1 == yy2,
    ;
    assert(c1 - c2 == 64 * ((x0 + c1) / 64 - (x0 + c2) / 64)) by (nonlinear_arith)
        requires
            (x0 + c1) == 64 * ((x0 + c1) / 64) + xx1,
            (x0 + c2) == 64 * ((x0 + c2) / 64) + xx2,
            xx1 == xx2,
    ;
    assert(r1 == r2) by (nonlinear_arith)
        requires
            r1 - r2 == 32 * ((y0 + r1) / 32 - (y0 + r2) / 32),
            -32 < r1 - r2 < 32,
    ;
    assert(c1 == c2) by (nonlinear_arith)
        requires
            c1 - c2 == 64 * ((x0 + c1) / 64 - (x0 + c2) / 64),
            -64 < c1 - c2 < 64,
    ;
}

/// Sprite bit `t` lands on a cell none of the first `tt` bits has touched.
proof fn lemma_not_covered_yet(ram: Seq<u8>, i0: u16, x0: u8, y0: u8, t: int, tt: int)
    requires
        0 <= tt <= t < 256,
    ensures
        !covers_upto(ram, i0, x0, y0, tt, pix_index(x0, y0, t / 8, t % 8)),
    decreases tt,
{
    if tt > 0 {
        lemma_not_covered_yet(ram, i0, x0, y0, t, tt - 1);
        let p = pix_index(x0, y0, t / 8, t % 8);
        if pix_index(x0, y0, (tt - 1) / 8, (tt - 1) % 8) == p {
            lemma_pix_inj(x0, y0, (tt - 1) / 8, (tt - 1) % 8, t / 8, t % 8);
            assert(tt - 1 == 8 * ((tt - 1) / 8) + (tt - 1) % 8);
            assert(t == 8 * (t / 8) + t % 8);
            assert(false);
        }
    }
}

/// After all `8 * n` bits, the walked cover is exactly [`covers`].
proof fn lemma_covers_done(ram: Seq<u8>, i0: u16, x0: u8, y0: u8, n: int, t: int, p: int)
    requires
        0 <= t <= 8 * n,
    ensures
        covers_upto(ram, i0, x0, y0, t, p) == exists|row: int, col: int|
            0 <= row && 0 <= col < 8 && 8 * row + col < t && sprite_bit(
                sprite_row(ram, i0, row),
                col,
            ) && (#[trigger] pix_index(x0, y0, row, col)) == p,
    decreases t,
{
    if t > 0 {
        lemma_covers_done(ram, i0, x0, y0, n, t - 1, p);
        let row0 = (t - 1) / 8;
        let col0 = (t - 1) % 8;
        assert(t - 1 == 8 * row0 + col0);
        if covers_upto(ram, i0, x0, y0, t, p) {
            if !covers_upto(ram, i0, x0, y0, t - 1, p) {
                assert(sprite_bit(sprite_row(ram, i0, row0), col0) && pix_index(
                    x0,
                    y0,
                    row0,
                    col0,
                ) == p);
            }
        }
        if exists|row: int, col: int|
            0 <= row && 0 <= col < 8 && 8 * row + col < t && sprite_bit(
                sprite_row(ram, i0, row),
                col,
            ) && (#[trigger] pix_index(x0, y0, row, col)) == p {
            let (row, col) = choose|row: int, col: int|
                0 <= row && 0 <= col < 8 && 8 * row + col < t && sprite_bit(
                    sprite_row(ram, i0, row),
                    col,
                ) && (#[trigger] pix_index(x0, y0, row, col)) == p;
            if 8 * row + col == t - 1 {
                assert(row == row0 && col == col0);
            }
        }
    }
}

/// After all `8 * n` bits, the walked collision is exactly [`draw_collision`].
proof fn lemma_hit_done(ram: Seq<u8>, i0: u16, screen: Seq<bool>, x0: u8, y0: u8, n: int, t: int)
    requires
        0 <= t <= 8 * n,
    ensures
        hit_upto(ram, i0, screen, x0, y0, t) == exists|row: int, col: int|
            0 <= row && 0 <= col < 8 && 8 * row + col < t && sprite_bit(
                sprite_row(ram, i0, row),
                col,
            ) && screen[#[trigger] pix_index(x0, y0, row, col)],
    decreases t,
{
    if t > 0 {
        lemma_hit_done(ram, i0, screen, x0, y0, n, t - 1);
        let row0 = (t - 1) / 8;
        let col0 = (t - 1) % 8;
        assert(t - 1 == 8 * row0 + col0);
        if hit_upto(ram, i0, screen, x0, y0, t) {
            if !hit_upto(ram, i0, screen, x0, y0, t - 1) {
                assert(sprite_bit(sprite_row(ram, i0, row0), col0) && screen[pix_index(
                    x0,
                    y0,
                    row0,
                    col0,
                )]);
            }
        }
        if exists|row: int, col: int|
            0 <= row && 0 <= col < 8 && 8 * row + col < t && sprite_bit(
                sprite_row(ram, i0, row),
                col,
            ) && screen[#[trigger] pix_index(x0, y0, row, col)] {
            let (row, col) = choose|row: int, col: int|
                0 <= row && 0 <= col < 8 && 8 * row + col < t && sprite_bit(
                    sprite_row(ram, i0, row),
                    col,
                ) && screen[#[trigger] pix_index(x0, y0, row, col)];
            if 8 * row + col == t - 1 {
                assert(row == row0 && col == col0);
            }
        }
    }
}

impl Emu {
    /// Read the two bytes at the program counter as one big-endian word and
    /// advance the counter past them.
    fn fetch(&mut self) -> (op: u16)
        requires
            old(self).wf(),
            old(self)@.pc <= 4094,
        ensures
            final(self).wf(),
            final(self)@ == advanced(old(self)@),
            op == op_at(old(self)@),
    {
        let hi = self.ram[self.pc as usize];
        let lo = self.ram[(self.pc as usize) + 1];
        let op = (hi as u16) * 256 + (lo as u16);
        self.pc = self.pc + 2;
        proof {
            assert(self@ =~= advanced(old(self)@));
        }
        op
    }

    /// Dxyn: XOR the n-row sprite at memory address I onto the display at
    /// origin (Vx, Vy), wrapping each pixel's coordinates; VF reports whether
    /// any on-pixel was turned off.
    fn draw_sprite(&mut self, x: usize, y: usize, n: usize)
        requires
            old(self).wf(),
            x < 16,
            y < 16,
            n <= 15,
        ensures
            final(self).wf(),
            final(self)@ == draw_model(old(self)@, x as int, y as int, n as int),
    {
        let ghost m0 = self@;
        let x0 = self.v_reg[x];
        let y0 = self.v_reg[y];
        let mut flipped = false;
        let mut row: usize = 0;
        while row < n
            invariant
                m0.wf(),
                n <= 15,
                row <= n,
                x0 == m0.v_reg[x as int],
                y0 == m0.v_reg[y as int],
                self@ == with_screen(m0, self@.screen),
                self@.screen.len() == 2048,
                forall|p: int|
                    0 <= p < 2048 ==> self@.screen[p] == (m0.screen[p] != covers_upto(
                        m0.ram,
                        m0.i_reg,
                        x0,
                        y0,
                        8 * row,
                        p,
                    )),
                flipped == hit_upto(m0.ram, m0.i_reg, m0.screen, x0, y0, 8 * row),
            decreases n - row,
        {
            let addr = ((self.i_reg as usize) + row) % 4096;
            let pixels = self.ram[addr];
            proof {
                assert(pixels == sprite_row(m0.ram, m0.i_reg, row as int));
            }
            let mut col: usize = 0;
            while col < 8
                invariant
                    m0.wf(),
                    n <= 15,
                    row < n,
                    col <= 8,
                    x0 == m0.v_reg[x as int],
                    y0 == m0.v_reg[y as int],
                    pixels == sprite_row(m0.ram, m0.i_reg, row as int),
                    self@ == with_screen(m0, self@.screen),
                    self@.screen.len() == 2048,
                    forall|p: int|
                        0 <= p < 2048 ==> self@.screen[p] == (m0.screen[p] != covers_upto(
                            m0.ram,
                            m0.i_reg,
                            x0,
                            y0,
                            8 * row + col,
                            p,
                        )),
                    flipped == hit_upto(m0.ram, m0.i_reg, m0.screen, x0, y0, 8 * row + col),
                decreases 8 - col,
            {
                let ghost t = 8 * row + col;
                proof {
                    assert(t / 8 == row && t % 8 == col) by (nonlinear_arith)
                        requires
                            t == 8 * row + col,
                            0 <= col < 8,
                            0 <= row,
                    ;
                }
                let sh: u8 = (7 - col) as u8;
                let bit = (pixels >> sh) & 1;
                proof {
                    assert((bit == 1) == sprite_bit(pixels, col as int));
                }
                if bit == 1 {
                    let px = ((x0 as usize) + col) % 64;
                    let py = ((y0 as usize) + row) % 32;
                    let idx = py * 64 + px;
                    proof {
                        assert(idx == pix_index(x0, y0, row as int, col as int));
                        assert(idx < 2048);
                        lemma_not_covered_yet(m0.ram, m0.i_reg, x0, y0, t, t);
                        assert(!covers_upto(m0.ram, m0.i_reg, x0, y0, t, idx as int));
                        assert(self@.screen[idx as int] == m0.screen[idx as int]);
                    }
                    let cur = self.screen[idx];
                    flipped = flipped || cur;
                    self.screen[idx] = !cur;
                }
                col = col + 1;
                proof {
                    assert(forall|p: int|
                        0 <= p < 2048 ==> self@.screen[p] == (m0.screen[p] != covers_upto(
                            m0.ram,
                            m0.i_reg,
                            x0,
                            y0,
                            t + 1,
                            p,
                        )));
                    assert(flipped == hit_upto(m0.ram, m0.i_reg, m0.screen, x0, y0, t + 1));
                }
            }
            row = row + 1;
        }
        let vf: u8 = if flipped {
            1
        } else {
            0
        };
        self.v_reg[15] = vf;
        proof {
            assert forall|p: int| 0 <= p < 2048 implies covers_upto(
                m0.ram,
                m0.i_reg,
                x0,
                y0,
                8 * (n as int),
                p,
            ) == covers(m0.ram, m0.i_reg, x0, y0, n as int, p) by {
                lemma_covers_done(m0.ram, m0.i_reg, x0, y0, n as int, 8 * (n as int), p);
                if covers(m0.ram, m0.i_reg, x0, y0, n as int, p) {
                    let (r, c) = choose|r: int, c: int|
                        0 <= r < n && 0 <= c < 8 && sprite_bit(sprite_row(m0.ram, m0.i_reg, r), c)
                            && (#[trigger] pix_index(x0, y0, r, c)) == p;
                    assert(8 * r + c < 8 * (n as int));
                }
            }
            lemma_hit_done(m0.ram, m0.i_reg, m0.screen, x0, y0, n as int, 8 * (n as int));
            if draw_collision(m0, x0, y0, n as int) {
                let (r, c) = choose|r: int, c: int|
                    0 <= r < n && 0 <= c < 8 && sprite_bit(sprite_row(m0.ram, m0.i_reg, r), c)
                        && m0.screen[#[trigger] pix_index(x0, y0, r, c)];
                assert(8 * r + c < 8 * (n as int));
            }
            assert(flipped == draw_collision(m0, x0, y0, n as int));
            assert(self@.screen =~= draw_model(m0, x as int, y as int, n as int).screen);
            assert(self@ =~= draw_model(m0, x as int, y as int, n as int));
        }
    }

    /// Fx0A: scan the keys in ascending order; load the first pressed index
    /// into Vx, or wind the program counter back onto this instruction.
    fn op_wait_key(&mut self, x: usize)
        requires
            old(self).wf(),
            x < 16,
            old(self)@.pc >= 2,
        ensures
            final(self).wf(),
            final(self)@ == wait_key_model(old(self)@, x as int),
    {
        let ghost m0 = self@;
        let mut k: usize = 0;
        while k < 16
            invariant
                m0.wf(),
                m0 == old(self)@,
                x < 16,
                k <= 16,
                self@ == m0,
                first_pressed_from(m0.keys, 0) == first_pressed_from(m0.keys, k as int),
            decreases 16 - k,
        {
            if self.keys[k] {
                self.v_reg[x] = k as u8;
                proof {
                    assert(first_pressed_from(m0.keys, k as int) == Some(k as int));
                    assert(self@ =~= wait_key_model(m0, x as int));
                }
                return ;
            }
            k = k + 1;
        }
        self.pc = self.pc - 2;
        proof {
            assert(first_pressed_from(m0.keys, 16) == None::<int>);
            assert(self@ =~= wait_key_model(m0, x as int));
        }
    }

    /// Fx55: store V0..Vx into memory from address I on, wrapping mod 4096.
    fn op_store_regs(&mut self, x: usize)
        requires
            old(self).wf(),
            x < 16,
        ensures
            final(self).wf(),
            final(self)@ == with_ram(
                old(self)@,
                store_regs(old(self)@.ram, old(self)@.v_reg, old(self)@.i_reg, x + 1),
            ),
    {
        let ghost m0 = self@;
        let i0 = self.i_reg as usize;
        let mut k: usize = 0;
        while k <= x
            invariant
                m0.wf(),
                x < 16,
                k <= x + 1,
                i0 == m0.i_reg,
                self@.ram.len() == 4096,
                self@ == with_ram(m0, store_regs(m0.ram, m0.v_reg, m0.i_reg, k as int)),
            decreases x + 1 - k,
        {
            let b = self.v_reg[k];
            self.ram[(i0 + k) % 4096] = b;
            k = k + 1;
            proof {
                assert(self@.ram =~= store_regs(m0.ram, m0.v_reg, m0.i_reg, k as int));
                assert(self@ =~= with_ram(m0, store_regs(m0.ram, m0.v_reg, m0.i_reg, k as int)));
            }
        }
    }

    /// Fx65: load V0..Vx from memory from address I on, wrapping mod 4096.
    fn op_load_regs(&mut self, x: usize)
        requires
            old(self).wf(),
            x < 16,
        ensures
            final(self).wf(),
            final(self)@ == with_v(
                old(self)@,
                load_regs(old(self)@.v_reg, old(self)@.ram, old(self)@.i_reg, x + 1),
            ),
    {
        let ghost m0 = self@;
        let i0 = self.i_reg as usize;
        let mut k: usize = 0;
        while k <= x
            invariant
                m0.wf(),
                x < 16,
                k <= x + 1,
                i0 == m0.i_reg,
                self@.v_reg.len() == 16,
                self@.ram.len() == 4096,
                self@.ram == m0.ram,
                self@ == with_v(m0, load_regs(m0.v_reg, m0.ram, m0.i_reg, k as int)),
            decreases x + 1 - k,
        {
            let b = self.ram[(i0 + k) % 4096];
            self.v_reg[k] = b;
            k = k + 1;
            proof {
                assert(self@.v_reg =~= load_regs(m0.v_reg, m0.ram, m0.i_reg, k as int));
                assert(self@ =~= with_v(m0, load_regs(m0.v_reg, m0.ram, m0.i_reg, k as int)));
            }
        }
    }

    /// Decode and execute one instruction word; the program counter already
    /// stands past it.  On failure the counter is wound back onto the word
    /// and the state is otherwise untouched.
    #[verifier::rlimit(100)]
    fn execute(&mut self, op: u16, rnd: u8) -> (r: Result<(), Chip8Error>)
        requires
            old(self).wf(),
            2 <= old(self)@.pc <= 4096,
        ensures
            final(self).wf(),
            exec_outcome(old(self)@, op, rnd, final(self)@, r),
    {
        let ghost m0 = self@;
        let d1 = op / 0x1000;
        let x = ((op / 0x100) % 16) as usize;
        let y = ((op / 16) % 16) as usize;
        let d4 = op % 16;
        let nnn = op % 0x1000;
        let nn = (op % 0x100) as u8;
        proof {
            assert(d1 == op_d1(op) && x == op_x(op) && y == op_y(op) && d4 == op_d4(op));
            assert(nnn == op_nnn(op) && nn == op_nn(op));
            assert(x < 16 && y < 16 && d4 < 16);
        }
        if op == 0x0000 {
            // no-op
            Ok(())
        } else if op == 0x00E0 {
            // clear display
            self.screen = filled::<bool>(SCREEN_WIDTH * SCREEN_HEIGHT, false);
            proof {
                assert(self@ =~= cls_model(m0));
            }
            Ok(())
        } else if op == 0x00EE {
            // return
            if self.sp == 0 {
                self.pc = self.pc - 2;
                proof {
                    assert(self@ =~= with_pc(m0, w16(m0.pc - 2)));
                }
                return Err(Chip8Error::StackUnderflow);
            }
            self.sp = self.sp - 1;
            self.pc = self.stack[self.sp as usize];
            proof {
                assert(self@ =~= ret_model(m0));
            }
            Ok(())
        } else if d1 == 1 {
            // jump
            self.pc = nnn;
            proof {
                assert(self@ =~= with_pc(m0, nnn));
            }
            Ok(())
        } else if d1 == 2 {
            // call
            if self.sp >= 16 {
                self.pc = self.pc - 2;
                proof {
                    assert(self@ =~= with_pc(m0, w16(m0.pc - 2)));
                }
                return Err(Chip8Error::StackOverflow);
            }
            let pc = self.pc;
            self.stack[self.sp as usize] = pc;
            self.sp = self.sp + 1;
            self.pc = nnn;
            proof {
                assert(self@ =~= call_model(m0, nnn));
            }
            Ok(())
        } else if d1 == 3 {
            // skip if Vx == nn
            if self.v_reg[x] == nn {
                self.pc = self.pc + 2;
            }
            proof {
                assert(self@ =~= skip_if(m0, m0.v_reg[x as int] == nn));
            }
            Ok(())
        } else if d1 == 4 {
            // skip if Vx != nn
            if self.v_reg[x] != nn {
                self.pc = self.pc + 2;
            }
            proof {
                assert(self@ =~= skip_if(m0, m0.v_reg[x as int] != nn));
            }
            Ok(())
        } else if d1 == 5 && d4 == 0 {
            // skip if Vx == Vy
            if self.v_reg[x] == self.v_reg[y] {
                self.pc = self.pc + 2;
            }
            proof {
                assert(self@ =~= skip_if(m0, m0.v_reg[x as int] == m0.v_reg[y as int]));
            }
            Ok(())
        } else if d1 == 6 {
            // Vx := nn
            self.v_reg[x] = nn;
            proof {
                assert(self@ =~= set_v(m0, x as int, nn));
            }
            Ok(())
        } else if d1 == 7 {
            // Vx := Vx + nn, wrapping, no flag
            let vx = self.v_reg[x];
            let s = (vx as u16) + (nn as u16);
            self.v_reg[x] = (s % 256) as u8;
            proof {
                assert(self@ =~= set_v(m0, x as int, w8(m0.v_reg[x as int] + nn)));
            }
            Ok(())
        } else if d1 == 8 && d4 == 0 {
            // Vx := Vy
            let vy = self.v_reg[y];
            self.v_reg[x] = vy;
            proof {
                assert(self@ =~= set_v(m0, x as int, m0.v_reg[y as int]));
            }
            Ok(())
        } else if d1 == 8 && d4 == 1 {
            // Vx := Vx | Vy
            let vx = self.v_reg[x];
            let vy = self.v_reg[y];
            self.v_reg[x] = vx | vy;
            proof {
                assert(self@ =~= set_v(m0, x as int, m0.v_reg[x as int] | m0.v_reg[y as int]));
            }
            Ok(())
        } else if d1 == 8 && d4 == 2 {
            // Vx := Vx & Vy
            let vx = self.v_reg[x];
            let vy = self.v_reg[y];
            self.v_reg[x] = vx & vy;
            proof {
                assert(self@ =~= set_v(m0, x as int, m0.v_reg[x as int] & m0.v_reg[y as int]));
            }
            Ok(())
        } else if d1 == 8 && d4 == 3 {
            // Vx := Vx ^ Vy
            let vx = self.v_reg[x];
            let vy = self.v_reg[y];
            self.v_reg[x] = vx ^ vy;
            proof {
                assert(self@ =~= set_v(m0, x as int, m0.v_reg[x as int] ^ m0.v_reg[y as int]));
            }
            Ok(())
        } else if d1 == 8 && d4 == 4 {
            // Vx := Vx + Vy; VF := carry
            let vx = self.v_reg[x];
            let vy = self.v_reg[y];
            let s = (vx as u16) + (vy as u16);
            self.v_reg[x] = (s % 256) as u8;
            self.v_reg[15] = if s > 255 {
                1
            } else {
                0
            };
            proof {
                let sum = m0.v_reg[x as int] + m0.v_reg[y as int];
                assert(self@ =~= with_v(
                    m0,
                    m0.v_reg.update(x as int, w8(sum)).update(
                        15,
                        if sum > 255 {
                            1u8
                        } else {
                            0u8
                        },
                    ),
                ));
            }
            Ok(())
        } else if d1 == 8 && d4 == 5 {
            // Vx := Vx - Vy; VF := 0 on borrow, else 1
            let vx = self.v_reg[x];
            let vy = self.v_reg[y];
            let d = (256 + (vx as u16) - (vy as u16)) % 256;
            self.v_reg[x] = d as u8;
            self.v_reg[15] = if vx < vy {
                0
            } else {
                1
            };
            proof {
                let diff = m0.v_reg[x as int] - m0.v_reg[y as int];
                assert(d == w8(diff));
                assert(self@ =~= with_v(
                    m0,
                    m0.v_reg.update(x as int, w8(diff)).update(
                        15,
                        if diff < 0 {
                            0u8
                        } else {
                            1u8
                        },
                    ),
                ));
            }
            Ok(())
        } else if d1 == 8 && d4 == 6 {
            // VF := low bit of Vx; Vx := Vx >> 1
            let vx = self.v_reg[x];
            self.v_reg[x] = vx >> 1u8;
            self.v_reg[15] = vx & 1;
            proof {
                assert(self@ =~= with_v(
                    m0,
                    m0.v_reg.update(x as int, m0.v_reg[x as int] >> 1u8).update(
                        15,
                        m0.v_reg[x as int] & 1,
                    ),
                ));
            }
            Ok(())
        } else if d1 == 8 && d4 == 7 {
            // Vx := Vy - Vx; VF := 0 on borrow, else 1
            let vx = self.v_reg[x];
            let vy = self.v_reg[y];
            let d = (256 + (vy as u16) - (vx as u16)) % 256;
            self.v_reg[x] = d as u8;
            self.v_reg[15] = if vy < vx {
                0
            } else {
                1
            };
            proof {
                let diff = m0.v_reg[y as int] - m0.v_reg[x as int];
                assert(d == w8(diff));
                assert(self@ =~= with_v(
                    m0,
                    m0.v_reg.update(x as int, w8(diff)).update(
                        15,
                        if diff < 0 {
                            0u8
                        } else {
                            1u8
                        },
                    ),
                ));
            }
            Ok(())
        } else if d1 == 8 && d4 == 0xE {
            // VF := high bit of Vx; Vx := Vx << 1
            let vx = self.v_reg[x];
            self.v_reg[x] = vx << 1u8;
            self.v_reg[15] = (vx >> 7u8) & 1;
            proof {
                assert(self@ =~= with_v(
                    m0,
                    m0.v_reg.update(x as int, m0.v_reg[x as int] << 1u8).update(
                        15,
                        (m0.v_reg[x as int] >> 7u8) & 1,
                    ),
                ));
            }
            Ok(())
        } else if d1 == 9 && d4 == 0 {
            // skip if Vx != Vy
            if self.v_reg[x] != self.v_reg[y] {
                self.pc = self.pc + 2;
            }
            proof {
                assert(self@ =~= skip_if(m0, m0.v_reg[x as int] != m0.v_reg[y as int]));
            }
            Ok(())
        } else if d1 == 0xA {
            // I := nnn
            self.i_reg = nnn;
            proof {
                assert(self@ =~= with_i(m0, nnn));
            }
            Ok(())
        } else if d1 == 0xB {
            // jump to V0 + nnn
            let v0 = self.v_reg[0];
            self.pc = (v0 as u16) + nnn;
            proof {
                assert(self@ =~= with_pc(m0, w16(m0.v_reg[0] + nnn)));
            }
            Ok(())
        } else if d1 == 0xC {
            // Vx := random byte & nn
            self.v_reg[x] = rnd & nn;
            proof {
                assert(self@ =~= set_v(m0, x as int, rnd & nn));
            }
            Ok(())
        } else if d1 == 0xD {
            // draw sprite
            self.draw_sprite(x, y, d4 as usize);
            Ok(())
        } else if d1 == 0xE && y == 9 && d4 == 0xE {
            // skip if key Vx pressed; the low nibble of Vx selects the key
            let vx = self.v_reg[x];
            proof {
                assert(vx & 0xF < 16) by (bit_vector);
            }
            let key = self.keys[(vx & 0xF) as usize];
            if key {
                self.pc = self.pc + 2;
            }
            proof {
                assert(self@ =~= skip_if(m0, m0.keys[(m0.v_reg[x as int] & 0xF) as int]));
            }
            Ok(())
        } else if d1 == 0xE && y == 0xA && d4 == 1 {
            // skip if key Vx not pressed
            let vx = self.v_reg[x];
            proof {
                assert(vx & 0xF < 16) by (bit_vector);
            }
            let key = self.keys[(vx & 0xF) as usize];
            if !key {
                self.pc = self.pc + 2;
            }
            proof {
                assert(self@ =~= skip_if(m0, !m0.keys[(m0.v_reg[x as int] & 0xF) as int]));
            }
            Ok(())
        } else if d1 == 0xF && y == 0 && d4 == 7 {
            // Vx := delay timer
            let dt = self.dt;
            self.v_reg[x] = dt;
            proof {
                assert(self@ =~= set_v(m0, x as int, m0.dt));
            }
            Ok(())
        } else if d1 == 0xF && y == 0 && d4 == 0xA {
            // wait for a key press
            self.op_wait_key(x);
            Ok(())
        } else if d1 == 0xF && y == 1 && d4 == 5 {
            // delay timer := Vx
            self.dt = self.v_reg[x];
            proof {
                assert(self@ =~= with_dt(m0, m0.v_reg[x as int]));
            }
            Ok(())
        } else if d1 == 0xF && y == 1 && d4 == 8 {
            // sound timer := Vx
            self.st = self.v_reg[x];
            proof {
                assert(self@ =~= with_st(m0, m0.v_reg[x as int]));
            }
            Ok(())
        } else if d1 == 0xF && y == 1 && d4 == 0xE {
            // I := I + Vx, wrapping
            let vx = self.v_reg[x];
            let s = (self.i_reg as u32) + (vx as u32);
            self.i_reg = (s % 0x10000) as u16;
            proof {
                assert(self@ =~= with_i(m0, w16(m0.i_reg + m0.v_reg[x as int])));
            }
            Ok(())
        } else if d1 == 0xF && y == 2 && d4 == 9 {
            // I := address of the font glyph for the digit in Vx
            let vx = self.v_reg[x];
            proof {
                assert(vx & 0xF < 16) by (bit_vector);
            }
            self.i_reg = 5 * ((vx & 0xF) as u16);
            proof {
                assert(self@ =~= with_i(m0, (5 * ((m0.v_reg[x as int] & 0xF) as int)) as u16));
            }
            Ok(())
        } else if d1 == 0xF && y == 3 && d4 == 3 {
            // decimal digits of Vx to memory at I
            let vx = self.v_reg[x];
            let i0 = self.i_reg as usize;
            self.ram[i0 % 4096] = vx / 100;
            self.ram[(i0 + 1) % 4096] = (vx / 10) % 10;
            self.ram[(i0 + 2) % 4096] = vx % 10;
            proof {
                assert(self@ =~= bcd_model(m0, x as int));
            }
            Ok(())
        } else if d1 == 0xF && y == 5 && d4 == 5 {
            // V0..Vx to memory at I
            self.op_store_regs(x);
            Ok(())
        } else if d1 == 0xF && y == 6 && d4 == 5 {
            // V0..Vx from memory at I
            self.op_load_regs(x);
            Ok(())
        } else {
            self.pc = self.pc - 2;
            proof {
                assert(self@ =~= with_pc(m0, w16(m0.pc - 2)));
            }
            Err(Chip8Error::UnimplementedOpcode)
        }
    }

    /// Execute exactly one instruction: fetch the word at the program
    /// counter, advance past it, and run it through the opcode table.  On
    /// failure the machine is left exactly as it was, the failed word still
    /// at the counter.
    pub fn tick(&mut self) -> (r: Result<(), Chip8Error>)
        requires
            old(self).wf(),
        ensures
            final(self).wf(),
            exists|rnd: u8| #[trigger] step_outcome(old(self)@, rnd, final(self)@, r),
    {
        if self.pc > 4094 {
            proof {
                assert(step_outcome(
                    self@,
                    0u8,
                    self@,
                    Err::<(), Chip8Error>(Chip8Error::OutOfBoundsFetch),
                ));
            }
            return Err(Chip8Error::OutOfBoundsFetch);
        }
        let op = self.fetch();
        let rnd: u8 = random_byte();
        let r = self.execute(op, rnd);
        proof {
            let pre = old(self)@;
            if exec_model(advanced(pre), op, rnd) is Err {
                assert(self@ =~= pre);
            }
            assert(step_outcome(pre, rnd, self@, r));
        }
        r
    }
}

/// Relies on rand::random: one byte from the thread's generator.  Of a random
/// draw nothing can be promised, so this carries no `ensures`; `execute` is
/// verified for every byte handed to it.
#[verifier::external_body]
fn random_byte() -> (r: u8) {
    rand::random::<u8>()
}

} // verus!
