//! The mathematical model of the CHIP-8 machine.
//!
//! A [`Model`] is the ghost image of the interpreter state: 4096 bytes of
//! memory (the first 80 of which hold the hexadecimal font glyphs), the 64x32
//! monochrome display, the sixteen 8-bit registers, the index register, the
//! sixteen-entry call stack, the two countdown timers and the sixteen key
//! states.  [`step`] gives the meaning of executing one instruction: it is the
//! specification every executable function of [`crate::machine`] is proved
//! against.

use vstd::prelude::*;

verus! {

/// A failure of the engine.  Every failure is reported to the caller; the
/// engine never panics and never mutates state on a failed step.
#[derive(Clone, Copy, Debug, PartialEq, Eq, Structural)]
pub enum Chip8Error {
    /// A ROM image larger than the 3584 bytes of memory above the entry point.
    MalformedRom,
    /// A call instruction with sixteen return addresses already stacked.
    StackOverflow,
    /// A return instruction with an empty stack.
    StackUnderflow,
    /// An instruction word that matches no entry of the opcode table.
    UnimplementedOpcode,
    /// A fetch with the program counter past address 4094.
    OutOfBoundsFetch,
}

/// The machine state as mathematics: sequences in place of arrays.
#[verifier::ext_equal]
pub ghost struct Model {
    /// Address of the next instruction to fetch.
    pub pc: u16,
    /// 4096 bytes of memory; the font table fills addresses 0..80.
    pub ram: Seq<u8>,
    /// 64x32 pixels, row-major: index = y * 64 + x.
    pub screen: Seq<bool>,
    /// The sixteen general registers V0..VF; VF doubles as the flag register.
    pub v_reg: Seq<u8>,
    /// The 16-bit index register I.
    pub i_reg: u16,
    /// Number of return addresses on the stack, at most 16.
    pub sp: u16,
    /// The sixteen stack slots; only the first `sp` are live.
    pub stack: Seq<u16>,
    /// The sixteen key states.
    pub keys: Seq<bool>,
    /// The delay timer.
    pub dt: u8,
    /// The sound timer.
    pub st: u8,
}

impl Model {
    /// The shape every reachable machine state keeps.
    pub open spec fn wf(self) -> bool {
        &&& self.ram.len() == 4096
        &&& self.screen.len() == 2048
        &&& self.v_reg.len() == 16
        &&& self.stack.len() == 16
        &&& self.keys.len() == 16
        &&& self.sp <= 16
    }
}

/// The built-in font: 16 glyphs of 5 bytes, one per hexadecimal digit.
pub open spec fn fontset() -> Seq<u8> {
    seq![
        0xF0u8, 0x90, 0x90, 0x90, 0xF0, // 0
        0x20, 0x60, 0x20, 0x20, 0x70, // 1
        0xF0, 0x10, 0xF0, 0x80, 0xF0, // 2
        0xF0, 0x10, 0xF0, 0x10, 0xF0, // 3
        0x90, 0x90, 0xF0, 0x10, 0x10, // 4
        0xF0, 0x80, 0xF0, 0x10, 0xF0, // 5
        0xF0, 0x80, 0xF0, 0x90, 0xF0, // 6
        0xF0, 0x10, 0x20, 0x40, 0x40, // 7
        0xF0, 0x90, 0xF0, 0x90, 0xF0, // 8
        0xF0, 0x90, 0xF0, 0x10, 0xF0, // 9
        0xF0, 0x90, 0xF0, 0x90, 0x90, // A
        0xE0, 0x90, 0xE0, 0x90, 0xE0, // B
        0xF0, 0x80, 0x80, 0x80, 0xF0, // C
        0xE0, 0x90, 0x90, 0x90, 0xE0, // D
        0xF0, 0x80, 0xF0, 0x80, 0xF0, // E
        0xF0, 0x80, 0xF0, 0x80, 0x80, // F
    ]
}

/// The state `new` builds and `reset` restores: font table in low memory,
/// everything else zeroed, program counter at the entry address 0x200.
pub open spec fn init_model() -> Model {
    Model {
        pc: 0x200,
        ram: Seq::new(4096, |a: int| if a < 80 { fontset()[a] } else { 0u8 }),
        screen: Seq::new(2048, |p: int| false),
        v_reg: Seq::new(16, |r: int| 0u8),
        i_reg: 0,
        sp: 0,
        stack: Seq::new(16, |s: int| 0u16),
        keys: Seq::new(16, |k: int| false),
        dt: 0,
        st: 0,
    }
}

/// Reduction modulo 2^16, the wrap of 16-bit address arithmetic.
pub open spec fn w16(x: int) -> u16 {
    (x % 0x10000) as u16
}

/// Reduction modulo 2^8, the wrap of 8-bit register arithmetic.
pub open spec fn w8(x: int) -> u8 {
    (x % 0x100) as u8
}

// The four nibbles and the immediate fields of an instruction word.

/// Bits 12..16: the opcode family.
pub open spec fn op_d1(op: u16) -> int {
    op as int / 0x1000
}

/// Bits 8..12: the register X.
pub open spec fn op_x(op: u16) -> int {
    (op as int / 0x100) % 16
}

/// Bits 4..8: the register Y, or an opcode subtype.
pub open spec fn op_y(op: u16) -> int {
    (op as int / 16) % 16
}

/// Bits 0..4: an opcode subtype or the sprite height.
pub open spec fn op_d4(op: u16) -> int {
    op as int % 16
}

/// Bits 0..12: an address immediate.
pub open spec fn op_nnn(op: u16) -> u16 {
    (op as int % 0x1000) as u16
}

/// Bits 0..8: a byte immediate.
pub open spec fn op_nn(op: u16) -> u8 {
    (op as int % 0x100) as u8
}

// Small state transformers, shared by the opcode table below.

pub open spec fn with_pc(m: Model, pc: u16) -> Model {
    Model { pc, ..m }
}

pub open spec fn with_i(m: Model, i_reg: u16) -> Model {
    Model { i_reg, ..m }
}

pub open spec fn with_ram(m: Model, ram: Seq<u8>) -> Model {
    Model { ram, ..m }
}

pub open spec fn with_screen(m: Model, screen: Seq<bool>) -> Model {
    Model { screen, ..m }
}

pub open spec fn with_v(m: Model, v_reg: Seq<u8>) -> Model {
    Model { v_reg, ..m }
}

pub open spec fn with_dt(m: Model, dt: u8) -> Model {
    Model { dt, ..m }
}

pub open spec fn with_st(m: Model, st: u8) -> Model {
    Model { st, ..m }
}

/// Write one register.
pub open spec fn set_v(m: Model, x: int, val: u8) -> Model {
    with_v(m, m.v_reg.update(x, val))
}

/// Skip the next instruction when `c` holds.
pub open spec fn skip_if(m: Model, c: bool) -> Model {
    if c {
        with_pc(m, w16(m.pc + 2))
    } else {
        m
    }
}

/// Clear-screen: every pixel off.
pub open spec fn cls_model(m: Model) -> Model {
    Model { screen: Seq::new(2048, |p: int| false), ..m }
}

/// Return: pop the top stack slot into the program counter.
/// Meaningful only under `m.sp > 0`; `exec_model` guards it.
pub open spec fn ret_model(m: Model) -> Model {
    Model { pc: m.stack[m.sp - 1], sp: (m.sp - 1) as u16, ..m }
}

/// Call: push the address of the following instruction, jump to `nnn`.
/// Meaningful only under `m.sp < 16`; `exec_model` guards it.
pub open spec fn call_model(m: Model, nnn: u16) -> Model {
    Model { pc: nnn, sp: (m.sp + 1) as u16, stack: m.stack.update(m.sp as int, m.pc), ..m }
}

/// The decrement a timer takes each frame: down by one, floored at zero.
pub open spec fn dec1(t: u8) -> u8 {
    if t > 0 {
        (t - 1) as u8
    } else {
        0
    }
}

/// One `tick_timers` call: both countdowns decremented, floored at zero.
pub open spec fn timers_model(m: Model) -> Model {
    Model { dt: dec1(m.dt), st: dec1(m.st), ..m }
}

/// A ROM image of `data` laid verbatim from the entry address 0x200 on.
/// Meaningful only for `data.len() <= 3584`; `load` guards it.
pub open spec fn load_model(m: Model, data: Seq<u8>) -> Model {
    with_ram(
        m,
        Seq::new(
            4096,
            |a: int|
                if 0x200 <= a < 0x200 + data.len() {
                    data[a - 0x200]
                } else {
                    m.ram[a]
                },
        ),
    )
}

// The wait-for-key scan: the lowest pressed key index, if any.

/// The lowest pressed index at or above `k`, scanning upward to 15.
pub open spec fn first_pressed_from(keys: Seq<bool>, k: int) -> Option<int>
    decreases 16 - k,
{
    if k >= 16 {
        None
    } else if keys[k] {
        Some(k)
    } else {
        first_pressed_from(keys, k + 1)
    }
}

/// Fx0A: load the lowest pressed key index into Vx, or rewind the program
/// counter by 2 so the same instruction is decoded again next tick.
pub open spec fn wait_key_model(m: Model, x: int) -> Model {
    match first_pressed_from(m.keys, 0) {
        Some(k) => set_v(m, x, k as u8),
        None => with_pc(m, w16(m.pc - 2)),
    }
}

// The draw-sprite instruction.

/// Bit `col` of a sprite row, most significant bit leftmost.
pub open spec fn sprite_bit(b: u8, col: int) -> bool {
    (b >> ((7 - col) as u8)) & 1 == 1
}

/// Row `row` of the sprite: one byte per row, read from memory at I + row.
/// Addresses wrap modulo 4096, the documented policy for every
/// memory-referencing instruction.
pub open spec fn sprite_row(ram: Seq<u8>, i0: u16, row: int) -> u8 {
    ram[(i0 + row) % 4096]
}

/// The display cell a sprite bit lands on: coordinates wrap per pixel,
/// X modulo 64 and Y modulo 32.
pub open spec fn pix_index(x0: u8, y0: u8, row: int, col: int) -> int {
    ((y0 + row) % 32) * 64 + ((x0 + col) % 64)
}

/// Whether some set sprite bit lands on display cell `p`.
pub open spec fn covers(ram: Seq<u8>, i0: u16, x0: u8, y0: u8, n: int, p: int) -> bool {
    exists|row: int, col: int|
        0 <= row < n && 0 <= col < 8 && sprite_bit(sprite_row(ram, i0, row), col)
            && (#[trigger] pix_index(x0, y0, row, col)) == p
}

/// Whether some set sprite bit lands on a pixel that is already on.
pub open spec fn draw_collision(m: Model, x0: u8, y0: u8, n: int) -> bool {
    exists|row: int, col: int|
        0 <= row < n && 0 <= col < 8 && sprite_bit(sprite_row(m.ram, m.i_reg, row), col)
            && m.screen[#[trigger] pix_index(x0, y0, row, col)]
}

/// Dxyn: XOR the n-row sprite at memory address I onto the display at origin
/// (Vx, Vy); VF reports whether any on-pixel was turned off.
pub open spec fn draw_model(m: Model, x: int, y: int, n: int) -> Model {
    let x0 = m.v_reg[x];
    let y0 = m.v_reg[y];
    Model {
        screen: Seq::new(
            2048,
            |p: int| m.screen[p] != covers(m.ram, m.i_reg, x0, y0, n, p),
        ),
        v_reg: m.v_reg.update(15, if draw_collision(m, x0, y0, n) { 1u8 } else { 0u8 }),
        ..m
    }
}

// Fx55 / Fx65: register file to memory and back.

/// Memory after storing V0..V(cnt-1) at I, I+1, ...; addresses wrap mod 4096.
pub open spec fn store_regs(ram: Seq<u8>, v_reg: Seq<u8>, i0: u16, cnt: int) -> Seq<u8>
    decreases cnt,
{
    if cnt <= 0 {
        ram
    } else {
        store_regs(ram, v_reg, i0, cnt - 1).update((i0 + cnt - 1) % 4096, v_reg[cnt - 1])
    }
}

/// Registers after loading V0..V(cnt-1) from I, I+1, ...; addresses wrap.
pub open spec fn load_regs(v_reg: Seq<u8>, ram: Seq<u8>, i0: u16, cnt: int) -> Seq<u8>
    decreases cnt,
{
    if cnt <= 0 {
        v_reg
    } else {
        load_regs(v_reg, ram, i0, cnt - 1).update(cnt - 1, ram[(i0 + cnt - 1) % 4096])
    }
}

/// Fx33: the decimal digits of Vx stored at I, I+1, I+2.
pub open spec fn bcd_model(m: Model, x: int) -> Model {
    let vx = m.v_reg[x] as int;
    let i0 = m.i_reg as int;
    with_ram(
        m,
        m.ram.update(i0 % 4096, (vx / 100) as u8).update(
            (i0 + 1) % 4096,
            ((vx / 10) % 10) as u8,
        ).update((i0 + 2) % 4096, (vx % 10) as u8),
    )
}

/// The opcode table: the machine after executing instruction word `op` on a
/// state whose program counter has already advanced past it.  `rnd` is the
/// byte drawn for the random-number instruction; no other entry reads it.
pub open spec fn exec_model(m: Model, op: u16, rnd: u8) -> Result<Model, Chip8Error> {
    let d1 = op_d1(op);
    let x = op_x(op);
    let y = op_y(op);
    let d4 = op_d4(op);
    let nnn = op_nnn(op);
    let nn = op_nn(op);
    if op == 0x0000 {
        // no-op
        Ok(m)
    } else if op == 0x00E0 {
        // clear display
        Ok(cls_model(m))
    } else if op == 0x00EE {
        // return
        if m.sp == 0 {
            Err(Chip8Error::StackUnderflow)
        } else {
            Ok(ret_model(m))
        }
    } else if d1 == 1 {
        // jump
        Ok(with_pc(m, nnn))
    } else if d1 == 2 {
        // call
        if m.sp >= 16 {
            Err(Chip8Error::StackOverflow)
        } else {
            Ok(call_model(m, nnn))
        }
    } else if d1 == 3 {
        // skip if Vx == nn
        Ok(skip_if(m, m.v_reg[x] == nn))
    } else if d1 == 4 {
        // skip if Vx != nn
        Ok(skip_if(m, m.v_reg[x] != nn))
    } else if d1 == 5 && d4 == 0 {
        // skip if Vx == Vy
        Ok(skip_if(m, m.v_reg[x] == m.v_reg[y]))
    } else if d1 == 6 {
        // Vx := nn
        Ok(set_v(m, x, nn))
    } else if d1 == 7 {
        // Vx := Vx + nn, wrapping, no flag
        Ok(set_v(m, x, w8(m.v_reg[x] + nn)))
    } else if d1 == 8 && d4 == 0 {
        // Vx := Vy
        Ok(set_v(m, x, m.v_reg[y]))
    } else if d1 == 8 && d4 == 1 {
        // Vx := Vx | Vy
        Ok(set_v(m, x, m.v_reg[x] | m.v_reg[y]))
    } else if d1 == 8 && d4 == 2 {
        // Vx := Vx & Vy
        Ok(set_v(m, x, m.v_reg[x] & m.v_reg[y]))
    } else if d1 == 8 && d4 == 3 {
        // Vx := Vx ^ Vy
        Ok(set_v(m, x, m.v_reg[x] ^ m.v_reg[y]))
    } else if d1 == 8 && d4 == 4 {
        // Vx := Vx + Vy; VF := carry
        let s = m.v_reg[x] + m.v_reg[y];
        Ok(with_v(m, m.v_reg.update(x, w8(s)).update(15, if s > 255 { 1u8 } else { 0u8 })))
    } else if d1 == 8 && d4 == 5 {
        // Vx := Vx - Vy; VF := 0 on borrow, else 1
        let d = m.v_reg[x] - m.v_reg[y];
        Ok(with_v(m, m.v_reg.update(x, w8(d)).update(15, if d < 0 { 0u8 } else { 1u8 })))
    } else if d1 == 8 && d4 == 6 {
        // VF := low bit of Vx; Vx := Vx >> 1
        let lsb = m.v_reg[x] & 1;
        Ok(with_v(m, m.v_reg.update(x, m.v_reg[x] >> 1u8).update(15, lsb)))
    } else if d1 == 8 && d4 == 7 {
        // Vx := Vy - Vx; VF := 0 on borrow, else 1
        let d = m.v_reg[y] - m.v_reg[x];
        Ok(with_v(m, m.v_reg.update(x, w8(d)).update(15, if d < 0 { 0u8 } else { 1u8 })))
    } else if d1 == 8 && d4 == 0xE {
        // VF := high bit of Vx; Vx := Vx << 1
        let msb = (m.v_reg[x] >> 7u8) & 1;
        Ok(with_v(m, m.v_reg.update(x, m.v_reg[x] << 1u8).update(15, msb)))
    } else if d1 == 9 && d4 == 0 {
        // skip if Vx != Vy
        Ok(skip_if(m, m.v_reg[x] != m.v_reg[y]))
    } else if d1 == 0xA {
        // I := nnn
        Ok(with_i(m, nnn))
    } else if d1 == 0xB {
        // jump to V0 + nnn
        Ok(with_pc(m, w16(m.v_reg[0] + nnn)))
    } else if d1 == 0xC {
        // Vx := random byte & nn
        Ok(set_v(m, x, rnd & nn))
    } else if d1 == 0xD {
        // draw sprite
        Ok(draw_model(m, x, y, d4))
    } else if d1 == 0xE && y == 9 && d4 == 0xE {
        // skip if key Vx pressed; only the low nibble of Vx selects a key
        Ok(skip_if(m, m.keys[(m.v_reg[x] & 0xF) as int]))
    } else if d1 == 0xE && y == 0xA && d4 == 1 {
        // skip if key Vx not pressed
        Ok(skip_if(m, !m.keys[(m.v_reg[x] & 0xF) as int]))
    } else if d1 == 0xF && y == 0 && d4 == 7 {
        // Vx := delay timer
        Ok(set_v(m, x, m.dt))
    } else if d1 == 0xF && y == 0 && d4 == 0xA {
        // wait for a key press
        Ok(wait_key_model(m, x))
    } else if d1 == 0xF && y == 1 && d4 == 5 {
        // delay timer := Vx
        Ok(with_dt(m, m.v_reg[x]))
    } else if d1 == 0xF && y == 1 && d4 == 8 {
        // sound timer := Vx
        Ok(with_st(m, m.v_reg[x]))
    } else if d1 == 0xF && y == 1 && d4 == 0xE {
        // I := I + Vx, wrapping
        Ok(with_i(m, w16(m.i_reg + m.v_reg[x])))
    } else if d1 == 0xF && y == 2 && d4 == 9 {
        // I := address of the font glyph for the digit in Vx
        Ok(with_i(m, (5 * ((m.v_reg[x] & 0xF) as int)) as u16))
    } else if d1 == 0xF && y == 3 && d4 == 3 {
        // decimal digits of Vx to memory at I
        Ok(bcd_model(m, x))
    } else if d1 == 0xF && y == 5 && d4 == 5 {
        // V0..Vx to memory at I
        Ok(with_ram(m, store_regs(m.ram, m.v_reg, m.i_reg, x + 1)))
    } else if d1 == 0xF && y == 6 && d4 == 5 {
        // V0..Vx from memory at I
        Ok(with_v(m, load_regs(m.v_reg, m.ram, m.i_reg, x + 1)))
    } else {
        Err(Chip8Error::UnimplementedOpcode)
    }
}

/// The instruction word at the program counter, big-endian.
pub open spec fn op_at(m: Model) -> u16 {
    ((m.ram[m.pc as int] as int) * 256 + (m.ram[m.pc as int + 1] as int)) as u16
}

/// The state after the fetch: program counter past the instruction word.
pub open spec fn advanced(m: Model) -> Model {
    with_pc(m, w16(m.pc + 2))
}

/// One whole tick: fetch the word at the program counter, advance it by 2,
/// then execute by the opcode table.  Fails without touching the state when
/// the program counter stands past 4094, the last address a two-byte word
/// fits under; this interpreter's documented policy for a runaway program.
pub open spec fn step(m: Model, rnd: u8) -> Result<Model, Chip8Error> {
    if m.pc > 4094 {
        Err(Chip8Error::OutOfBoundsFetch)
    } else {
        exec_model(advanced(m), op_at(m), rnd)
    }
}

/// What `tick` promises: the new state and the returned value, against one
/// draw `rnd` of the random byte.  On failure the state is left as it was.
pub open spec fn step_outcome(pre: Model, rnd: u8, post: Model, r: Result<(), Chip8Error>) -> bool {
    match step(pre, rnd) {
        Ok(m2) => r == Ok::<(), Chip8Error>(()) && post == m2,
        Err(e) => r == Err::<(), Chip8Error>(e) && post == pre,
    }
}

/// What executing one already-fetched word promises: `pre` has its program
/// counter past the word; on failure the counter is wound back onto it and
/// nothing else is touched.
pub open spec fn exec_outcome(
    pre: Model,
    op: u16,
    rnd: u8,
    post: Model,
    r: Result<(), Chip8Error>,
) -> bool {
    match exec_model(pre, op, rnd) {
        Ok(m2) => r == Ok::<(), Chip8Error>(()) && post == m2,
        Err(e) => r == Err::<(), Chip8Error>(e) && post == with_pc(pre, w16(pre.pc - 2)),
    }
}

} // verus!
