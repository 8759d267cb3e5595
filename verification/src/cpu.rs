//! The machine state: memory, registers, index register, call stack,
//! program counter, timers and key flags, together with the font loader,
//! the instruction fetch and the timer countdown.

use vstd::prelude::*;

verus! {

use crate::pixel::{colors, same_positions, Pixel};

/// The machine state as a mathematical value: every contract about the
/// processor is stated over this record.
#[verifier::ext_equal]
pub ghost struct CpuState {
    pub memory: Seq<u8>,
    pub v: Seq<u8>,
    pub i: u16,
    pub jump: Seq<u16>,
    pub number_jump: u16,
    pub game_counter: u16,
    pub sound_counter: u16,
    pub pc: u16,
    pub key: Seq<bool>,
}

/// Well-formedness of a machine state: fixed sizes for memory, registers,
/// call stack and key flags; the stack depth never passes 15, since a
/// call at full depth is dropped whole; the two timers hold 8-bit
/// values.
pub open spec fn state_wf(s: CpuState) -> bool {
    &&& s.memory.len() == 4096
    &&& s.v.len() == 16
    &&& s.jump.len() == 16
    &&& s.key.len() == 16
    &&& s.number_jump <= 15
    &&& s.game_counter <= 255
    &&& s.sound_counter <= 255
}

/// The 80 bytes of font glyphs, five bytes for each of the digits 0 to F,
/// loaded at the bottom of memory.
pub open spec fn font_data() -> Seq<u8> {
    seq![
        0xF0u8, 0x90, 0x90, 0x90, 0xF0, // 0
        0x20, 0x60, 0x20, 0x20, 0x70, // 1
        0xF0, 0x10, 0xF0, 0x80, 0xF0, // 2
        0xF0, 0x10, 0xF0, 0x10, 0xF0, // 3
        0x90, 0x90, 0xF0, 0x10, 0x10, // 4
        0xF0, 0x80, 0xF0, 0x10, 0xF0, // 5
        0xF0, 0x80, 0xF0, 0x90, 0xF0, // 6
        0xF0, 0x10, 0x20, 0x40, 0x40, // 7
        0xF0, 0x90, 0xF0, 0x90, 0xF0, // 8
        0xF0, 0x90, 0xF0, 0x10, 0xF0, // 9
        0xF0, 0x90, 0xF0, 0x90, 0x90, // A
        0xE0, 0x90, 0xE0, 0x90, 0xE0, // B
        0xF0, 0x80, 0x80, 0x80, 0xF0, // C
        0xE0, 0x90, 0x90, 0x90, 0xE0, // D
        0xF0, 0x80, 0xF0, 0x80, 0xF0, // E
        0xF0, 0x80, 0xF0, 0x80, 0x80, // F
    ]
}

/// The mask of instruction-table entry k: the bits of the instruction
/// word that entry k constrains.
pub open spec fn table_mask(k: int) -> u16 {
    if k == 0 {
        0x0000
    } else if k == 1 || k == 2 {
        0xFFFF
    } else if k == 3 || k == 4 || k == 5 || k == 6 {
        0xF000
    } else if k == 7 {
        0xF00F
    } else if k == 8 || k == 9 {
        0xF000
    } else if 10 <= k <= 19 {
        0xF00F
    } else if 20 <= k <= 23 {
        0xF000
    } else if 24 <= k <= 34 {
        0xF0FF
    } else {
        0
    }
}

/// The pattern of instruction-table entry k: the value the masked word
/// must equal for entry k to match.
pub open spec fn table_pattern(k: int) -> u16 {
    if k == 0 {
        0x0FFF
    } else if k == 1 {
        0x00E0
    } else if k == 2 {
        0x00EE
    } else if k == 3 {
        0x1000
    } else if k == 4 {
        0x2000
    } else if k == 5 {
        0x3000
    } else if k == 6 {
        0x4000
    } else if k == 7 {
        0x5000
    } else if k == 8 {
        0x6000
    } else if k == 9 {
        0x7000
    } else if k == 10 {
        0x8000
    } else if k == 11 {
        0x8001
    } else if k == 12 {
        0x8002
    } else if k == 13 {
        0x8003
    } else if k == 14 {
        0x8004
    } else if k == 15 {
        0x8005
    } else if k == 16 {
        0x8006
    } else if k == 17 {
        0x8007
    } else if k == 18 {
        0x800E
    } else if k == 19 {
        0x9000
    } else if k == 20 {
        0xA000
    } else if k == 21 {
        0xB000
    } else if k == 22 {
        0xC000
    } else if k == 23 {
        0xD000
    } else if k == 24 {
        0xE09E
    } else if k == 25 {
        0xE0A1
    } else if k == 26 {
        0xF007
    } else if k == 27 {
        0xF00A
    } else if k == 28 {
        0xF015
    } else if k == 29 {
        0xF018
    } else if k == 30 {
        0xF01E
    } else if k == 31 {
        0xF029
    } else if k == 32 {
        0xF033
    } else if k == 33 {
        0xF055
    } else if k == 34 {
        0xF065
    } else {
        0
    }
}

/// Entry k of the table matches an instruction word when the word's
/// masked bits equal the entry's pattern.
pub open spec fn entry_matches(op: u16, k: int) -> bool {
    table_mask(k) & op == table_pattern(k)
}

/// The action id resolved by scanning the table from entry k on: the
/// index of the first matching entry, or 0 when none matches.
pub open spec fn decode_from(op: u16, k: int) -> u16
    decreases 35 - k,
{
    if k < 0 || k >= 35 {
        0
    } else if entry_matches(op, k) {
        k as u16
    } else {
        decode_from(op, k + 1)
    }
}

/// The decoder's contract: the action id of the first table entry, in
/// table order, whose mask applied to the word equals its pattern; 0
/// (the unknown action) when no entry matches.
pub open spec fn decode(op: u16) -> u16 {
    decode_from(op, 0)
}

/// Subfield X of an instruction word: the second-highest nibble, a
/// register index.
pub open spec fn op_x(op: u16) -> int {
    ((op >> 8) & 0xF) as int
}

/// Subfield Y of an instruction word: the second-lowest nibble, a
/// register index.
pub open spec fn op_y(op: u16) -> int {
    ((op >> 4) & 0xF) as int
}

/// Subfield N of an instruction word: the lowest nibble.
pub open spec fn op_n(op: u16) -> int {
    (op & 0xF) as int
}

/// Subfield KK of an instruction word: the low byte.
pub open spec fn op_kk(op: u16) -> int {
    (op & 0xFF) as int
}

/// Subfield NNN of an instruction word: the low twelve bits, an address.
pub open spec fn op_nnn(op: u16) -> int {
    (op & 0xFFF) as int
}

/// The ranges of the instruction subfields.
pub proof fn lemma_op_field_bounds(op: u16)
    ensures
        0 <= op_x(op) < 16,
        0 <= op_y(op) < 16,
        0 <= op_n(op) < 16,
        0 <= op_kk(op) < 256,
        0 <= op_nnn(op) < 0x1000,
{
    assert(((op >> 8) & 0xF) < 16 && ((op >> 4) & 0xF) < 16 && (op & 0xF) < 16 && (op & 0xFF)
        < 256 && (op & 0xFFF) < 0x1000) by (bit_vector);
}

/// An integer reduced to an 8-bit register value, as register arithmetic
/// is performed modulo 256.
pub open spec fn lo8(n: int) -> u8 {
    (((n % 256) + 256) % 256) as u8
}

/// An integer reduced to a 16-bit value, for program-counter arithmetic.
pub open spec fn w16(n: int) -> u16 {
    (((n % 65536) + 65536) % 65536) as u16
}

/// The conditions under which one execute step stays inside the machine:
/// the program counter keeps two instruction widths of headroom at the
/// top of the 16-bit range, control-flow targets do not underflow the
/// pre-subtracted instruction width, and every memory or key index the
/// action touches is in range. An instruction stream that violates one of
/// these has hit the fatal index-bounds error of the design: the engine
/// refuses it rather than wrap silently.
pub open spec fn step_ok(s: CpuState, op: u16) -> bool {
    let a = decode(op);
    let x = op_x(op);
    let vx = s.v[x] as int;
    &&& s.pc + 4 <= 65535
    &&& (a == 2 && s.number_jump > 0 ==> s.jump[s.number_jump - 1] + 2 <= 65535)
    &&& ((a == 3 || a == 4) ==> op_nnn(op) >= 2)
    &&& (a == 21 ==> op_nnn(op) + s.v[0] >= 2)
    &&& (a == 23 ==> s.i + op_n(op) <= 4096)
    &&& ((a == 24 || a == 25) ==> vx < 16)
    &&& (a == 30 ==> s.i + s.v.update(15, if s.i + vx > 0xFFF {
        1u8
    } else {
        0u8
    })[x] <= 65535)
    &&& (a == 32 ==> s.i + 3 <= 4096)
    &&& ((a == 33 || a == 34) ==> s.i + x <= 4095)
}

/// The effect of one resolved action on the machine state and the
/// framebuffer colors, before the fixed program-counter increment that
/// follows every action. `rnd` is the value the random source returned;
/// only the random action reads it. Flag writes into V[F] come before
/// the destination register update, so an action whose destination is
/// V[F] itself reads the freshly written flag, exactly as the engine
/// executes it.
#[verifier::opaque]
pub open spec fn apply_action(s: CpuState, fb: Seq<u8>, op: u16, rnd: u16) -> (CpuState, Seq<u8>) {
    let a = decode(op);
    let x = op_x(op);
    let y = op_y(op);
    let n = op_n(op);
    let kk = op_kk(op);
    let nnn = op_nnn(op);
    let vx = s.v[x] as int;
    let vy = s.v[y] as int;
    if a == 1 {
        // 00E0 : clear the screen
        (s, Seq::new(fb.len(), |p: int| 0u8))
    } else if a == 2 {
        // 00EE : return from a subroutine; with no active frame, a no-op
        if s.number_jump > 0 {
            (CpuState {
                pc: s.jump[s.number_jump - 1],
                number_jump: (s.number_jump - 1) as u16,
                ..s
            }, fb)
        } else {
            (s, fb)
        }
    } else if a == 3 {
        // 1NNN : jump, pre-subtracting the increment that follows
        (CpuState { pc: w16(nnn - 2), ..s }, fb)
    } else if a == 4 {
        // 2NNN : call; a call at full stack depth is dropped whole, and
        // no return address is stored for it
        (CpuState {
            jump: if s.number_jump < 15 {
                s.jump.update(s.number_jump as int, s.pc)
            } else {
                s.jump
            },
            number_jump: if s.number_jump < 15 {
                (s.number_jump + 1) as u16
            } else {
                s.number_jump
            },
            pc: w16(nnn - 2),
            ..s
        }, fb)
    } else if a == 5 {
        // 3XNN : skip next instruction if V[X] == NN
        (CpuState {
            pc: if vx == kk {
                w16(s.pc + 2)
            } else {
                s.pc
            },
            ..s
        }, fb)
    } else if a == 6 {
        // 4XNN : skip next instruction if V[X] != NN
        (CpuState {
            pc: if vx != kk {
                w16(s.pc + 2)
            } else {
                s.pc
            },
            ..s
        }, fb)
    } else if a == 7 {
        // 5XY0 : skip next instruction if V[X] == V[Y]
        (CpuState {
            pc: if vx == vy {
                w16(s.pc + 2)
            } else {
                s.pc
            },
            ..s
        }, fb)
    } else if a == 8 {
        // 6XNN : set V[X] = NN
        (CpuState { v: s.v.update(x, kk as u8), ..s }, fb)
    } else if a == 9 {
        // 7XNN : add NN to V[X]; no carry flag
        (CpuState { v: s.v.update(x, lo8(vx + kk)), ..s }, fb)
    } else if a == 10 {
        // 8XY0 : set V[X] = V[Y]
        (CpuState { v: s.v.update(x, s.v[y]), ..s }, fb)
    } else if a == 11 {
        // 8XY1 : set V[X] = V[X] | V[Y]
        (CpuState { v: s.v.update(x, s.v[x] | s.v[y]), ..s }, fb)
    } else if a == 12 {
        // 8XY2 : set V[X] = V[X] & V[Y]
        (CpuState { v: s.v.update(x, s.v[x] & s.v[y]), ..s }, fb)
    } else if a == 13 {
        // 8XY3 : set V[X] = V[X] ^ V[Y]
        (CpuState { v: s.v.update(x, s.v[x] ^ s.v[y]), ..s }, fb)
    } else if a == 14 {
        // 8XY4 : add with carry into V[F]
        let v1 = s.v.update(15, if vx + vy > 255 {
            1u8
        } else {
            0u8
        });
        (CpuState { v: v1.update(x, lo8(v1[x] + v1[y])), ..s }, fb)
    } else if a == 15 {
        // 8XY5 : subtract with NOT-borrow into V[F]; 1 means no borrow,
        // equal operands borrow nothing
        let v1 = s.v.update(15, if vx >= vy {
            1u8
        } else {
            0u8
        });
        (CpuState { v: v1.update(x, lo8(v1[x] - v1[y])), ..s }, fb)
    } else if a == 16 {
        // 8XY6 : shift right, bit 0 into V[F]
        let v1 = s.v.update(15, s.v[x] & 1);
        (CpuState { v: v1.update(x, v1[x] >> 1), ..s }, fb)
    } else if a == 17 {
        // 8XY7 : reverse subtract with NOT-borrow into V[F]; 1 means no
        // borrow, equal operands borrow nothing
        let v1 = s.v.update(15, if vy >= vx {
            1u8
        } else {
            0u8
        });
        (CpuState { v: v1.update(x, lo8(v1[y] - v1[x])), ..s }, fb)
    } else if a == 18 {
        // 8XYE : shift left, bit 7 into V[F]
        let v1 = s.v.update(15, s.v[x] >> 7);
        (CpuState { v: v1.update(x, lo8(2 * v1[x])), ..s }, fb)
    } else if a == 19 {
        // 9XY0 : skip next instruction if V[X] != V[Y]
        (CpuState {
            pc: if vx != vy {
                w16(s.pc + 2)
            } else {
                s.pc
            },
            ..s
        }, fb)
    } else if a == 20 {
        // ANNN : set I = NNN
        (CpuState { i: nnn as u16, ..s }, fb)
    } else if a == 21 {
        // BNNN : jump to NNN + V[0], pre-subtracting the increment
        (CpuState { pc: w16(nnn + s.v[0] - 2), ..s }, fb)
    } else if a == 22 {
        // CXNN : random value reduced modulo NN + 1
        (CpuState { v: s.v.update(x, (rnd as int % (kk + 1)) as u8), ..s }, fb)
    } else if a == 23 {
        // DXYN : the sprite blit, collision into V[F]
        let d = crate::pixel::draw_sprite_spec(fb, s.memory, s.i as int, vx, vy, n);
        (CpuState {
            v: s.v.update(15, if d.1 {
                1u8
            } else {
                0u8
            }),
            ..s
        }, d.0)
    } else if a == 24 {
        // EX9E : skip next instruction if key V[X] is pressed
        (CpuState {
            pc: if 0 <= vx < 16 && s.key[vx] {
                w16(s.pc + 2)
            } else {
                s.pc
            },
            ..s
        }, fb)
    } else if a == 25 {
        // EXA1 : skip next instruction if key V[X] is not pressed
        (CpuState {
            pc: if !(0 <= vx < 16 && s.key[vx]) {
                w16(s.pc + 2)
            } else {
                s.pc
            },
            ..s
        }, fb)
    } else if a == 26 {
        // FX07 : set V[X] from the delay timer
        (CpuState { v: s.v.update(x, s.game_counter as u8), ..s }, fb)
    } else if a == 27 {
        // FX0A : key wait; left a no-op pending a key-event model
        (s, fb)
    } else if a == 28 {
        // FX15 : set the delay timer from V[X]
        (CpuState { game_counter: s.v[x] as u16, ..s }, fb)
    } else if a == 29 {
        // FX18 : set the sound timer from V[X]
        (CpuState { sound_counter: s.v[x] as u16, ..s }, fb)
    } else if a == 30 {
        // FX1E : add V[X] to I, overflow past 0xFFF into V[F]
        let v1 = s.v.update(15, if s.i + vx > 0xFFF {
            1u8
        } else {
            0u8
        });
        (CpuState { v: v1, i: w16(s.i + v1[x]), ..s }, fb)
    } else if a == 31 {
        // FX29 : point I at the font sprite for digit V[X]
        (CpuState { i: (vx * 5) as u16, ..s }, fb)
    } else if a == 32 {
        // FX33 : store the BCD digits of V[X] at I, I+1, I+2
        (CpuState {
            memory: s.memory.update(s.i as int, (vx / 100) as u8).update(s.i + 1, ((vx / 10)
                % 10) as u8).update(s.i + 2, (vx % 10) as u8),
            ..s
        }, fb)
    } else if a == 33 {
        // FX55 : dump V[0] ..= V[X] to memory at I; I is unchanged
        (CpuState {
            memory: Seq::new(s.memory.len(), |p: int|
                if s.i <= p <= s.i + x {
                    s.v[p - s.i]
                } else {
                    s.memory[p]
                }),
            ..s
        }, fb)
    } else if a == 34 {
        // FX65 : load V[0] ..= V[X] from memory at I; I is unchanged
        (CpuState {
            v: Seq::new(s.v.len(), |r: int|
                if 0 <= r <= x {
                    s.memory[s.i + r]
                } else {
                    s.v[r]
                }),
            ..s
        }, fb)
    } else {
        // Unknown action, including the unmatched 0NNN family: a no-op
        (s, fb)
    }
}

/// One full execute step: the resolved action's effect followed by the
/// fixed advance of one instruction width, which every action receives,
/// jumps and calls included.
pub open spec fn step(s: CpuState, fb: Seq<u8>, op: u16, rnd: u16) -> (CpuState, Seq<u8>) {
    let r = apply_action(s, fb, op, rnd);
    (CpuState { pc: w16(r.0.pc + 2), ..r.0 }, r.1)
}

/// An action's effect followed by the fixed program-counter increment
/// composes to one full step.
pub proof fn lemma_step_compose(
    s: CpuState,
    fb: Seq<u8>,
    op: u16,
    rnd: u16,
    s1: CpuState,
    fb1: Seq<u8>,
    s2: CpuState,
)
    requires
        s1 == apply_action(s, fb, op, rnd).0,
        fb1 == apply_action(s, fb, op, rnd).1,
        s1.pc + 2 <= 65535,
        s2 == (CpuState { pc: (s1.pc + 2) as u16, ..s1 }),
    ensures
        s2 == step(s, fb, op, rnd).0,
        fb1 == step(s, fb, op, rnd).1,
{
    assert(w16(s1.pc + 2) == (s1.pc + 2) as u16);
    assert(s2 =~= step(s, fb, op, rnd).0);
}

/// The font glyph table as an executable byte list, five bytes per digit.
fn font_vec() -> (font: Vec<u8>)
    ensures
        font@ == font_data(),
{
    let mut font: Vec<u8> = Vec::new();
    // 0
    font.push(0xF0);
    font.push(0x90);
    font.push(0x90);
    font.push(0x90);
    font.push(0xF0);
    // 1
    font.push(0x20);
    font.push(0x60);
    font.push(0x20);
    font.push(0x20);
    font.push(0x70);
    // 2
    font.push(0xF0);
    font.push(0x10);
    font.push(0xF0);
    font.push(0x80);
    font.push(0xF0);
    // 3
    font.push(0xF0);
    font.push(0x10);
    font.push(0xF0);
    font.push(0x10);
    font.push(0xF0);
    // 4
    font.push(0x90);
    font.push(0x90);
    font.push(0xF0);
    font.push(0x10);
    font.push(0x10);
    // 5
    font.push(0xF0);
    font.push(0x80);
    font.push(0xF0);
    font.push(0x10);
    font.push(0xF0);
    // 6
    font.push(0xF0);
    font.push(0x80);
    font.push(0xF0);
    font.push(0x90);
    font.push(0xF0);
    // 7
    font.push(0xF0);
    font.push(0x10);
    font.push(0x20);
    font.push(0x40);
    font.push(0x40);
    // 8
    font.push(0xF0);
    font.push(0x90);
    font.push(0xF0);
    font.push(0x90);
    font.push(0xF0);
    // 9
    font.push(0xF0);
    font.push(0x90);
    font.push(0xF0);
    font.push(0x10);
    font.push(0xF0);
    // A
    font.push(0xF0);
    font.push(0x90);
    font.push(0xF0);
    font.push(0x90);
    font.push(0x90);
    // B
    font.push(0xE0);
    font.push(0x90);
    font.push(0xE0);
    font.push(0x90);
    font.push(0xE0);
    // C
    font.push(0xF0);
    font.push(0x80);
    font.push(0x80);
    font.push(0x80);
    font.push(0xF0);
    // D
    font.push(0xE0);
    font.push(0x90);
    font.push(0x90);
    font.push(0x90);
    font.push(0xE0);
    // E
    font.push(0xF0);
    font.push(0x80);
    font.push(0xF0);
    font.push(0x80);
    font.push(0xF0);
    // F
    font.push(0xF0);
    font.push(0x80);
    font.push(0xF0);
    font.push(0x80);
    font.push(0x80);

    font
}

pub struct CPU {
    pub memory: Vec<u8>,
    pub v: Vec<u8>,
    pub i: u16,
    pub jump: Vec<u16>,
    pub number_jump: u16,
    pub game_counter: u16,
    pub sound_counter: u16,
    pub pc: u16,
    pub key: Vec<bool>,
}

impl View for CPU {
    type V = CpuState;

    open spec fn view(&self) -> CpuState {
        CpuState {
            memory: self.memory@,
            v: self.v@,
            i: self.i,
            jump: self.jump@,
            number_jump: self.number_jump,
            game_counter: self.game_counter,
            sound_counter: self.sound_counter,
            pc: self.pc,
            key: self.key@,
        }
    }
}

impl CPU {
    pub open spec fn wf(&self) -> bool {
        state_wf(self@)
    }

    /// A fresh machine: cleared memory except for the font glyphs at the
    /// bottom, cleared registers and stack, program counter at 0x200.
    pub fn new() -> (cpu: CPU)
        ensures
            cpu.wf(),
            cpu@.memory == font_data() + Seq::<u8>::new(4016, |j: int| 0u8),
            cpu@.v == Seq::<u8>::new(16, |j: int| 0u8),
            cpu@.i == 0,
            cpu@.jump == Seq::<u16>::new(16, |j: int| 0u16),
            cpu@.number_jump == 0,
            cpu@.game_counter == 0,
            cpu@.sound_counter == 0,
            cpu@.pc == 0x200,
            cpu@.key == Seq::<bool>::new(16, |j: int| false),
    {
        let mut cpu = CPU {
            memory: vec![0u8; 4096],
            v: vec![0u8; 16],
            i: 0,
            jump: vec![0u16; 16],
            number_jump: 0,
            game_counter: 0,
            sound_counter: 0,
            pc: 0x200,
            key: vec![false; 16],
        };

        cpu.load_font();

        proof {
            assert(cpu@.memory =~= font_data() + Seq::<u8>::new(4016, |j: int| 0u8));
            assert(cpu@.v =~= Seq::<u8>::new(16, |j: int| 0u8));
            assert(cpu@.jump =~= Seq::<u16>::new(16, |j: int| 0u16));
            assert(cpu@.key =~= Seq::<bool>::new(16, |j: int| false));
        }

        cpu
    }

    /// One display frame has passed: each timer steps down by one, stopping
    /// at zero; nothing else moves.
    pub fn count_down(&mut self)
        requires
            old(self).wf(),
        ensures
            final(self).wf(),
            final(self)@ == (CpuState {
                game_counter: if old(self).game_counter > 0 {
                    (old(self).game_counter - 1) as u16
                } else {
                    0
                },
                sound_counter: if old(self).sound_counter > 0 {
                    (old(self).sound_counter - 1) as u16
                } else {
                    0
                },
                ..old(self)@
            }),
    {
        if self.game_counter > 0 {
            self.game_counter = self.game_counter - 1;
        }
        if self.sound_counter > 0 {
            self.sound_counter = self.sound_counter - 1;
        }
        proof {
            assert(self@ =~= (CpuState {
                game_counter: self@.game_counter,
                sound_counter: self@.sound_counter,
                ..old(self)@
            }));
        }
    }

    /// Copies a program image verbatim into memory starting at 0x200 and
    /// reports that execution may begin. The image must fit below the top
    /// of memory.
    pub fn load_rom(&mut self, rom: &Vec<u8>) -> (started: bool)
        requires
            old(self).wf(),
            rom@.len() <= 4096 - 0x200,
        ensures
            final(self).wf(),
            started,
            final(self)@ == (CpuState {
                memory: Seq::<u8>::new(4096, |j: int|
                    if 0x200 <= j < 0x200 + rom@.len() {
                        rom@[j - 0x200]
                    } else {
                        old(self)@.memory[j]
                    }),
                ..old(self)@
            }),
    {
        let ghost mem0 = self.memory@;
        let ghost rest0 = self@;
        let mut idx: usize = 0;
        while idx < rom.len()
            invariant
                state_wf(rest0),
                rom@.len() <= 4096 - 0x200,
                0 <= idx <= rom@.len(),
                self@ == (CpuState { memory: self.memory@, ..rest0 }),
                self.memory@.len() == 4096,
                forall|j: int| 0 <= j < idx ==> self.memory@[0x200 + j] == rom@[j],
                forall|j: int| 0 <= j < 4096 && !(0x200 <= j < 0x200 + idx) ==> self.memory@[j] == mem0[j],
                mem0 == rest0.memory,
            decreases rom@.len() - idx,
        {
            self.memory[0x200 + idx] = rom[idx];
            idx = idx + 1;
        }
        proof {
            assert(self@ =~= (CpuState {
                memory: Seq::<u8>::new(4096, |j: int|
                    if 0x200 <= j < 0x200 + rom@.len() {
                        rom@[j - 0x200]
                    } else {
                        old(self)@.memory[j]
                    }),
                ..old(self)@
            }));
        }
        true
    }

    /// Writes the 80 font bytes over the bottom of memory; the rest of the
    /// machine is untouched.
    pub fn load_font(&mut self)
        requires
            old(self).wf(),
        ensures
            final(self).wf(),
            final(self)@ == (CpuState {
                memory: font_data() + old(self)@.memory.skip(80),
                ..old(self)@
            }),
    {
        let font = font_vec();
        let ghost rest0 = self@;
        let mut idx: usize = 0;
        while idx < 80
            invariant
                state_wf(rest0),
                self@ == (CpuState { memory: self.memory@, ..rest0 }),
                self.memory@.len() == 4096,
                font@ == font_data(),
                font@.len() == 80,
                0 <= idx <= 80,
                forall|j: int| 0 <= j < idx ==> self.memory@[j] == font_data()[j],
                forall|j: int| idx <= j < 4096 ==> self.memory@[j] == rest0.memory[j],
            decreases 80 - idx,
        {
            self.memory[idx] = font[idx];
            idx = idx + 1;
        }
        proof {
            assert(self@ =~= (CpuState {
                memory: font_data() + old(self)@.memory.skip(80),
                ..old(self)@
            }));
        }
    }

    /// Fetches the 16-bit instruction word at the program counter: the byte
    /// there is the high half, the byte after it the low half.
    pub fn get_opcode(&self) -> (op: u16)
        requires
            self.wf(),
            self.pc < 4095,
        ensures
            op == self@.memory[self.pc as int] * 256 + self@.memory[self.pc as int + 1],
    {
        (self.memory[self.pc as usize] as u16) * 256 + (self.memory[self.pc as usize + 1] as u16)
    }

    /// Whether one execute step for this instruction word stays inside
    /// the machine (see `step_ok`). A driver checks this before calling
    /// `execute_opcode` and treats a refusal as a fatal internal error.
    pub fn step_allowed(&self, opcode: u16) -> (ok: bool)
        requires
            self.wf(),
        ensures
            ok == step_ok(self@, opcode),
    {
        let jump = Jump::new();
        let action = jump.get_action(opcode);

        let b3 = (opcode >> 8) & 0x000F;
        let b1 = opcode & 0x000F;
        let nnn = opcode & 0x0FFF;

        proof {
            lemma_op_field_bounds(opcode);
        }

        let mut ok = self.pc <= 65531;
        if action == 2 && self.number_jump > 0 {
            ok = ok && self.jump[(self.number_jump - 1) as usize] <= 65533;
        }
        if action == 3 || action == 4 {
            ok = ok && nnn >= 2;
        }
        if action == 21 {
            ok = ok && nnn as u32 + self.v[0] as u32 >= 2;
        }
        if action == 23 {
            ok = ok && self.i as u32 + b1 as u32 <= 4096;
        }
        if action == 24 || action == 25 {
            ok = ok && self.v[b3 as usize] < 16;
        }
        if action == 30 {
            let flag: u32 = if self.i as u32 + self.v[b3 as usize] as u32 > 0xFFF {
                1
            } else {
                0
            };
            let addend: u32 = if b3 == 15 {
                flag
            } else {
                self.v[b3 as usize] as u32
            };
            ok = ok && self.i as u32 + addend <= 65535;
        }
        if action == 32 {
            ok = ok && self.i as u32 + 3 <= 4096;
        }
        if action == 33 || action == 34 {
            ok = ok && self.i as u32 + b3 as u32 <= 4095;
        }
        ok
    }

    /// 00EE : return from a subroutine; with no active frame, a no-op.
    #[verifier::rlimit(100)]
    #[verifier::spinoff_prover]
    fn op_return(&mut self, opcode: u16, Ghost(fb): Ghost<Seq<u8>>)
        requires
            old(self).wf(),
            decode(opcode) == 2,
            step_ok(old(self)@, opcode),
        ensures
            final(self).wf(),
            final(self)@ == apply_action(old(self)@, fb, opcode, 0).0,
            apply_action(old(self)@, fb, opcode, 0).1 == fb,
            final(self).pc + 2 <= 65535,
    {
        let ghost s0 = self@;

        proof {
            lemma_op_field_bounds(opcode);
        }

        if self.number_jump > 0 {
            self.pc = self.jump[(self.number_jump - 1) as usize];
            self.number_jump = self.number_jump - 1;
        }

        proof {
            assert(self@ =~= apply_action(s0, fb, opcode, 0).0 && apply_action(s0, fb, opcode,
                0).1 == fb) by {
                reveal(apply_action);
            }
        }
    }

    /// 1NNN : jump to address NNN, pre-subtracting the increment that follows.
    #[verifier::rlimit(100)]
    #[verifier::spinoff_prover]
    fn op_jump(&mut self, opcode: u16, Ghost(fb): Ghost<Seq<u8>>)
        requires
            old(self).wf(),
            decode(opcode) == 3,
            step_ok(old(self)@, opcode),
        ensures
            final(self).wf(),
            final(self)@ == apply_action(old(self)@, fb, opcode, 0).0,
            apply_action(old(self)@, fb, opcode, 0).1 == fb,
            final(self).pc + 2 <= 65535,
    {
        let nnn = opcode & 0x0FFF;
        let ghost s0 = self@;

        proof {
            lemma_op_field_bounds(opcode);
        }

        self.pc = nnn;
        self.pc = self.pc - 2;

        proof {
            assert(self@ =~= apply_action(s0, fb, opcode, 0).0 && apply_action(s0, fb, opcode,
                0).1 == fb) by {
                reveal(apply_action);
            }
        }
    }

    /// 2NNN : call the subroutine at NNN; a call at full stack depth is
    /// dropped whole, storing no return address.
    #[verifier::rlimit(100)]
    #[verifier::spinoff_prover]
    fn op_call(&mut self, opcode: u16, Ghost(fb): Ghost<Seq<u8>>)
        requires
            old(self).wf(),
            decode(opcode) == 4,
            step_ok(old(self)@, opcode),
        ensures
            final(self).wf(),
            final(self)@ == apply_action(old(self)@, fb, opcode, 0).0,
            apply_action(old(self)@, fb, opcode, 0).1 == fb,
            final(self).pc + 2 <= 65535,
    {
        let nnn = opcode & 0x0FFF;
        let ghost s0 = self@;

        proof {
            lemma_op_field_bounds(opcode);
        }

        if self.number_jump < 15 {
            self.jump[self.number_jump as usize] = self.pc;
            self.number_jump = self.number_jump + 1;
        }

        self.pc = nnn;
        self.pc = self.pc - 2;

        proof {
            assert(self@ =~= apply_action(s0, fb, opcode, 0).0 && apply_action(s0, fb, opcode,
                0).1 == fb) by {
                reveal(apply_action);
            }
        }
    }

    /// 3XNN : skip the next instruction if V[X] == NN.
    #[verifier::rlimit(100)]
    #[verifier::spinoff_prover]
    fn op_skip_eq_kk(&mut self, opcode: u16, Ghost(fb): Ghost<Seq<u8>>)
        requires
            old(self).wf(),
            decode(opcode) == 5,
            step_ok(old(self)@, opcode),
        ensures
            final(self).wf(),
            final(self)@ == apply_action(old(self)@, fb, opcode, 0).0,
            apply_action(old(self)@, fb, opcode, 0).1 == fb,
            final(self).pc + 2 <= 65535,
    {
        let b3 = (opcode >> 8) & 0x000F;
        let kk = opcode & 0x00FF;
        let ghost s0 = self@;

        proof {
            lemma_op_field_bounds(opcode);
        }

        if self.v[b3 as usize] as u16 == kk {
            self.pc = self.pc + 2;
        }

        proof {
            assert(self@ =~= apply_action(s0, fb, opcode, 0).0 && apply_action(s0, fb, opcode,
                0).1 == fb) by {
                reveal(apply_action);
            }
        }
    }

    /// 4XNN : skip the next instruction if V[X] != NN.
    #[verifier::rlimit(100)]
    #[verifier::spinoff_prover]
    fn op_skip_neq_kk(&mut self, opcode: u16, Ghost(fb): Ghost<Seq<u8>>)
        requires
            old(self).wf(),
            decode(opcode) == 6,
            step_ok(old(self)@, opcode),
        ensures
            final(self).wf(),
            final(self)@ == apply_action(old(self)@, fb, opcode, 0).0,
            apply_action(old(self)@, fb, opcode, 0).1 == fb,
            final(self).pc + 2 <= 65535,
    {
        let b3 = (opcode >> 8) & 0x000F;
        let kk = opcode & 0x00FF;
        let ghost s0 = self@;

        proof {
            lemma_op_field_bounds(opcode);
        }

        if self.v[b3 as usize] as u16 != kk {
            self.pc = self.pc + 2;
        }

        proof {
            assert(self@ =~= apply_action(s0, fb, opcode, 0).0 && apply_action(s0, fb, opcode,
                0).1 == fb) by {
                reveal(apply_action);
            }
        }
    }

    /// 5XY0 : skip the next instruction if V[X] == V[Y].
    #[verifier::rlimit(100)]
    #[verifier::spinoff_prover]
    fn op_skip_eq_vy(&mut self, opcode: u16, Ghost(fb): Ghost<Seq<u8>>)
        requires
            old(self).wf(),
            decode(opcode) == 7,
            step_ok(old(self)@, opcode),
        ensures
            final(self).wf(),
            final(self)@ == apply_action(old(self)@, fb, opcode, 0).0,
            apply_action(old(self)@, fb, opcode, 0).1 == fb,
            final(self).pc + 2 <= 65535,
    {
        let b3 = (opcode >> 8) & 0x000F;
        let b2 = (opcode >> 4) & 0x000F;
        let ghost s0 = self@;

        proof {
            lemma_op_field_bounds(opcode);
        }

        if self.v[b3 as usize] == self.v[b2 as usize] {
            self.pc = self.pc + 2;
        }

        proof {
            assert(self@ =~= apply_action(s0, fb, opcode, 0).0 && apply_action(s0, fb, opcode,
                0).1 == fb) by {
                reveal(apply_action);
            }
        }
    }

    /// 6XNN : set V[X] = NN.
    #[verifier::rlimit(100)]
    #[verifier::spinoff_prover]
    fn op_set_kk(&mut self, opcode: u16, Ghost(fb): Ghost<Seq<u8>>)
        requires
            old(self).wf(),
            decode(opcode) == 8,
            step_ok(old(self)@, opcode),
        ensures
            final(self).wf(),
            final(self)@ == apply_action(old(self)@, fb, opcode, 0).0,
            apply_action(old(self)@, fb, opcode, 0).1 == fb,
            final(self).pc + 2 <= 65535,
    {
        let b3 = (opcode >> 8) & 0x000F;
        let kk = opcode & 0x00FF;
        let ghost s0 = self@;

        proof {
            lemma_op_field_bounds(opcode);
        }

        self.v[b3 as usize] = kk as u8;

        proof {
            assert(self@ =~= apply_action(s0, fb, opcode, 0).0 && apply_action(s0, fb, opcode,
                0).1 == fb) by {
                reveal(apply_action);
            }
        }
    }

    /// 7XNN : add NN to V[X], wrapping silently with no carry flag.
    #[verifier::rlimit(100)]
    #[verifier::spinoff_prover]
    fn op_add_kk(&mut self, opcode: u16, Ghost(fb): Ghost<Seq<u8>>)
        requires
            old(self).wf(),
            decode(opcode) == 9,
            step_ok(old(self)@, opcode),
        ensures
            final(self).wf(),
            final(self)@ == apply_action(old(self)@, fb, opcode, 0).0,
            apply_action(old(self)@, fb, opcode, 0).1 == fb,
            final(self).pc + 2 <= 65535,
    {
        let b3 = (opcode >> 8) & 0x000F;
        let kk = opcode & 0x00FF;
        let ghost s0 = self@;

        proof {
            lemma_op_field_bounds(opcode);
        }

        let t = self.v[b3 as usize].wrapping_add(kk as u8);
        self.v[b3 as usize] = t;

        proof {
            lemma_lo8_add(s0.v[b3 as int], kk as u8);
            assert(self@ =~= apply_action(s0, fb, opcode, 0).0 && apply_action(s0, fb, opcode,
                0).1 == fb) by {
                reveal(apply_action);
            }
        }
    }

    /// 8XY0 : set V[X] = V[Y].
    #[verifier::rlimit(100)]
    #[verifier::spinoff_prover]
    fn op_set_vy(&mut self, opcode: u16, Ghost(fb): Ghost<Seq<u8>>)
        requires
            old(self).wf(),
            decode(opcode) == 10,
            step_ok(old(self)@, opcode),
        ensures
            final(self).wf(),
            final(self)@ == apply_action(old(self)@, fb, opcode, 0).0,
            apply_action(old(self)@, fb, opcode, 0).1 == fb,
            final(self).pc + 2 <= 65535,
    {
        let b3 = (opcode >> 8) & 0x000F;
        let b2 = (opcode >> 4) & 0x000F;
        let ghost s0 = self@;

        proof {
            lemma_op_field_bounds(opcode);
        }

        self.v[b3 as usize] = self.v[b2 as usize];

        proof {
            assert(self@ =~= apply_action(s0, fb, opcode, 0).0 && apply_action(s0, fb, opcode,
                0).1 == fb) by {
                reveal(apply_action);
            }
        }
    }

    /// 8XY1 : set V[X] = V[X] OR V[Y].
    #[verifier::rlimit(100)]
    #[verifier::spinoff_prover]
    fn op_or_vy(&mut self, opcode: u16, Ghost(fb): Ghost<Seq<u8>>)
        requires
            old(self).wf(),
            decode(opcode) == 11,
            step_ok(old(self)@, opcode),
        ensures
            final(self).wf(),
            final(self)@ == apply_action(old(self)@, fb, opcode, 0).0,
            apply_action(old(self)@, fb, opcode, 0).1 == fb,
            final(self).pc + 2 <= 65535,
    {
        let b3 = (opcode >> 8) & 0x000F;
        let b2 = (opcode >> 4) & 0x000F;
        let ghost s0 = self@;

        proof {
            lemma_op_field_bounds(opcode);
        }

        let t = self.v[b3 as usize] | self.v[b2 as usize];
        self.v[b3 as usize] = t;

        proof {
            assert(self@ =~= apply_action(s0, fb, opcode, 0).0 && apply_action(s0, fb, opcode,
                0).1 == fb) by {
                reveal(apply_action);
            }
        }
    }

    /// 8XY2 : set V[X] = V[X] AND V[Y].
    #[verifier::rlimit(100)]
    #[verifier::spinoff_prover]
    fn op_and_vy(&mut self, opcode: u16, Ghost(fb): Ghost<Seq<u8>>)
        requires
            old(self).wf(),
            decode(opcode) == 12,
            step_ok(old(self)@, opcode),
        ensures
            final(self).wf(),
            final(self)@ == apply_action(old(self)@, fb, opcode, 0).0,
            apply_action(old(self)@, fb, opcode, 0).1 == fb,
            final(self).pc + 2 <= 65535,
    {
        let b3 = (opcode >> 8) & 0x000F;
        let b2 = (opcode >> 4) & 0x000F;
        let ghost s0 = self@;

        proof {
            lemma_op_field_bounds(opcode);
        }

        let t = self.v[b3 as usize] & self.v[b2 as usize];
        self.v[b3 as usize] = t;

        proof {
            assert(self@ =~= apply_action(s0, fb, opcode, 0).0 && apply_action(s0, fb, opcode,
                0).1 == fb) by {
                reveal(apply_action);
            }
        }
    }

    /// 8XY3 : set V[X] = V[X] XOR V[Y].
    #[verifier::rlimit(100)]
    #[verifier::spinoff_prover]
    fn op_xor_vy(&mut self, opcode: u16, Ghost(fb): Ghost<Seq<u8>>)
        requires
            old(self).wf(),
            decode(opcode) == 13,
            step_ok(old(self)@, opcode),
        ensures
            final(self).wf(),
            final(self)@ == apply_action(old(self)@, fb, opcode, 0).0,
            apply_action(old(self)@, fb, opcode, 0).1 == fb,
            final(self).pc + 2 <= 65535,
    {
        let b3 = (opcode >> 8) & 0x000F;
        let b2 = (opcode >> 4) & 0x000F;
        let ghost s0 = self@;

        proof {
            lemma_op_field_bounds(opcode);
        }

        let t = self.v[b3 as usize] ^ self.v[b2 as usize];
        self.v[b3 as usize] = t;

        proof {
            assert(self@ =~= apply_action(s0, fb, opcode, 0).0 && apply_action(s0, fb, opcode,
                0).1 == fb) by {
                reveal(apply_action);
            }
        }
    }

    /// 8XY4 : set V[X] = V[X] + V[Y] modulo 256, the carry into V[F] first.
    #[verifier::rlimit(100)]
    #[verifier::spinoff_prover]
    fn op_add_carry(&mut self, opcode: u16, Ghost(fb): Ghost<Seq<u8>>)
        requires
            old(self).wf(),
            decode(opcode) == 14,
            step_ok(old(self)@, opcode),
        ensures
            final(self).wf(),
            final(self)@ == apply_action(old(self)@, fb, opcode, 0).0,
            apply_action(old(self)@, fb, opcode, 0).1 == fb,
            final(self).pc + 2 <= 65535,
    {
        let b3 = (opcode >> 8) & 0x000F;
        let b2 = (opcode >> 4) & 0x000F;
        let ghost s0 = self@;

        proof {
            lemma_op_field_bounds(opcode);
        }

        let carry = self.v[b3 as usize] as u16 + self.v[b2 as usize] as u16 > 255;
        self.v[15] = if carry {
            1
        } else {
            0
        };
        let sum = self.v[b3 as usize] as u16 + self.v[b2 as usize] as u16;
        self.v[b3 as usize] = (sum % 256) as u8;

        proof {
            assert(self@ =~= apply_action(s0, fb, opcode, 0).0 && apply_action(s0, fb, opcode,
                0).1 == fb) by {
                reveal(apply_action);
            }
        }
    }

    /// 8XY5 : set V[X] = V[X] - V[Y] modulo 256, NOT-borrow into V[F] first.
    #[verifier::rlimit(100)]
    #[verifier::spinoff_prover]
    fn op_sub_borrow(&mut self, opcode: u16, Ghost(fb): Ghost<Seq<u8>>)
        requires
            old(self).wf(),
            decode(opcode) == 15,
            step_ok(old(self)@, opcode),
        ensures
            final(self).wf(),
            final(self)@ == apply_action(old(self)@, fb, opcode, 0).0,
            apply_action(old(self)@, fb, opcode, 0).1 == fb,
            final(self).pc + 2 <= 65535,
    {
        let b3 = (opcode >> 8) & 0x000F;
        let b2 = (opcode >> 4) & 0x000F;
        let ghost s0 = self@;

        proof {
            lemma_op_field_bounds(opcode);
        }

        let not_borrow = self.v[b3 as usize] >= self.v[b2 as usize];
        self.v[15] = if not_borrow {
            1
        } else {
            0
        };
        let t = self.v[b3 as usize].wrapping_sub(self.v[b2 as usize]);
        self.v[b3 as usize] = t;

        proof {
            let v1 = s0.v.update(15, if s0.v[b3 as int] >= s0.v[b2 as int] {
                1u8
            } else {
                0u8
            });
            lemma_lo8_sub(v1[b3 as int], v1[b2 as int]);
            assert(self@ =~= apply_action(s0, fb, opcode, 0).0 && apply_action(s0, fb, opcode,
                0).1 == fb) by {
                reveal(apply_action);
            }
        }
    }

    /// 8XY6 : shift V[X] right by one, bit 0 into V[F] first.
    #[verifier::rlimit(100)]
    #[verifier::spinoff_prover]
    fn op_shift_right(&mut self, opcode: u16, Ghost(fb): Ghost<Seq<u8>>)
        requires
            old(self).wf(),
            decode(opcode) == 16,
            step_ok(old(self)@, opcode),
        ensures
            final(self).wf(),
            final(self)@ == apply_action(old(self)@, fb, opcode, 0).0,
            apply_action(old(self)@, fb, opcode, 0).1 == fb,
            final(self).pc + 2 <= 65535,
    {
        let b3 = (opcode >> 8) & 0x000F;
        let ghost s0 = self@;

        proof {
            lemma_op_field_bounds(opcode);
        }

        let low_bit = self.v[b3 as usize] & 0x01;
        self.v[15] = low_bit;
        let t = self.v[b3 as usize] >> 1;
        self.v[b3 as usize] = t;

        proof {
            assert(self@ =~= apply_action(s0, fb, opcode, 0).0 && apply_action(s0, fb, opcode,
                0).1 == fb) by {
                reveal(apply_action);
            }
        }
    }

    /// 8XY7 : set V[X] = V[Y] - V[X] modulo 256, NOT-borrow into V[F] first.
    #[verifier::rlimit(100)]
    #[verifier::spinoff_prover]
    fn op_sub_reverse(&mut self, opcode: u16, Ghost(fb): Ghost<Seq<u8>>)
        requires
            old(self).wf(),
            decode(opcode) == 17,
            step_ok(old(self)@, opcode),
        ensures
            final(self).wf(),
            final(self)@ == apply_action(old(self)@, fb, opcode, 0).0,
            apply_action(old(self)@, fb, opcode, 0).1 == fb,
            final(self).pc + 2 <= 65535,
    {
        let b3 = (opcode >> 8) & 0x000F;
        let b2 = (opcode >> 4) & 0x000F;
        let ghost s0 = self@;

        proof {
            lemma_op_field_bounds(opcode);
        }

        let not_borrow = self.v[b2 as usize] >= self.v[b3 as usize];
        self.v[15] = if not_borrow {
            1
        } else {
            0
        };
        let t = self.v[b2 as usize].wrapping_sub(self.v[b3 as usize]);
        self.v[b3 as usize] = t;

        proof {
            let v1 = s0.v.update(15, if s0.v[b2 as int] >= s0.v[b3 as int] {
                1u8
            } else {
                0u8
            });
            lemma_lo8_sub(v1[b2 as int], v1[b3 as int]);
            assert(self@ =~= apply_action(s0, fb, opcode, 0).0 && apply_action(s0, fb, opcode,
                0).1 == fb) by {
                reveal(apply_action);
            }
        }
    }

    /// 8XYE : shift V[X] left by one modulo 256, bit 7 into V[F] first.
    #[verifier::rlimit(100)]
    #[verifier::spinoff_prover]
    fn op_shift_left(&mut self, opcode: u16, Ghost(fb): Ghost<Seq<u8>>)
        requires
            old(self).wf(),
            decode(opcode) == 18,
            step_ok(old(self)@, opcode),
        ensures
            final(self).wf(),
            final(self)@ == apply_action(old(self)@, fb, opcode, 0).0,
            apply_action(old(self)@, fb, opcode, 0).1 == fb,
            final(self).pc + 2 <= 65535,
    {
        let b3 = (opcode >> 8) & 0x000F;
        let ghost s0 = self@;

        proof {
            lemma_op_field_bounds(opcode);
        }

        let high_bit = self.v[b3 as usize] >> 7;
        self.v[15] = high_bit;
        let doubled = self.v[b3 as usize] as u16 * 2;
        self.v[b3 as usize] = (doubled % 256) as u8;

        proof {
            assert(self@ =~= apply_action(s0, fb, opcode, 0).0 && apply_action(s0, fb, opcode,
                0).1 == fb) by {
                reveal(apply_action);
            }
        }
    }

    /// 9XY0 : skip the next instruction if V[X] != V[Y].
    #[verifier::rlimit(100)]
    #[verifier::spinoff_prover]
    fn op_skip_neq_vy(&mut self, opcode: u16, Ghost(fb): Ghost<Seq<u8>>)
        requires
            old(self).wf(),
            decode(opcode) == 19,
            step_ok(old(self)@, opcode),
        ensures
            final(self).wf(),
            final(self)@ == apply_action(old(self)@, fb, opcode, 0).0,
            apply_action(old(self)@, fb, opcode, 0).1 == fb,
            final(self).pc + 2 <= 65535,
    {
        let b3 = (opcode >> 8) & 0x000F;
        let b2 = (opcode >> 4) & 0x000F;
        let ghost s0 = self@;

        proof {
            lemma_op_field_bounds(opcode);
        }

        if self.v[b3 as usize] != self.v[b2 as usize] {
            self.pc = self.pc + 2;
        }

        proof {
            assert(self@ =~= apply_action(s0, fb, opcode, 0).0 && apply_action(s0, fb, opcode,
                0).1 == fb) by {
                reveal(apply_action);
            }
        }
    }

    /// ANNN : set I = NNN.
    #[verifier::rlimit(100)]
    #[verifier::spinoff_prover]
    fn op_set_i(&mut self, opcode: u16, Ghost(fb): Ghost<Seq<u8>>)
        requires
            old(self).wf(),
            decode(opcode) == 20,
            step_ok(old(self)@, opcode),
        ensures
            final(self).wf(),
            final(self)@ == apply_action(old(self)@, fb, opcode, 0).0,
            apply_action(old(self)@, fb, opcode, 0).1 == fb,
            final(self).pc + 2 <= 65535,
    {
        let nnn = opcode & 0x0FFF;
        let ghost s0 = self@;

        proof {
            lemma_op_field_bounds(opcode);
        }

        self.i = nnn;

        proof {
            assert(self@ =~= apply_action(s0, fb, opcode, 0).0 && apply_action(s0, fb, opcode,
                0).1 == fb) by {
                reveal(apply_action);
            }
        }
    }

    /// BNNN : jump to NNN + V[0], pre-subtracting the increment.
    #[verifier::rlimit(100)]
    #[verifier::spinoff_prover]
    fn op_jump_plus_v0(&mut self, opcode: u16, Ghost(fb): Ghost<Seq<u8>>)
        requires
            old(self).wf(),
            decode(opcode) == 21,
            step_ok(old(self)@, opcode),
        ensures
            final(self).wf(),
            final(self)@ == apply_action(old(self)@, fb, opcode, 0).0,
            apply_action(old(self)@, fb, opcode, 0).1 == fb,
            final(self).pc + 2 <= 65535,
    {
        let nnn = opcode & 0x0FFF;
        let ghost s0 = self@;

        proof {
            lemma_op_field_bounds(opcode);
        }

        self.pc = nnn + self.v[0] as u16;
        self.pc = self.pc - 2;

        proof {
            assert(self@ =~= apply_action(s0, fb, opcode, 0).0 && apply_action(s0, fb, opcode,
                0).1 == fb) by {
                reveal(apply_action);
            }
        }
    }

    /// EX9E : skip the next instruction if key V[X] is pressed.
    #[verifier::rlimit(100)]
    #[verifier::spinoff_prover]
    fn op_skip_key_pressed(&mut self, opcode: u16, Ghost(fb): Ghost<Seq<u8>>)
        requires
            old(self).wf(),
            decode(opcode) == 24,
            step_ok(old(self)@, opcode),
        ensures
            final(self).wf(),
            final(self)@ == apply_action(old(self)@, fb, opcode, 0).0,
            apply_action(old(self)@, fb, opcode, 0).1 == fb,
            final(self).pc + 2 <= 65535,
    {
        let b3 = (opcode >> 8) & 0x000F;
        let ghost s0 = self@;

        proof {
            lemma_op_field_bounds(opcode);
        }

        if self.key[self.v[b3 as usize] as usize] {
            self.pc = self.pc + 2;
        }

        proof {
            assert(self@ =~= apply_action(s0, fb, opcode, 0).0 && apply_action(s0, fb, opcode,
                0).1 == fb) by {
                reveal(apply_action);
            }
        }
    }

    /// EXA1 : skip the next instruction if key V[X] is not pressed.
    #[verifier::rlimit(100)]
    #[verifier::spinoff_prover]
    fn op_skip_key_not_pressed(&mut self, opcode: u16, Ghost(fb): Ghost<Seq<u8>>)
        requires
            old(self).wf(),
            decode(opcode) == 25,
            step_ok(old(self)@, opcode),
        ensures
            final(self).wf(),
            final(self)@ == apply_action(old(self)@, fb, opcode, 0).0,
            apply_action(old(self)@, fb, opcode, 0).1 == fb,
            final(self).pc + 2 <= 65535,
    {
        let b3 = (opcode >> 8) & 0x000F;
        let ghost s0 = self@;

        proof {
            lemma_op_field_bounds(opcode);
        }

        if !self.key[self.v[b3 as usize] as usize] {
            self.pc = self.pc + 2;
        }

        proof {
            assert(self@ =~= apply_action(s0, fb, opcode, 0).0 && apply_action(s0, fb, opcode,
                0).1 == fb) by {
                reveal(apply_action);
            }
        }
    }

    /// FX07 : set V[X] from the delay timer.
    #[verifier::rlimit(100)]
    #[verifier::spinoff_prover]
    fn op_read_delay(&mut self, opcode: u16, Ghost(fb): Ghost<Seq<u8>>)
        requires
            old(self).wf(),
            decode(opcode) == 26,
            step_ok(old(self)@, opcode),
        ensures
            final(self).wf(),
            final(self)@ == apply_action(old(self)@, fb, opcode, 0).0,
            apply_action(old(self)@, fb, opcode, 0).1 == fb,
            final(self).pc + 2 <= 65535,
    {
        let b3 = (opcode >> 8) & 0x000F;
        let ghost s0 = self@;

        proof {
            lemma_op_field_bounds(opcode);
        }

        self.v[b3 as usize] = self.game_counter as u8;

        proof {
            assert(self@ =~= apply_action(s0, fb, opcode, 0).0 && apply_action(s0, fb, opcode,
                0).1 == fb) by {
                reveal(apply_action);
            }
        }
    }

    /// FX15 : set the delay timer from V[X].
    #[verifier::rlimit(100)]
    #[verifier::spinoff_prover]
    fn op_set_delay(&mut self, opcode: u16, Ghost(fb): Ghost<Seq<u8>>)
        requires
            old(self).wf(),
            decode(opcode) == 28,
            step_ok(old(self)@, opcode),
        ensures
            final(self).wf(),
            final(self)@ == apply_action(old(self)@, fb, opcode, 0).0,
            apply_action(old(self)@, fb, opcode, 0).1 == fb,
            final(self).pc + 2 <= 65535,
    {
        let b3 = (opcode >> 8) & 0x000F;
        let ghost s0 = self@;

        proof {
            lemma_op_field_bounds(opcode);
        }

        self.game_counter = self.v[b3 as usize] as u16;

        proof {
            assert(self@ =~= apply_action(s0, fb, opcode, 0).0 && apply_action(s0, fb, opcode,
                0).1 == fb) by {
                reveal(apply_action);
            }
        }
    }

    /// FX18 : set the sound timer from V[X].
    #[verifier::rlimit(100)]
    #[verifier::spinoff_prover]
    fn op_set_sound(&mut self, opcode: u16, Ghost(fb): Ghost<Seq<u8>>)
        requires
            old(self).wf(),
            decode(opcode) == 29,
            step_ok(old(self)@, opcode),
        ensures
            final(self).wf(),
            final(self)@ == apply_action(old(self)@, fb, opcode, 0).0,
            apply_action(old(self)@, fb, opcode, 0).1 == fb,
            final(self).pc + 2 <= 65535,
    {
        let b3 = (opcode >> 8) & 0x000F;
        let ghost s0 = self@;

        proof {
            lemma_op_field_bounds(opcode);
        }

        self.sound_counter = self.v[b3 as usize] as u16;

        proof {
            assert(self@ =~= apply_action(s0, fb, opcode, 0).0 && apply_action(s0, fb, opcode,
                0).1 == fb) by {
                reveal(apply_action);
            }
        }
    }

    /// FX1E : add V[X] to I, overflow past 0xFFF into V[F] first.
    #[verifier::rlimit(100)]
    #[verifier::spinoff_prover]
    fn op_add_i(&mut self, opcode: u16, Ghost(fb): Ghost<Seq<u8>>)
        requires
            old(self).wf(),
            decode(opcode) == 30,
            step_ok(old(self)@, opcode),
        ensures
            final(self).wf(),
            final(self)@ == apply_action(old(self)@, fb, opcode, 0).0,
            apply_action(old(self)@, fb, opcode, 0).1 == fb,
            final(self).pc + 2 <= 65535,
    {
        let b3 = (opcode >> 8) & 0x000F;
        let ghost s0 = self@;

        proof {
            lemma_op_field_bounds(opcode);
        }

        let overflowed = self.i as u32 + self.v[b3 as usize] as u32 > 0xFFF;
        self.v[15] = if overflowed {
            1
        } else {
            0
        };
        self.i = self.i + self.v[b3 as usize] as u16;

        proof {
            assert(self@ =~= apply_action(s0, fb, opcode, 0).0 && apply_action(s0, fb, opcode,
                0).1 == fb) by {
                reveal(apply_action);
            }
        }
    }

    /// FX29 : point I at the five-byte font sprite for digit V[X].
    #[verifier::rlimit(100)]
    #[verifier::spinoff_prover]
    fn op_font_address(&mut self, opcode: u16, Ghost(fb): Ghost<Seq<u8>>)
        requires
            old(self).wf(),
            decode(opcode) == 31,
            step_ok(old(self)@, opcode),
        ensures
            final(self).wf(),
            final(self)@ == apply_action(old(self)@, fb, opcode, 0).0,
            apply_action(old(self)@, fb, opcode, 0).1 == fb,
            final(self).pc + 2 <= 65535,
    {
        let b3 = (opcode >> 8) & 0x000F;
        let ghost s0 = self@;

        proof {
            lemma_op_field_bounds(opcode);
        }

        self.i = self.v[b3 as usize] as u16 * 5;

        proof {
            assert(self@ =~= apply_action(s0, fb, opcode, 0).0 && apply_action(s0, fb, opcode,
                0).1 == fb) by {
                reveal(apply_action);
            }
        }
    }

    /// FX33 : store the decimal digits of V[X] at I, I+1 and I+2.
    #[verifier::rlimit(100)]
    #[verifier::spinoff_prover]
    fn op_store_bcd(&mut self, opcode: u16, Ghost(fb): Ghost<Seq<u8>>)
        requires
            old(self).wf(),
            decode(opcode) == 32,
            step_ok(old(self)@, opcode),
        ensures
            final(self).wf(),
            final(self)@ == apply_action(old(self)@, fb, opcode, 0).0,
            apply_action(old(self)@, fb, opcode, 0).1 == fb,
            final(self).pc + 2 <= 65535,
    {
        let b3 = (opcode >> 8) & 0x000F;
        let ghost s0 = self@;

        proof {
            lemma_op_field_bounds(opcode);
        }

        let vx = self.v[b3 as usize];
        self.memory[self.i as usize] = vx / 100;
        self.memory[self.i as usize + 1] = (vx / 10) % 10;
        self.memory[self.i as usize + 2] = vx % 10;

        proof {
            assert(self@ =~= apply_action(s0, fb, opcode, 0).0 && apply_action(s0, fb, opcode,
                0).1 == fb) by {
                reveal(apply_action);
            }
        }
    }

    /// FX55 : store registers V[0] ..= V[X] in memory at I; I is unchanged.
    #[verifier::rlimit(100)]
    #[verifier::spinoff_prover]
    fn op_dump_registers(&mut self, opcode: u16, Ghost(fb): Ghost<Seq<u8>>)
        requires
            old(self).wf(),
            decode(opcode) == 33,
            step_ok(old(self)@, opcode),
        ensures
            final(self).wf(),
            final(self)@ == apply_action(old(self)@, fb, opcode, 0).0,
            apply_action(old(self)@, fb, opcode, 0).1 == fb,
            final(self).pc + 2 <= 65535,
    {
        let b3 = (opcode >> 8) & 0x000F;
        let ghost s0 = self@;

        proof {
            lemma_op_field_bounds(opcode);
        }

        let top = b3 as usize;
        let base = self.i as usize;
        let mut j: usize = 0;
        while j <= top
            invariant
                state_wf(s0),
                self@ == (CpuState { memory: self.memory@, ..s0 }),
                self.memory@.len() == 4096,
                top < 16,
                base == s0.i,
                base + top <= 4095,
                0 <= j <= top + 1,
                forall|p: int| base <= p < base + j ==> self.memory@[p] == s0.v[p - base],
                forall|p: int|
                    0 <= p < 4096 && !(base <= p < base + j) ==> self.memory@[p] == s0.memory[p],
            decreases top + 1 - j,
        {
            self.memory[base + j] = self.v[j];
            j = j + 1;
        }

        proof {
            assert(self.memory@ =~= Seq::new(s0.memory.len(), |p: int|
                if s0.i <= p <= s0.i + op_x(opcode) {
                    s0.v[p - s0.i]
                } else {
                    s0.memory[p]
                }));
            assert(self@ =~= apply_action(s0, fb, opcode, 0).0 && apply_action(s0, fb, opcode,
                0).1 == fb) by {
                reveal(apply_action);
            }
        }
    }

    /// FX65 : read registers V[0] ..= V[X] from memory at I; I is unchanged.
    #[verifier::rlimit(100)]
    #[verifier::spinoff_prover]
    fn op_load_registers(&mut self, opcode: u16, Ghost(fb): Ghost<Seq<u8>>)
        requires
            old(self).wf(),
            decode(opcode) == 34,
            step_ok(old(self)@, opcode),
        ensures
            final(self).wf(),
            final(self)@ == apply_action(old(self)@, fb, opcode, 0).0,
            apply_action(old(self)@, fb, opcode, 0).1 == fb,
            final(self).pc + 2 <= 65535,
    {
        let b3 = (opcode >> 8) & 0x000F;
        let ghost s0 = self@;

        proof {
            lemma_op_field_bounds(opcode);
        }

        let top = b3 as usize;
        let base = self.i as usize;
        let mut j: usize = 0;
        while j <= top
            invariant
                state_wf(s0),
                self@ == (CpuState { v: self.v@, ..s0 }),
                self.v@.len() == 16,
                top < 16,
                base == s0.i,
                base + top <= 4095,
                0 <= j <= top + 1,
                forall|r: int| 0 <= r < j ==> self.v@[r] == s0.memory[base + r],
                forall|r: int| j <= r < 16 ==> self.v@[r] == s0.v[r],
            decreases top + 1 - j,
        {
            self.v[j] = self.memory[base + j];
            j = j + 1;
        }

        proof {
            assert(self.v@ =~= Seq::new(s0.v.len(), |r: int|
                if 0 <= r <= op_x(opcode) {
                    s0.memory[s0.i + r]
                } else {
                    s0.v[r]
                }));
            assert(self@ =~= apply_action(s0, fb, opcode, 0).0 && apply_action(s0, fb, opcode,
                0).1 == fb) by {
                reveal(apply_action);
            }
        }
    }

    /// Executes one already-fetched instruction word against the machine
    /// state and the framebuffer, then advances the program counter by one
    /// instruction width. The step relation `step` pins the result down
    /// exactly; for the random action the step holds for the value the
    /// random source returned, and for every other action the step is
    /// independent of it.
    #[verifier::rlimit(100)]
    #[verifier::spinoff_prover]
    pub fn execute_opcode(&mut self, opcode: u16, pixels: &mut Vec<Pixel>)
        requires
            old(self).wf(),
            old(pixels)@.len() == 2048,
            step_ok(old(self)@, opcode),
        ensures
            final(self).wf(),
            final(pixels)@.len() == 2048,
            same_positions(old(pixels)@, final(pixels)@),
            decode(opcode) != 22 ==> final(self)@ == step(old(self)@, colors(old(pixels)@),
                opcode, 0).0 && colors(final(pixels)@) == step(old(self)@, colors(old(pixels)@),
                opcode, 0).1,
            exists|r: u16|
                final(self)@ == (#[trigger] step(old(self)@, colors(old(pixels)@), opcode, r)).0
                    && colors(final(pixels)@) == step(old(self)@, colors(old(pixels)@), opcode,
                    r).1,
    {
        let jump = Jump::new();
        let action = jump.get_action(opcode);

        let b3 = (opcode >> 8) & 0x000F;
        let b2 = (opcode >> 4) & 0x000F;
        let b1 = opcode & 0x000F;
        let kk = opcode & 0x00FF;

        let ghost s0 = self@;
        let ghost fb0 = colors(pixels@);
        let ghost mut rnd_g: u16 = 0;

        proof {
            lemma_op_field_bounds(opcode);
        }

        match action {
            1 => {
                // 00E0 : clear the screen
                Pixel::clear_screen(pixels);
                proof {
                    assert(colors(pixels@) =~= Seq::new(fb0.len(), |p: int| 0u8));
                    assert(self@ =~= apply_action(s0, fb0, opcode, 0).0 && colors(pixels@)
                        =~= apply_action(s0, fb0, opcode, 0).1) by {
                        reveal(apply_action);
                    }
                }
            },
            2 => self.op_return(opcode, Ghost(fb0)),
            3 => self.op_jump(opcode, Ghost(fb0)),
            4 => self.op_call(opcode, Ghost(fb0)),
            5 => self.op_skip_eq_kk(opcode, Ghost(fb0)),
            6 => self.op_skip_neq_kk(opcode, Ghost(fb0)),
            7 => self.op_skip_eq_vy(opcode, Ghost(fb0)),
            8 => self.op_set_kk(opcode, Ghost(fb0)),
            9 => self.op_add_kk(opcode, Ghost(fb0)),
            10 => self.op_set_vy(opcode, Ghost(fb0)),
            11 => self.op_or_vy(opcode, Ghost(fb0)),
            12 => self.op_and_vy(opcode, Ghost(fb0)),
            13 => self.op_xor_vy(opcode, Ghost(fb0)),
            14 => self.op_add_carry(opcode, Ghost(fb0)),
            15 => self.op_sub_borrow(opcode, Ghost(fb0)),
            16 => self.op_shift_right(opcode, Ghost(fb0)),
            17 => self.op_sub_reverse(opcode, Ghost(fb0)),
            18 => self.op_shift_left(opcode, Ghost(fb0)),
            19 => self.op_skip_neq_vy(opcode, Ghost(fb0)),
            20 => self.op_set_i(opcode, Ghost(fb0)),
            21 => self.op_jump_plus_v0(opcode, Ghost(fb0)),
            22 => {
                // CXNN : set V[X] = random value reduced modulo NN + 1
                let r = random_u16();
                self.v[b3 as usize] = (r % (kk + 1)) as u8;
                proof {
                    rnd_g = r;
                    assert(self@ =~= apply_action(s0, fb0, opcode, r).0 && colors(pixels@)
                        =~= apply_action(s0, fb0, opcode, r).1) by {
                        reveal(apply_action);
                    }
                }
            },
            23 => {
                // DXYN : draw the sprite, collision into V[F]
                Pixel::draw_screen(self, pixels, b1, b2, b3);
                proof {
                    assert(self@ =~= apply_action(s0, fb0, opcode, 0).0 && colors(pixels@)
                        =~= apply_action(s0, fb0, opcode, 0).1) by {
                        reveal(apply_action);
                    }
                }
            },
            24 => self.op_skip_key_pressed(opcode, Ghost(fb0)),
            25 => self.op_skip_key_not_pressed(opcode, Ghost(fb0)),
            26 => self.op_read_delay(opcode, Ghost(fb0)),
            28 => self.op_set_delay(opcode, Ghost(fb0)),
            29 => self.op_set_sound(opcode, Ghost(fb0)),
            30 => self.op_add_i(opcode, Ghost(fb0)),
            31 => self.op_font_address(opcode, Ghost(fb0)),
            32 => self.op_store_bcd(opcode, Ghost(fb0)),
            33 => self.op_dump_registers(opcode, Ghost(fb0)),
            34 => self.op_load_registers(opcode, Ghost(fb0)),
            _ => {
                // The key-wait action and any unknown word, the unmatched
                // 0NNN family included: the decode miss is non-fatal, the
                // machine is untouched and the program counter still
                // advances
                proof {
                    assert(self@ =~= apply_action(s0, fb0, opcode, 0).0 && colors(pixels@)
                        =~= apply_action(s0, fb0, opcode, 0).1) by {
                        reveal(apply_action);
                    }
                }
            },
        }

        let ghost mid = self@;
        let ghost fbmid = colors(pixels@);

        proof {
            assert(mid == apply_action(s0, fb0, opcode, rnd_g).0);
            assert(fbmid == apply_action(s0, fb0, opcode, rnd_g).1);
        }

        self.pc = self.pc + 2;

        proof {
            lemma_step_compose(s0, fb0, opcode, rnd_g, mid, fbmid, self@);
        }
    }
}

/// Law: a call followed by a return from the subroutine restores the
/// program counter to exactly the instruction following the original
/// call, and the stack depth to what it was, provided the stack had a
/// free frame for the call.
#[verifier::rlimit(100)]
#[verifier::spinoff_prover]
pub proof fn lemma_call_return_round_trip(
    s: CpuState,
    fb: Seq<u8>,
    call_op: u16,
    ret_op: u16,
    rnd1: u16,
    rnd2: u16,
)
    requires
        state_wf(s),
        decode(call_op) == 4,
        decode(ret_op) == 2,
        s.number_jump < 15,
        op_nnn(call_op) >= 2,
        s.pc + 2 <= 65535,
    ensures
        ({
            let after_call = step(s, fb, call_op, rnd1);
            let after_ret = step(after_call.0, after_call.1, ret_op, rnd2);
            &&& after_ret.0.pc == s.pc + 2
            &&& after_ret.0.number_jump == s.number_jump
            &&& after_ret.0.memory == s.memory
            &&& after_ret.0.v == s.v
            &&& after_ret.1 == fb
        }),
{
    reveal(apply_action);
    lemma_op_field_bounds(call_op);
    let nnn = op_nnn(call_op);
    let after_call = step(s, fb, call_op, rnd1);
    assert(after_call.0.pc == nnn);
    assert(after_call.0.number_jump == s.number_jump + 1);
    assert(after_call.0.jump == s.jump.update(s.number_jump as int, s.pc));
    assert(after_call.1 == fb);
    let after_ret = step(after_call.0, after_call.1, ret_op, rnd2);
    assert(after_ret.0.pc == s.pc + 2);
    assert(after_ret.0.number_jump == s.number_jump);
}

/// Law: dumping registers V[0] through V[X] to memory, then rewriting
/// the register bank arbitrarily, then loading V[0] through V[X] back
/// from the same index register restores the original values of V[0]
/// through V[X] inclusive.
pub proof fn lemma_dump_load_round_trip(
    s: CpuState,
    fb: Seq<u8>,
    dump_op: u16,
    load_op: u16,
    mid_v: Seq<u8>,
    rnd1: u16,
    rnd2: u16,
)
    requires
        state_wf(s),
        decode(dump_op) == 33,
        decode(load_op) == 34,
        op_x(load_op) == op_x(dump_op),
        s.i + op_x(dump_op) <= 4095,
        mid_v.len() == 16,
    ensures
        ({
            let after_dump = step(s, fb, dump_op, rnd1);
            let rewritten = CpuState { v: mid_v, ..after_dump.0 };
            let after_load = step(rewritten, after_dump.1, load_op, rnd2);
            forall|r: int| 0 <= r <= op_x(dump_op) ==> after_load.0.v[r] == s.v[r]
        }),
{
    reveal(apply_action);
    lemma_op_field_bounds(dump_op);
    let x = op_x(dump_op);
    let after_dump = step(s, fb, dump_op, rnd1);
    let rewritten = CpuState { v: mid_v, ..after_dump.0 };
    let after_load = step(rewritten, after_dump.1, load_op, rnd2);
    assert forall|r: int| 0 <= r <= x implies after_load.0.v[r] == s.v[r] by {
        assert(after_dump.0.memory[s.i + r] == s.v[r]);
    }
}

/// Relies on rand::random: draws a value from the thread-local random
/// generator. Nothing is promised of the result; callers state what
/// holds of every outcome. The generator can panic if the operating
/// system's entropy source fails at first seeding or at a reseed: an
/// environmental failure, not reachable through any input.
#[verifier::external_body]
fn random_u16() -> u16 {
    rand::random::<u16>()
}

/// Register addition wraps modulo 256: the wrapping operation computes
/// exactly the reduced sum.
pub proof fn lemma_lo8_add(a: u8, b: u8)
    ensures
        a.wrapping_add(b) == lo8(a + b),
{
}

/// Register subtraction wraps modulo 256: the wrapping operation
/// computes exactly the reduced difference.
pub proof fn lemma_lo8_sub(a: u8, b: u8)
    ensures
        a.wrapping_sub(b) == lo8(a - b),
{
}

/// The instruction table: a fixed ordered list of 35 (mask, pattern)
/// entries, one per recognized instruction encoding. Exact encodings
/// (clear-screen, return) come before the wider wildcard families so a
/// generic pattern never shadows a specific one.
pub struct Jump {
    pub mask: Vec<u16>,
    pub id: Vec<u16>,
}

impl Jump {
    /// The table holds exactly the fixed mask/pattern pairs, in order.
    pub open spec fn wf(&self) -> bool {
        &&& self.mask@.len() == 35
        &&& self.id@.len() == 35
        &&& forall|k: int|
            0 <= k < 35 ==> (#[trigger] self.mask@[k]) == table_mask(k) && self.id@[k]
                == table_pattern(k)
    }

    #[verifier::rlimit(50)]
    pub fn new() -> (jp: Jump)
        ensures
            jp.wf(),
    {
        let mut mask: Vec<u16> = Vec::new();
        let mut id: Vec<u16> = Vec::new();

        // 0NNN
        mask.push(0x0000);
        id.push(0x0FFF);

        // 00E0
        mask.push(0xFFFF);
        id.push(0x00E0);

        // 00EE
        mask.push(0xFFFF);
        id.push(0x00EE);

        // 1NNN
        mask.push(0xF000);
        id.push(0x1000);

        // 2NNN
        mask.push(0xF000);
        id.push(0x2000);

        // 3XNN
        mask.push(0xF000);
        id.push(0x3000);

        // 4XNN
        mask.push(0xF000);
        id.push(0x4000);

        // 5XY0
        mask.push(0xF00F);
        id.push(0x5000);

        // 6XNN
        mask.push(0xF000);
        id.push(0x6000);

        // 7XNN
        mask.push(0xF000);
        id.push(0x7000);

        // 8XY0
        mask.push(0xF00F);
        id.push(0x8000);

        // 8XY1
        mask.push(0xF00F);
        id.push(0x8001);

        // 8XY2
        mask.push(0xF00F);
        id.push(0x8002);

        // 8XY3
        mask.push(0xF00F);
        id.push(0x8003);

        // 8XY4
        mask.push(0xF00F);
        id.push(0x8004);

        // 8XY5
        mask.push(0xF00F);
        id.push(0x8005);

        // 8XY6
        mask.push(0xF00F);
        id.push(0x8006);

        // 8XY7
        mask.push(0xF00F);
        id.push(0x8007);

        // 8XYE
        mask.push(0xF00F);
        id.push(0x800E);

        // 9XY0
        mask.push(0xF00F);
        id.push(0x9000);

        // ANNN
        mask.push(0xF000);
        id.push(0xA000);

        // BNNN
        mask.push(0xF000);
        id.push(0xB000);

        // CXNN
        mask.push(0xF000);
        id.push(0xC000);

        // DXYN
        mask.push(0xF000);
        id.push(0xD000);

        // EX9E
        mask.push(0xF0FF);
        id.push(0xE09E);

        // EXA1
        mask.push(0xF0FF);
        id.push(0xE0A1);

        // FX07
        mask.push(0xF0FF);
        id.push(0xF007);

        // FX0A
        mask.push(0xF0FF);
        id.push(0xF00A);

        // FX15
        mask.push(0xF0FF);
        id.push(0xF015);

        // FX18
        mask.push(0xF0FF);
        id.push(0xF018);

        // FX1E
        mask.push(0xF0FF);
        id.push(0xF01E);

        // FX29
        mask.push(0xF0FF);
        id.push(0xF029);

        // FX33
        mask.push(0xF0FF);
        id.push(0xF033);

        // FX55
        mask.push(0xF0FF);
        id.push(0xF055);

        // FX65
        mask.push(0xF0FF);
        id.push(0xF065);

        Jump { mask, id }
    }

    /// Resolves an instruction word to exactly one action id: the first
    /// table entry, in table order, whose masked word equals its pattern,
    /// or the unknown action 0.
    pub fn get_action(&self, opcode: u16) -> (action: u16)
        requires
            self.wf(),
        ensures
            action == decode(opcode),
    {
        let mut entry: usize = 0;
        while entry < 35
            invariant
                self.wf(),
                0 <= entry <= 35,
                decode(opcode) == decode_from(opcode, entry as int),
            decreases 35 - entry,
        {
            let result = self.mask[entry] & opcode;

            if result == self.id[entry] {
                return entry as u16;
            }
            proof {
                assert(decode_from(opcode, entry as int) == decode_from(opcode, entry as int + 1));
            }
            entry = entry + 1;
        }

        0
    }
}

} // verus!

