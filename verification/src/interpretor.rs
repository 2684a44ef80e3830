//! The fetch-decode-execute engine: registers, call stack, timers, key lines
//! and the full opcode semantics, one instruction per cycle.

use vstd::prelude::*;

use rand::Rng;

verus! {

use crate::display::{
    Display, ScreenState, blank_screen, spec_draw, spec_draw_collides, pixel,
};
use crate::memory::{Memory, PROGRAM_START, initial_memory, word_at};

/// Bound on the nesting depth of the call stack; deeper nesting is a fault.
pub const STACK_DEPTH: usize = 16;

/// One decoded instruction; nibble fields carry register indices (always below
/// 16), `u16` fields carry 12-bit addresses.
pub enum Instr {
    /// 00E0: clear the display.
    Cls,
    /// 00EE: pop the return address into the program counter.
    Ret,
    /// 1NNN: jump.
    Jump(u16),
    /// 2NNN: push the program counter, then jump.
    Call(u16),
    /// 3XNN: skip the next instruction if register X equals NN.
    SkipEqImm(u8, u8),
    /// 4XNN: skip the next instruction if register X differs from NN.
    SkipNeImm(u8, u8),
    /// 5XY0: skip the next instruction if registers X and Y are equal.
    SkipEqReg(u8, u8),
    /// 6XNN: set register X to NN.
    SetImm(u8, u8),
    /// 7XNN: add NN to register X with wraparound; no flag change.
    AddImm(u8, u8),
    /// 8XY0: register X := register Y.
    Mov(u8, u8),
    /// 8XY1: register X := X OR Y; the flag register is cleared.
    Or(u8, u8),
    /// 8XY2: register X := X AND Y; the flag register is cleared.
    And(u8, u8),
    /// 8XY3: register X := X XOR Y; the flag register is cleared.
    Xor(u8, u8),
    /// 8XY4: register X := X + Y with wraparound; flag 1 on carry, else 0.
    Add(u8, u8),
    /// 8XY5: register X := X - Y with wraparound; flag 1 when no borrow.
    Sub(u8, u8),
    /// 8XY6: flag := low bit of Y; register X := Y shifted right by one.
    ShiftRight(u8, u8),
    /// 8XY7: register X := Y - X with wraparound; flag 1 when no borrow.
    SubRev(u8, u8),
    /// 8XYE: flag := high bit of Y; register X := Y shifted left by one.
    ShiftLeft(u8, u8),
    /// 9XY0: skip the next instruction if registers X and Y differ.
    SkipNeReg(u8, u8),
    /// ANNN: index register := NNN.
    SetIndex(u16),
    /// BNNN: jump to register 0 + NNN.
    JumpOffset(u16),
    /// CXNN: register X := random byte XOR NN.
    Rand(u8, u8),
    /// DXYN: draw an N-byte sprite from the index register at (register X,
    /// register Y); flag set to 1 on collision, else left unchanged.
    Draw(u8, u8, u8),
    /// EX9E: skip the next instruction if the key numbered by register X is
    /// pressed.
    SkipKey(u8),
    /// EXA1: skip the next instruction if that key is not pressed.
    SkipNoKey(u8),
    /// FX07: register X := delay timer.
    GetDelay(u8),
    /// FX0A: block until a key is pressed and then released; latches the key
    /// number into register X.
    WaitKey(u8),
    /// FX15: delay timer := register X.
    SetDelay(u8),
    /// FX18: sound timer := register X.
    SetSound(u8),
    /// FX1E: index register += register X with wraparound.
    AddIndex(u8),
    /// FX29: index register := font address of the digit in register X.
    FontIndex(u8),
    /// FX33: store the decimal digits of register X at the index register.
    StoreBcd(u8),
    /// FX55: dump registers 0..=X to memory at the index register, which is
    /// left advanced past them.
    StoreRegs(u8),
    /// FX65: load registers 0..=X from memory at the index register, which is
    /// likewise left advanced.
    LoadRegs(u8),
    /// Anything else: treated as a no-op.
    Unknown(u16),
}

/// The X nibble of an instruction word: bits 8..12.
pub open spec fn op_x(op: u16) -> u8 {
    ((op >> 8) & 0xF) as u8
}

/// The Y nibble of an instruction word: bits 4..8.
pub open spec fn op_y(op: u16) -> u8 {
    ((op >> 4) & 0xF) as u8
}

/// The low nibble of an instruction word.
pub open spec fn op_n(op: u16) -> u8 {
    (op & 0xF) as u8
}

/// The low byte of an instruction word.
pub open spec fn op_nn(op: u16) -> u8 {
    (op & 0xFF) as u8
}

/// The low 12 bits of an instruction word.
pub open spec fn op_nnn(op: u16) -> u16 {
    op & 0xFFF
}

/// Decodes an instruction word into its tagged variant.
pub open spec fn spec_decode(op: u16) -> Instr {
    let group = op >> 12;
    if op == 0x00E0 {
        Instr::Cls
    } else if op == 0x00EE {
        Instr::Ret
    } else if group == 0x1 {
        Instr::Jump(op_nnn(op))
    } else if group == 0x2 {
        Instr::Call(op_nnn(op))
    } else if group == 0x3 {
        Instr::SkipEqImm(op_x(op), op_nn(op))
    } else if group == 0x4 {
        Instr::SkipNeImm(op_x(op), op_nn(op))
    } else if group == 0x5 && op_n(op) == 0 {
        Instr::SkipEqReg(op_x(op), op_y(op))
    } else if group == 0x6 {
        Instr::SetImm(op_x(op), op_nn(op))
    } else if group == 0x7 {
        Instr::AddImm(op_x(op), op_nn(op))
    } else if group == 0x8 {
        let kind = op_n(op);
        if kind == 0x0 {
            Instr::Mov(op_x(op), op_y(op))
        } else if kind == 0x1 {
            Instr::Or(op_x(op), op_y(op))
        } else if kind == 0x2 {
            Instr::And(op_x(op), op_y(op))
        } else if kind == 0x3 {
            Instr::Xor(op_x(op), op_y(op))
        } else if kind == 0x4 {
            Instr::Add(op_x(op), op_y(op))
        } else if kind == 0x5 {
            Instr::Sub(op_x(op), op_y(op))
        } else if kind == 0x6 {
            Instr::ShiftRight(op_x(op), op_y(op))
        } else if kind == 0x7 {
            Instr::SubRev(op_x(op), op_y(op))
        } else if kind == 0xE {
            Instr::ShiftLeft(op_x(op), op_y(op))
        } else {
            Instr::Unknown(op)
        }
    } else if group == 0x9 && op_n(op) == 0 {
        Instr::SkipNeReg(op_x(op), op_y(op))
    } else if group == 0xA {
        Instr::SetIndex(op_nnn(op))
    } else if group == 0xB {
        Instr::JumpOffset(op_nnn(op))
    } else if group == 0xC {
        Instr::Rand(op_x(op), op_nn(op))
    } else if group == 0xD {
        Instr::Draw(op_x(op), op_y(op), op_n(op))
    } else if group == 0xE && op_nn(op) == 0x9E {
        Instr::SkipKey(op_x(op))
    } else if group == 0xE && op_nn(op) == 0xA1 {
        Instr::SkipNoKey(op_x(op))
    } else if group == 0xF {
        let kind = op_nn(op);
        if kind == 0x07 {
            Instr::GetDelay(op_x(op))
        } else if kind == 0x0A {
            Instr::WaitKey(op_x(op))
        } else if kind == 0x15 {
            Instr::SetDelay(op_x(op))
        } else if kind == 0x18 {
            Instr::SetSound(op_x(op))
        } else if kind == 0x1E {
            Instr::AddIndex(op_x(op))
        } else if kind == 0x29 {
            Instr::FontIndex(op_x(op))
        } else if kind == 0x33 {
            Instr::StoreBcd(op_x(op))
        } else if kind == 0x55 {
            Instr::StoreRegs(op_x(op))
        } else if kind == 0x65 {
            Instr::LoadRegs(op_x(op))
        } else {
            Instr::Unknown(op)
        }
    } else {
        Instr::Unknown(op)
    }
}

/// Register indices sit below 16 and addresses below 4096, as 4- and 12-bit
/// fields guarantee.
pub open spec fn instr_wf(instr: Instr) -> bool {
    match instr {
        Instr::Cls => true,
        Instr::Ret => true,
        Instr::Jump(nnn) => nnn < 0x1000,
        Instr::Call(nnn) => nnn < 0x1000,
        Instr::SkipEqImm(x, _) => x < 16,
        Instr::SkipNeImm(x, _) => x < 16,
        Instr::SkipEqReg(x, y) => x < 16 && y < 16,
        Instr::SetImm(x, _) => x < 16,
        Instr::AddImm(x, _) => x < 16,
        Instr::Mov(x, y) => x < 16 && y < 16,
        Instr::Or(x, y) => x < 16 && y < 16,
        Instr::And(x, y) => x < 16 && y < 16,
        Instr::Xor(x, y) => x < 16 && y < 16,
        Instr::Add(x, y) => x < 16 && y < 16,
        Instr::Sub(x, y) => x < 16 && y < 16,
        Instr::ShiftRight(x, y) => x < 16 && y < 16,
        Instr::SubRev(x, y) => x < 16 && y < 16,
        Instr::ShiftLeft(x, y) => x < 16 && y < 16,
        Instr::SkipNeReg(x, y) => x < 16 && y < 16,
        Instr::SetIndex(nnn) => nnn < 0x1000,
        Instr::JumpOffset(nnn) => nnn < 0x1000,
        Instr::Rand(x, _) => x < 16,
        Instr::Draw(x, y, n) => x < 16 && y < 16 && n < 16,
        Instr::SkipKey(x) => x < 16,
        Instr::SkipNoKey(x) => x < 16,
        Instr::GetDelay(x) => x < 16,
        Instr::WaitKey(x) => x < 16,
        Instr::SetDelay(x) => x < 16,
        Instr::SetSound(x) => x < 16,
        Instr::AddIndex(x) => x < 16,
        Instr::FontIndex(x) => x < 16,
        Instr::StoreBcd(x) => x < 16,
        Instr::StoreRegs(x) => x < 16,
        Instr::LoadRegs(x) => x < 16,
        Instr::Unknown(_) => true,
    }
}

/// Every decoded instruction carries in-range fields.
pub proof fn lemma_decode_wf(op: u16)
    ensures
        instr_wf(spec_decode(op)),
{
    assert(((op >> 8) & 0xF) < 16 && ((op >> 4) & 0xF) < 16 && (op & 0xF) < 16 && (op & 0xFFF)
        < 0x1000) by (bit_vector);
}

/// Decodes an instruction word.
fn decode(op: u16) -> (r: Instr)
    ensures
        r == spec_decode(op),
{
    let group = op >> 12;
    let x = ((op >> 8) & 0xF) as u8;
    let y = ((op >> 4) & 0xF) as u8;
    let n = (op & 0xF) as u8;
    let nn = (op & 0xFF) as u8;
    let nnn = op & 0xFFF;
    if op == 0x00E0 {
        Instr::Cls
    } else if op == 0x00EE {
        Instr::Ret
    } else if group == 0x1 {
        Instr::Jump(nnn)
    } else if group == 0x2 {
        Instr::Call(nnn)
    } else if group == 0x3 {
        Instr::SkipEqImm(x, nn)
    } else if group == 0x4 {
        Instr::SkipNeImm(x, nn)
    } else if group == 0x5 && n == 0 {
        Instr::SkipEqReg(x, y)
    } else if group == 0x6 {
        Instr::SetImm(x, nn)
    } else if group == 0x7 {
        Instr::AddImm(x, nn)
    } else if group == 0x8 {
        if n == 0x0 {
            Instr::Mov(x, y)
        } else if n == 0x1 {
            Instr::Or(x, y)
        } else if n == 0x2 {
            Instr::And(x, y)
        } else if n == 0x3 {
            Instr::Xor(x, y)
        } else if n == 0x4 {
            Instr::Add(x, y)
        } else if n == 0x5 {
            Instr::Sub(x, y)
        } else if n == 0x6 {
            Instr::ShiftRight(x, y)
        } else if n == 0x7 {
            Instr::SubRev(x, y)
        } else if n == 0xE {
            Instr::ShiftLeft(x, y)
        } else {
            Instr::Unknown(op)
        }
    } else if group == 0x9 && n == 0 {
        Instr::SkipNeReg(x, y)
    } else if group == 0xA {
        Instr::SetIndex(nnn)
    } else if group == 0xB {
        Instr::JumpOffset(nnn)
    } else if group == 0xC {
        Instr::Rand(x, nn)
    } else if group == 0xD {
        Instr::Draw(x, y, n)
    } else if group == 0xE && nn == 0x9E {
        Instr::SkipKey(x)
    } else if group == 0xE && nn == 0xA1 {
        Instr::SkipNoKey(x)
    } else if group == 0xF {
        if nn == 0x07 {
            Instr::GetDelay(x)
        } else if nn == 0x0A {
            Instr::WaitKey(x)
        } else if nn == 0x15 {
            Instr::SetDelay(x)
        } else if nn == 0x18 {
            Instr::SetSound(x)
        } else if nn == 0x1E {
            Instr::AddIndex(x)
        } else if nn == 0x29 {
            Instr::FontIndex(x)
        } else if nn == 0x33 {
            Instr::StoreBcd(x)
        } else if nn == 0x55 {
            Instr::StoreRegs(x)
        } else if nn == 0x65 {
            Instr::LoadRegs(x)
        } else {
            Instr::Unknown(op)
        }
    } else {
        Instr::Unknown(op)
    }
}

/// The mathematical state of the whole machine.
#[verifier::ext_equal]
pub struct VmState {
    /// All addressable bytes.
    pub mem: Seq<u8>,
    /// The frame buffer.
    pub screen: ScreenState,
    /// The sixteen general-purpose registers; the last one is the flag
    /// register.
    pub regs: Seq<u8>,
    /// Return addresses of the calls in progress, innermost last.
    pub stack: Seq<u16>,
    /// The sixteen key lines; true while pressed.
    pub keys: Seq<bool>,
    /// Delay timer, decremented once per cycle down to zero.
    pub delay_timer: u8,
    /// Sound timer, decremented once per cycle down to zero.
    pub sound_timer: u8,
    /// Whether the cycle just executed drew to the screen.
    pub has_drawn: bool,
    /// Whether a blocking key read has latched a key and now waits for all
    /// keys to be released.
    pub blocked: bool,
    /// The index register, a memory-address base.
    pub i: u16,
    /// The program counter.
    pub pc: int,
}

impl VmState {
    /// The register file and key latch have their fixed sizes, the call stack
    /// respects its bound, the screen is consistent, and the whole memory is
    /// addressable through the 16-bit index register.
    pub open spec fn wf(self) -> bool {
        &&& self.regs.len() == 16
        &&& self.keys.len() == 16
        &&& self.stack.len() <= STACK_DEPTH
        &&& self.screen.wf()
        &&& PROGRAM_START <= self.mem.len() <= 0xFFFF
        &&& 0 <= self.pc
    }
}

/// A countdown timer after one cycle: decremented, floored at zero.
pub open spec fn dec_timer(t: u8) -> u8 {
    if t > 0 {
        (t - 1) as u8
    } else {
        0
    }
}

/// The start of a cycle: both timers decay and the frame-changed flag resets.
pub open spec fn spec_tick(s: VmState) -> VmState {
    VmState {
        delay_timer: dec_timer(s.delay_timer),
        sound_timer: dec_timer(s.sound_timer),
        has_drawn: false,
        ..s
    }
}

/// The instruction word at the program counter.
pub open spec fn spec_fetch(s: VmState) -> u16 {
    word_at(s.mem, s.pc)
}

/// Whether any of the sixteen keys is pressed.
pub open spec fn some_key_pressed(keys: Seq<bool>) -> bool {
    exists|k: int| 0 <= k < 16 && keys[k]
}

/// The lowest pressed key at or above `k`; 16 when none is.
pub open spec fn first_pressed_from(keys: Seq<bool>, k: int) -> int
    decreases 16 - k,
{
    if k < 0 || k >= 16 {
        16
    } else if keys[k] {
        k
    } else {
        first_pressed_from(keys, k + 1)
    }
}

/// Memory after dumping registers 0..=x to consecutive addresses from `base`.
pub open spec fn store_regs(mem: Seq<u8>, regs: Seq<u8>, base: int, x: int) -> Seq<u8> {
    Seq::new(
        mem.len(),
        |j: int|
            if base <= j <= base + x {
                regs[j - base]
            } else {
                mem[j]
            },
    )
}

/// Registers after loading 0..=x from consecutive addresses from `base`.
pub open spec fn load_regs(regs: Seq<u8>, mem: Seq<u8>, base: int, x: int) -> Seq<u8> {
    Seq::new(
        16,
        |j: int|
            if 0 <= j <= x {
                mem[base + j]
            } else {
                regs[j]
            },
    )
}

/// What executing one decoded instruction does to the machine, program
/// counter advance included; `rnd` is the byte a random source supplied.
pub open spec fn spec_exec_instr(s: VmState, instr: Instr, rnd: u8) -> VmState {
    match instr {
        Instr::Cls => VmState {
            screen: ScreenState {
                buffer: Seq::new(s.screen.buffer.len(), |k: int| 0u8),
                ..s.screen
            },
            pc: s.pc + 2,
            ..s
        },
        Instr::Ret => VmState { stack: s.stack.drop_last(), pc: s.stack.last() + 2, ..s },
        Instr::Jump(nnn) => VmState { pc: nnn as int, ..s },
        Instr::Call(nnn) => VmState {
            stack: s.stack.push(s.pc as u16),
            pc: nnn as int,
            ..s
        },
        Instr::SkipEqImm(x, nn) => VmState {
            pc: s.pc + (if s.regs[x as int] == nn {
                4int
            } else {
                2int
            }),
            ..s
        },
        Instr::SkipNeImm(x, nn) => VmState {
            pc: s.pc + (if s.regs[x as int] != nn {
                4int
            } else {
                2int
            }),
            ..s
        },
        Instr::SkipEqReg(x, y) => VmState {
            pc: s.pc + (if s.regs[x as int] == s.regs[y as int] {
                4int
            } else {
                2int
            }),
            ..s
        },
        Instr::SetImm(x, nn) => VmState { regs: s.regs.update(x as int, nn), pc: s.pc + 2, ..s },
        Instr::AddImm(x, nn) => VmState {
            regs: s.regs.update(x as int, s.regs[x as int].wrapping_add(nn)),
            pc: s.pc + 2,
            ..s
        },
        Instr::Mov(x, y) => VmState {
            regs: s.regs.update(x as int, s.regs[y as int]),
            pc: s.pc + 2,
            ..s
        },
        Instr::Or(x, y) => VmState {
            regs: s.regs.update(x as int, s.regs[x as int] | s.regs[y as int]).update(15, 0u8),
            pc: s.pc + 2,
            ..s
        },
        Instr::And(x, y) => VmState {
            regs: s.regs.update(x as int, s.regs[x as int] & s.regs[y as int]).update(15, 0u8),
            pc: s.pc + 2,
            ..s
        },
        Instr::Xor(x, y) => VmState {
            regs: s.regs.update(x as int, s.regs[x as int] ^ s.regs[y as int]).update(15, 0u8),
            pc: s.pc + 2,
            ..s
        },
        Instr::Add(x, y) => VmState {
            regs: s.regs.update(
                x as int,
                s.regs[x as int].wrapping_add(s.regs[y as int]),
            ).update(
                15,
                if s.regs[x as int] + s.regs[y as int] > 255 {
                    1u8
                } else {
                    0u8
                },
            ),
            pc: s.pc + 2,
            ..s
        },
        Instr::Sub(x, y) => VmState {
            regs: s.regs.update(
                x as int,
                s.regs[x as int].wrapping_sub(s.regs[y as int]),
            ).update(
                15,
                if s.regs[x as int] >= s.regs[y as int] {
                    1u8
                } else {
                    0u8
                },
            ),
            pc: s.pc + 2,
            ..s
        },
        Instr::ShiftRight(x, y) => VmState {
            regs: s.regs.update(x as int, s.regs[y as int] >> 1u8).update(
                15,
                s.regs[y as int] & 1,
            ),
            pc: s.pc + 2,
            ..s
        },
        Instr::SubRev(x, y) => VmState {
            regs: s.regs.update(
                x as int,
                s.regs[y as int].wrapping_sub(s.regs[x as int]),
            ).update(
                15,
                if s.regs[y as int] >= s.regs[x as int] {
                    1u8
                } else {
                    0u8
                },
            ),
            pc: s.pc + 2,
            ..s
        },
        Instr::ShiftLeft(x, y) => VmState {
            regs: s.regs.update(x as int, (s.regs[y as int] & 0x7F) << 1u8).update(
                15,
                (s.regs[y as int] & 0x80) >> 7u8,
            ),
            pc: s.pc + 2,
            ..s
        },
        Instr::SkipNeReg(x, y) => VmState {
            pc: s.pc + (if s.regs[x as int] != s.regs[y as int] {
                4int
            } else {
                2int
            }),
            ..s
        },
        Instr::SetIndex(nnn) => VmState { i: nnn, pc: s.pc + 2, ..s },
        Instr::JumpOffset(nnn) => VmState { pc: s.regs[0] + nnn, ..s },
        Instr::Rand(x, nn) => VmState {
            regs: s.regs.update(x as int, rnd ^ nn),
            pc: s.pc + 2,
            ..s
        },
        Instr::Draw(x, y, n) => {
            let sprite = s.mem.subrange(s.i as int, s.i + n);
            let collided = spec_draw_collides(s.screen, s.regs[x as int], s.regs[y as int], sprite);
            VmState {
                screen: spec_draw(s.screen, s.regs[x as int], s.regs[y as int], sprite),
                regs: if collided {
                    s.regs.update(15, 1u8)
                } else {
                    s.regs
                },
                has_drawn: true,
                pc: s.pc + 2,
                ..s
            }
        },
        Instr::SkipKey(x) => VmState {
            pc: s.pc + (if s.keys[s.regs[x as int] as int] {
                4int
            } else {
                2int
            }),
            ..s
        },
        Instr::SkipNoKey(x) => VmState {
            pc: s.pc + (if !s.keys[s.regs[x as int] as int] {
                4int
            } else {
                2int
            }),
            ..s
        },
        Instr::GetDelay(x) => VmState {
            regs: s.regs.update(x as int, s.delay_timer),
            pc: s.pc + 2,
            ..s
        },
        Instr::WaitKey(x) => {
            if s.blocked {
                if some_key_pressed(s.keys) {
                    s
                } else {
                    VmState { blocked: false, pc: s.pc + 2, ..s }
                }
            } else {
                if some_key_pressed(s.keys) {
                    VmState {
                        regs: s.regs.update(x as int, first_pressed_from(s.keys, 0) as u8),
                        blocked: true,
                        ..s
                    }
                } else {
                    s
                }
            }
        },
        Instr::SetDelay(x) => VmState { delay_timer: s.regs[x as int], pc: s.pc + 2, ..s },
        Instr::SetSound(x) => VmState { sound_timer: s.regs[x as int], pc: s.pc + 2, ..s },
        Instr::AddIndex(x) => VmState {
            i: s.i.wrapping_add(s.regs[x as int] as u16),
            pc: s.pc + 2,
            ..s
        },
        Instr::FontIndex(x) => VmState { i: (s.regs[x as int] * 5) as u16, pc: s.pc + 2, ..s },
        Instr::StoreBcd(x) => {
            let v = s.regs[x as int] as int;
            VmState {
                mem: s.mem.update(s.i as int, (v / 100) as u8).update(
                    s.i + 1,
                    ((v / 10) % 10) as u8,
                ).update(s.i + 2, (v % 10) as u8),
                pc: s.pc + 2,
                ..s
            }
        },
        Instr::StoreRegs(x) => VmState {
            mem: store_regs(s.mem, s.regs, s.i as int, x as int),
            i: (s.i + x + 1) as u16,
            pc: s.pc + 2,
            ..s
        },
        Instr::LoadRegs(x) => VmState {
            regs: load_regs(s.regs, s.mem, s.i as int, x as int),
            i: (s.i + x + 1) as u16,
            pc: s.pc + 2,
            ..s
        },
        Instr::Unknown(_) => VmState { pc: s.pc + 2, ..s },
    }
}

/// The side conditions under which one instruction completes without a fault:
/// the call stack neither underflows nor overflows, every touched address is
/// in range, and a key number read from a register names a real key line.
pub open spec fn instr_enabled(s: VmState, instr: Instr) -> bool {
    match instr {
        Instr::Ret => s.stack.len() > 0,
        Instr::Call(_) => s.stack.len() < STACK_DEPTH,
        Instr::Draw(_, _, n) => s.i + n <= s.mem.len(),
        Instr::SkipKey(x) => s.regs[x as int] < 16,
        Instr::SkipNoKey(x) => s.regs[x as int] < 16,
        Instr::FontIndex(x) => s.regs[x as int] < 16,
        Instr::StoreBcd(_) => s.i + 2 < s.mem.len(),
        Instr::StoreRegs(x) => s.i + x < s.mem.len(),
        Instr::LoadRegs(x) => s.i + x < s.mem.len(),
        _ => true,
    }
}

/// Whether the instruction about to execute draws on a random byte.
pub open spec fn step_is_rand(s: VmState) -> bool {
    match spec_decode(spec_fetch(s)) {
        Instr::Rand(_, _) => true,
        _ => false,
    }
}

/// The conditions under which a whole cycle completes without a fault: the
/// fetch is in range and the fetched instruction is enabled.
pub open spec fn step_enabled(s: VmState) -> bool {
    &&& 0 <= s.pc
    &&& s.pc + 1 < s.mem.len()
    &&& instr_enabled(s, spec_decode(spec_fetch(s)))
}

/// One whole cycle: timers decay, the frame-changed flag resets, and the
/// fetched instruction executes; `rnd` is the byte a random source supplied.
pub open spec fn spec_step(s: VmState, rnd: u8) -> VmState {
    let t = spec_tick(s);
    spec_exec_instr(t, spec_decode(spec_fetch(t)), rnd)
}

/// The machine as first constructed from a program: memory seeded with font
/// and program, everything else cleared, the program counter at the program's
/// load offset.
pub open spec fn initial_state(program: Seq<u8>) -> VmState {
    VmState {
        mem: initial_memory(program),
        screen: blank_screen(64, 32),
        regs: Seq::new(16, |k: int| 0u8),
        stack: Seq::empty(),
        keys: Seq::new(16, |k: int| false),
        delay_timer: 0,
        sound_timer: 0,
        has_drawn: false,
        blocked: false,
        i: 0,
        pc: PROGRAM_START as int,
    }
}

/// Whether the machine has reached a program-defined halt: the instruction at
/// the program counter is a jump to its own address, so execution can never
/// move past it.
pub open spec fn spec_is_finished(s: VmState) -> bool {
    &&& s.pc + 1 < s.mem.len()
    &&& match spec_decode(spec_fetch(s)) {
        Instr::Jump(nnn) => nnn == s.pc,
        _ => false,
    }
}

/// Unless the cycle executes an explicit delay-timer write, it decrements the
/// delay timer by one, floored at zero: the timer decays and never wraps.
pub proof fn lemma_timer_decay(s: VmState, rnd: u8)
    requires
        !(spec_decode(spec_fetch(s)) matches Instr::SetDelay(_)),
    ensures
        spec_step(s, rnd).delay_timer == dec_timer(s.delay_timer),
{
}

/// A blocking key read entered with no key pressed changes neither the
/// program counter nor the registers nor the waiting latch: the same
/// instruction re-executes on the next cycle.
pub proof fn lemma_wait_key_stalls(s: VmState, rnd: u8, x: u8)
    requires
        spec_decode(spec_fetch(s)) == Instr::WaitKey(x),
        !some_key_pressed(s.keys),
        !s.blocked,
    ensures
        spec_step(s, rnd).pc == s.pc,
        spec_step(s, rnd).regs == s.regs,
        !spec_step(s, rnd).blocked,
{
}

/// Once some key is pressed, the blocking key read latches the lowest pressed
/// key number into its destination register, enters the waiting-for-release
/// state, and still does not advance the program counter; while a key stays
/// pressed in that state the counter keeps not advancing.
pub proof fn lemma_wait_key_latches(s: VmState, rnd: u8, x: u8)
    requires
        spec_decode(spec_fetch(s)) == Instr::WaitKey(x),
        some_key_pressed(s.keys),
        x < 16,
        s.regs.len() == 16,
    ensures
        spec_step(s, rnd).pc == s.pc,
        !s.blocked ==> spec_step(s, rnd).regs[x as int] == first_pressed_from(s.keys, 0) as u8,
        !s.blocked ==> spec_step(s, rnd).blocked,
        s.blocked ==> spec_step(s, rnd).regs == s.regs,
        s.blocked ==> spec_step(s, rnd).blocked,
{
}

/// Relies on rand::thread_rng and rand::Rng::gen: one random byte drawn from
/// the thread-local generator; nothing is promised of the value.
#[verifier::external_body]
fn random_byte() -> u8 {
    rand::thread_rng().gen()
}

/// The execution engine: memory, display, register file, call stack, timers
/// and key latch, stepped one instruction per cycle.
pub struct Interpretor {
    memory: Memory,
    screen: Display,
    registers: [u8; 16],
    stack: Vec<u16>,
    keys: [bool; 16],
    delay_timer: u8,
    sound_timer: u8,
    has_drawn: bool,
    blocked: bool,
    i: u16,
    pc: usize,
}

impl View for Interpretor {
    type V = VmState;

    closed spec fn view(&self) -> VmState {
        VmState {
            mem: self.memory@,
            screen: self.screen@,
            regs: self.registers@,
            stack: self.stack@,
            keys: self.keys@,
            delay_timer: self.delay_timer,
            sound_timer: self.sound_timer,
            has_drawn: self.has_drawn,
            blocked: self.blocked,
            i: self.i,
            pc: self.pc as int,
        }
    }
}

impl Interpretor {
    /// The machine state is well-formed; established by the constructor and
    /// preserved by every operation.
    pub open spec fn wf(&self) -> bool {
        self@.wf()
    }

    /// Builds the machine around the given program bytes: 64 by 32 display,
    /// cleared registers, the program counter at the load offset. The program
    /// must leave all of memory addressable through the 16-bit index register.
    pub fn new(program: Vec<u8>) -> (r: Interpretor)
        requires
            PROGRAM_START + program@.len() <= 0xFFFF,
        ensures
            r@ == initial_state(program@),
            r.wf(),
    {
        let r = Interpretor {
            memory: Memory::new(program.as_slice()),
            screen: Display::new(64, 32),
            registers: [0; 16],
            stack: Vec::new(),
            keys: [false; 16],
            delay_timer: 0,
            sound_timer: 0,
            has_drawn: false,
            blocked: false,
            i: 0,
            pc: PROGRAM_START,
        };
        proof {
            assert(r@.regs =~= Seq::new(16, |k: int| 0u8));
            assert(r@.keys =~= Seq::new(16, |k: int| false));
            assert(r@ =~= initial_state(program@));
        }
        r
    }

    /// Whether the last cycle executed a draw instruction.
    pub fn has_drawn(&self) -> (r: bool)
        ensures
            r == self@.has_drawn,
    {
        self.has_drawn
    }

    /// Marks key line `key` as pressed.
    pub fn set_pressed(&mut self, key: usize)
        requires
            key < 16,
        ensures
            final(self)@ == (VmState { keys: old(self)@.keys.update(key as int, true), ..old(
                self,
            )@ }),
    {
        self.keys[key] = true;
    }

    /// Marks key line `key` as released.
    pub fn set_released(&mut self, key: usize)
        requires
            key < 16,
        ensures
            final(self)@ == (VmState { keys: old(self)@.keys.update(key as int, false), ..old(
                self,
            )@ }),
    {
        self.keys[key] = false;
    }

    /// The display width in pixels.
    pub fn screen_width(&self) -> (r: usize)
        ensures
            r == self@.screen.width,
    {
        self.screen.width() as usize
    }

    /// The display height in pixels.
    pub fn screen_height(&self) -> (r: usize)
        ensures
            r == self@.screen.height,
    {
        self.screen.height() as usize
    }

    /// The pixel at (x, y): 1 if set, 0 if clear.
    pub fn screen_value(&self, x: usize, y: usize) -> (r: u8)
        requires
            self.wf(),
            x < self@.screen.width,
            y < self@.screen.height,
        ensures
            r == pixel(self@.screen, x as int, y as int),
    {
        self.screen.get(x, y)
    }

    /// Whether the sound timer is running; an external audio driver plays a
    /// tone while this holds.
    pub fn is_beeping(&self) -> (r: bool)
        ensures
            r == (self@.sound_timer > 0),
    {
        self.sound_timer > 0
    }

    /// The value of general-purpose register `idx`.
    pub fn register(&self, idx: u8) -> (r: u8)
        requires
            self.wf(),
            idx < 16,
        ensures
            r == self@.regs[idx as int],
    {
        self.registers[idx as usize]
    }

    /// The program counter.
    pub fn program_counter(&self) -> (r: usize)
        ensures
            r == self@.pc,
    {
        self.pc
    }

    /// The index register.
    pub fn index_register(&self) -> (r: u16)
        ensures
            r == self@.i,
    {
        self.i
    }

    /// The memory byte at `adress`.
    pub fn read_memory(&self, adress: usize) -> (r: u8)
        requires
            adress < self@.mem.len(),
        ensures
            r == self@.mem[adress as int],
    {
        self.memory.read(adress)
    }

    /// Decrements both timers, each floored at zero.
    fn update_timers(&mut self)
        ensures
            final(self)@ == (VmState {
                delay_timer: dec_timer(old(self)@.delay_timer),
                sound_timer: dec_timer(old(self)@.sound_timer),
                ..old(self)@
            }),
    {
        if self.delay_timer != 0 {
            self.delay_timer = self.delay_timer - 1;
        }
        if self.sound_timer != 0 {
            self.sound_timer = self.sound_timer - 1;
        }
    }

    /// Executes one decoded instruction, program counter advance included.
    fn exec_instr(&mut self, instr: Instr)
        requires
            old(self).wf(),
            instr_wf(instr),
            instr_enabled(old(self)@, instr),
            old(self)@.pc + 1 < old(self)@.mem.len(),
        ensures
            final(self).wf(),
            exists|rnd: u8| final(self)@ == spec_exec_instr(old(self)@, instr, rnd),
            !(instr matches Instr::Rand(_, _)) ==> final(self)@ == spec_exec_instr(
                old(self)@,
                instr,
                0,
            ),
    {
        match instr {
            Instr::Cls => {
                self.screen.clear();
                self.pc = self.pc + 2;
                proof {
                    assert(self@ =~= spec_exec_instr(old(self)@, instr, 0));
                }
            },
            Instr::Ret => {
                let adress = self.stack.pop().unwrap();
                self.pc = adress as usize + 2;
                proof {
                    assert(self@ =~= spec_exec_instr(old(self)@, instr, 0));
                }
            },
            Instr::Jump(nnn) => {
                self.pc = nnn as usize;
                proof {
                    assert(self@ =~= spec_exec_instr(old(self)@, instr, 0));
                }
            },
            Instr::Call(nnn) => {
                self.stack.push(self.pc as u16);
                self.pc = nnn as usize;
                proof {
                    assert(self@ =~= spec_exec_instr(old(self)@, instr, 0));
                }
            },
            Instr::SkipEqImm(x, nn) => {
                if self.registers[x as usize] == nn {
                    self.pc = self.pc + 4;
                } else {
                    self.pc = self.pc + 2;
                }
                proof {
                    assert(self@ =~= spec_exec_instr(old(self)@, instr, 0));
                }
            },
            Instr::SkipNeImm(x, nn) => {
                if self.registers[x as usize] != nn {
                    self.pc = self.pc + 4;
                } else {
                    self.pc = self.pc + 2;
                }
                proof {
                    assert(self@ =~= spec_exec_instr(old(self)@, instr, 0));
                }
            },
            Instr::SkipEqReg(x, y) => {
                if self.registers[x as usize] == self.registers[y as usize] {
                    self.pc = self.pc + 4;
                } else {
                    self.pc = self.pc + 2;
                }
                proof {
                    assert(self@ =~= spec_exec_instr(old(self)@, instr, 0));
                }
            },
            Instr::SetImm(x, nn) => {
                self.registers[x as usize] = nn;
                self.pc = self.pc + 2;
                proof {
                    assert(self@ =~= spec_exec_instr(old(self)@, instr, 0));
                }
            },
            Instr::AddImm(x, nn) => {
                self.registers[x as usize] = self.registers[x as usize].wrapping_add(nn);
                self.pc = self.pc + 2;
                proof {
                    assert(self@ =~= spec_exec_instr(old(self)@, instr, 0));
                }
            },
            Instr::Mov(x, y) => {
                self.registers[x as usize] = self.registers[y as usize];
                self.pc = self.pc + 2;
                proof {
                    assert(self@ =~= spec_exec_instr(old(self)@, instr, 0));
                }
            },
            Instr::Or(x, y) => {
                let v = self.registers[x as usize] | self.registers[y as usize];
                self.registers[x as usize] = v;
                self.registers[15] = 0;
                self.pc = self.pc + 2;
                proof {
                    assert(self@ =~= spec_exec_instr(old(self)@, instr, 0));
                }
            },
            Instr::And(x, y) => {
                let v = self.registers[x as usize] & self.registers[y as usize];
                self.registers[x as usize] = v;
                self.registers[15] = 0;
                self.pc = self.pc + 2;
                proof {
                    assert(self@ =~= spec_exec_instr(old(self)@, instr, 0));
                }
            },
            Instr::Xor(x, y) => {
                let v = self.registers[x as usize] ^ self.registers[y as usize];
                self.registers[x as usize] = v;
                self.registers[15] = 0;
                self.pc = self.pc + 2;
                proof {
                    assert(self@ =~= spec_exec_instr(old(self)@, instr, 0));
                }
            },
            Instr::Add(x, y) => {
                let a = self.registers[x as usize];
                let b = self.registers[y as usize];
                self.registers[x as usize] = a.wrapping_add(b);
                self.registers[15] = if (a as u16) + (b as u16) > 255 {
                    1
                } else {
                    0
                };
                self.pc = self.pc + 2;
                proof {
                    assert(self@ =~= spec_exec_instr(old(self)@, instr, 0));
                }
            },
            Instr::Sub(x, y) => {
                let a = self.registers[x as usize];
                let b = self.registers[y as usize];
                self.registers[x as usize] = a.wrapping_sub(b);
                self.registers[15] = if a >= b {
                    1
                } else {
                    0
                };
                self.pc = self.pc + 2;
                proof {
                    assert(self@ =~= spec_exec_instr(old(self)@, instr, 0));
                }
            },
            Instr::ShiftRight(x, y) => {
                let src = self.registers[y as usize];
                self.registers[x as usize] = src >> 1u8;
                self.registers[15] = src & 1;
                self.pc = self.pc + 2;
                proof {
                    assert(self@ =~= spec_exec_instr(old(self)@, instr, 0));
                }
            },
            Instr::SubRev(x, y) => {
                let a = self.registers[x as usize];
                let b = self.registers[y as usize];
                self.registers[x as usize] = b.wrapping_sub(a);
                self.registers[15] = if b >= a {
                    1
                } else {
                    0
                };
                self.pc = self.pc + 2;
                proof {
                    assert(self@ =~= spec_exec_instr(old(self)@, instr, 0));
                }
            },
            Instr::ShiftLeft(x, y) => {
                let src = self.registers[y as usize];
                self.registers[x as usize] = (src & 0x7F) << 1u8;
                self.registers[15] = (src & 0x80) >> 7u8;
                self.pc = self.pc + 2;
                proof {
                    assert(self@ =~= spec_exec_instr(old(self)@, instr, 0));
                }
            },
            Instr::SkipNeReg(x, y) => {
                if self.registers[x as usize] != self.registers[y as usize] {
                    self.pc = self.pc + 4;
                } else {
                    self.pc = self.pc + 2;
                }
                proof {
                    assert(self@ =~= spec_exec_instr(old(self)@, instr, 0));
                }
            },
            Instr::SetIndex(nnn) => {
                self.i = nnn;
                self.pc = self.pc + 2;
                proof {
                    assert(self@ =~= spec_exec_instr(old(self)@, instr, 0));
                }
            },
            Instr::JumpOffset(nnn) => {
                self.pc = self.registers[0] as usize + nnn as usize;
                proof {
                    assert(self@ =~= spec_exec_instr(old(self)@, instr, 0));
                }
            },
            Instr::Rand(x, nn) => {
                let r = random_byte();
                self.registers[x as usize] = r ^ nn;
                self.pc = self.pc + 2;
                proof {
                    assert(self@ =~= spec_exec_instr(old(self)@, instr, r));
                }
            },
            Instr::Draw(x, y, n) => {
                let sprite = self.memory.read_bytes(self.i as usize, n as usize);
                let vx = self.registers[x as usize];
                let vy = self.registers[y as usize];
                let collided = self.screen.draw(vx, vy, sprite);
                if collided {
                    self.registers[15] = 1;
                }
                self.has_drawn = true;
                self.pc = self.pc + 2;
                proof {
                    assert(self@ =~= spec_exec_instr(old(self)@, instr, 0));
                }
            },
            Instr::SkipKey(x) => {
                let key = self.registers[x as usize];
                if self.keys[key as usize] {
                    self.pc = self.pc + 4;
                } else {
                    self.pc = self.pc + 2;
                }
                proof {
                    assert(self@ =~= spec_exec_instr(old(self)@, instr, 0));
                }
            },
            Instr::SkipNoKey(x) => {
                let key = self.registers[x as usize];
                if !self.keys[key as usize] {
                    self.pc = self.pc + 4;
                } else {
                    self.pc = self.pc + 2;
                }
                proof {
                    assert(self@ =~= spec_exec_instr(old(self)@, instr, 0));
                }
            },
            Instr::GetDelay(x) => {
                self.registers[x as usize] = self.delay_timer;
                self.pc = self.pc + 2;
                proof {
                    assert(self@ =~= spec_exec_instr(old(self)@, instr, 0));
                }
            },
            Instr::WaitKey(x) => {
                let k = self.first_pressed_key();
                if self.blocked {
                    if k == 16 {
                        self.blocked = false;
                        self.pc = self.pc + 2;
                    }
                } else {
                    if k < 16 {
                        self.registers[x as usize] = k as u8;
                        self.blocked = true;
                    }
                }
                proof {
                    assert(self@ =~= spec_exec_instr(old(self)@, instr, 0));
                }
            },
            Instr::SetDelay(x) => {
                self.delay_timer = self.registers[x as usize];
                self.pc = self.pc + 2;
                proof {
                    assert(self@ =~= spec_exec_instr(old(self)@, instr, 0));
                }
            },
            Instr::SetSound(x) => {
                self.sound_timer = self.registers[x as usize];
                self.pc = self.pc + 2;
                proof {
                    assert(self@ =~= spec_exec_instr(old(self)@, instr, 0));
                }
            },
            Instr::AddIndex(x) => {
                self.i = self.i.wrapping_add(self.registers[x as usize] as u16);
                self.pc = self.pc + 2;
                proof {
                    assert(self@ =~= spec_exec_instr(old(self)@, instr, 0));
                }
            },
            Instr::FontIndex(x) => {
                let a = self.memory.get_font_adress(self.registers[x as usize]);
                self.i = a as u16;
                self.pc = self.pc + 2;
                proof {
                    assert(self@ =~= spec_exec_instr(old(self)@, instr, 0));
                }
            },
            Instr::StoreBcd(x) => {
                let value = self.registers[x as usize];
                let hundreds = value / 100;
                let tens = (value / 10) % 10;
                let ones = value % 10;
                let base = self.i as usize;
                self.memory.write(base, hundreds);
                self.memory.write(base + 1, tens);
                self.memory.write(base + 2, ones);
                self.pc = self.pc + 2;
                proof {
                    assert(self@ =~= spec_exec_instr(old(self)@, instr, 0));
                }
            },
            Instr::StoreRegs(x) => {
                let base = self.i as usize;
                let mut k: usize = 0;
                while k <= x as usize
                    invariant
                        old(self).wf(),
                        k <= x as usize + 1,
                        x < 16,
                        base == old(self)@.i,
                        base + x < old(self)@.mem.len(),
                        self@.mem.len() == old(self)@.mem.len(),
                        forall|j: int|
                            0 <= j < self@.mem.len() ==> self@.mem[j] == (if base <= j < base + k {
                                old(self)@.regs[j - base]
                            } else {
                                old(self)@.mem[j]
                            }),
                        self@.screen == old(self)@.screen,
                        self@.regs == old(self)@.regs,
                        self@.stack == old(self)@.stack,
                        self@.keys == old(self)@.keys,
                        self@.delay_timer == old(self)@.delay_timer,
                        self@.sound_timer == old(self)@.sound_timer,
                        self@.has_drawn == old(self)@.has_drawn,
                        self@.blocked == old(self)@.blocked,
                        self@.i == old(self)@.i,
                        self@.pc == old(self)@.pc,
                    decreases x as usize + 1 - k,
                {
                    let b = self.registers[k];
                    self.memory.write(base + k, b);
                    k = k + 1;
                }
                self.i = self.i + (x as u16) + 1;
                self.pc = self.pc + 2;
                proof {
                    assert(self@.mem =~= store_regs(
                        old(self)@.mem,
                        old(self)@.regs,
                        old(self)@.i as int,
                        x as int,
                    ));
                    assert(self@ =~= spec_exec_instr(old(self)@, instr, 0));
                }
            },
            Instr::LoadRegs(x) => {
                let base = self.i as usize;
                let mut k: usize = 0;
                while k <= x as usize
                    invariant
                        old(self).wf(),
                        k <= x as usize + 1,
                        x < 16,
                        base == old(self)@.i,
                        base + x < old(self)@.mem.len(),
                        self@.mem == old(self)@.mem,
                        self@.regs.len() == 16,
                        forall|j: int|
                            0 <= j < 16 ==> self@.regs[j] == (if 0 <= j < k {
                                old(self)@.mem[base + j]
                            } else {
                                old(self)@.regs[j]
                            }),
                        self@.screen == old(self)@.screen,
                        self@.stack == old(self)@.stack,
                        self@.keys == old(self)@.keys,
                        self@.delay_timer == old(self)@.delay_timer,
                        self@.sound_timer == old(self)@.sound_timer,
                        self@.has_drawn == old(self)@.has_drawn,
                        self@.blocked == old(self)@.blocked,
                        self@.i == old(self)@.i,
                        self@.pc == old(self)@.pc,
                    decreases x as usize + 1 - k,
                {
                    let b = self.memory.read(base + k);
                    self.registers[k] = b;
                    k = k + 1;
                }
                self.i = self.i + (x as u16) + 1;
                self.pc = self.pc + 2;
                proof {
                    assert(self@.regs =~= load_regs(
                        old(self)@.regs,
                        old(self)@.mem,
                        old(self)@.i as int,
                        x as int,
                    ));
                    assert(self@ =~= spec_exec_instr(old(self)@, instr, 0));
                }
            },
            Instr::Unknown(_) => {
                self.pc = self.pc + 2;
                proof {
                    assert(self@ =~= spec_exec_instr(old(self)@, instr, 0));
                }
            },
        }
    }

    /// One cycle: both timers decay, the frame-changed flag resets, and the
    /// instruction at the program counter is fetched, decoded and executed.
    /// The machine afterwards is exactly one specification step from the
    /// machine before, for some random byte; only the random-register
    /// instruction draws on that byte.
    pub fn cycle(&mut self)
        requires
            old(self).wf(),
            step_enabled(old(self)@),
        ensures
            final(self).wf(),
            exists|rnd: u8| final(self)@ == spec_step(old(self)@, rnd),
            !step_is_rand(old(self)@) ==> final(self)@ == spec_step(old(self)@, 0),
    {
        self.update_timers();
        self.has_drawn = false;
        let ghost ticked = spec_tick(old(self)@);
        proof {
            assert(self@ =~= ticked);
        }
        let op = self.memory.read_opcode(self.pc);
        let instr = decode(op);
        proof {
            lemma_decode_wf(op);
        }
        self.exec_instr(instr);
        proof {
            let rnd = choose|rnd: u8| self@ == spec_exec_instr(ticked, instr, rnd);
            assert(self@ == spec_exec_instr(ticked, instr, rnd));
            assert(self@ == spec_step(old(self)@, rnd));
        }
    }

    /// Whether the next cycle completes without a fault: the fetch is in
    /// range and the fetched instruction's addresses, stack use and key
    /// numbers are in range. A driver checks this before each cycle and
    /// treats a refusal as a fatal fault of the loaded program.
    pub fn step_ready(&self) -> (r: bool)
        requires
            self.wf(),
        ensures
            r == step_enabled(self@),
    {
        let total = self.memory.len();
        if self.pc >= total {
            return false;
        }
        if self.pc + 1 >= total {
            return false;
        }
        let op = self.memory.read_opcode(self.pc);
        let instr = decode(op);
        proof {
            lemma_decode_wf(op);
        }
        match instr {
            Instr::Ret => self.stack.len() > 0,
            Instr::Call(_) => self.stack.len() < STACK_DEPTH,
            Instr::Draw(_, _, n) => (self.i as usize + n as usize <= total),
            Instr::SkipKey(x) => (self.registers[x as usize] < 16),
            Instr::SkipNoKey(x) => (self.registers[x as usize] < 16),
            Instr::FontIndex(x) => (self.registers[x as usize] < 16),
            Instr::StoreBcd(_) => (self.i as usize + 2 < total),
            Instr::StoreRegs(x) => ((self.i as usize) + (x as usize) < total),
            Instr::LoadRegs(x) => ((self.i as usize) + (x as usize) < total),
            _ => true,
        }
    }

    /// Whether the program has halted itself with an infinite self-jump; a
    /// run loop stops calling `cycle` once this holds.
    pub fn is_finished(&self) -> (r: bool)
        requires
            self.wf(),
        ensures
            r == spec_is_finished(self@),
    {
        let total = self.memory.len();
        if self.pc >= total || self.pc + 1 >= total {
            return false;
        }
        let op = self.memory.read_opcode(self.pc);
        match decode(op) {
            Instr::Jump(nnn) => nnn as usize == self.pc,
            _ => false,
        }
    }

    /// The lowest pressed key, or 16 when none is pressed.
    fn first_pressed_key(&self) -> (r: usize)
        requires
            self@.keys.len() == 16,
        ensures
            r == first_pressed_from(self@.keys, 0),
            (r == 16) == !some_key_pressed(self@.keys),
            r <= 16,
    {
        let mut k: usize = 0;
        while k < 16
            invariant
                k <= 16,
                self@.keys.len() == 16,
                forall|j: int| 0 <= j < k ==> !self@.keys[j],
                first_pressed_from(self@.keys, 0) == first_pressed_from(self@.keys, k as int),
            decreases 16 - k,
        {
            if self.keys[k] {
                proof {
                    assert(self@.keys[k as int]);
                }
                return k;
            }
            k = k + 1;
        }
        16
    }
}

} // verus!
