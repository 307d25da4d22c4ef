//! A model of the x64 instructions that the patch is made of.
//!
//! The model covers the sixteen general registers, the zero flag, the stack and the rest of
//! memory. The stack is kept apart from the rest of memory: a load never reads a stack slot, and
//! what a callee does to memory leaves the slots in use alone.
use vstd::prelude::*;

use crate::bytes::{le_at, le_value, signed_32};
use vstd::bits::lemma_u32_shr_is_div;

verus! {

/// Register numbers, as instructions encode them.
pub const RAX: u8 = 0;

pub const RCX: u8 = 1;

pub const RDX: u8 = 2;

pub const RBX: u8 = 3;

pub const RSP: u8 = 4;

pub const R8: u8 = 8;

pub const R9: u8 = 9;

pub const R10: u8 = 10;

pub const R11: u8 = 11;

/// A number reduced to what 64 bits hold.
pub open spec fn wrap_64(v: int) -> nat {
    (v % 0x1_0000_0000_0000_0000) as nat
}

/// A number reduced to what 32 bits hold.
pub open spec fn wrap_32(v: int) -> nat {
    (v % 0x1_0000_0000) as nat
}

/// Whether bit `index` of `v` is set.
pub open spec fn bit(v: nat, index: nat) -> bool {
    (v / vstd::arithmetic::power2::pow2(index)) % 2 == 1
}

/// Law: a bit of a number is the one that a shift brings to the lowest place.
pub proof fn bits_are_shifted_down(v: u32, index: u32)
    requires
        index < 32,
    ensures
        bit(v as nat, index as nat) <==> (v >> index) & 1 == 1,
{
    lemma_u32_shr_is_div(v, index);
    let shifted = v >> index;
    assert(shifted & 1 == shifted % 2) by (bit_vector);
}

/// The state of the processor and of the memory it sees.
pub struct Machine {
    /// The general registers by number.
    pub registers: Seq<nat>,
    /// The zero flag.
    pub zero: bool,
    /// The stack slots in use, the top one last.
    pub stack: Seq<nat>,
    /// Memory other than the stack.
    pub memory: spec_fn(nat) -> u8,
}

impl Machine {
    /// Whether there are sixteen registers of 64 bits.
    pub open spec fn valid(self) -> bool {
        &&& self.registers.len() == 16
        &&& forall|i: int|
            0 <= i < 16 ==> 0 <= #[trigger] self.registers[i] < 0x1_0000_0000_0000_0000
    }

    /// What a register holds.
    pub open spec fn reg(self, number: u8) -> nat {
        self.registers[number as int]
    }

    /// The state with another value in one register.
    pub open spec fn with_reg(self, number: u8, value: nat) -> Machine {
        Machine { registers: self.registers.update(number as int, value), ..self }
    }

    /// The state after a push of `value`.
    pub open spec fn pushed(self, value: nat) -> Machine {
        let below = self.with_reg(RSP, wrap_64(self.reg(RSP) - 8));
        Machine { stack: self.stack.push(value), ..below }
    }

    /// The state after a pop, the value popped not yet stored anywhere.
    pub open spec fn popped(self) -> Machine {
        let above = self.with_reg(RSP, wrap_64(self.reg(RSP) + 8int));
        Machine { stack: self.stack.drop_last(), ..above }
    }

    /// The little-endian number in the `count` bytes of memory at `address`.
    pub open spec fn load(self, address: int, count: nat) -> nat {
        le_value(Seq::new(count, |i: int| (self.memory)(wrap_64(address + i))))
    }
}

/// The instructions of the model. Registers go by number, lengths and distances in bytes.
pub enum Instruction {
    /// `push register`
    Push(u8),
    /// `pop register`
    Pop(u8),
    /// `mov register, immediate`, which fills all 64 bits.
    MovImmediate(u8, nat),
    /// `mov destination, source`, all 64 bits.
    MovRegister(u8, u8),
    /// `mov destination, dword ptr [base + displacement]`, which clears the upper half.
    Load32(u8, u8, int),
    /// `mov destination, qword ptr [base + displacement]`
    Load64(u8, u8, int),
    /// `shl register, cl` on the lower half, which clears the upper one.
    ShiftLeft32(u8),
    /// `test eax, immediate`
    TestEax(nat),
    /// `jz`, over a distance from the next instruction.
    JumpIfZero(int),
    /// `jmp`, over a distance from the next instruction.
    Jump(int),
    /// `jmp qword ptr [rip + distance]`
    JumpThrough(int),
    /// `call`, over a distance from the next instruction.
    CallRelative(int),
    /// `call register`
    CallRegister(u8),
}

/// The signed reading of one displacement byte.
pub open spec fn signed_8(v: u8) -> int {
    if v < 0x80 {
        v as int
    } else {
        v - 0x100
    }
}

/// The signed 32-bit distance at `at`.
pub open spec fn distance_at(code: Seq<u8>, at: int) -> int {
    signed_32(le_at(code, at, 4)->0)
}

/// Decodes the instruction behind a REX prefix, or behind none where `rex` is `0x40`. The prefix
/// makes the operands 64 bits wide (`0x8`), and reaches the upper eight registers in the reg
/// field (`0x4`) and in the base field (`0x1`).
#[verifier::opaque]
pub open spec fn decode_opcode(code: Seq<u8>, at: int, rex: u8) -> Option<(Instruction, int)> {
    let wide = (rex / 8) % 2 == 1;
    let reg_high = 8 * ((rex / 4) % 2);
    let base_high = 8 * (rex % 2);
    let left = code.len() - at;
    let op = code[at];
    let second = code[at + 1];
    let mode = second / 64;
    let reg = ((second / 8) % 8 + reg_high) as u8;
    let base = (second % 8 + base_high) as u8;
    if left < 1 {
        None
    } else if 0x50 <= op <= 0x57 {
        Some((Instruction::Push((op - 0x50 + base_high) as u8), at + 1))
    } else if 0x58 <= op <= 0x5f {
        Some((Instruction::Pop((op - 0x58 + base_high) as u8), at + 1))
    } else if 0xb8 <= op <= 0xbf && wide && left >= 9 {
        Some(
            (
                Instruction::MovImmediate(
                    (op - 0xb8 + base_high) as u8,
                    le_at(code, at + 1, 8)->0,
                ),
                at + 9,
            ),
        )
    } else if 0xb8 <= op <= 0xbf && !wide && left >= 5 {
        Some(
            (
                Instruction::MovImmediate(
                    (op - 0xb8 + base_high) as u8,
                    le_at(code, at + 1, 4)->0,
                ),
                at + 5,
            ),
        )
    } else if op == 0xa9 && !wide && left >= 5 {
        Some((Instruction::TestEax(le_at(code, at + 1, 4)->0), at + 5))
    } else if op == 0xe8 && left >= 5 {
        Some((Instruction::CallRelative(distance_at(code, at + 1)), at + 5))
    } else if op == 0xe9 && left >= 5 {
        Some((Instruction::Jump(distance_at(code, at + 1)), at + 5))
    } else if left < 2 {
        None
    } else if op == 0x0f && second == 0x84 && left >= 6 {
        Some((Instruction::JumpIfZero(distance_at(code, at + 2)), at + 6))
    } else if op == 0xff && second == 0x25 && left >= 6 {
        Some((Instruction::JumpThrough(distance_at(code, at + 2)), at + 6))
    } else if op == 0xff && mode == 3 && (second / 8) % 8 == 2 {
        Some((Instruction::CallRegister(base), at + 2))
    } else if op == 0xd3 && mode == 3 && (second / 8) % 8 == 4 && !wide {
        Some((Instruction::ShiftLeft32(base), at + 2))
    } else if op == 0x8b && mode == 3 && wide {
        Some((Instruction::MovRegister(reg, base), at + 2))
    } else if op == 0x8b && mode == 0 && second % 8 != 4 && second % 8 != 5 {
        if wide {
            Some((Instruction::Load64(reg, base, 0), at + 2))
        } else {
            Some((Instruction::Load32(reg, base, 0), at + 2))
        }
    } else if op == 0x8b && mode == 1 && second % 8 != 4 && left >= 3 {
        if wide {
            Some((Instruction::Load64(reg, base, signed_8(code[at + 2])), at + 3))
        } else {
            Some((Instruction::Load32(reg, base, signed_8(code[at + 2])), at + 3))
        }
    } else {
        None
    }
}

/// The instruction at offset `at` of `code` and the offset of the one behind it.
pub open spec fn decode(code: Seq<u8>, at: int) -> Option<(Instruction, int)> {
    if 0 <= at < code.len() {
        if 0x40 <= code[at] <= 0x4f {
            decode_opcode(code, at + 1, code[at])
        } else {
            decode_opcode(code, at, 0x40)
        }
    } else {
        None
    }
}

/// A stretch of code and the address at which it lies.
pub struct Program {
    pub code: Seq<u8>,
    pub address: nat,
}

/// What functions outside a program do: the state that a call of an address returns with, given
/// the state it is entered with.
pub type Callees = spec_fn(nat, Machine) -> Machine;

/// The registers that a function may change under the x64 calling convention of Windows.
pub open spec fn is_volatile(number: int) -> bool {
    number == 0 || number == 1 || number == 2 || 8 <= number <= 11
}

/// Whether a call that is entered with the state `before` may return with the state `after`: a
/// valid one, with the stack and the registers that are not volatile as they were.
///
/// The convention also lets a callee use the four slots above its return address. This asks that
/// it does not.
pub open spec fn keeps_convention(before: Machine, after: Machine) -> bool {
    &&& after.valid()
    &&& after.stack == before.stack
    &&& forall|i: int|
        0 <= i < 16 && !is_volatile(i) ==> #[trigger] after.registers[i] == before.registers[i]
}

/// Where a step or a run leads.
pub enum Outcome {
    /// To another offset of the program.
    At(int, Machine),
    /// Out of the program, to an address.
    Left(nat, Machine),
    /// Nowhere: the model knows no such instruction, or the stack is empty.
    Stuck,
}

/// Arrival at an offset: inside the program, or at an address beside it.
pub open spec fn arrive(program: Program, at: int, m: Machine) -> Outcome {
    if 0 <= at < program.code.len() {
        Outcome::At(at, m)
    } else {
        Outcome::Left(wrap_64(program.address + at), m)
    }
}

/// What one instruction does whose successor is at offset `next`.
#[verifier::opaque]
pub open spec fn execute(
    program: Program,
    callees: Callees,
    instruction: Instruction,
    next: int,
    m: Machine,
) -> Outcome {
    match instruction {
        Instruction::Push(source) => arrive(program, next, m.pushed(m.reg(source))),
        Instruction::Pop(destination) => if m.stack.len() == 0 {
            Outcome::Stuck
        } else {
            arrive(program, next, m.popped().with_reg(destination, m.stack.last()))
        },
        Instruction::MovImmediate(destination, value) => arrive(
            program,
            next,
            m.with_reg(destination, value),
        ),
        Instruction::MovRegister(destination, source) => arrive(
            program,
            next,
            m.with_reg(destination, m.reg(source)),
        ),
        Instruction::Load32(destination, base, displacement) => arrive(
            program,
            next,
            m.with_reg(destination, m.load(m.reg(base) + displacement, 4)),
        ),
        Instruction::Load64(destination, base, displacement) => arrive(
            program,
            next,
            m.with_reg(destination, m.load(m.reg(base) + displacement, 8)),
        ),
        Instruction::ShiftLeft32(destination) => {
            let count = m.reg(RCX) % 32;
            let value = wrap_32(
                (wrap_32(m.reg(destination) as int) * vstd::arithmetic::power2::pow2(count)) as int,
            );
            let shifted = m.with_reg(destination, value);
            arrive(
                program,
                next,
                if count == 0 {
                    shifted
                } else {
                    Machine { zero: value == 0, ..shifted }
                },
            )
        },
        Instruction::TestEax(mask) => arrive(
            program,
            next,
            Machine {
                zero: !exists|i: nat|
                    i < 32 && #[trigger] bit(wrap_32(m.reg(RAX) as int), i) && bit(mask, i),
                ..m
            },
        ),
        Instruction::JumpIfZero(distance) => arrive(
            program,
            if m.zero {
                next + distance
            } else {
                next
            },
            m,
        ),
        Instruction::Jump(distance) => arrive(program, next + distance, m),
        Instruction::JumpThrough(distance) => match le_at(program.code, next + distance, 8) {
            Some(target) => Outcome::Left(target, m),
            None => Outcome::Stuck,
        },
        Instruction::CallRelative(distance) => arrive(
            program,
            next,
            callees(wrap_64(program.address + next + distance), m),
        ),
        Instruction::CallRegister(target) => arrive(program, next, callees(m.reg(target), m)),
    }
}

/// One step of a program from offset `at`.
pub open spec fn step(program: Program, callees: Callees, at: int, m: Machine) -> Outcome {
    match decode(program.code, at) {
        Some((instruction, next)) => execute(program, callees, instruction, next, m),
        None => Outcome::Stuck,
    }
}

/// A run of a program from offset `at`, of at most `steps` steps.
pub open spec fn run(
    program: Program,
    callees: Callees,
    at: int,
    m: Machine,
    steps: nat,
) -> Outcome
    decreases steps,
{
    if steps == 0 {
        Outcome::At(at, m)
    } else {
        match step(program, callees, at, m) {
            Outcome::At(then_at, then_m) => run(
                program,
                callees,
                then_at,
                then_m,
                (steps - 1) as nat,
            ),
            outcome => outcome,
        }
    }
}

/// A run can be cut in two.
pub proof fn lemma_run_split(
    program: Program,
    callees: Callees,
    at: int,
    m: Machine,
    first: nat,
    second: nat,
)
    ensures
        run(program, callees, at, m, first + second) == match run(program, callees, at, m, first) {
            Outcome::At(mid_at, mid) => run(program, callees, mid_at, mid, second),
            outcome => outcome,
        },
    decreases first,
{
    if first > 0 {
        match step(program, callees, at, m) {
            Outcome::At(then_at, then_m) => {
                lemma_run_split(
                    program,
                    callees,
                    then_at,
                    then_m,
                    (first - 1) as nat,
                    second,
                );
            },
            _ => {},
        }
    }
}

} // verus!
