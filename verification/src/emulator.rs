//! The interpreter engine: memory, registers, program counter, call stack
//! and timers, together with the fetch-decode-execute cycle.
//!
//! One call of [`Emulator::tick`] runs exactly one instruction; its contract
//! states the whole machine state after the step as a function of the state
//! before it (see [`step_effect`]).  A fault — an unrecognized opcode, a
//! call-stack overflow or underflow, or an out-of-range memory, key or
//! program-counter access — is fatal: `tick` reports it and leaves the
//! machine untouched, and the driver is expected to halt.

pub mod display;
pub mod keyboard;

use display::{blank_grid, draw_collision, draw_result, Display, Point};
use keyboard::{lowest_key, Keyboard};
use rand::Rng;
use vstd::prelude::*;

verus! {

/// Size of the address space in bytes.
pub const MEMORY_SIZE: usize = 4096;

/// Fixed load base of a program.
pub const START_ADDRESS: usize = 512;

/// Largest program that fits between the load base and the end of memory.
pub const MAX_ROM_LEN: usize = 3584;

/// Number of entries of the call stack.
pub const STACK_SIZE: usize = 16;

/// Number of general-purpose registers.
pub const REGISTER_SIZE: usize = 16;

/// Bytes occupied by the preloaded font: 16 glyphs of 5 bytes each.
pub const FONTSET_SIZE: usize = 80;

/// The largest value the program counter can ever hold: a jump-plus-V0
/// instruction can target at most 0xFFF + 0xFF.
pub const PC_LIMIT: usize = 4350;

/// A fatal condition met while executing one instruction.  A conforming
/// program never produces one; there is no recovery path by design, the
/// machine is left untouched and the driver halts.
#[derive(Clone, Copy, Debug, PartialEq, Eq, Structural)]
pub enum Fault {
    /// The fetched word matches none of the recognized instruction patterns.
    UnknownOpcode,
    /// A call was issued with all stack slots in use.
    StackOverflow,
    /// A return was issued with no call outstanding.
    StackUnderflow,
    /// An instruction addressed memory beyond the 4096-byte space.
    MemoryOutOfRange,
    /// A key-skip instruction named a key code above 0xF.
    KeyOutOfRange,
    /// The program counter left the address space.
    PcOutOfRange,
}

/// The machine state as mathematics: what the contracts of the engine speak
/// of.  `stack` entries and the three address-sized registers are unbounded
/// integers here; [`State::wf`] pins their ranges.
#[verifier::ext_equal]
pub ghost struct State {
    /// The 4096-byte address space.
    pub mem: Seq<u8>,
    /// The sixteen 8-bit general registers V0..=VF.
    pub regs: Seq<u8>,
    /// The program counter.
    pub pc: int,
    /// The stack pointer.
    pub sp: int,
    /// The 16-entry call stack.
    pub stack: Seq<int>,
    /// The address-sized index register I.
    pub index: int,
    /// The delay timer.
    pub delay: u8,
    /// The sound timer.
    pub sound: u8,
    /// The 32 rows of 64 framebuffer pixels.
    pub screen: Seq<Seq<bool>>,
    /// The 16-key keypad snapshot.
    pub keys: Seq<bool>,
}

impl State {
    /// Structural invariant of the machine state.  The stack pointer stays
    /// within its 16 slots; stack entries are return addresses, which a call
    /// always takes from an in-range program counter; the index register
    /// stays within the address space (the add-to-index instruction masks it
    /// to 12 bits, a documented choice, since its overflow behaviour is not
    /// part of the instruction set); the program counter never exceeds
    /// [`PC_LIMIT`].
    pub open spec fn wf(self) -> bool {
        &&& self.mem.len() == MEMORY_SIZE
        &&& self.regs.len() == REGISTER_SIZE
        &&& self.stack.len() == STACK_SIZE
        &&& 0 <= self.sp < STACK_SIZE
        &&& 0 <= self.pc <= PC_LIMIT
        &&& 0 <= self.index < MEMORY_SIZE
        &&& forall|k: int| 0 <= k < STACK_SIZE ==> 0 <= #[trigger] self.stack[k] <= MEMORY_SIZE
        &&& self.screen.len() == 32
        &&& forall|r: int| 0 <= r < 32 ==> (#[trigger] self.screen[r]).len() == 64
        &&& self.keys.len() == 16
    }
}

/// The preloaded font: 16 glyphs of 5 bytes each, one per hex digit.
pub open spec fn font_seq() -> Seq<u8> {
    seq![
        0xF0u8, 0x90, 0x90, 0x90, 0xF0, // 0
        0x20, 0x60, 0x20, 0x20, 0x70, // 1
        0xF0, 0x10, 0xF0, 0x80, 0xF0, // 2
        0xF0, 0x10, 0xF0, 0x10, 0xF0, // 3
        0x90, 0x90, 0xF0, 0x10, 0x10, // 4
        0xF0, 0x80, 0xF0, 0x10, 0xF0, // 5
        0xF0, 0x80, 0xF0, 0x90, 0xF0, // 6
        0xF0, 0x10, 0x20, 0x40, 0x40, // 7
        0xF0, 0x90, 0xF0, 0x90, 0xF0, // 8
        0xF0, 0x90, 0xF0, 0x10, 0xF0, // 9
        0xF0, 0x90, 0xF0, 0x90, 0x90, // A
        0xE0, 0x90, 0xE0, 0x90, 0xE0, // B
        0xF0, 0x80, 0x80, 0x80, 0xF0, // C
        0xE0, 0x90, 0x90, 0x90, 0xE0, // D
        0xF0, 0x80, 0xF0, 0x80, 0xF0, // E
        0xF0, 0x80, 0xF0, 0x80, 0x80, // F
    ]
}

/// The machine state right after construction: everything zeroed except the
/// font copied to the bottom of memory and the program counter placed at the
/// load base.
pub open spec fn initial_state() -> State {
    State {
        mem: Seq::new(MEMORY_SIZE as nat, |a: int| if a < FONTSET_SIZE { font_seq()[a] } else { 0u8 }),
        regs: Seq::new(REGISTER_SIZE as nat, |k: int| 0u8),
        pc: START_ADDRESS as int,
        sp: 0,
        stack: Seq::new(STACK_SIZE as nat, |k: int| 0int),
        index: 0,
        delay: 0,
        sound: 0,
        screen: blank_grid(),
        keys: Seq::new(16, |k: int| false),
    }
}

/// Memory after a program is copied in at the load base: the program bytes
/// occupy 512..512+len, everything else keeps its value.
pub open spec fn loaded_mem(mem: Seq<u8>, rom: Seq<u8>) -> Seq<u8> {
    Seq::new(
        MEMORY_SIZE as nat,
        |a: int|
            if START_ADDRESS <= a < START_ADDRESS + rom.len() {
                rom[a - START_ADDRESS]
            } else {
                mem[a]
            },
    )
}

/// One 60 Hz tick of a timer: decrement once, never below zero.
pub open spec fn dec_timer(t: u8) -> u8 {
    if t > 0 {
        (t - 1) as u8
    } else {
        0
    }
}

/// One decoded instruction, as a tagged enumeration of the recognized
/// nibble patterns.  Operand names follow the instruction table: `x` and `y`
/// are register indices (one nibble each), `kk` an immediate byte, `nnn` a
/// 12-bit address, `n` a sprite height nibble.
#[derive(Clone, Copy, Debug, PartialEq, Eq, Structural)]
pub enum Instr {
    /// 00E0: clear the display.
    Cls,
    /// 00EE: return: the program counter is popped off the call stack.
    Ret,
    /// 1nnn: jump to nnn.
    Jump { nnn: u16 },
    /// 2nnn: call the subroutine at nnn.
    Call { nnn: u16 },
    /// 3xkk: skip the next instruction if Vx == kk.
    SkipEqImm { x: u8, kk: u8 },
    /// 4xkk: skip the next instruction if Vx != kk.
    SkipNeImm { x: u8, kk: u8 },
    /// 5xy0: skip the next instruction if Vx == Vy.
    SkipEqReg { x: u8, y: u8 },
    /// 6xkk: Vx = kk.
    LoadImm { x: u8, kk: u8 },
    /// 7xkk: Vx = Vx + kk truncated to 8 bits, no flag effect.
    AddImm { x: u8, kk: u8 },
    /// 8xy0: Vx = Vy.
    Move { x: u8, y: u8 },
    /// 8xy1: Vx = Vx | Vy.
    Or { x: u8, y: u8 },
    /// 8xy2: Vx = Vx & Vy.
    And { x: u8, y: u8 },
    /// 8xy3: Vx = Vx ^ Vy.
    Xor { x: u8, y: u8 },
    /// 8xy4: Vx = low byte of Vx + Vy, then VF = 1 iff the sum exceeded 255.
    AddReg { x: u8, y: u8 },
    /// 8xy5: VF = 1 iff Vx > Vy, then Vx = Vx - Vy with 8-bit wraparound.
    SubReg { x: u8, y: u8 },
    /// 8xy6: VF = lowest bit of Vx, then Vx is shifted right once.
    Shr { x: u8 },
    /// 8xy7: VF = 1 iff Vy > Vx, then Vx = Vy - Vx with 8-bit wraparound.
    SubFrom { x: u8, y: u8 },
    /// 8xyE: VF = highest bit of Vx, then Vx is shifted left once, truncated.
    Shl { x: u8 },
    /// 9xy0: skip the next instruction if Vx != Vy.
    SkipNeReg { x: u8, y: u8 },
    /// Annn: I = nnn.
    LoadIndex { nnn: u16 },
    /// Bnnn: jump to nnn + V0.
    JumpPlus { nnn: u16 },
    /// Cxkk: Vx = random byte AND kk.
    Random { x: u8, kk: u8 },
    /// Dxyn: draw the n-byte sprite at memory[I..] at (Vx, Vy); VF = collision.
    Draw { x: u8, y: u8, n: u8 },
    /// Ex9E: skip the next instruction if key Vx is pressed.
    SkipKey { x: u8 },
    /// ExA1: skip the next instruction if key Vx is not pressed.
    SkipNoKey { x: u8 },
    /// Fx07: Vx = delay timer.
    ReadDelay { x: u8 },
    /// Fx0A: if a key is pressed, Vx = lowest pressed key code; otherwise
    /// rewind the program counter so the same instruction polls again.
    WaitKey { x: u8 },
    /// Fx15: delay timer = Vx.
    SetDelay { x: u8 },
    /// Fx18: sound timer = Vx.
    SetSound { x: u8 },
    /// Fx1E: I = I + Vx, masked to the 12-bit address space.
    AddIndex { x: u8 },
    /// Fx29: I = Vx * 5, the base address of the font glyph for digit Vx.
    FontIndex { x: u8 },
    /// Fx33: store the decimal digits of Vx at I (hundreds), I+1, I+2.
    StoreBcd { x: u8 },
    /// Fx55: store V0..=Vx into memory[I..].
    StoreRegs { x: u8 },
    /// Fx65: load memory[I..] into V0..=Vx.
    LoadRegs { x: u8 },
}

impl Instr {
    /// Operand ranges that decoding guarantees: register indices and sprite
    /// heights are one nibble, addresses are 12 bits.
    pub open spec fn wf(self) -> bool {
        match self {
            Instr::Cls => true,
            Instr::Ret => true,
            Instr::Jump { nnn } => nnn < 4096,
            Instr::Call { nnn } => nnn < 4096,
            Instr::SkipEqImm { x, kk } => x < 16,
            Instr::SkipNeImm { x, kk } => x < 16,
            Instr::SkipEqReg { x, y } => x < 16 && y < 16,
            Instr::LoadImm { x, kk } => x < 16,
            Instr::AddImm { x, kk } => x < 16,
            Instr::Move { x, y } => x < 16 && y < 16,
            Instr::Or { x, y } => x < 16 && y < 16,
            Instr::And { x, y } => x < 16 && y < 16,
            Instr::Xor { x, y } => x < 16 && y < 16,
            Instr::AddReg { x, y } => x < 16 && y < 16,
            Instr::SubReg { x, y } => x < 16 && y < 16,
            Instr::Shr { x } => x < 16,
            Instr::SubFrom { x, y } => x < 16 && y < 16,
            Instr::Shl { x } => x < 16,
            Instr::SkipNeReg { x, y } => x < 16 && y < 16,
            Instr::LoadIndex { nnn } => nnn < 4096,
            Instr::JumpPlus { nnn } => nnn < 4096,
            Instr::Random { x, kk } => x < 16,
            Instr::Draw { x, y, n } => x < 16 && y < 16 && n < 16,
            Instr::SkipKey { x } => x < 16,
            Instr::SkipNoKey { x } => x < 16,
            Instr::ReadDelay { x } => x < 16,
            Instr::WaitKey { x } => x < 16,
            Instr::SetDelay { x } => x < 16,
            Instr::SetSound { x } => x < 16,
            Instr::AddIndex { x } => x < 16,
            Instr::FontIndex { x } => x < 16,
            Instr::StoreBcd { x } => x < 16,
            Instr::StoreRegs { x } => x < 16,
            Instr::LoadRegs { x } => x < 16,
        }
    }
}

/// Which instruction, if any, a 16-bit word decodes to.  The first nibble is
/// the primary selector; for the 0, 8, E and F families the trailing byte or
/// nibble selects the operation.  A word matching no pattern decodes to
/// `None`, a fatal condition for the engine.
pub open spec fn spec_decode(op: u16) -> Option<Instr> {
    let v = op as int;
    let n1 = v / 4096;
    let x = ((v / 256) % 16) as u8;
    let y = ((v / 16) % 16) as u8;
    let n = v % 16;
    let kk = (v % 256) as u8;
    let nnn = (v % 4096) as u16;
    if op == 0x00E0 {
        Some(Instr::Cls)
    } else if op == 0x00EE {
        Some(Instr::Ret)
    } else if n1 == 0x1 {
        Some(Instr::Jump { nnn })
    } else if n1 == 0x2 {
        Some(Instr::Call { nnn })
    } else if n1 == 0x3 {
        Some(Instr::SkipEqImm { x, kk })
    } else if n1 == 0x4 {
        Some(Instr::SkipNeImm { x, kk })
    } else if n1 == 0x5 && n == 0x0 {
        Some(Instr::SkipEqReg { x, y })
    } else if n1 == 0x6 {
        Some(Instr::LoadImm { x, kk })
    } else if n1 == 0x7 {
        Some(Instr::AddImm { x, kk })
    } else if n1 == 0x8 && n == 0x0 {
        Some(Instr::Move { x, y })
    } else if n1 == 0x8 && n == 0x1 {
        Some(Instr::Or { x, y })
    } else if n1 == 0x8 && n == 0x2 {
        Some(Instr::And { x, y })
    } else if n1 == 0x8 && n == 0x3 {
        Some(Instr::Xor { x, y })
    } else if n1 == 0x8 && n == 0x4 {
        Some(Instr::AddReg { x, y })
    } else if n1 == 0x8 && n == 0x5 {
        Some(Instr::SubReg { x, y })
    } else if n1 == 0x8 && n == 0x6 {
        Some(Instr::Shr { x })
    } else if n1 == 0x8 && n == 0x7 {
        Some(Instr::SubFrom { x, y })
    } else if n1 == 0x8 && n == 0xE {
        Some(Instr::Shl { x })
    } else if n1 == 0x9 && n == 0x0 {
        Some(Instr::SkipNeReg { x, y })
    } else if n1 == 0xA {
        Some(Instr::LoadIndex { nnn })
    } else if n1 == 0xB {
        Some(Instr::JumpPlus { nnn })
    } else if n1 == 0xC {
        Some(Instr::Random { x, kk })
    } else if n1 == 0xD {
        Some(Instr::Draw { x, y, n: n as u8 })
    } else if n1 == 0xE && kk == 0x9E {
        Some(Instr::SkipKey { x })
    } else if n1 == 0xE && kk == 0xA1 {
        Some(Instr::SkipNoKey { x })
    } else if n1 == 0xF && kk == 0x07 {
        Some(Instr::ReadDelay { x })
    } else if n1 == 0xF && kk == 0x0A {
        Some(Instr::WaitKey { x })
    } else if n1 == 0xF && kk == 0x15 {
        Some(Instr::SetDelay { x })
    } else if n1 == 0xF && kk == 0x18 {
        Some(Instr::SetSound { x })
    } else if n1 == 0xF && kk == 0x1E {
        Some(Instr::AddIndex { x })
    } else if n1 == 0xF && kk == 0x29 {
        Some(Instr::FontIndex { x })
    } else if n1 == 0xF && kk == 0x33 {
        Some(Instr::StoreBcd { x })
    } else if n1 == 0xF && kk == 0x55 {
        Some(Instr::StoreRegs { x })
    } else if n1 == 0xF && kk == 0x65 {
        Some(Instr::LoadRegs { x })
    } else {
        None
    }
}

/// Decode a 16-bit instruction word into its tagged form.
pub fn decode(op: u16) -> (r: Option<Instr>)
    ensures
        r == spec_decode(op),
        (r matches Some(i) ==> i.wf()),
{
    let n1 = op / 4096;
    let x = ((op / 256) % 16) as u8;
    let y = ((op / 16) % 16) as u8;
    let n = (op % 16) as u8;
    let kk = (op % 256) as u8;
    let nnn = op % 4096;
    if op == 0x00E0 {
        Some(Instr::Cls)
    } else if op == 0x00EE {
        Some(Instr::Ret)
    } else if n1 == 0x1 {
        Some(Instr::Jump { nnn })
    } else if n1 == 0x2 {
        Some(Instr::Call { nnn })
    } else if n1 == 0x3 {
        Some(Instr::SkipEqImm { x, kk })
    } else if n1 == 0x4 {
        Some(Instr::SkipNeImm { x, kk })
    } else if n1 == 0x5 && n == 0x0 {
        Some(Instr::SkipEqReg { x, y })
    } else if n1 == 0x6 {
        Some(Instr::LoadImm { x, kk })
    } else if n1 == 0x7 {
        Some(Instr::AddImm { x, kk })
    } else if n1 == 0x8 && n == 0x0 {
        Some(Instr::Move { x, y })
    } else if n1 == 0x8 && n == 0x1 {
        Some(Instr::Or { x, y })
    } else if n1 == 0x8 && n == 0x2 {
        Some(Instr::And { x, y })
    } else if n1 == 0x8 && n == 0x3 {
        Some(Instr::Xor { x, y })
    } else if n1 == 0x8 && n == 0x4 {
        Some(Instr::AddReg { x, y })
    } else if n1 == 0x8 && n == 0x5 {
        Some(Instr::SubReg { x, y })
    } else if n1 == 0x8 && n == 0x6 {
        Some(Instr::Shr { x })
    } else if n1 == 0x8 && n == 0x7 {
        Some(Instr::SubFrom { x, y })
    } else if n1 == 0x8 && n == 0xE {
        Some(Instr::Shl { x })
    } else if n1 == 0x9 && n == 0x0 {
        Some(Instr::SkipNeReg { x, y })
    } else if n1 == 0xA {
        Some(Instr::LoadIndex { nnn })
    } else if n1 == 0xB {
        Some(Instr::JumpPlus { nnn })
    } else if n1 == 0xC {
        Some(Instr::Random { x, kk })
    } else if n1 == 0xD {
        Some(Instr::Draw { x, y, n })
    } else if n1 == 0xE && kk == 0x9E {
        Some(Instr::SkipKey { x })
    } else if n1 == 0xE && kk == 0xA1 {
        Some(Instr::SkipNoKey { x })
    } else if n1 == 0xF && kk == 0x07 {
        Some(Instr::ReadDelay { x })
    } else if n1 == 0xF && kk == 0x0A {
        Some(Instr::WaitKey { x })
    } else if n1 == 0xF && kk == 0x15 {
        Some(Instr::SetDelay { x })
    } else if n1 == 0xF && kk == 0x18 {
        Some(Instr::SetSound { x })
    } else if n1 == 0xF && kk == 0x1E {
        Some(Instr::AddIndex { x })
    } else if n1 == 0xF && kk == 0x29 {
        Some(Instr::FontIndex { x })
    } else if n1 == 0xF && kk == 0x33 {
        Some(Instr::StoreBcd { x })
    } else if n1 == 0xF && kk == 0x55 {
        Some(Instr::StoreRegs { x })
    } else if n1 == 0xF && kk == 0x65 {
        Some(Instr::LoadRegs { x })
    } else {
        None
    }
}

/// An 8-bit truncating sum.
pub open spec fn add8(a: u8, b: u8) -> u8 {
    ((a + b) % 256) as u8
}

/// An 8-bit wraparound difference.
pub open spec fn sub8(a: u8, b: u8) -> u8 {
    ((a - b) % 256) as u8
}

/// The effect of one decoded instruction on machine state `s` whose program
/// counter still points at the instruction: either the state after it, or
/// the fault that stops the machine.  `rnd` is the byte the random-number
/// generator would hand the random instruction; every other instruction
/// ignores it.
///
/// The program counter first advances past the 2-byte instruction word;
/// jumps and skips then overwrite or advance it, and the key-wait
/// instruction rewinds it when no key is pressed, leaving it net-unchanged.
/// Flag-writing instructions overwrite register 0xF at the exact point the
/// instruction table gives, so an instruction whose `x` is 0xF reads the
/// freshly written flag where the table orders the flag write first.
pub open spec fn instr_effect(s: State, i: Instr, rnd: u8) -> Result<State, Fault> {
    let pc2 = s.pc + 2;
    match i {
        Instr::Cls => Ok(State { pc: pc2, screen: blank_grid(), ..s }),
        Instr::Ret => if s.sp == 0 {
            Err(Fault::StackUnderflow)
        } else {
            Ok(State { pc: s.stack[s.sp], sp: s.sp - 1, ..s })
        },
        Instr::Jump { nnn } => Ok(State { pc: nnn as int, ..s }),
        Instr::Call { nnn } => if s.sp + 1 >= STACK_SIZE {
            Err(Fault::StackOverflow)
        } else {
            Ok(
                State {
                    pc: nnn as int,
                    sp: s.sp + 1,
                    stack: s.stack.update(s.sp + 1, pc2),
                    ..s
                },
            )
        },
        Instr::SkipEqImm { x, kk } => Ok(
            State {
                pc: if s.regs[x as int] == kk {
                    pc2 + 2
                } else {
                    pc2
                },
                ..s
            },
        ),
        Instr::SkipNeImm { x, kk } => Ok(
            State {
                pc: if s.regs[x as int] != kk {
                    pc2 + 2
                } else {
                    pc2
                },
                ..s
            },
        ),
        Instr::SkipEqReg { x, y } => Ok(
            State {
                pc: if s.regs[x as int] == s.regs[y as int] {
                    pc2 + 2
                } else {
                    pc2
                },
                ..s
            },
        ),
        Instr::LoadImm { x, kk } => Ok(State { pc: pc2, regs: s.regs.update(x as int, kk), ..s }),
        Instr::AddImm { x, kk } => Ok(
            State { pc: pc2, regs: s.regs.update(x as int, add8(s.regs[x as int], kk)), ..s },
        ),
        Instr::Move { x, y } => Ok(
            State { pc: pc2, regs: s.regs.update(x as int, s.regs[y as int]), ..s },
        ),
        Instr::Or { x, y } => Ok(
            State {
                pc: pc2,
                regs: s.regs.update(x as int, s.regs[x as int] | s.regs[y as int]),
                ..s
            },
        ),
        Instr::And { x, y } => Ok(
            State {
                pc: pc2,
                regs: s.regs.update(x as int, s.regs[x as int] & s.regs[y as int]),
                ..s
            },
        ),
        Instr::Xor { x, y } => Ok(
            State {
                pc: pc2,
                regs: s.regs.update(x as int, s.regs[x as int] ^ s.regs[y as int]),
                ..s
            },
        ),
        Instr::AddReg { x, y } => {
            let sum = s.regs[x as int] + s.regs[y as int];
            let r1 = s.regs.update(x as int, (sum % 256) as u8);
            Ok(
                State {
                    pc: pc2,
                    regs: r1.update(
                        15,
                        if sum > 255 {
                            1u8
                        } else {
                            0u8
                        },
                    ),
                    ..s
                },
            )
        },
        Instr::SubReg { x, y } => {
            let r1 = s.regs.update(
                15,
                if s.regs[x as int] > s.regs[y as int] {
                    1u8
                } else {
                    0u8
                },
            );
            Ok(
                State {
                    pc: pc2,
                    regs: r1.update(x as int, sub8(r1[x as int], r1[y as int])),
                    ..s
                },
            )
        },
        Instr::Shr { x } => {
            let r1 = s.regs.update(15, (s.regs[x as int] % 2) as u8);
            Ok(State { pc: pc2, regs: r1.update(x as int, (r1[x as int] / 2) as u8), ..s })
        },
        Instr::SubFrom { x, y } => {
            let r1 = s.regs.update(
                15,
                if s.regs[y as int] > s.regs[x as int] {
                    1u8
                } else {
                    0u8
                },
            );
            Ok(
                State {
                    pc: pc2,
                    regs: r1.update(x as int, sub8(r1[y as int], r1[x as int])),
                    ..s
                },
            )
        },
        Instr::Shl { x } => {
            let r1 = s.regs.update(15, (s.regs[x as int] / 128) as u8);
            Ok(
                State {
                    pc: pc2,
                    regs: r1.update(x as int, ((r1[x as int] * 2) % 256) as u8),
                    ..s
                },
            )
        },
        Instr::SkipNeReg { x, y } => Ok(
            State {
                pc: if s.regs[x as int] != s.regs[y as int] {
                    pc2 + 2
                } else {
                    pc2
                },
                ..s
            },
        ),
        Instr::LoadIndex { nnn } => Ok(State { pc: pc2, index: nnn as int, ..s }),
        Instr::JumpPlus { nnn } => Ok(State { pc: nnn + s.regs[0], ..s }),
        Instr::Random { x, kk } => Ok(
            State { pc: pc2, regs: s.regs.update(x as int, rnd & kk), ..s },
        ),
        Instr::Draw { x, y, n } => if s.index + n > MEMORY_SIZE {
            Err(Fault::MemoryOutOfRange)
        } else {
            let sprite = s.mem.subrange(s.index, s.index + n);
            let px = s.regs[x as int] as int;
            let py = s.regs[y as int] as int;
            Ok(
                State {
                    pc: pc2,
                    screen: draw_result(s.screen, px, py, sprite),
                    regs: s.regs.update(
                        15,
                        if draw_collision(s.screen, px, py, sprite) {
                            1u8
                        } else {
                            0u8
                        },
                    ),
                    ..s
                },
            )
        },
        Instr::SkipKey { x } => if s.regs[x as int] >= 16 {
            Err(Fault::KeyOutOfRange)
        } else {
            Ok(
                State {
                    pc: if s.keys[s.regs[x as int] as int] {
                        pc2 + 2
                    } else {
                        pc2
                    },
                    ..s
                },
            )
        },
        Instr::SkipNoKey { x } => if s.regs[x as int] >= 16 {
            Err(Fault::KeyOutOfRange)
        } else {
            Ok(
                State {
                    pc: if !s.keys[s.regs[x as int] as int] {
                        pc2 + 2
                    } else {
                        pc2
                    },
                    ..s
                },
            )
        },
        Instr::ReadDelay { x } => Ok(
            State { pc: pc2, regs: s.regs.update(x as int, s.delay), ..s },
        ),
        Instr::WaitKey { x } => if lowest_key(s.keys) < 16 {
            Ok(
                State {
                    pc: pc2,
                    regs: s.regs.update(x as int, lowest_key(s.keys) as u8),
                    ..s
                },
            )
        } else {
            Ok(State { pc: s.pc, ..s })
        },
        Instr::SetDelay { x } => Ok(State { pc: pc2, delay: s.regs[x as int], ..s }),
        Instr::SetSound { x } => Ok(State { pc: pc2, sound: s.regs[x as int], ..s }),
        Instr::AddIndex { x } => Ok(
            State { pc: pc2, index: (s.index + s.regs[x as int]) % (MEMORY_SIZE as int), ..s },
        ),
        Instr::FontIndex { x } => Ok(State { pc: pc2, index: s.regs[x as int] * 5, ..s }),
        Instr::StoreBcd { x } => if s.index + 2 >= MEMORY_SIZE {
            Err(Fault::MemoryOutOfRange)
        } else {
            let v = s.regs[x as int];
            Ok(
                State {
                    pc: pc2,
                    mem: s.mem.update(s.index, (v / 100) as u8).update(
                        s.index + 1,
                        ((v / 10) % 10) as u8,
                    ).update(s.index + 2, (v % 10) as u8),
                    ..s
                },
            )
        },
        Instr::StoreRegs { x } => if s.index + x >= MEMORY_SIZE {
            Err(Fault::MemoryOutOfRange)
        } else {
            Ok(
                State {
                    pc: pc2,
                    mem: Seq::new(
                        MEMORY_SIZE as nat,
                        |a: int|
                            if s.index <= a <= s.index + x {
                                s.regs[a - s.index]
                            } else {
                                s.mem[a]
                            },
                    ),
                    ..s
                },
            )
        },
        Instr::LoadRegs { x } => if s.index + x >= MEMORY_SIZE {
            Err(Fault::MemoryOutOfRange)
        } else {
            Ok(
                State {
                    pc: pc2,
                    regs: Seq::new(
                        REGISTER_SIZE as nat,
                        |k: int|
                            if k <= x {
                                s.mem[s.index + k]
                            } else {
                                s.regs[k]
                            },
                    ),
                    ..s
                },
            )
        },
    }
}

/// The effect of one whole fetch-decode-execute step on machine state `s`:
/// fetch the big-endian word at the program counter, decode it, run it.
pub open spec fn step_effect(s: State, rnd: u8) -> Result<State, Fault> {
    if s.pc + 1 >= MEMORY_SIZE {
        Err(Fault::PcOutOfRange)
    } else {
        let op = (s.mem[s.pc] * 256 + s.mem[s.pc + 1]) as u16;
        match spec_decode(op) {
            Some(i) => instr_effect(s, i, rnd),
            None => Err(Fault::UnknownOpcode),
        }
    }
}

/// The carry flag of the add-registers instruction: VF ends up 1 exactly
/// when the unsigned sum Vx + Vy, taken before truncation, exceeds 255.
/// VF is written after the truncated sum, so this holds even when the
/// destination register x is 0xF itself.
pub proof fn lemma_add_carry_flag(s: State, x: u8, y: u8, rnd: u8)
    requires
        s.wf(),
        x < 16,
        y < 16,
    ensures
        (instr_effect(s, Instr::AddReg { x, y }, rnd) matches Ok(t) && t.regs[15] == (
        if s.regs[x as int] + s.regs[y as int] > 255 {
            1u8
        } else {
            0u8
        })),
{
}

/// The borrow flag of the subtract instruction: VF ends up 1 exactly when
/// Vx > Vy measured before the subtraction.  The destination register must
/// not be VF itself: the flag is written first and the difference would
/// overwrite it.
pub proof fn lemma_sub_borrow_flag(s: State, x: u8, y: u8, rnd: u8)
    requires
        s.wf(),
        x < 15,
        y < 16,
    ensures
        (instr_effect(s, Instr::SubReg { x, y }, rnd) matches Ok(t) && t.regs[15] == (
        if s.regs[x as int] > s.regs[y as int] {
            1u8
        } else {
            0u8
        })),
{
}

/// The borrow flag of the reversed subtract instruction: VF ends up 1
/// exactly when Vy > Vx measured before the subtraction.  As for the plain
/// subtract, the destination register must not be VF itself.
pub proof fn lemma_subfrom_borrow_flag(s: State, x: u8, y: u8, rnd: u8)
    requires
        s.wf(),
        x < 15,
        y < 16,
    ensures
        (instr_effect(s, Instr::SubFrom { x, y }, rnd) matches Ok(t) && t.regs[15] == (
        if s.regs[y as int] > s.regs[x as int] {
            1u8
        } else {
            0u8
        })),
{
}

/// Key-wait with no key pressed leaves the machine exactly as it was: the
/// program counter is rewound over the advance, so the very same
/// instruction is fetched again on the next step.
pub proof fn lemma_wait_key_blocks(s: State, x: u8, rnd: u8)
    requires
        s.wf(),
        x < 16,
        forall|k: int| 0 <= k < 16 ==> !s.keys[k],
    ensures
        instr_effect(s, Instr::WaitKey { x }, rnd) == Ok::<State, Fault>(s),
{
    keyboard::lemma_lowest_key_none(s.keys, 0);
    assert(State { pc: s.pc, ..s } =~~= s);
}

/// Key-wait with a key pressed stores the lowest pressed key code in Vx and
/// advances the program counter normally.
pub proof fn lemma_wait_key_proceeds(s: State, x: u8, rnd: u8, k: int)
    requires
        s.wf(),
        x < 16,
        0 <= k < 16,
        s.keys[k],
        forall|j: int| 0 <= j < k ==> !s.keys[j],
    ensures
        instr_effect(s, Instr::WaitKey { x }, rnd) == Ok::<State, Fault>(
            State { pc: s.pc + 2, regs: s.regs.update(x as int, k as u8), ..s },
        ),
{
    keyboard::lemma_lowest_key_found(s.keys, 0, k);
}

/// The interpreter engine.  It exclusively owns the [`Display`] and the
/// [`Keyboard`]; the external driver replaces the keypad snapshot once per
/// frame, calls [`Emulator::tick`] a fixed number of times, calls
/// [`Emulator::tick_timers`] exactly once and then reads the framebuffer.
pub struct Emulator {
    memory: Vec<u8>,
    v_registers: Vec<u8>,
    program_counter: usize,
    stack_pointer: usize,
    stack: Vec<usize>,
    index_register: usize,
    sound_timer: u8,
    delay_timer: u8,
    pub display: Display,
    pub keyboard: Keyboard,
}

impl View for Emulator {
    type V = State;

    closed spec fn view(&self) -> State {
        State {
            mem: self.memory@,
            regs: self.v_registers@,
            pc: self.program_counter as int,
            sp: self.stack_pointer as int,
            stack: Seq::new(self.stack@.len(), |k: int| self.stack@[k] as int),
            index: self.index_register as int,
            delay: self.delay_timer,
            sound: self.sound_timer,
            screen: self.display.grid(),
            keys: self.keyboard.keys@,
        }
    }
}

impl Emulator {
    /// Well-formed: the mathematical state satisfies its invariant.
    pub open spec fn wf(&self) -> bool {
        self@.wf()
    }

    /// A fresh machine: memory zeroed but for the font, registers, stack and
    /// timers zeroed, program counter at the load base, screen blank, no key
    /// pressed.
    pub fn new() -> (e: Emulator)
        ensures
            e.wf(),
            e@ == initial_state(),
    {
        let mut memory: Vec<u8> = Vec::new();
        let mut a: usize = 0;
        while a < MEMORY_SIZE
            invariant
                a <= MEMORY_SIZE,
                memory@.len() == a,
                forall|t: int| 0 <= t < a ==> #[trigger] memory@[t] == 0u8,
            decreases MEMORY_SIZE - a,
        {
            memory.push(0);
            a = a + 1;
        }
        let font = fontset();
        let mut f: usize = 0;
        while f < FONTSET_SIZE
            invariant
                f <= FONTSET_SIZE,
                font@ == font_seq(),
                memory@.len() == MEMORY_SIZE,
                forall|t: int| 0 <= t < f ==> #[trigger] memory@[t] == font_seq()[t],
                forall|t: int| f <= t < MEMORY_SIZE ==> #[trigger] memory@[t] == 0u8,
            decreases FONTSET_SIZE - f,
        {
            memory.set(f, font[f]);
            f = f + 1;
        }
        let mut v_registers: Vec<u8> = Vec::new();
        let mut r: usize = 0;
        while r < REGISTER_SIZE
            invariant
                r <= REGISTER_SIZE,
                v_registers@.len() == r,
                forall|t: int| 0 <= t < r ==> #[trigger] v_registers@[t] == 0u8,
            decreases REGISTER_SIZE - r,
        {
            v_registers.push(0);
            r = r + 1;
        }
        let mut stack: Vec<usize> = Vec::new();
        let mut s: usize = 0;
        while s < STACK_SIZE
            invariant
                s <= STACK_SIZE,
                stack@.len() == s,
                forall|t: int| 0 <= t < s ==> #[trigger] stack@[t] == 0usize,
            decreases STACK_SIZE - s,
        {
            stack.push(0);
            s = s + 1;
        }
        let e = Emulator {
            memory,
            v_registers,
            program_counter: START_ADDRESS,
            stack_pointer: 0,
            stack,
            index_register: 0,
            sound_timer: 0,
            delay_timer: 0,
            display: Display::new(),
            keyboard: Keyboard::new(),
        };
        proof {
            assert(e@.mem =~= initial_state().mem);
            assert(e@.regs =~= initial_state().regs);
            assert(e@.stack =~= initial_state().stack);
            assert(e@.keys =~= initial_state().keys);
            assert(e@ =~~= initial_state());
        }
        e
    }

    /// Copy a program into memory at the fixed load base.  The caller must
    /// have checked the length bound; an oversized program is a contract
    /// violation of the loading collaborator.
    pub fn load_rom(&mut self, buffer: &[u8])
        requires
            old(self).wf(),
            buffer@.len() <= MAX_ROM_LEN,
        ensures
            final(self).wf(),
            final(self)@ == (State { mem: loaded_mem(old(self)@.mem, buffer@), ..old(self)@ }),
    {
        let mut k: usize = 0;
        while k < buffer.len()
            invariant
                k <= buffer@.len() <= MAX_ROM_LEN,
                self.memory@.len() == MEMORY_SIZE,
                forall|t: int|
                    START_ADDRESS <= t < START_ADDRESS + k ==> #[trigger] self.memory@[t]
                        == buffer@[t - START_ADDRESS],
                forall|t: int|
                    0 <= t < MEMORY_SIZE && !(START_ADDRESS <= t < START_ADDRESS + k)
                        ==> #[trigger] self.memory@[t] == old(self)@.mem[t],
                self.v_registers == old(self).v_registers,
                self.program_counter == old(self).program_counter,
                self.stack_pointer == old(self).stack_pointer,
                self.stack == old(self).stack,
                self.index_register == old(self).index_register,
                self.sound_timer == old(self).sound_timer,
                self.delay_timer == old(self).delay_timer,
                self.display == old(self).display,
                self.keyboard == old(self).keyboard,
            decreases buffer@.len() - k,
        {
            let b = buffer[k];
            self.memory.set(START_ADDRESS + k, b);
            k = k + 1;
        }
        proof {
            assert(self@.mem =~= loaded_mem(old(self)@.mem, buffer@));
            assert(self@ =~~= State { mem: loaded_mem(old(self)@.mem, buffer@), ..old(self)@ });
        }
    }

    /// Run one fetch-decode-execute step: fetch the big-endian word at the
    /// program counter, decode it, execute it.  On success the machine is in
    /// exactly the state [`step_effect`] gives for some byte the random
    /// generator drew; on a fault the machine is untouched and the fault is
    /// the one [`step_effect`] gives whatever byte would have been drawn.
    pub fn tick(&mut self) -> (r: Result<(), Fault>)
        requires
            old(self).wf(),
        ensures
            final(self).wf(),
            (match r {
                Ok(_) => exists|b: u8|
                    step_effect(old(self)@, b) == Ok::<State, Fault>(final(self)@),
                Err(f) => final(self)@ == old(self)@ && (forall|b: u8|
                    step_effect(old(self)@, b) == Err::<State, Fault>(f)),
            }),
    {
        if self.program_counter + 1 >= MEMORY_SIZE {
            return Err(Fault::PcOutOfRange);
        }
        let hi = self.memory[self.program_counter];
        let lo = self.memory[self.program_counter + 1];
        let op = hi as u16 * 256 + lo as u16;
        match decode(op) {
            Some(instr) => {
                let res = self.execute(instr);
                proof {
                    match res {
                        Ok(_) => {
                            let b = choose|b: u8|
                                instr_effect(old(self)@, instr, b) == Ok::<State, Fault>(self@);
                            assert(step_effect(old(self)@, b) == Ok::<State, Fault>(self@));
                        },
                        Err(f) => {
                            assert forall|b: u8|
                                step_effect(old(self)@, b) == Err::<State, Fault>(f) by {}
                        },
                    }
                }
                res
            },
            None => Err(Fault::UnknownOpcode),
        }
    }

    /// Execute one already decoded instruction; the program counter still
    /// points at its first byte.  Faults are detected before anything is
    /// mutated, so a fault leaves the machine exactly as it was.
    #[verifier::rlimit(100)]
    fn execute(&mut self, instr: Instr) -> (r: Result<(), Fault>)
        requires
            old(self).wf(),
            instr.wf(),
            old(self)@.pc + 1 < MEMORY_SIZE,
        ensures
            final(self).wf(),
            (match r {
                Ok(_) => exists|b: u8|
                    instr_effect(old(self)@, instr, b) == Ok::<State, Fault>(final(self)@),
                Err(f) => final(self)@ == old(self)@ && (forall|b: u8|
                    instr_effect(old(self)@, instr, b) == Err::<State, Fault>(f)),
            }),
    {
        let ghost s0 = self@;
        match instr {
            Instr::Cls => {
                self.program_counter = self.program_counter + 2;
                self.display.clear();
                proof {
                    let t = State { pc: s0.pc + 2, screen: blank_grid(), ..s0 };
                    assert(self@ =~~= t);
                    assert(instr_effect(s0, instr, 0u8) == Ok::<State, Fault>(t));
                }
                Ok(())
            },
            Instr::Ret => {
                if self.stack_pointer == 0 {
                    proof {
                        assert forall|b: u8|
                            instr_effect(s0, instr, b) == Err::<State, Fault>(
                                Fault::StackUnderflow,
                            ) by {}
                    }
                    return Err(Fault::StackUnderflow);
                }
                let ret = self.stack[self.stack_pointer];
                self.stack_pointer = self.stack_pointer - 1;
                self.program_counter = ret;
                proof {
                    let t = State { pc: s0.stack[s0.sp], sp: s0.sp - 1, ..s0 };
                    assert(self@ =~~= t);
                    assert(instr_effect(s0, instr, 0u8) == Ok::<State, Fault>(t));
                }
                Ok(())
            },
            Instr::Jump { nnn } => {
                self.program_counter = nnn as usize;
                proof {
                    let t = State { pc: nnn as int, ..s0 };
                    assert(self@ =~~= t);
                    assert(instr_effect(s0, instr, 0u8) == Ok::<State, Fault>(t));
                }
                Ok(())
            },
            Instr::Call { nnn } => {
                if self.stack_pointer == STACK_SIZE - 1 {
                    proof {
                        assert forall|b: u8|
                            instr_effect(s0, instr, b) == Err::<State, Fault>(
                                Fault::StackOverflow,
                            ) by {}
                    }
                    return Err(Fault::StackOverflow);
                }
                let ret = self.program_counter + 2;
                self.stack_pointer = self.stack_pointer + 1;
                self.stack.set(self.stack_pointer, ret);
                self.program_counter = nnn as usize;
                proof {
                    let t = State {
                        pc: nnn as int,
                        sp: s0.sp + 1,
                        stack: s0.stack.update(s0.sp + 1, s0.pc + 2),
                        ..s0
                    };
                    assert(self@.stack =~= t.stack);
                    assert(self@ =~~= t);
                    assert(instr_effect(s0, instr, 0u8) == Ok::<State, Fault>(t));
                }
                Ok(())
            },
            Instr::SkipEqImm { x, kk } => {
                let vx = self.v_registers[x as usize];
                self.program_counter = self.program_counter + 2;
                if vx == kk {
                    self.program_counter = self.program_counter + 2;
                }
                proof {
                    let t = State {
                        pc: if s0.regs[x as int] == kk {
                            s0.pc + 4
                        } else {
                            s0.pc + 2
                        },
                        ..s0
                    };
                    assert(self@ =~~= t);
                    assert(instr_effect(s0, instr, 0u8) == Ok::<State, Fault>(t));
                }
                Ok(())
            },
            Instr::SkipNeImm { x, kk } => {
                let vx = self.v_registers[x as usize];
                self.program_counter = self.program_counter + 2;
                if vx != kk {
                    self.program_counter = self.program_counter + 2;
                }
                proof {
                    let t = State {
                        pc: if s0.regs[x as int] != kk {
                            s0.pc + 4
                        } else {
                            s0.pc + 2
                        },
                        ..s0
                    };
                    assert(self@ =~~= t);
                    assert(instr_effect(s0, instr, 0u8) == Ok::<State, Fault>(t));
                }
                Ok(())
            },
            Instr::SkipEqReg { x, y } => {
                let vx = self.v_registers[x as usize];
                let vy = self.v_registers[y as usize];
                self.program_counter = self.program_counter + 2;
                if vx == vy {
                    self.program_counter = self.program_counter + 2;
                }
                proof {
                    let t = State {
                        pc: if s0.regs[x as int] == s0.regs[y as int] {
                            s0.pc + 4
                        } else {
                            s0.pc + 2
                        },
                        ..s0
                    };
                    assert(self@ =~~= t);
                    assert(instr_effect(s0, instr, 0u8) == Ok::<State, Fault>(t));
                }
                Ok(())
            },
            Instr::LoadImm { x, kk } => {
                self.program_counter = self.program_counter + 2;
                self.v_registers.set(x as usize, kk);
                proof {
                    let t = State { pc: s0.pc + 2, regs: s0.regs.update(x as int, kk), ..s0 };
                    assert(self@ =~~= t);
                    assert(instr_effect(s0, instr, 0u8) == Ok::<State, Fault>(t));
                }
                Ok(())
            },
            Instr::AddImm { x, kk } => {
                let vx = self.v_registers[x as usize];
                self.program_counter = self.program_counter + 2;
                let sum = ((vx as u16 + kk as u16) % 256) as u8;
                self.v_registers.set(x as usize, sum);
                proof {
                    let t = State {
                        pc: s0.pc + 2,
                        regs: s0.regs.update(x as int, add8(s0.regs[x as int], kk)),
                        ..s0
                    };
                    assert(self@ =~~= t);
                    assert(instr_effect(s0, instr, 0u8) == Ok::<State, Fault>(t));
                }
                Ok(())
            },
            Instr::Move { x, y } => {
                let vy = self.v_registers[y as usize];
                self.program_counter = self.program_counter + 2;
                self.v_registers.set(x as usize, vy);
                proof {
                    let t = State {
                        pc: s0.pc + 2,
                        regs: s0.regs.update(x as int, s0.regs[y as int]),
                        ..s0
                    };
                    assert(self@ =~~= t);
                    assert(instr_effect(s0, instr, 0u8) == Ok::<State, Fault>(t));
                }
                Ok(())
            },
            Instr::Or { x, y } => {
                let vx = self.v_registers[x as usize];
                let vy = self.v_registers[y as usize];
                self.program_counter = self.program_counter + 2;
                self.v_registers.set(x as usize, vx | vy);
                proof {
                    let t = State {
                        pc: s0.pc + 2,
                        regs: s0.regs.update(x as int, s0.regs[x as int] | s0.regs[y as int]),
                        ..s0
                    };
                    assert(self@ =~~= t);
                    assert(instr_effect(s0, instr, 0u8) == Ok::<State, Fault>(t));
                }
                Ok(())
            },
            Instr::And { x, y } => {
                let vx = self.v_registers[x as usize];
                let vy = self.v_registers[y as usize];
                self.program_counter = self.program_counter + 2;
                self.v_registers.set(x as usize, vx & vy);
                proof {
                    let t = State {
                        pc: s0.pc + 2,
                        regs: s0.regs.update(x as int, s0.regs[x as int] & s0.regs[y as int]),
                        ..s0
                    };
                    assert(self@ =~~= t);
                    assert(instr_effect(s0, instr, 0u8) == Ok::<State, Fault>(t));
                }
                Ok(())
            },
            Instr::Xor { x, y } => {
                let vx = self.v_registers[x as usize];
                let vy = self.v_registers[y as usize];
                self.program_counter = self.program_counter + 2;
                self.v_registers.set(x as usize, vx ^ vy);
                proof {
                    let t = State {
                        pc: s0.pc + 2,
                        regs: s0.regs.update(x as int, s0.regs[x as int] ^ s0.regs[y as int]),
                        ..s0
                    };
                    assert(self@ =~~= t);
                    assert(instr_effect(s0, instr, 0u8) == Ok::<State, Fault>(t));
                }
                Ok(())
            },
            Instr::AddReg { x, y } => {
                let vx = self.v_registers[x as usize] as u16;
                let vy = self.v_registers[y as usize] as u16;
                let sum = vx + vy;
                self.program_counter = self.program_counter + 2;
                self.v_registers.set(x as usize, (sum % 256) as u8);
                self.v_registers.set(
                    15,
                    if sum > 255 {
                        1
                    } else {
                        0
                    },
                );
                proof {
                    let sums = s0.regs[x as int] + s0.regs[y as int];
                    let r1 = s0.regs.update(x as int, (sums % 256) as u8);
                    let t = State {
                        pc: s0.pc + 2,
                        regs: r1.update(
                            15,
                            if sums > 255 {
                                1u8
                            } else {
                                0u8
                            },
                        ),
                        ..s0
                    };
                    assert(self@ =~~= t);
                    assert(instr_effect(s0, instr, 0u8) == Ok::<State, Fault>(t));
                }
                Ok(())
            },
            Instr::SubReg { x, y } => {
                let vx = self.v_registers[x as usize];
                let vy = self.v_registers[y as usize];
                self.program_counter = self.program_counter + 2;
                self.v_registers.set(
                    15,
                    if vx > vy {
                        1
                    } else {
                        0
                    },
                );
                let a = self.v_registers[x as usize];
                let b = self.v_registers[y as usize];
                let diff = ((a as u16 + 256 - b as u16) % 256) as u8;
                self.v_registers.set(x as usize, diff);
                proof {
                    vstd::arithmetic::div_mod::lemma_mod_multiples_vanish(
                        1,
                        a as int - b as int,
                        256,
                    );
                    let r1 = s0.regs.update(
                        15,
                        if s0.regs[x as int] > s0.regs[y as int] {
                            1u8
                        } else {
                            0u8
                        },
                    );
                    let t = State {
                        pc: s0.pc + 2,
                        regs: r1.update(x as int, sub8(r1[x as int], r1[y as int])),
                        ..s0
                    };
                    assert(self@ =~~= t);
                    assert(instr_effect(s0, instr, 0u8) == Ok::<State, Fault>(t));
                }
                Ok(())
            },
            Instr::Shr { x } => {
                let vx = self.v_registers[x as usize];
                self.program_counter = self.program_counter + 2;
                self.v_registers.set(15, vx % 2);
                let a = self.v_registers[x as usize];
                self.v_registers.set(x as usize, a / 2);
                proof {
                    let r1 = s0.regs.update(15, (s0.regs[x as int] % 2) as u8);
                    let t = State {
                        pc: s0.pc + 2,
                        regs: r1.update(x as int, (r1[x as int] / 2) as u8),
                        ..s0
                    };
                    assert(self@ =~~= t);
                    assert(instr_effect(s0, instr, 0u8) == Ok::<State, Fault>(t));
                }
                Ok(())
            },
            Instr::SubFrom { x, y } => {
                let vx = self.v_registers[x as usize];
                let vy = self.v_registers[y as usize];
                self.program_counter = self.program_counter + 2;
                self.v_registers.set(
                    15,
                    if vy > vx {
                        1
                    } else {
                        0
                    },
                );
                let a = self.v_registers[x as usize];
                let b = self.v_registers[y as usize];
                let diff = ((b as u16 + 256 - a as u16) % 256) as u8;
                self.v_registers.set(x as usize, diff);
                proof {
                    vstd::arithmetic::div_mod::lemma_mod_multiples_vanish(
                        1,
                        b as int - a as int,
                        256,
                    );
                    let r1 = s0.regs.update(
                        15,
                        if s0.regs[y as int] > s0.regs[x as int] {
                            1u8
                        } else {
                            0u8
                        },
                    );
                    let t = State {
                        pc: s0.pc + 2,
                        regs: r1.update(x as int, sub8(r1[y as int], r1[x as int])),
                        ..s0
                    };
                    assert(self@ =~~= t);
                    assert(instr_effect(s0, instr, 0u8) == Ok::<State, Fault>(t));
                }
                Ok(())
            },
            Instr::Shl { x } => {
                let vx = self.v_registers[x as usize];
                self.program_counter = self.program_counter + 2;
                self.v_registers.set(15, vx / 128);
                let a = self.v_registers[x as usize];
                self.v_registers.set(x as usize, ((a as u16 * 2) % 256) as u8);
                proof {
                    let r1 = s0.regs.update(15, (s0.regs[x as int] / 128) as u8);
                    let t = State {
                        pc: s0.pc + 2,
                        regs: r1.update(x as int, ((r1[x as int] * 2) % 256) as u8),
                        ..s0
                    };
                    assert(self@ =~~= t);
                    assert(instr_effect(s0, instr, 0u8) == Ok::<State, Fault>(t));
                }
                Ok(())
            },
            Instr::SkipNeReg { x, y } => {
                let vx = self.v_registers[x as usize];
                let vy = self.v_registers[y as usize];
                self.program_counter = self.program_counter + 2;
                if vx != vy {
                    self.program_counter = self.program_counter + 2;
                }
                proof {
                    let t = State {
                        pc: if s0.regs[x as int] != s0.regs[y as int] {
                            s0.pc + 4
                        } else {
                            s0.pc + 2
                        },
                        ..s0
                    };
                    assert(self@ =~~= t);
                    assert(instr_effect(s0, instr, 0u8) == Ok::<State, Fault>(t));
                }
                Ok(())
            },
            Instr::LoadIndex { nnn } => {
                self.program_counter = self.program_counter + 2;
                self.index_register = nnn as usize;
                proof {
                    let t = State { pc: s0.pc + 2, index: nnn as int, ..s0 };
                    assert(self@ =~~= t);
                    assert(instr_effect(s0, instr, 0u8) == Ok::<State, Fault>(t));
                }
                Ok(())
            },
            Instr::JumpPlus { nnn } => {
                let v0 = self.v_registers[0];
                self.program_counter = nnn as usize + v0 as usize;
                proof {
                    let t = State { pc: nnn + s0.regs[0], ..s0 };
                    assert(self@ =~~= t);
                    assert(instr_effect(s0, instr, 0u8) == Ok::<State, Fault>(t));
                }
                Ok(())
            },
            Instr::Random { x, kk } => {
                self.program_counter = self.program_counter + 2;
                let b = random_byte();
                self.v_registers.set(x as usize, b & kk);
                proof {
                    let t = State { pc: s0.pc + 2, regs: s0.regs.update(x as int, b & kk), ..s0 };
                    assert(self@ =~~= t);
                    assert(instr_effect(s0, instr, b) == Ok::<State, Fault>(t));
                }
                Ok(())
            },
            Instr::Draw { x, y, n } => {
                let ns = n as usize;
                if self.index_register + ns > MEMORY_SIZE {
                    proof {
                        assert forall|b: u8|
                            instr_effect(s0, instr, b) == Err::<State, Fault>(
                                Fault::MemoryOutOfRange,
                            ) by {}
                    }
                    return Err(Fault::MemoryOutOfRange);
                }
                let mut sprite: Vec<u8> = Vec::new();
                let mut k: usize = 0;
                while k < ns
                    invariant
                        self == old(self),
                        self@ == s0,
                        s0.wf(),
                        k <= ns,
                        ns < 16,
                        self.index_register + ns <= MEMORY_SIZE,
                        self.memory@.len() == MEMORY_SIZE,
                        sprite@.len() == k,
                        forall|t: int|
                            0 <= t < k ==> #[trigger] sprite@[t] == s0.mem[s0.index + t],
                    decreases ns - k,
                {
                    let byte = self.memory[self.index_register + k];
                    sprite.push(byte);
                    k = k + 1;
                }
                let vx = self.v_registers[x as usize];
                let vy = self.v_registers[y as usize];
                self.program_counter = self.program_counter + 2;
                proof {
                    assert forall|r: int| 0 <= r < 32 implies (#[trigger] self.display.screen@[r])@.len()
                        == 64 by {
                        assert(s0.screen[r] == self.display.screen@[r]@);
                    }
                    assert(self.display.wf());
                }
                let collision = self.display.draw(
                    Point { x: vx as usize, y: vy as usize },
                    sprite.as_slice(),
                );
                self.v_registers.set(
                    15,
                    if collision {
                        1
                    } else {
                        0
                    },
                );
                proof {
                    let sp = s0.mem.subrange(s0.index, s0.index + n);
                    assert(sprite@ =~= sp);
                    let px = s0.regs[x as int] as int;
                    let py = s0.regs[y as int] as int;
                    let t = State {
                        pc: s0.pc + 2,
                        screen: draw_result(s0.screen, px, py, sp),
                        regs: s0.regs.update(
                            15,
                            if draw_collision(s0.screen, px, py, sp) {
                                1u8
                            } else {
                                0u8
                            },
                        ),
                        ..s0
                    };
                    assert(self@ =~~= t);
                    assert(instr_effect(s0, instr, 0u8) == Ok::<State, Fault>(t));
                }
                Ok(())
            },
            Instr::SkipKey { x } => {
                let key = self.v_registers[x as usize];
                if key >= 16 {
                    proof {
                        assert forall|b: u8|
                            instr_effect(s0, instr, b) == Err::<State, Fault>(
                                Fault::KeyOutOfRange,
                            ) by {}
                    }
                    return Err(Fault::KeyOutOfRange);
                }
                let pressed = self.keyboard.is_pressed(key);
                self.program_counter = self.program_counter + 2;
                if pressed {
                    self.program_counter = self.program_counter + 2;
                }
                proof {
                    let t = State {
                        pc: if s0.keys[s0.regs[x as int] as int] {
                            s0.pc + 4
                        } else {
                            s0.pc + 2
                        },
                        ..s0
                    };
                    assert(self@ =~~= t);
                    assert(instr_effect(s0, instr, 0u8) == Ok::<State, Fault>(t));
                }
                Ok(())
            },
            Instr::SkipNoKey { x } => {
                let key = self.v_registers[x as usize];
                if key >= 16 {
                    proof {
                        assert forall|b: u8|
                            instr_effect(s0, instr, b) == Err::<State, Fault>(
                                Fault::KeyOutOfRange,
                            ) by {}
                    }
                    return Err(Fault::KeyOutOfRange);
                }
                let pressed = self.keyboard.is_pressed(key);
                self.program_counter = self.program_counter + 2;
                if !pressed {
                    self.program_counter = self.program_counter + 2;
                }
                proof {
                    let t = State {
                        pc: if !s0.keys[s0.regs[x as int] as int] {
                            s0.pc + 4
                        } else {
                            s0.pc + 2
                        },
                        ..s0
                    };
                    assert(self@ =~~= t);
                    assert(instr_effect(s0, instr, 0u8) == Ok::<State, Fault>(t));
                }
                Ok(())
            },
            Instr::ReadDelay { x } => {
                let d = self.delay_timer;
                self.program_counter = self.program_counter + 2;
                self.v_registers.set(x as usize, d);
                proof {
                    let t = State { pc: s0.pc + 2, regs: s0.regs.update(x as int, s0.delay), ..s0 };
                    assert(self@ =~~= t);
                    assert(instr_effect(s0, instr, 0u8) == Ok::<State, Fault>(t));
                }
                Ok(())
            },
            Instr::WaitKey { x } => {
                self.program_counter = self.program_counter + 2;
                match self.keyboard.lowest_pressed() {
                    Some(k) => {
                        self.v_registers.set(x as usize, k);
                        proof {
                            let t = State {
                                pc: s0.pc + 2,
                                regs: s0.regs.update(x as int, lowest_key(s0.keys) as u8),
                                ..s0
                            };
                            assert(self@ =~~= t);
                            assert(instr_effect(s0, instr, 0u8) == Ok::<State, Fault>(t));
                        }
                    },
                    None => {
                        self.program_counter = self.program_counter - 2;
                        proof {
                            let t = State { pc: s0.pc, ..s0 };
                            assert(self@ =~~= t);
                            assert(instr_effect(s0, instr, 0u8) == Ok::<State, Fault>(t));
                        }
                    },
                }
                Ok(())
            },
            Instr::SetDelay { x } => {
                let vx = self.v_registers[x as usize];
                self.program_counter = self.program_counter + 2;
                self.delay_timer = vx;
                proof {
                    let t = State { pc: s0.pc + 2, delay: s0.regs[x as int], ..s0 };
                    assert(self@ =~~= t);
                    assert(instr_effect(s0, instr, 0u8) == Ok::<State, Fault>(t));
                }
                Ok(())
            },
            Instr::SetSound { x } => {
                let vx = self.v_registers[x as usize];
                self.program_counter = self.program_counter + 2;
                self.sound_timer = vx;
                proof {
                    let t = State { pc: s0.pc + 2, sound: s0.regs[x as int], ..s0 };
                    assert(self@ =~~= t);
                    assert(instr_effect(s0, instr, 0u8) == Ok::<State, Fault>(t));
                }
                Ok(())
            },
            Instr::AddIndex { x } => {
                let vx = self.v_registers[x as usize];
                self.program_counter = self.program_counter + 2;
                self.index_register = (self.index_register + vx as usize) % MEMORY_SIZE;
                proof {
                    let t = State {
                        pc: s0.pc + 2,
                        index: (s0.index + s0.regs[x as int]) % (MEMORY_SIZE as int),
                        ..s0
                    };
                    assert(self@ =~~= t);
                    assert(instr_effect(s0, instr, 0u8) == Ok::<State, Fault>(t));
                }
                Ok(())
            },
            Instr::FontIndex { x } => {
                let vx = self.v_registers[x as usize];
                self.program_counter = self.program_counter + 2;
                self.index_register = vx as usize * 5;
                proof {
                    let t = State { pc: s0.pc + 2, index: s0.regs[x as int] * 5, ..s0 };
                    assert(self@ =~~= t);
                    assert(instr_effect(s0, instr, 0u8) == Ok::<State, Fault>(t));
                }
                Ok(())
            },
            Instr::StoreBcd { x } => {
                if self.index_register + 2 >= MEMORY_SIZE {
                    proof {
                        assert forall|b: u8|
                            instr_effect(s0, instr, b) == Err::<State, Fault>(
                                Fault::MemoryOutOfRange,
                            ) by {}
                    }
                    return Err(Fault::MemoryOutOfRange);
                }
                let vx = self.v_registers[x as usize];
                self.program_counter = self.program_counter + 2;
                self.memory.set(self.index_register, vx / 100);
                self.memory.set(self.index_register + 1, vx / 10 % 10);
                self.memory.set(self.index_register + 2, vx % 10);
                proof {
                    let v = s0.regs[x as int];
                    let t = State {
                        pc: s0.pc + 2,
                        mem: s0.mem.update(s0.index, (v / 100) as u8).update(
                            s0.index + 1,
                            ((v / 10) % 10) as u8,
                        ).update(s0.index + 2, (v % 10) as u8),
                        ..s0
                    };
                    assert(self@ =~~= t);
                    assert(instr_effect(s0, instr, 0u8) == Ok::<State, Fault>(t));
                }
                Ok(())
            },
            Instr::StoreRegs { x } => {
                let xs = x as usize;
                if self.index_register + xs >= MEMORY_SIZE {
                    proof {
                        assert forall|b: u8|
                            instr_effect(s0, instr, b) == Err::<State, Fault>(
                                Fault::MemoryOutOfRange,
                            ) by {}
                    }
                    return Err(Fault::MemoryOutOfRange);
                }
                self.program_counter = self.program_counter + 2;
                let mut k: usize = 0;
                while k <= xs
                    invariant
                        s0.wf(),
                        xs < 16,
                        k <= xs + 1,
                        self.index_register == s0.index,
                        self.index_register + xs < MEMORY_SIZE,
                        self.memory@.len() == MEMORY_SIZE,
                        self.v_registers@.len() == REGISTER_SIZE,
                        forall|a: int|
                            s0.index <= a < s0.index + k ==> #[trigger] self.memory@[a]
                                == s0.regs[a - s0.index],
                        forall|a: int|
                            0 <= a < MEMORY_SIZE && !(s0.index <= a < s0.index + k)
                                ==> #[trigger] self.memory@[a] == s0.mem[a],
                        self@ == (State { pc: s0.pc + 2, mem: self.memory@, ..s0 }),
                    decreases xs + 1 - k,
                {
                    let v = self.v_registers[k];
                    self.memory.set(self.index_register + k, v);
                    k = k + 1;
                }
                proof {
                    let t = State {
                        pc: s0.pc + 2,
                        mem: Seq::new(
                            MEMORY_SIZE as nat,
                            |a: int|
                                if s0.index <= a <= s0.index + x {
                                    s0.regs[a - s0.index]
                                } else {
                                    s0.mem[a]
                                },
                        ),
                        ..s0
                    };
                    assert(self@.mem =~= t.mem);
                    assert(self@ =~~= t);
                    assert(instr_effect(s0, instr, 0u8) == Ok::<State, Fault>(t));
                }
                Ok(())
            },
            Instr::LoadRegs { x } => {
                let xs = x as usize;
                if self.index_register + xs >= MEMORY_SIZE {
                    proof {
                        assert forall|b: u8|
                            instr_effect(s0, instr, b) == Err::<State, Fault>(
                                Fault::MemoryOutOfRange,
                            ) by {}
                    }
                    return Err(Fault::MemoryOutOfRange);
                }
                self.program_counter = self.program_counter + 2;
                let mut k: usize = 0;
                while k <= xs
                    invariant
                        s0.wf(),
                        xs < 16,
                        k <= xs + 1,
                        self.index_register == s0.index,
                        self.index_register + xs < MEMORY_SIZE,
                        self.memory@.len() == MEMORY_SIZE,
                        self.v_registers@.len() == REGISTER_SIZE,
                        forall|t: int|
                            0 <= t < k ==> #[trigger] self.v_registers@[t] == s0.mem[s0.index + t],
                        forall|t: int|
                            k <= t < REGISTER_SIZE ==> #[trigger] self.v_registers@[t]
                                == s0.regs[t],
                        self@ == (State { pc: s0.pc + 2, regs: self.v_registers@, ..s0 }),
                    decreases xs + 1 - k,
                {
                    let v = self.memory[self.index_register + k];
                    self.v_registers.set(k, v);
                    k = k + 1;
                }
                proof {
                    let t = State {
                        pc: s0.pc + 2,
                        regs: Seq::new(
                            REGISTER_SIZE as nat,
                            |k: int|
                                if k <= x {
                                    s0.mem[s0.index + k]
                                } else {
                                    s0.regs[k]
                                },
                        ),
                        ..s0
                    };
                    assert(self@.regs =~= t.regs);
                    assert(self@ =~~= t);
                    assert(instr_effect(s0, instr, 0u8) == Ok::<State, Fault>(t));
                }
                Ok(())
            },
        }
    }

    /// Read general register `i`.
    pub fn register(&self, i: u8) -> (r: u8)
        requires
            self.wf(),
            i < 16,
        ensures
            r == self@.regs[i as int],
    {
        self.v_registers[i as usize]
    }

    /// Read the program counter.
    pub fn pc(&self) -> (r: usize)
        ensures
            r == self@.pc,
    {
        self.program_counter
    }

    /// Read the index register.
    pub fn index(&self) -> (r: usize)
        ensures
            r == self@.index,
    {
        self.index_register
    }

    /// Read the delay timer.
    pub fn delay_timer(&self) -> (r: u8)
        ensures
            r == self@.delay,
    {
        self.delay_timer
    }

    /// Read the sound timer; the driver beeps while it is nonzero.
    pub fn sound_timer(&self) -> (r: u8)
        ensures
            r == self@.sound,
    {
        self.sound_timer
    }

    /// One 60 Hz timer tick: each timer decrements once, never below zero.
    /// Called once per frame, independently of how many instruction steps
    /// preceded it.  (The beep on the sound timer reaching zero is the
    /// external driver's business: it reads the sound timer.)
    pub fn tick_timers(&mut self)
        requires
            old(self).wf(),
        ensures
            final(self).wf(),
            final(self)@ == (State {
                delay: dec_timer(old(self)@.delay),
                sound: dec_timer(old(self)@.sound),
                ..old(self)@
            }),
    {
        if self.delay_timer > 0 {
            self.delay_timer = self.delay_timer - 1;
        }
        if self.sound_timer > 0 {
            self.sound_timer = self.sound_timer - 1;
        }
        proof {
            assert(self@ =~~= State {
                delay: dec_timer(old(self)@.delay),
                sound: dec_timer(old(self)@.sound),
                ..old(self)@
            });
        }
    }
}

/// The font as bytes, glyph by glyph.
fn fontset() -> (font: Vec<u8>)
    ensures
        font@ == font_seq(),
{
    let mut font: Vec<u8> = Vec::new();
    font.push(0xF0);
    font.push(0x90);
    font.push(0x90);
    font.push(0x90);
    font.push(0xF0);
    font.push(0x20);
    font.push(0x60);
    font.push(0x20);
    font.push(0x20);
    font.push(0x70);
    font.push(0xF0);
    font.push(0x10);
    font.push(0xF0);
    font.push(0x80);
    font.push(0xF0);
    font.push(0xF0);
    font.push(0x10);
    font.push(0xF0);
    font.push(0x10);
    font.push(0xF0);
    font.push(0x90);
    font.push(0x90);
    font.push(0xF0);
    font.push(0x10);
    font.push(0x10);
    font.push(0xF0);
    font.push(0x80);
    font.push(0xF0);
    font.push(0x10);
    font.push(0xF0);
    font.push(0xF0);
    font.push(0x80);
    font.push(0xF0);
    font.push(0x90);
    font.push(0xF0);
    font.push(0xF0);
    font.push(0x10);
    font.push(0x20);
    font.push(0x40);
    font.push(0x40);
    font.push(0xF0);
    font.push(0x90);
    font.push(0xF0);
    font.push(0x90);
    font.push(0xF0);
    font.push(0xF0);
    font.push(0x90);
    font.push(0xF0);
    font.push(0x10);
    font.push(0xF0);
    font.push(0xF0);
    font.push(0x90);
    font.push(0xF0);
    font.push(0x90);
    font.push(0x90);
    font.push(0xE0);
    font.push(0x90);
    font.push(0xE0);
    font.push(0x90);
    font.push(0xE0);
    font.push(0xF0);
    font.push(0x80);
    font.push(0x80);
    font.push(0x80);
    font.push(0xF0);
    font.push(0xE0);
    font.push(0x90);
    font.push(0x90);
    font.push(0x90);
    font.push(0xE0);
    font.push(0xF0);
    font.push(0x80);
    font.push(0xF0);
    font.push(0x80);
    font.push(0xF0);
    font.push(0xF0);
    font.push(0x80);
    font.push(0xF0);
    font.push(0x80);
    font.push(0x80);
    proof {
        assert(font@ =~= font_seq());
    }
    font
}

/// Relies on rand's thread-local generator (`rand::thread_rng`) and
/// `rand::Rng::gen_range` over the full byte range to draw one random byte.
/// Nothing is promised of the value: every caller must hold for every byte.
#[verifier::external_body]
fn random_byte() -> u8 {
    rand::thread_rng().gen_range(0..=255u8)
}

} // verus!

