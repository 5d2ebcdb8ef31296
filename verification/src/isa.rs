use vstd::prelude::*;
use crate::display::{draw_collision, draw_result};

verus! {

/// A fault surfaced to the driver instead of corrupting state:
/// an address past the 4096-byte memory, a call past 16 nested
/// levels, a return with no active call, or a key symbol outside
/// 0..=15 handed to a keypad query.
#[derive(Clone, Copy, Debug, PartialEq, Eq, Structural)]
pub enum Chip8Error {
    MemoryOutOfRange,
    StackOverflow,
    StackUnderflow,
    InvalidKey,
}

/// The mathematical image of the whole machine: index register,
/// program counter, memory, registers, display bitmap, key flags,
/// call stack, stack pointer and the two timers.
#[verifier::ext_equal]
pub struct CpuView {
    pub i: u16,
    pub pc: u16,
    pub memory: Seq<u8>,
    pub v: Seq<u8>,
    pub pixels: Seq<bool>,
    pub keys: Seq<bool>,
    pub stack: Seq<u16>,
    pub sp: u8,
    pub dt: u8,
    pub st: u8,
}

/// Well-formed machine image: fixed sizes everywhere and a stack
/// pointer within 0..=16.
pub open spec fn view_wf(s: CpuView) -> bool {
    &&& s.memory.len() == 4096
    &&& s.v.len() == 16
    &&& s.stack.len() == 16
    &&& s.pixels.len() == 2048
    &&& s.keys.len() == 16
    &&& s.sp <= 16
}

/// 16-bit wraparound, used for every program-counter and
/// index-register increment.
pub open spec fn wrap16(a: int) -> u16 {
    (a % 0x10000) as u16
}

/// 8-bit wraparound, used for every register arithmetic result.
pub open spec fn wrap8(a: int) -> u8 {
    (a % 256) as u8
}

/// The big-endian 2-byte word at address `a`: high byte at the lower
/// address.
pub open spec fn word_at(mem: Seq<u8>, a: int) -> u16 {
    ((mem[a] as u16) << 8) | (mem[a + 1] as u16)
}

/// The lowest pressed key symbol at or after `k`, or 16 when none of
/// the keys from `k` up is pressed.
pub open spec fn first_pressed_from(keys: Seq<bool>, k: int) -> int
    decreases 16 - k,
{
    if k < 0 || k >= 16 {
        16
    } else if keys[k] {
        k
    } else {
        first_pressed_from(keys, k + 1)
    }
}

/// One decoded instruction: the operation selected by the opcode
/// nibbles together with its operand fields (`x`, `y` register
/// indexes, `kk` immediate, `nnn` address, `n` sprite height).
pub enum Instr {
    Cls,
    Ret,
    Jp { nnn: u16 },
    Call { nnn: u16 },
    SeImm { x: u8, kk: u8 },
    SneImm { x: u8, kk: u8 },
    SeReg { x: u8, y: u8 },
    LdImm { x: u8, kk: u8 },
    AddImm { x: u8, kk: u8 },
    LdReg { x: u8, y: u8 },
    OrReg { x: u8, y: u8 },
    AndReg { x: u8, y: u8 },
    XorReg { x: u8, y: u8 },
    AddReg { x: u8, y: u8 },
    SubReg { x: u8, y: u8 },
    ShrReg { x: u8 },
    SubnReg { x: u8, y: u8 },
    ShlReg { x: u8 },
    SneReg { x: u8, y: u8 },
    LdI { nnn: u16 },
    JpV0 { nnn: u16 },
    Rnd { x: u8, kk: u8 },
    Drw { x: u8, y: u8, n: u8 },
    SkipKey { x: u8 },
    SkipNoKey { x: u8 },
    LdVxDt { x: u8 },
    WaitKey { x: u8 },
    LdDtVx { x: u8 },
    LdStVx { x: u8 },
    AddI { x: u8 },
    LdFont { x: u8 },
    Bcd { x: u8 },
    StoreRegs { x: u8 },
    LoadRegs { x: u8 },
    Nop,
}

/// Parses a raw 16-bit opcode into its tagged instruction. Bit
/// patterns outside the instruction set decode to `Nop`, which only
/// advances the program counter.
pub open spec fn decode(op: u16) -> Instr {
    let o1 = (op >> 12) & 0xF;
    let o4 = op & 0xF;
    let x = ((op >> 8) & 0xF) as u8;
    let y = ((op >> 4) & 0xF) as u8;
    let nnn = op & 0xFFF;
    let kk = (op & 0xFF) as u8;
    let n = (op & 0xF) as u8;
    if op == 0x00E0 {
        Instr::Cls
    } else if op == 0x00EE {
        Instr::Ret
    } else if o1 == 0x1 {
        Instr::Jp { nnn }
    } else if o1 == 0x2 {
        Instr::Call { nnn }
    } else if o1 == 0x3 {
        Instr::SeImm { x, kk }
    } else if o1 == 0x4 {
        Instr::SneImm { x, kk }
    } else if o1 == 0x5 && o4 == 0x0 {
        Instr::SeReg { x, y }
    } else if o1 == 0x6 {
        Instr::LdImm { x, kk }
    } else if o1 == 0x7 {
        Instr::AddImm { x, kk }
    } else if o1 == 0x8 && o4 == 0x0 {
        Instr::LdReg { x, y }
    } else if o1 == 0x8 && o4 == 0x1 {
        Instr::OrReg { x, y }
    } else if o1 == 0x8 && o4 == 0x2 {
        Instr::AndReg { x, y }
    } else if o1 == 0x8 && o4 == 0x3 {
        Instr::XorReg { x, y }
    } else if o1 == 0x8 && o4 == 0x4 {
        Instr::AddReg { x, y }
    } else if o1 == 0x8 && o4 == 0x5 {
        Instr::SubReg { x, y }
    } else if o1 == 0x8 && o4 == 0x6 {
        Instr::ShrReg { x }
    } else if o1 == 0x8 && o4 == 0x7 {
        Instr::SubnReg { x, y }
    } else if o1 == 0x8 && o4 == 0xE {
        Instr::ShlReg { x }
    } else if o1 == 0x9 && o4 == 0x0 {
        Instr::SneReg { x, y }
    } else if o1 == 0xA {
        Instr::LdI { nnn }
    } else if o1 == 0xB {
        Instr::JpV0 { nnn }
    } else if o1 == 0xC {
        Instr::Rnd { x, kk }
    } else if o1 == 0xD {
        Instr::Drw { x, y, n }
    } else if o1 == 0xE && kk == 0x9E {
        Instr::SkipKey { x }
    } else if o1 == 0xE && kk == 0xA1 {
        Instr::SkipNoKey { x }
    } else if o1 == 0xF && kk == 0x07 {
        Instr::LdVxDt { x }
    } else if o1 == 0xF && kk == 0x0A {
        Instr::WaitKey { x }
    } else if o1 == 0xF && kk == 0x15 {
        Instr::LdDtVx { x }
    } else if o1 == 0xF && kk == 0x18 {
        Instr::LdStVx { x }
    } else if o1 == 0xF && kk == 0x1E {
        Instr::AddI { x }
    } else if o1 == 0xF && kk == 0x29 {
        Instr::LdFont { x }
    } else if o1 == 0xF && kk == 0x33 {
        Instr::Bcd { x }
    } else if o1 == 0xF && kk == 0x55 {
        Instr::StoreRegs { x }
    } else if o1 == 0xF && kk == 0x65 {
        Instr::LoadRegs { x }
    } else {
        Instr::Nop
    }
}

/// Executes one already-fetched opcode over the machine image `pre`:
/// the program counter first advances by 2 (wrapping), then the
/// decoded instruction applies its effect. `rnd` is the random byte
/// consumed by the random-number instruction and ignored by every
/// other one. A fault leaves the machine untouched and reports which
/// condition was hit.
pub open spec fn step(pre: CpuView, op: u16, rnd: u8) -> Result<CpuView, Chip8Error> {
    let pc1 = wrap16(pre.pc + 2);
    let s = CpuView { pc: pc1, ..pre };
    match decode(op) {
        Instr::Cls => Ok(CpuView { pixels: Seq::new(2048, |t: int| false), ..s }),
        Instr::Ret => {
            if pre.sp == 0 {
                Err(Chip8Error::StackUnderflow)
            } else {
                Ok(CpuView { pc: pre.stack[pre.sp - 1], sp: (pre.sp - 1) as u8, ..s })
            }
        },
        Instr::Jp { nnn } => Ok(CpuView { pc: nnn, ..s }),
        Instr::Call { nnn } => {
            if pre.sp >= 16 {
                Err(Chip8Error::StackOverflow)
            } else {
                Ok(CpuView {
                    stack: pre.stack.update(pre.sp as int, pc1),
                    sp: (pre.sp + 1) as u8,
                    pc: nnn,
                    ..s
                })
            }
        },
        Instr::SeImm { x, kk } => Ok(CpuView {
            pc: if pre.v[x as int] == kk { wrap16(pc1 + 2) } else { pc1 },
            ..s
        }),
        Instr::SneImm { x, kk } => Ok(CpuView {
            pc: if pre.v[x as int] != kk { wrap16(pc1 + 2) } else { pc1 },
            ..s
        }),
        Instr::SeReg { x, y } => Ok(CpuView {
            pc: if pre.v[x as int] == pre.v[y as int] { wrap16(pc1 + 2) } else { pc1 },
            ..s
        }),
        Instr::LdImm { x, kk } => Ok(CpuView { v: pre.v.update(x as int, kk), ..s }),
        Instr::AddImm { x, kk } => Ok(CpuView {
            v: pre.v.update(x as int, wrap8(pre.v[x as int] + kk)),
            ..s
        }),
        Instr::LdReg { x, y } => Ok(CpuView { v: pre.v.update(x as int, pre.v[y as int]), ..s }),
        Instr::OrReg { x, y } => Ok(CpuView {
            v: pre.v.update(x as int, pre.v[x as int] | pre.v[y as int]),
            ..s
        }),
        Instr::AndReg { x, y } => Ok(CpuView {
            v: pre.v.update(x as int, pre.v[x as int] & pre.v[y as int]),
            ..s
        }),
        Instr::XorReg { x, y } => Ok(CpuView {
            v: pre.v.update(x as int, pre.v[x as int] ^ pre.v[y as int]),
            ..s
        }),
        Instr::AddReg { x, y } => {
            let sum = pre.v[x as int] + pre.v[y as int];
            Ok(CpuView {
                v: pre.v.update(15, if sum > 255 { 1u8 } else { 0u8 }).update(
                    x as int,
                    wrap8(sum),
                ),
                ..s
            })
        },
        Instr::SubReg { x, y } => {
            let vx = pre.v[x as int];
            let vy = pre.v[y as int];
            Ok(CpuView {
                v: pre.v.update(15, if vx >= vy { 1u8 } else { 0u8 }).update(
                    x as int,
                    wrap8(vx - vy),
                ),
                ..s
            })
        },
        Instr::ShrReg { x } => {
            let vx = pre.v[x as int];
            Ok(CpuView {
                v: pre.v.update(15, vx & 1).update(x as int, vx >> 1u8),
                ..s
            })
        },
        Instr::SubnReg { x, y } => {
            let vx = pre.v[x as int];
            let vy = pre.v[y as int];
            Ok(CpuView {
                v: pre.v.update(15, if vy >= vx { 1u8 } else { 0u8 }).update(
                    x as int,
                    wrap8(vy - vx),
                ),
                ..s
            })
        },
        Instr::ShlReg { x } => {
            let vx = pre.v[x as int];
            Ok(CpuView {
                v: pre.v.update(15, if vx >= 0x80 { 1u8 } else { 0u8 }).update(
                    x as int,
                    wrap8(vx * 2),
                ),
                ..s
            })
        },
        Instr::SneReg { x, y } => Ok(CpuView {
            pc: if pre.v[x as int] != pre.v[y as int] { wrap16(pc1 + 2) } else { pc1 },
            ..s
        }),
        Instr::LdI { nnn } => Ok(CpuView { i: nnn, ..s }),
        Instr::JpV0 { nnn } => Ok(CpuView { pc: wrap16(nnn + pre.v[0]), ..s }),
        Instr::Rnd { x, kk } => Ok(CpuView { v: pre.v.update(x as int, kk & rnd), ..s }),
        Instr::Drw { x, y, n } => {
            if pre.i + n > 4096 {
                Err(Chip8Error::MemoryOutOfRange)
            } else {
                let sprite = pre.memory.subrange(pre.i as int, pre.i + n);
                let px = pre.v[x as int] as int;
                let py = pre.v[y as int] as int;
                let col = draw_collision(pre.pixels, px, py, sprite);
                Ok(CpuView {
                    pixels: draw_result(pre.pixels, px, py, sprite),
                    v: pre.v.update(15, if col { 1u8 } else { 0u8 }),
                    ..s
                })
            }
        },
        Instr::SkipKey { x } => {
            let vx = pre.v[x as int];
            if vx >= 16 {
                Err(Chip8Error::InvalidKey)
            } else {
                Ok(CpuView {
                    pc: if pre.keys[vx as int] { wrap16(pc1 + 2) } else { pc1 },
                    ..s
                })
            }
        },
        Instr::SkipNoKey { x } => {
            let vx = pre.v[x as int];
            if vx >= 16 {
                Err(Chip8Error::InvalidKey)
            } else {
                Ok(CpuView {
                    pc: if pre.keys[vx as int] { pc1 } else { wrap16(pc1 + 2) },
                    ..s
                })
            }
        },
        Instr::LdVxDt { x } => Ok(CpuView { v: pre.v.update(x as int, pre.dt), ..s }),
        Instr::WaitKey { x } => {
            let k = first_pressed_from(pre.keys, 0);
            if k == 16 {
                Ok(CpuView { pc: pre.pc, ..s })
            } else {
                Ok(CpuView { v: pre.v.update(x as int, k as u8), ..s })
            }
        },
        Instr::LdDtVx { x } => Ok(CpuView { dt: pre.v[x as int], ..s }),
        Instr::LdStVx { x } => Ok(CpuView { st: pre.v[x as int], ..s }),
        Instr::AddI { x } => Ok(CpuView { i: wrap16(pre.i + pre.v[x as int]), ..s }),
        Instr::LdFont { x } => Ok(CpuView { i: (pre.v[x as int] * 5) as u16, ..s }),
        Instr::Bcd { x } => {
            if pre.i + 3 > 4096 {
                Err(Chip8Error::MemoryOutOfRange)
            } else {
                let vx = pre.v[x as int];
                Ok(CpuView {
                    memory: pre.memory.update(pre.i as int, (vx / 100) as u8).update(
                        pre.i + 1,
                        ((vx / 10) % 10) as u8,
                    ).update(pre.i + 2, (vx % 10) as u8),
                    ..s
                })
            }
        },
        Instr::StoreRegs { x } => {
            if pre.i + x + 1 > 4096 {
                Err(Chip8Error::MemoryOutOfRange)
            } else {
                Ok(CpuView {
                    memory: Seq::new(
                        4096,
                        |a: int| if pre.i <= a < pre.i + x + 1 {
                            pre.v[a - pre.i]
                        } else {
                            pre.memory[a]
                        },
                    ),
                    ..s
                })
            }
        },
        Instr::LoadRegs { x } => {
            if pre.i + x + 1 > 4096 {
                Err(Chip8Error::MemoryOutOfRange)
            } else {
                Ok(CpuView {
                    v: Seq::new(
                        16,
                        |j: int| if j <= x { pre.memory[pre.i + j] } else { pre.v[j] },
                    ),
                    ..s
                })
            }
        },
        Instr::Nop => Ok(s),
    }
}

/// Reads the 2-byte instruction at the program counter, or reports a
/// fault when the fetch would run past memory.
pub open spec fn fetch(pre: CpuView) -> Result<u16, Chip8Error> {
    if pre.pc + 1 >= 4096 {
        Err(Chip8Error::MemoryOutOfRange)
    } else {
        Ok(word_at(pre.memory, pre.pc as int))
    }
}

/// One whole cycle: fetch the word at the program counter, then step.
pub open spec fn cycle(pre: CpuView, rnd: u8) -> Result<CpuView, Chip8Error> {
    match fetch(pre) {
        Ok(op) => step(pre, op, rnd),
        Err(e) => Err(e),
    }
}

/// How an executed transition relates the machine image before
/// (`pre`) and after (`post`) and the returned result `r` to the
/// specified outcome: on success the machine moves to the specified
/// image, on a fault it is left untouched and the fault is returned.
pub open spec fn obeys(
    pre: CpuView,
    post: CpuView,
    r: Result<(), Chip8Error>,
    outcome: Result<CpuView, Chip8Error>,
) -> bool {
    match outcome {
        Ok(s) => r == Ok::<(), Chip8Error>(()) && post == s,
        Err(e) => r == Err::<(), Chip8Error>(e) && post == pre,
    }
}

} // verus!
