use vstd::prelude::*;
use vstd::arithmetic::div_mod::lemma_mod_add_multiples_vanish;
use rand::Rng;
use crate::display::Display;
use crate::keypad::Keypad;
use crate::font::{font_seq, font_set};
use crate::isa::{
    Chip8Error, CpuView, cycle, first_pressed_from, obeys, step, view_wf, word_at, wrap16,
    wrap8,
};

verus! {

/// The interpreter: registers, memory, call stack, program counter,
/// timers, and the display and keypad it drives. The public fields
/// mirror the machine image `CpuView`; `wf` is the size invariant
/// that every operation preserves.
pub struct Cpu {
    /// index register
    pub i: u16,
    /// program counter
    pub pc: u16,
    /// memory, 4096 bytes
    pub memory: Vec<u8>,
    /// the 16 general-purpose registers; register 15 doubles as the
    /// carry/borrow/collision flag
    pub v: Vec<u8>,
    /// peripherals
    pub display: Display,
    pub keypad: Keypad,
    /// return addresses, 16 slots
    pub stack: Vec<u16>,
    /// stack pointer, 0..=16
    pub sp: u8,
    /// delay timer
    pub dt: u8,
    /// sound timer
    pub st: u8,
}

impl View for Cpu {
    type V = CpuView;

    open spec fn view(&self) -> CpuView {
        CpuView {
            i: self.i,
            pc: self.pc,
            memory: self.memory@,
            v: self.v@,
            pixels: self.display.pixels@,
            keys: self.keypad.keys@,
            stack: self.stack@,
            sp: self.sp,
            dt: self.dt,
            st: self.st,
        }
    }
}

/// The machine image at power-on: everything zeroed, program counter
/// at 0x200.
pub open spec fn init_view() -> CpuView {
    CpuView {
        i: 0,
        pc: 0x200,
        memory: Seq::new(4096, |a: int| 0u8),
        v: Seq::new(16, |j: int| 0u8),
        pixels: Seq::new(2048, |t: int| false),
        keys: Seq::new(16, |k: int| false),
        stack: Seq::new(16, |j: int| 0u16),
        sp: 0,
        dt: 0,
        st: 0,
    }
}

/// The machine image after a reset: as at power-on, with the font
/// installed at addresses 0..=79. The key flags are owned by the
/// input collaborator, so a reset leaves them alone.
pub open spec fn reset_view(keys: Seq<bool>) -> CpuView {
    CpuView {
        memory: Seq::new(4096, |a: int| if a < 80 { font_seq()[a] } else { 0u8 }),
        keys: keys,
        ..init_view()
    }
}

/// The machine image after loading a program: a reset image with the
/// program bytes copied in from address 0x200 on, silently truncated
/// at the end of memory.
pub open spec fn loaded_view(keys: Seq<bool>, data: Seq<u8>) -> CpuView {
    CpuView {
        memory: Seq::new(
            4096,
            |a: int| if a < 80 {
                font_seq()[a]
            } else if 0x200 <= a && a - 0x200 < data.len() {
                data[a - 0x200]
            } else {
                0u8
            },
        ),
        ..reset_view(keys)
    }
}

/// Relies on rand::thread_rng and rand::Rng::gen: one byte from the
/// thread-local random generator. Nothing is promised of the value;
/// the caller states what holds for every byte that can come back.
#[verifier::external_body]
fn random_byte() -> u8 {
    rand::thread_rng().gen::<u8>()
}

/// Reads the big-endian 2-byte word whose high byte sits at `index`.
pub fn read_word(memory: &Vec<u8>, index: u16) -> (word: u16)
    requires
        memory@.len() == 4096,
        index + 1 < 4096,
    ensures
        word == word_at(memory@, index as int),
{
    let hi = memory[index as usize];
    let lo = memory[index as usize + 1];
    ((hi as u16) << 8) | (lo as u16)
}

/// A fresh memory image: the font in the first 80 bytes, zeroes after.
fn fresh_memory() -> (m: Vec<u8>)
    ensures
        m@ == reset_view(Seq::empty()).memory,
{
    let mut m = crate::filled_vec(0u8, 4096);
    let font = font_set();
    let mut a: usize = 0;
    #[verifier::loop_isolation(false)]
    while a < 80
        invariant
            a <= 80,
            m@.len() == 4096,
            forall|j: int| 0 <= j < a ==> m@[j] == font_seq()[j],
            forall|j: int| a <= j < 4096 ==> m@[j] == 0u8,
        decreases 80 - a,
    {
        m[a] = font[a];
        a = a + 1;
    }
    proof {
        assert(m@ =~= reset_view(Seq::empty()).memory);
    }
    m
}

/// The lowest pressed key symbol, or 16 when no key is pressed.
fn first_pressed(keys: &Vec<bool>) -> (k: usize)
    requires
        keys@.len() == 16,
    ensures
        k == first_pressed_from(keys@, 0),
{
    let mut k: usize = 0;
    #[verifier::loop_isolation(false)]
    while k < 16
        invariant
            k <= 16,
            forall|j: int| 0 <= j < k ==> !keys@[j],
        decreases 16 - k,
    {
        if keys[k] {
            proof {
                lemma_first_pressed_prefix(keys@, k as int);
            }
            return k;
        }
        k = k + 1;
    }
    proof {
        lemma_first_pressed_prefix(keys@, 16);
    }
    16
}

/// Skipping a released prefix of the keys does not change which key
/// is found first.
proof fn lemma_first_pressed_prefix(keys: Seq<bool>, k: int)
    requires
        0 <= k <= 16,
        forall|j: int| 0 <= j < k ==> !keys[j],
    ensures
        first_pressed_from(keys, 0) == first_pressed_from(keys, k),
    decreases k,
{
    if k > 0 {
        lemma_first_pressed_prefix(keys, k - 1);
    }
}

impl Cpu {
    /// Well-formed: every backing vector has its fixed size and the
    /// stack pointer is within 0..=16.
    pub open spec fn wf(&self) -> bool {
        view_wf(self@)
    }

    /// A machine at power-on.
    pub fn new() -> (cpu: Cpu)
        ensures
            cpu.wf(),
            cpu@ == init_view(),
    {
        let cpu = Cpu {
            i: 0,
            pc: 0x200,
            memory: crate::filled_vec(0u8, 4096),
            v: crate::filled_vec(0u8, 16),
            display: Display::new(),
            keypad: Keypad::new(),
            stack: crate::filled_vec(0u16, 16),
            sp: 0,
            dt: 0,
            st: 0,
        };
        proof {
            assert(cpu@ =~= init_view());
        }
        cpu
    }

    /// Zeroes all CPU state, points the program counter at 0x200,
    /// clears the display and re-installs the font at addresses
    /// 0..=79.
    pub fn reset(&mut self)
        requires
            old(self).wf(),
        ensures
            final(self).wf(),
            final(self)@ == reset_view(old(self)@.keys),
    {
        self.i = 0;
        self.pc = 0x200;
        self.memory = fresh_memory();
        self.v = crate::filled_vec(0u8, 16);
        self.stack = crate::filled_vec(0u16, 16);
        self.sp = 0;
        self.dt = 0;
        self.st = 0;
        self.display.cls();
        proof {
            assert(self@ =~= reset_view(old(self)@.keys));
        }
    }

    /// Resets the machine, then copies the program image into memory
    /// from address 0x200 on, silently dropping bytes past the end of
    /// memory.
    #[verifier::loop_isolation(false)]
    pub fn load(&mut self, data: &[u8])
        requires
            old(self).wf(),
        ensures
            final(self).wf(),
            final(self)@ == loaded_view(old(self)@.keys, data@),
    {
        self.reset();
        let len = data.len();
        let count = if len > 3584 { 3584 } else { len };
        let mut idx: usize = 0;
        while idx < count
            invariant
                idx <= count,
                self.memory@.len() == 4096,
                self@ == (CpuView { memory: self.memory@, ..reset_view(old(self)@.keys) }),
                forall|a: int|
                    0 <= a < 4096 && !(0x200 <= a < 0x200 + idx) ==> self.memory@[a]
                        == reset_view(old(self)@.keys).memory[a],
                forall|a: int| 0x200 <= a < 0x200 + idx ==> self.memory@[a] == data@[a - 0x200],
            decreases count - idx,
        {
            self.memory[0x200 + idx] = data[idx];
            idx = idx + 1;
        }
        proof {
            assert(self.memory@ =~= loaded_view(old(self)@.keys, data@).memory);
            assert(self@ =~= loaded_view(old(self)@.keys, data@));
        }
    }

    /// Decrements each timer by one if it is nonzero; a timer at zero
    /// stays at zero. Driven by the external fixed-rate clock.
    pub fn decrement_timers(&mut self)
        requires
            old(self).wf(),
        ensures
            final(self).wf(),
            final(self)@ == (CpuView {
                dt: if old(self).dt > 0 { (old(self).dt - 1) as u8 } else { 0u8 },
                st: if old(self).st > 0 { (old(self).st - 1) as u8 } else { 0u8 },
                ..old(self)@
            }),
    {
        if self.dt > 0 {
            self.dt = self.dt - 1;
        }
        if self.st > 0 {
            self.st = self.st - 1;
        }
    }

    /// Fetches the 2-byte instruction at the program counter, advances
    /// the program counter by 2, then executes the instruction. On a
    /// fault the machine is left untouched and the fault is returned.
    /// The random-number instruction makes the one nondeterministic
    /// choice, so the outcome is pinned for some byte `rnd`.
    pub fn execute_cycle(&mut self) -> (r: Result<(), Chip8Error>)
        requires
            old(self).wf(),
        ensures
            final(self).wf(),
            exists|rnd: u8| obeys(old(self)@, final(self)@, r, cycle(old(self)@, rnd)),
    {
        if self.pc as usize + 1 >= 4096 {
            proof {
                assert(obeys(self@, self@, Err(Chip8Error::MemoryOutOfRange), cycle(self@, 0u8)));
            }
            return Err(Chip8Error::MemoryOutOfRange);
        }
        let opcode = read_word(&self.memory, self.pc);
        let r = self.process_opcode(opcode);
        proof {
            let w = choose|rnd: u8| obeys(old(self)@, self@, r, step(old(self)@, opcode, rnd));
            assert(cycle(old(self)@, w) == step(old(self)@, opcode, w));
            assert(obeys(old(self)@, self@, r, cycle(old(self)@, w)));
        }
        r
    }

    /// Executes one opcode, drawing the byte consumed by the
    /// random-number instruction from the thread-local generator; the
    /// outcome is the specified one for some byte `rnd`.
    pub fn process_opcode(&mut self, opcode: u16) -> (r: Result<(), Chip8Error>)
        requires
            old(self).wf(),
        ensures
            final(self).wf(),
            exists|rnd: u8| obeys(old(self)@, final(self)@, r, step(old(self)@, opcode, rnd)),
    {
        let rnd = random_byte();
        let r = self.process_opcode_with_rand(opcode, rnd);
        proof {
            assert(obeys(old(self)@, self@, r, step(old(self)@, opcode, rnd)));
        }
        r
    }

    /// Executes one opcode deterministically: `rnd` stands in for the
    /// byte drawn by the random-number instruction and is ignored by
    /// every other instruction. The whole effect — arithmetic, flags,
    /// control flow, memory, display and keypad reads, and each fault
    /// — is the one given by `step`.
    #[verifier::loop_isolation(false)]
    #[verifier::rlimit(60)]
    pub fn process_opcode_with_rand(&mut self, opcode: u16, rnd: u8) -> (r: Result<
        (),
        Chip8Error,
    >)
        requires
            old(self).wf(),
        ensures
            final(self).wf(),
            obeys(old(self)@, final(self)@, r, step(old(self)@, opcode, rnd)),
    {
        let o1 = (opcode >> 12) & 0xF;
        let o4 = opcode & 0xF;
        let xu = ((opcode >> 8) & 0xF) as usize;
        let yu = ((opcode >> 4) & 0xF) as usize;
        let nnn = opcode & 0xFFF;
        let kk = (opcode & 0xFF) as u8;
        let n = (opcode & 0xF) as u8;
        proof {
            assert((opcode >> 8) & 0xF < 16) by (bit_vector);
            assert((opcode >> 4) & 0xF < 16) by (bit_vector);
            assert(opcode & 0xF < 16) by (bit_vector);
            assert(opcode & 0xFFF < 4096) by (bit_vector);
        }
        let pc1 = ((self.pc as u32 + 2) % 0x10000) as u16;
        let pc2 = ((pc1 as u32 + 2) % 0x10000) as u16;
        proof {
            assert(pc1 == wrap16(old(self).pc + 2));
            assert(pc2 == wrap16(pc1 + 2));
        }
        if opcode == 0x00E0 {
            // 00E0 - CLS
            self.pc = pc1;
            self.display.cls();
            proof {
                assert(self.display.pixels@ =~= Seq::new(2048, |t: int| false));
            }
            Ok(())
        } else if opcode == 0x00EE {
            // 00EE - RET
            if self.sp == 0 {
                return Err(Chip8Error::StackUnderflow);
            }
            self.sp = self.sp - 1;
            self.pc = self.stack[self.sp as usize];
            Ok(())
        } else if o1 == 0x1 {
            // 1nnn - JP addr
            self.pc = nnn;
            Ok(())
        } else if o1 == 0x2 {
            // 2nnn - CALL addr
            if self.sp >= 16 {
                return Err(Chip8Error::StackOverflow);
            }
            self.stack[self.sp as usize] = pc1;
            self.sp = self.sp + 1;
            self.pc = nnn;
            Ok(())
        } else if o1 == 0x3 {
            // 3xkk - SE Vx, byte
            self.pc = if self.v[xu] == kk { pc2 } else { pc1 };
            Ok(())
        } else if o1 == 0x4 {
            // 4xkk - SNE Vx, byte
            self.pc = if self.v[xu] != kk { pc2 } else { pc1 };
            Ok(())
        } else if o1 == 0x5 && o4 == 0x0 {
            // 5xy0 - SE Vx, Vy
            self.pc = if self.v[xu] == self.v[yu] { pc2 } else { pc1 };
            Ok(())
        } else if o1 == 0x6 {
            // 6xkk - LD Vx, byte
            self.pc = pc1;
            self.v[xu] = kk;
            Ok(())
        } else if o1 == 0x7 {
            // 7xkk - ADD Vx, byte (wrapping, no flag)
            self.pc = pc1;
            let vx = self.v[xu];
            self.v[xu] = ((vx as u16 + kk as u16) % 256) as u8;
            Ok(())
        } else if o1 == 0x8 && o4 == 0x0 {
            // 8xy0 - LD Vx, Vy
            self.pc = pc1;
            let vy = self.v[yu];
            self.v[xu] = vy;
            Ok(())
        } else if o1 == 0x8 && o4 == 0x1 {
            // 8xy1 - OR Vx, Vy
            self.pc = pc1;
            let vx = self.v[xu];
            let vy = self.v[yu];
            self.v[xu] = vx | vy;
            Ok(())
        } else if o1 == 0x8 && o4 == 0x2 {
            // 8xy2 - AND Vx, Vy
            self.pc = pc1;
            let vx = self.v[xu];
            let vy = self.v[yu];
            self.v[xu] = vx & vy;
            Ok(())
        } else if o1 == 0x8 && o4 == 0x3 {
            // 8xy3 - XOR Vx, Vy
            self.pc = pc1;
            let vx = self.v[xu];
            let vy = self.v[yu];
            self.v[xu] = vx ^ vy;
            Ok(())
        } else if o1 == 0x8 && o4 == 0x4 {
            // 8xy4 - ADD Vx, Vy: flag 1 on carry, wrapped low byte
            self.pc = pc1;
            let vx = self.v[xu];
            let vy = self.v[yu];
            let sum = vx as u16 + vy as u16;
            self.v[15] = if sum > 255 { 1 } else { 0 };
            self.v[xu] = (sum % 256) as u8;
            Ok(())
        } else if o1 == 0x8 && o4 == 0x5 {
            // 8xy5 - SUB Vx, Vy: flag 1 when no borrow, wrapped difference
            self.pc = pc1;
            let vx = self.v[xu];
            let vy = self.v[yu];
            self.v[15] = if vx >= vy { 1 } else { 0 };
            let diff = ((256u16 + vx as u16 - vy as u16) % 256) as u8;
            proof {
                lemma_mod_add_multiples_vanish(vx - vy, 256);
                assert(diff == wrap8(vx - vy));
            }
            self.v[xu] = diff;
            Ok(())
        } else if o1 == 0x8 && o4 == 0x6 {
            // 8xy6 - SHR Vx: flag gets the shifted-out low bit
            self.pc = pc1;
            let vx = self.v[xu];
            self.v[15] = vx & 1;
            self.v[xu] = vx >> 1u8;
            Ok(())
        } else if o1 == 0x8 && o4 == 0x7 {
            // 8xy7 - SUBN Vx, Vy: flag 1 when no borrow, wrapped difference
            self.pc = pc1;
            let vx = self.v[xu];
            let vy = self.v[yu];
            self.v[15] = if vy >= vx { 1 } else { 0 };
            let diff = ((256u16 + vy as u16 - vx as u16) % 256) as u8;
            proof {
                lemma_mod_add_multiples_vanish(vy - vx, 256);
                assert(diff == wrap8(vy - vx));
            }
            self.v[xu] = diff;
            Ok(())
        } else if o1 == 0x8 && o4 == 0xE {
            // 8xyE - SHL Vx: flag gets the shifted-out high bit,
            // normalized to 0/1
            self.pc = pc1;
            let vx = self.v[xu];
            self.v[15] = if vx >= 0x80 { 1 } else { 0 };
            self.v[xu] = ((vx as u16 * 2) % 256) as u8;
            Ok(())
        } else if o1 == 0x9 && o4 == 0x0 {
            // 9xy0 - SNE Vx, Vy
            self.pc = if self.v[xu] != self.v[yu] { pc2 } else { pc1 };
            Ok(())
        } else if o1 == 0xA {
            // Annn - LD I, addr
            self.pc = pc1;
            self.i = nnn;
            Ok(())
        } else if o1 == 0xB {
            // Bnnn - JP V0, addr
            self.pc = ((nnn as u32 + self.v[0] as u32) % 0x10000) as u16;
            Ok(())
        } else if o1 == 0xC {
            // Cxkk - RND Vx, byte
            self.pc = pc1;
            self.v[xu] = kk & rnd;
            Ok(())
        } else if o1 == 0xD {
            // Dxyn - DRW Vx, Vy, nibble
            if self.i as usize + n as usize > 4096 {
                return Err(Chip8Error::MemoryOutOfRange);
            }
            let base = self.i as usize;
            let mut sprite: Vec<u8> = Vec::new();
            let mut row: usize = 0;
            while row < n as usize
                invariant
                    row <= n as usize,
                    sprite@.len() == row,
                    forall|j: int| 0 <= j < row ==> sprite@[j] == self.memory@[base + j],
                decreases n as usize - row,
            {
                sprite.push(self.memory[base + row]);
                row = row + 1;
            }
            proof {
                assert(sprite@ =~= old(self)@.memory.subrange(
                    old(self).i as int,
                    old(self).i + n,
                ));
            }
            let vx = self.v[xu];
            let vy = self.v[yu];
            let collision = self.display.draw(vx as usize, vy as usize, &sprite);
            self.v[15] = if collision { 1 } else { 0 };
            self.pc = pc1;
            Ok(())
        } else if o1 == 0xE && kk == 0x9E {
            // Ex9E - SKP Vx
            let vx = self.v[xu];
            if vx >= 16 {
                return Err(Chip8Error::InvalidKey);
            }
            let down = self.keypad.is_key_down(vx);
            self.pc = if down { pc2 } else { pc1 };
            Ok(())
        } else if o1 == 0xE && kk == 0xA1 {
            // ExA1 - SKNP Vx
            let vx = self.v[xu];
            if vx >= 16 {
                return Err(Chip8Error::InvalidKey);
            }
            let down = self.keypad.is_key_down(vx);
            self.pc = if down { pc1 } else { pc2 };
            Ok(())
        } else if o1 == 0xF && kk == 0x07 {
            // Fx07 - LD Vx, DT
            self.pc = pc1;
            let dt = self.dt;
            self.v[xu] = dt;
            Ok(())
        } else if o1 == 0xF && kk == 0x0A {
            // Fx0A - LD Vx, K: wait for a key press by re-executing
            // this instruction (program counter held) until some key
            // is pressed, then load the lowest pressed symbol
            let k = first_pressed(&self.keypad.keys);
            if k == 16 {
                Ok(())
            } else {
                self.pc = pc1;
                self.v[xu] = k as u8;
                Ok(())
            }
        } else if o1 == 0xF && kk == 0x15 {
            // Fx15 - LD DT, Vx
            self.pc = pc1;
            let vx = self.v[xu];
            self.dt = vx;
            Ok(())
        } else if o1 == 0xF && kk == 0x18 {
            // Fx18 - LD ST, Vx
            self.pc = pc1;
            let vx = self.v[xu];
            self.st = vx;
            Ok(())
        } else if o1 == 0xF && kk == 0x1E {
            // Fx1E - ADD I, Vx (wrapping, no flag)
            self.pc = pc1;
            let vx = self.v[xu];
            self.i = ((self.i as u32 + vx as u32) % 0x10000) as u16;
            Ok(())
        } else if o1 == 0xF && kk == 0x29 {
            // Fx29 - LD F, Vx: glyphs are 5 bytes each from address 0
            self.pc = pc1;
            let vx = self.v[xu];
            self.i = vx as u16 * 5;
            Ok(())
        } else if o1 == 0xF && kk == 0x33 {
            // Fx33 - LD B, Vx: hundreds, tens, ones at I, I+1, I+2
            if self.i as usize + 3 > 4096 {
                return Err(Chip8Error::MemoryOutOfRange);
            }
            self.pc = pc1;
            let vx = self.v[xu];
            let base = self.i as usize;
            self.memory[base] = vx / 100;
            self.memory[base + 1] = (vx / 10) % 10;
            self.memory[base + 2] = vx % 10;
            Ok(())
        } else if o1 == 0xF && kk == 0x55 {
            // Fx55 - LD [I], Vx: store registers 0..=x to memory at I
            if self.i as usize + xu + 1 > 4096 {
                return Err(Chip8Error::MemoryOutOfRange);
            }
            let base = self.i as usize;
            let ghost ii = old(self).i as int;
            let mut j: usize = 0;
            while j < xu + 1
                invariant
                    j <= xu + 1,
                    self@ == (CpuView { memory: self.memory@, ..old(self)@ }),
                    self.memory@.len() == 4096,
                    forall|a: int|
                        0 <= a < 4096 && !(ii <= a < ii + j) ==> self.memory@[a]
                            == old(self)@.memory[a],
                    forall|a: int| ii <= a < ii + j ==> self.memory@[a] == old(self)@.v[a - ii],
                decreases xu + 1 - j,
            {
                let vj = self.v[j];
                self.memory[base + j] = vj;
                j = j + 1;
            }
            self.pc = pc1;
            proof {
                assert(self.memory@ =~= Seq::new(
                    4096,
                    |a: int| if ii <= a < ii + xu + 1 {
                        old(self)@.v[a - ii]
                    } else {
                        old(self)@.memory[a]
                    },
                ));
            }
            Ok(())
        } else if o1 == 0xF && kk == 0x65 {
            // Fx65 - LD Vx, [I]: load registers 0..=x from memory at I
            if self.i as usize + xu + 1 > 4096 {
                return Err(Chip8Error::MemoryOutOfRange);
            }
            let base = self.i as usize;
            let ghost ii = old(self).i as int;
            let mut j: usize = 0;
            while j < xu + 1
                invariant
                    j <= xu + 1,
                    self@ == (CpuView { v: self.v@, ..old(self)@ }),
                    self.v@.len() == 16,
                    forall|jj: int| 0 <= jj < j ==> self.v@[jj] == old(self)@.memory[ii + jj],
                    forall|jj: int| j <= jj < 16 ==> self.v@[jj] == old(self)@.v[jj],
                decreases xu + 1 - j,
            {
                let mj = self.memory[base + j];
                self.v[j] = mj;
                j = j + 1;
            }
            self.pc = pc1;
            proof {
                assert(self.v@ =~= Seq::new(
                    16,
                    |jj: int| if jj <= xu { old(self)@.memory[ii + jj] } else { old(self)@.v[jj] },
                ));
            }
            Ok(())
        } else {
            // unrecognized bit pattern: no operation, program counter
            // still advances
            self.pc = pc1;
            Ok(())
        }
    }
}

} // verus!
