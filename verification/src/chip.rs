//! The machine: registers, call stack, timers, keypad state, memory and
//! display, with the fetch-decode-execute step and the timer tick.

use vstd::prelude::*;

use crate::display::blit;
use crate::display::blit_collision;
use crate::display::Display;
use crate::display::DISPLAY_H;
use crate::display::DISPLAY_W;
use crate::instr::Instr;
use crate::memory::word_at;
use crate::memory::Memory;
use crate::memory::MEMORY_SIZE;
use crate::KEYS_SIZE;
use crate::STACK_SIZE;
use crate::V_SIZE;

verus! {

/// Why a `step` failed. Each failure aborts only the current step; the
/// caller decides whether to halt, reset, or report.
#[derive(Debug, PartialEq, Eq, Structural, Clone, Copy)]
pub enum ChipError {
    /// The program counter points past the last full word of memory.
    OutOfBounds,
    /// The word at the program counter is not assigned to any instruction.
    DecodeFailure(u16),
    /// A call was made with the call stack already full.
    StackOverflow,
    /// A return was made with the call stack empty.
    StackUnderflow,
    /// A skip instruction named a key index of 16 or more.
    InvalidKeyIndex(u8),
}

/// The machine state as mathematical values: register file, address
/// register, program counter, stack pointer and stack, the two timers,
/// keypad state, the optional register awaiting a keypress, memory bytes,
/// and display pixels.
#[verifier::ext_equal]
pub ghost struct ChipView {
    pub v: Seq<u8>,
    pub i: u16,
    pub pc: u16,
    pub sp: u8,
    pub stack: Seq<u16>,
    pub dt: u8,
    pub st: u8,
    pub keys: Seq<bool>,
    pub key_wait: Option<u8>,
    pub mem: Seq<u8>,
    pub disp: Seq<bool>,
}

impl ChipView {
    /// Well-formed machine state: every array has its fixed size, the stack
    /// pointer stays within the stack, and a pending key wait names a real
    /// register.
    pub open spec fn wf(self) -> bool {
        &&& self.v.len() == V_SIZE
        &&& self.stack.len() == STACK_SIZE
        &&& self.keys.len() == KEYS_SIZE
        &&& self.mem.len() == MEMORY_SIZE
        &&& self.disp.len() == DISPLAY_W * DISPLAY_H
        &&& self.sp <= STACK_SIZE
        &&& (self.key_wait matches Some(x) ==> x < 16)
    }
}

/// The hundreds digit of a byte's decimal representation.
pub open spec fn bcd_hundreds(v: u8) -> u8 {
    ((v as int) / 100) as u8
}

/// The tens digit of a byte's decimal representation.
pub open spec fn bcd_tens(v: u8) -> u8 {
    (((v as int) / 10) % 10) as u8
}

/// The ones digit of a byte's decimal representation.
pub open spec fn bcd_ones(v: u8) -> u8 {
    ((v as int) % 10) as u8
}

/// Memory after a register block store: registers `V0..=VX` written at
/// addresses `i..=i+x`, the rest untouched.
pub open spec fn store_regs(mem: Seq<u8>, v: Seq<u8>, i: int, x: int) -> Seq<u8> {
    Seq::new(mem.len(), |a: int| if i <= a <= i + x { v[a - i] } else { mem[a] })
}

/// Register file after a register block load: registers `V0..=VX` read from
/// addresses `i..=i+x`, the rest untouched.
pub open spec fn load_regs(v: Seq<u8>, mem: Seq<u8>, i: int, x: int) -> Seq<u8> {
    Seq::new(v.len(), |r: int| if 0 <= r <= x { mem[i + r] } else { v[r] })
}

/// The machine state after executing one decoded instruction from state
/// `pre`, paired with the step's result. `rnd` is the byte the random source
/// produced, read only by the `RND` instruction. The program counter is
/// advanced by two first; branching instructions then overwrite it, and
/// conditional skips add one more advance on top.
pub open spec fn spec_exec_instr(pre: ChipView, instr: Instr, rnd: u8) -> (ChipView, Result<
    (),
    ChipError,
>) {
    let s = ChipView { pc: (pre.pc + 2) as u16, ..pre };
    match instr {
        Instr::CLS => (
            ChipView { disp: Seq::new((DISPLAY_W * DISPLAY_H) as nat, |k: int| false), ..s },
            Ok(()),
        ),
        Instr::RET => {
            if s.sp == 0 {
                (s, Err(ChipError::StackUnderflow))
            } else {
                (ChipView { sp: (s.sp - 1) as u8, pc: s.stack[s.sp - 1], ..s }, Ok(()))
            }
        },
        Instr::SYS(_) => (s, Ok(())),
        Instr::JP(xyz) => (ChipView { pc: xyz, ..s }, Ok(())),
        Instr::CALL(xyz) => {
            if s.sp >= STACK_SIZE {
                (s, Err(ChipError::StackOverflow))
            } else {
                (
                    ChipView {
                        stack: s.stack.update(s.sp as int, s.pc),
                        sp: (s.sp + 1) as u8,
                        pc: xyz,
                        ..s
                    },
                    Ok(()),
                )
            }
        },
        Instr::JP_V0(xyz) => (ChipView { pc: (xyz + s.v[0]) as u16, ..s }, Ok(())),
        Instr::SE(x, yz) => (
            if s.v[x as int] == yz {
                ChipView { pc: (s.pc + 2) as u16, ..s }
            } else {
                s
            },
            Ok(()),
        ),
        Instr::SNE(x, yz) => (
            if s.v[x as int] != yz {
                ChipView { pc: (s.pc + 2) as u16, ..s }
            } else {
                s
            },
            Ok(()),
        ),
        Instr::SE_R(x, y) => (
            if s.v[x as int] == s.v[y as int] {
                ChipView { pc: (s.pc + 2) as u16, ..s }
            } else {
                s
            },
            Ok(()),
        ),
        Instr::SNE_R(x, y) => (
            if s.v[x as int] != s.v[y as int] {
                ChipView { pc: (s.pc + 2) as u16, ..s }
            } else {
                s
            },
            Ok(()),
        ),
        Instr::LD_R_R(x, y) => (ChipView { v: s.v.update(x as int, s.v[y as int]), ..s }, Ok(())),
        Instr::LD_R_B(x, yz) => (ChipView { v: s.v.update(x as int, yz), ..s }, Ok(())),
        Instr::LD_I_A(xyz) => (ChipView { i: xyz, ..s }, Ok(())),
        Instr::LD_R_DT(x) => (ChipView { v: s.v.update(x as int, s.dt), ..s }, Ok(())),
        Instr::LD_DT_R(x) => (ChipView { dt: s.v[x as int], ..s }, Ok(())),
        Instr::LD_ST_R(x) => (ChipView { st: s.v[x as int], ..s }, Ok(())),
        Instr::LD_F_R(x) => (ChipView { i: (s.v[x as int] * 5) as u16, ..s }, Ok(())),
        Instr::LD_B_R(x) => {
            if s.i > MEMORY_SIZE - 3 {
                (s, Err(ChipError::OutOfBounds))
            } else {
                let vx = s.v[x as int];
                (
                    ChipView {
                        mem: s.mem.update(s.i as int, bcd_hundreds(vx)).update(
                            s.i + 1,
                            bcd_tens(vx),
                        ).update(s.i + 2, bcd_ones(vx)),
                        ..s
                    },
                    Ok(()),
                )
            }
        },
        Instr::LD_II_R(x) => {
            if s.i + x > MEMORY_SIZE - 1 {
                (s, Err(ChipError::OutOfBounds))
            } else {
                (ChipView { mem: store_regs(s.mem, s.v, s.i as int, x as int), ..s }, Ok(()))
            }
        },
        Instr::LD_R_II(x) => {
            if s.i + x > MEMORY_SIZE - 1 {
                (s, Err(ChipError::OutOfBounds))
            } else {
                (ChipView { v: load_regs(s.v, s.mem, s.i as int, x as int), ..s }, Ok(()))
            }
        },
        Instr::OR(x, y) => (
            ChipView { v: s.v.update(x as int, s.v[x as int] | s.v[y as int]), ..s },
            Ok(()),
        ),
        Instr::AND(x, y) => (
            ChipView { v: s.v.update(x as int, s.v[x as int] & s.v[y as int]), ..s },
            Ok(()),
        ),
        Instr::XOR(x, y) => (
            ChipView { v: s.v.update(x as int, s.v[x as int] ^ s.v[y as int]), ..s },
            Ok(()),
        ),
        Instr::ADD(x, y) => {
            let sum = s.v[x as int] + s.v[y as int];
            (
                ChipView {
                    v: s.v.update(x as int, (sum % 256) as u8).update(
                        0xF,
                        if sum > 255 {
                            1u8
                        } else {
                            0u8
                        },
                    ),
                    ..s
                },
                Ok(()),
            )
        },
        Instr::ADD_R_B(x, yz) => {
            let sum = s.v[x as int] + yz;
            (
                ChipView {
                    v: s.v.update(x as int, (sum % 256) as u8).update(
                        0xF,
                        if sum > 255 {
                            1u8
                        } else {
                            0u8
                        },
                    ),
                    ..s
                },
                Ok(()),
            )
        },
        Instr::SUB(x, y) => {
            let diff = s.v[x as int] - s.v[y as int];
            (
                ChipView {
                    v: s.v.update(x as int, (diff % 256) as u8).update(
                        0xF,
                        if diff >= 0 {
                            1u8
                        } else {
                            0u8
                        },
                    ),
                    ..s
                },
                Ok(()),
            )
        },
        Instr::SUBN(x, y) => {
            let diff = s.v[y as int] - s.v[x as int];
            (
                ChipView {
                    v: s.v.update(x as int, (diff % 256) as u8).update(
                        0xF,
                        if diff >= 0 {
                            1u8
                        } else {
                            0u8
                        },
                    ),
                    ..s
                },
                Ok(()),
            )
        },
        Instr::SHR(x, _y) => {
            let vx = s.v[x as int];
            (
                ChipView { v: s.v.update(x as int, vx >> 1u8).update(0xF, vx & 1), ..s },
                Ok(()),
            )
        },
        Instr::SHL(x, _y) => {
            let vx = s.v[x as int];
            (
                ChipView { v: s.v.update(x as int, vx << 1u8).update(0xF, vx >> 7u8), ..s },
                Ok(()),
            )
        },
        Instr::RND(x, yz) => (ChipView { v: s.v.update(x as int, rnd & yz), ..s }, Ok(())),
        Instr::DRW(x, y, z) => {
            if s.i + z > MEMORY_SIZE {
                (s, Err(ChipError::OutOfBounds))
            } else {
                let sprite = s.mem.subrange(s.i as int, s.i + z);
                let collided = blit_collision(s.disp, s.v[x as int] as int, s.v[y as int] as int, sprite);
                (
                    ChipView {
                        disp: blit(s.disp, s.v[x as int] as int, s.v[y as int] as int, sprite),
                        v: s.v.update(
                            0xF,
                            if collided {
                                1u8
                            } else {
                                0u8
                            },
                        ),
                        ..s
                    },
                    Ok(()),
                )
            }
        },
        Instr::ADD_I_R(x) => (
            ChipView { i: ((s.i + s.v[x as int]) % 0x10000) as u16, ..s },
            Ok(()),
        ),
        Instr::SKP(x) => {
            let key = s.v[x as int];
            if key >= 16 {
                (s, Err(ChipError::InvalidKeyIndex(key)))
            } else if s.keys[key as int] {
                (ChipView { pc: (s.pc + 2) as u16, ..s }, Ok(()))
            } else {
                (s, Ok(()))
            }
        },
        Instr::SKNP(x) => {
            let key = s.v[x as int];
            if key >= 16 {
                (s, Err(ChipError::InvalidKeyIndex(key)))
            } else if !s.keys[key as int] {
                (ChipView { pc: (s.pc + 2) as u16, ..s }, Ok(()))
            } else {
                (s, Ok(()))
            }
        },
        Instr::LD_R_K(x) => (ChipView { key_wait: Some(x), ..s }, Ok(())),
    }
}

/// The machine state after one `step` call from state `pre`, paired with the
/// step's result: a pending key wait makes the step a no-op, a program
/// counter past the last full word fails, and otherwise the word at the
/// program counter is decoded and executed.
pub open spec fn spec_step(pre: ChipView, rnd: u8) -> (ChipView, Result<(), ChipError>) {
    if pre.key_wait is Some {
        (pre, Ok(()))
    } else if pre.pc > MEMORY_SIZE - 2 {
        (pre, Err(ChipError::OutOfBounds))
    } else {
        let w = word_at(pre.mem, pre.pc as int);
        match Instr::spec_decode(w) {
            Some(instr) => spec_exec_instr(pre, instr, rnd),
            None => (pre, Err(ChipError::DecodeFailure(w))),
        }
    }
}

/// One `step` call took state `pre` to state `post` with result `r`, with
/// the random source producing `rnd`.
pub open spec fn step_effect(pre: ChipView, rnd: u8, post: ChipView, r: Result<
    (),
    ChipError,
>) -> bool {
    let (p, q) = spec_step(pre, rnd);
    post == p && r == q
}

/// The machine state after a timer tick: the delay timer counts down to
/// zero, and nothing else changes.
pub open spec fn spec_tick(pre: ChipView) -> ChipView {
    ChipView {
        dt: if pre.dt > 0 {
            (pre.dt - 1) as u8
        } else {
            0
        },
        ..pre
    }
}

/// The machine state after a key-down event: the key is marked held and, if
/// a register was awaiting a keypress and the key was not already held, the
/// key lands in that register and the wait is cleared (edge-triggered).
pub open spec fn spec_key_down(pre: ChipView, key: u8) -> ChipView {
    match pre.key_wait {
        Some(x) => {
            if !pre.keys[key as int] {
                ChipView {
                    v: pre.v.update(x as int, key),
                    key_wait: None,
                    keys: pre.keys.update(key as int, true),
                    ..pre
                }
            } else {
                ChipView { keys: pre.keys.update(key as int, true), ..pre }
            }
        },
        None => ChipView { keys: pre.keys.update(key as int, true), ..pre },
    }
}

/// State `post` is reachable from state `pre` by `n` successful steps.
pub open spec fn reaches(pre: ChipView, post: ChipView, n: nat) -> bool
    decreases n,
{
    if n == 0 {
        post == pre
    } else {
        exists|rnd: u8|
            ({
                let (mid, res) = #[trigger] spec_step(pre, rnd);
                res == Ok::<(), ChipError>(()) && reaches(mid, post, (n - 1) as nat)
            })
    }
}

/// Reachability extends by one more successful step at the end.
pub proof fn lemma_reaches_snoc(a: ChipView, b: ChipView, c: ChipView, n: nat, rnd: u8)
    requires
        reaches(a, b, n),
        spec_step(b, rnd) == (c, Ok::<(), ChipError>(())),
    ensures
        reaches(a, c, n + 1),
    decreases n,
{
    if n == 0 {
        assert(spec_step(a, rnd) == (c, Ok::<(), ChipError>(())));
        assert(reaches(c, c, 0));
    } else {
        let r0 = choose|r: u8|
            ({
                let (mid, res) = #[trigger] spec_step(a, r);
                res == Ok::<(), ChipError>(()) && reaches(mid, b, (n - 1) as nat)
            });
        let (mid, res) = spec_step(a, r0);
        lemma_reaches_snoc(mid, b, c, (n - 1) as nat, rnd);
        assert(({
            let (m2, r2) = spec_step(a, r0);
            r2 == Ok::<(), ChipError>(()) && reaches(m2, c, ((n + 1) - 1) as nat)
        }));
    }
}

/// Relies on rand::random: draws one byte from the thread-local random
/// generator. Nothing is assumed of the value.
#[verifier::external_body]
fn random_byte() -> u8 {
    rand::random::<u8>()
}

/// The machine: sixteen 8-bit registers (VF doubles as the carry, borrow,
/// and collision flag), the 16-bit address register I, program counter,
/// stack pointer and 16-entry call stack, delay and sound timers, keypad
/// state, the optional register awaiting a keypress, and the owned memory
/// and display.
pub struct Chip {
    pub v: Vec<u8>,
    pub i: u16,
    pub pc: u16,
    pub sp: u8,
    pub stack: Vec<u16>,
    pub dt: u8,
    pub st: u8,
    pub keys: Vec<bool>,
    pub key_wait_reg: Option<u8>,
    pub memory: Memory,
    pub display: Display,
}

impl View for Chip {
    type V = ChipView;

    open spec fn view(&self) -> ChipView {
        ChipView {
            v: self.v@,
            i: self.i,
            pc: self.pc,
            sp: self.sp,
            stack: self.stack@,
            dt: self.dt,
            st: self.st,
            keys: self.keys@,
            key_wait: self.key_wait_reg,
            mem: self.memory.bytes@,
            disp: self.display.pixels@,
        }
    }
}

impl Chip {
    /// The machine is well-formed when its state is.
    pub open spec fn wf(&self) -> bool {
        self@.wf()
    }

    /// A fresh machine: memory, display, registers, stack, timers and keypad
    /// all zeroed, no key wait pending.
    pub fn new() -> (r: Chip)
        ensures
            r.wf(),
            r@ == (ChipView {
                v: Seq::new(V_SIZE as nat, |k: int| 0u8),
                i: 0,
                pc: 0,
                sp: 0,
                stack: Seq::new(STACK_SIZE as nat, |k: int| 0u16),
                dt: 0,
                st: 0,
                keys: Seq::new(KEYS_SIZE as nat, |k: int| false),
                key_wait: None,
                mem: Seq::new(MEMORY_SIZE as nat, |k: int| 0u8),
                disp: Seq::new((DISPLAY_W * DISPLAY_H) as nat, |k: int| false),
            }),
    {
        let c = Chip {
            v: vec![0u8; V_SIZE],
            i: 0,
            pc: 0,
            sp: 0,
            stack: vec![0u16; STACK_SIZE],
            dt: 0,
            st: 0,
            keys: vec![false; KEYS_SIZE],
            key_wait_reg: None,
            memory: Memory::new(),
            display: Display::new(),
        };
        proof {
            assert(c@ =~= (ChipView {
                v: Seq::new(V_SIZE as nat, |k: int| 0u8),
                i: 0,
                pc: 0,
                sp: 0,
                stack: Seq::new(STACK_SIZE as nat, |k: int| 0u16),
                dt: 0,
                st: 0,
                keys: Seq::new(KEYS_SIZE as nat, |k: int| false),
                key_wait: None,
                mem: Seq::new(MEMORY_SIZE as nat, |k: int| 0u8),
                disp: Seq::new((DISPLAY_W * DISPLAY_H) as nat, |k: int| false),
            }));
        }
        c
    }

    /// Set the program counter.
    pub fn jump(&mut self, addr: u16)
        ensures
            final(self)@ == (ChipView { pc: addr, ..old(self)@ }),
    {
        self.pc = addr;
    }

    /// Record a key press; if a register is awaiting a keypress and this key
    /// was not already held, store the key there and clear the wait.
    pub fn key_down(&mut self, key: u8)
        requires
            old(self).wf(),
            key < KEYS_SIZE as u8,
        ensures
            final(self).wf(),
            final(self)@ == spec_key_down(old(self)@, key),
    {
        if let Some(x) = self.key_wait_reg {
            if !self.keys[key as usize] {
                self.v.set(x as usize, key);
                self.key_wait_reg = None;
            }
        }
        self.keys.set(key as usize, true);
    }

    /// Record a key release.
    pub fn key_up(&mut self, key: u8)
        requires
            old(self).wf(),
            key < KEYS_SIZE as u8,
        ensures
            final(self).wf(),
            final(self)@ == (ChipView { keys: old(self)@.keys.update(key as int, false), ..old(
                self,
            )@ }),
    {
        self.keys.set(key as usize, false);
    }

    /// Advance the program counter past the current instruction word.
    fn skip(&mut self)
        requires
            old(self)@.pc + 2 <= u16::MAX,
        ensures
            final(self)@ == (ChipView { pc: (old(self)@.pc + 2) as u16, ..old(self)@ }),
    {
        self.pc = self.pc + 2;
    }

    /// Execute one decoded instruction, with `rnd` as the byte the random
    /// source produced for a possible `RND`.
    fn run_instr(&mut self, instr: Instr, rnd: u8) -> (r: Result<(), ChipError>)
        requires
            old(self).wf(),
            instr.wf(),
            old(self)@.pc <= MEMORY_SIZE - 2,
        ensures
            final(self).wf(),
            final(self)@ == spec_exec_instr(old(self)@, instr, rnd).0,
            r == spec_exec_instr(old(self)@, instr, rnd).1,
    {
        self.skip();

        match instr {
            Instr::CLS => {
                self.display.clear();
            },
            Instr::RET => {
                if self.sp == 0 {
                    return Err(ChipError::StackUnderflow);
                }
                self.sp = self.sp - 1;
                self.pc = self.stack[self.sp as usize];
            },
            Instr::SYS(_xyz) => (),
            Instr::JP(xyz) => {
                self.pc = xyz;
            },
            Instr::JP_V0(xyz) => {
                self.pc = xyz + (self.v[0] as u16);
            },
            Instr::CALL(xyz) => {
                if self.sp as usize >= STACK_SIZE {
                    return Err(ChipError::StackOverflow);
                }
                self.stack.set(self.sp as usize, self.pc);
                self.sp = self.sp + 1;
                self.pc = xyz;
            },
            Instr::SE(x, yz) => {
                if self.v[x as usize] == yz {
                    self.skip();
                }
            },
            Instr::SNE(x, yz) => {
                if self.v[x as usize] != yz {
                    self.skip();
                }
            },
            Instr::SE_R(x, y) => {
                if self.v[x as usize] == self.v[y as usize] {
                    self.skip();
                }
            },
            Instr::SNE_R(x, y) => {
                if self.v[x as usize] != self.v[y as usize] {
                    self.skip();
                }
            },
            Instr::LD_R_R(x, y) => {
                let vy = self.v[y as usize];
                self.v.set(x as usize, vy);
            },
            Instr::LD_R_B(x, yz) => {
                self.v.set(x as usize, yz);
            },
            Instr::LD_I_A(xyz) => {
                self.i = xyz;
            },
            Instr::LD_R_DT(x) => {
                let dt = self.dt;
                self.v.set(x as usize, dt);
            },
            Instr::LD_DT_R(x) => {
                self.dt = self.v[x as usize];
            },
            Instr::LD_ST_R(x) => {
                self.st = self.v[x as usize];
            },
            Instr::LD_F_R(x) => {
                let vx = self.v[x as usize];
                self.i = (vx as u16) * 5;
            },
            Instr::LD_B_R(x) => {
                if self.i as usize > MEMORY_SIZE - 3 {
                    return Err(ChipError::OutOfBounds);
                }
                let vx = self.v[x as usize];
                let i0 = self.i as usize;
                self.memory.bytes.set(i0, vx / 100);
                self.memory.bytes.set(i0 + 1, (vx / 10) % 10);
                self.memory.bytes.set(i0 + 2, vx % 10);
            },
            Instr::LD_II_R(x) => {
                if self.i as usize + x as usize > MEMORY_SIZE - 1 {
                    return Err(ChipError::OutOfBounds);
                }
                let i0 = self.i as usize;
                let mut k: usize = 0;
                while k < x as usize + 1
                    invariant
                        k <= x as usize + 1,
                        x < 16,
                        i0 + x < MEMORY_SIZE,
                        self.memory.bytes@.len() == MEMORY_SIZE,
                        self.v@.len() == V_SIZE,
                        self@ == (ChipView {
                            mem: self.memory.bytes@,
                            pc: (old(self)@.pc + 2) as u16,
                            ..old(self)@
                        }),
                        forall|a: int|
                            i0 <= a < i0 + k ==> self.memory.bytes@[a] == old(self)@.v[a - i0],
                        forall|a: int|
                            0 <= a < MEMORY_SIZE && !(i0 <= a < i0 + k)
                                ==> self.memory.bytes@[a] == old(self)@.mem[a],
                    decreases x as usize + 1 - k,
                {
                    let vk = self.v[k];
                    self.memory.bytes.set(i0 + k, vk);
                    k = k + 1;
                }
                proof {
                    assert(self.memory.bytes@ =~= store_regs(
                        old(self)@.mem,
                        old(self)@.v,
                        i0 as int,
                        x as int,
                    ));
                }
            },
            Instr::LD_R_II(x) => {
                if self.i as usize + x as usize > MEMORY_SIZE - 1 {
                    return Err(ChipError::OutOfBounds);
                }
                let i0 = self.i as usize;
                let mut k: usize = 0;
                while k < x as usize + 1
                    invariant
                        k <= x as usize + 1,
                        x < 16,
                        i0 + x < MEMORY_SIZE,
                        self.memory.bytes@.len() == MEMORY_SIZE,
                        self.v@.len() == V_SIZE,
                        self@ == (ChipView {
                            v: self.v@,
                            pc: (old(self)@.pc + 2) as u16,
                            ..old(self)@
                        }),
                        forall|r: int| 0 <= r < k ==> self.v@[r] == old(self)@.mem[i0 + r],
                        forall|r: int| k <= r < V_SIZE ==> self.v@[r] == old(self)@.v[r],
                    decreases x as usize + 1 - k,
                {
                    let mk = self.memory.bytes[i0 + k];
                    self.v.set(k, mk);
                    k = k + 1;
                }
                proof {
                    assert(self.v@ =~= load_regs(old(self)@.v, old(self)@.mem, i0 as int, x as int));
                }
            },
            Instr::OR(x, y) => {
                let vx = self.v[x as usize];
                let vy = self.v[y as usize];
                self.v.set(x as usize, vx | vy);
            },
            Instr::AND(x, y) => {
                let vx = self.v[x as usize];
                let vy = self.v[y as usize];
                self.v.set(x as usize, vx & vy);
            },
            Instr::XOR(x, y) => {
                let vx = self.v[x as usize];
                let vy = self.v[y as usize];
                self.v.set(x as usize, vx ^ vy);
            },
            Instr::ADD(x, y) => {
                let vx = self.v[x as usize];
                let vy = self.v[y as usize];
                let sum: u16 = vx as u16 + vy as u16;
                self.v.set(x as usize, (sum % 256) as u8);
                self.v.set(0xF, if sum > 255 { 1 } else { 0 });
            },
            Instr::ADD_R_B(x, yz) => {
                let vx = self.v[x as usize];
                let sum: u16 = vx as u16 + yz as u16;
                self.v.set(x as usize, (sum % 256) as u8);
                self.v.set(0xF, if sum > 255 { 1 } else { 0 });
            },
            Instr::SUB(x, y) => {
                let vx = self.v[x as usize];
                let vy = self.v[y as usize];
                let diff: u16 = (vx as u16 + 256) - (vy as u16);
                proof {
                    vstd::arithmetic::div_mod::lemma_mod_add_multiples_vanish(
                        vx as int - vy as int,
                        256,
                    );
                }
                self.v.set(x as usize, (diff % 256) as u8);
                self.v.set(0xF, if vx >= vy { 1 } else { 0 });
            },
            Instr::SUBN(x, y) => {
                let vx = self.v[x as usize];
                let vy = self.v[y as usize];
                let diff: u16 = (vy as u16 + 256) - (vx as u16);
                proof {
                    vstd::arithmetic::div_mod::lemma_mod_add_multiples_vanish(
                        vy as int - vx as int,
                        256,
                    );
                }
                self.v.set(x as usize, (diff % 256) as u8);
                self.v.set(0xF, if vy >= vx { 1 } else { 0 });
            },
            Instr::SHR(x, _y) => {
                let vx = self.v[x as usize];
                self.v.set(x as usize, vx >> 1u8);
                self.v.set(0xF, vx & 1);
            },
            Instr::SHL(x, _y) => {
                let vx = self.v[x as usize];
                self.v.set(x as usize, vx << 1u8);
                self.v.set(0xF, vx >> 7u8);
            },
            Instr::RND(x, yz) => {
                self.v.set(x as usize, rnd & yz);
            },
            Instr::DRW(x, y, z) => {
                if self.i as usize + z as usize > MEMORY_SIZE {
                    return Err(ChipError::OutOfBounds);
                }
                let i0 = self.i as usize;
                let zn = z as usize;
                let mut sprite: Vec<u8> = Vec::new();
                let mut k: usize = 0;
                while k < zn
                    invariant
                        k <= zn,
                        i0 + zn <= MEMORY_SIZE,
                        self.memory.bytes@.len() == MEMORY_SIZE,
                        sprite@ == self.memory.bytes@.subrange(i0 as int, i0 as int + k as int),
                    decreases zn - k,
                {
                    let mk = self.memory.bytes[i0 + k];
                    sprite.push(mk);
                    proof {
                        assert(self.memory.bytes@.subrange(i0 as int, i0 as int + k as int + 1)
                            =~= self.memory.bytes@.subrange(i0 as int, i0 as int + k as int).push(
                            mk,
                        ));
                    }
                    k = k + 1;
                }
                let vx = self.v[x as usize];
                let vy = self.v[y as usize];
                let collided = self.display.draw(vx as usize, vy as usize, sprite.as_slice());
                self.v.set(0xF, if collided { 1 } else { 0 });
                proof {
                    crate::display::lemma_blit_len(
                        old(self)@.disp,
                        vx as int,
                        vy as int,
                        sprite@,
                    );
                }
            },
            Instr::ADD_I_R(x) => {
                let t: u32 = self.i as u32 + self.v[x as usize] as u32;
                self.i = (t % 0x10000) as u16;
            },
            Instr::SKP(x) => {
                let key = self.v[x as usize];
                if key >= KEYS_SIZE as u8 {
                    return Err(ChipError::InvalidKeyIndex(key));
                }
                if self.keys[key as usize] {
                    self.skip();
                }
            },
            Instr::SKNP(x) => {
                let key = self.v[x as usize];
                if key >= KEYS_SIZE as u8 {
                    return Err(ChipError::InvalidKeyIndex(key));
                }
                if !self.keys[key as usize] {
                    self.skip();
                }
            },
            Instr::LD_R_K(x) => {
                self.key_wait_reg = Some(x);
            },
        }
        Ok(())
    }

    /// One machine step. A pending key wait makes this a no-op that returns
    /// success without advancing the program counter; otherwise the word at
    /// the program counter is fetched, decoded, and executed.
    pub fn step(&mut self) -> (r: Result<(), ChipError>)
        requires
            old(self).wf(),
        ensures
            final(self).wf(),
            exists|rnd: u8| #[trigger] step_effect(old(self)@, rnd, final(self)@, r),
    {
        if self.key_wait_reg.is_some() {
            proof {
                assert(step_effect(old(self)@, 0u8, self@, Ok::<(), ChipError>(())));
            }
            return Ok(());
        }

        if self.pc as usize > MEMORY_SIZE - 2 {
            proof {
                assert(step_effect(
                    old(self)@,
                    0u8,
                    self@,
                    Err::<(), ChipError>(ChipError::OutOfBounds),
                ));
            }
            return Err(ChipError::OutOfBounds);
        }

        let b = self.memory.u16_at(self.pc as usize);
        match Instr::from(b) {
            Some(instr) => {
                proof {
                    crate::instr::lemma_decode_encode(b);
                }
                let rnd: u8 = match instr {
                    Instr::RND(_, _) => random_byte(),
                    _ => 0,
                };
                let r = self.run_instr(instr, rnd);
                proof {
                    assert(step_effect(old(self)@, rnd, self@, r));
                }
                r
            },
            None => {
                proof {
                    assert(step_effect(
                        old(self)@,
                        0u8,
                        self@,
                        Err::<(), ChipError>(ChipError::DecodeFailure(b)),
                    ));
                }
                Err(ChipError::DecodeFailure(b))
            },
        }
    }

    /// Run from `addr` until the program counter reaches the 0xFFF sentinel,
    /// stopping at the first failing step or after `max_steps` steps,
    /// whichever comes first.
    pub fn run_program(&mut self, addr: usize, max_steps: usize) -> (r: Result<(), ChipError>)
        requires
            old(self).wf(),
            addr <= u16::MAX,
        ensures
            final(self).wf(),
            ({
                let start = (ChipView { pc: addr as u16, ..old(self)@ });
                &&& (r matches Ok(_) ==> exists|n: nat|
                    #[trigger] reaches(start, final(self)@, n) && n <= max_steps && (final(self)@.pc
                        == 0xFFF || n == max_steps))
                &&& (r matches Err(e) ==> exists|n: nat, rnd: u8, mid: ChipView|
                    #[trigger] reaches(start, mid, n) && #[trigger] spec_step(mid, rnd) == (
                    final(self)@,
                    Err::<(), ChipError>(e),
                    ))
            }),
    {
        self.pc = addr as u16;
        let ghost start = self@;
        proof {
            assert(start =~= (ChipView { pc: addr as u16, ..old(self)@ }));
            assert(reaches(start, self@, 0nat));
        }
        let mut steps: usize = 0;
        while self.pc != 0xFFF && steps < max_steps
            invariant
                self.wf(),
                steps <= max_steps,
                start == (ChipView { pc: addr as u16, ..old(self)@ }),
                reaches(start, self@, steps as nat),
            decreases max_steps - steps,
        {
            let ghost before = self@;
            let res = self.step();
            match res {
                Ok(()) => {
                    proof {
                        let rnd = choose|rnd: u8|
                            #[trigger] step_effect(before, rnd, self@, Ok::<(), ChipError>(()));
                        lemma_reaches_snoc(start, before, self@, steps as nat, rnd);
                    }
                },
                Err(e) => {
                    proof {
                        let rnd = choose|rnd: u8|
                            #[trigger] step_effect(before, rnd, self@, Err::<(), ChipError>(e));
                        assert(reaches(start, before, steps as nat) && spec_step(before, rnd) == (
                            self@,
                            Err::<(), ChipError>(e),
                        ));
                    }
                    return Err(e);
                },
            }
            steps = steps + 1;
        }
        Ok(())
    }

    /// One timer tick: count the delay timer down toward zero. Intended to
    /// be driven at a fixed external rate, independent of `step`.
    pub fn tick(&mut self)
        requires
            old(self).wf(),
        ensures
            final(self).wf(),
            final(self)@ == spec_tick(old(self)@),
    {
        if self.dt > 0 {
            self.dt = self.dt - 1;
        }
    }
}

} // verus!
