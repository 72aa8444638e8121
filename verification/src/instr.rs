//! Instruction codec: a bidirectional mapping between 16-bit opcode words and
//! structured instruction values.

use vstd::prelude::*;

verus! {

/// One decoded CHIP-8 instruction with typed operands: a register index
/// (`0..=0xF`), an immediate byte, or a 12-bit address.
#[derive(Debug, PartialEq, Eq, Structural, Clone, Copy)]
#[allow(non_camel_case_types)]
pub enum Instr {
    CLS,
    RET,
    SYS(u16),

    JP(u16),
    CALL(u16),
    JP_V0(u16),

    SE(u8, u8),
    SE_R(u8, u8),
    SNE(u8, u8),
    SNE_R(u8, u8),

    OR(u8, u8),
    AND(u8, u8),
    XOR(u8, u8),
    ADD(u8, u8),
    SUB(u8, u8),
    SUBN(u8, u8),

    SHR(u8, u8),
    SHL(u8, u8),

    LD_R_B(u8, u8),
    LD_R_R(u8, u8),
    LD_I_A(u16),
    LD_R_DT(u8),
    LD_R_K(u8),
    LD_DT_R(u8),
    LD_ST_R(u8),
    LD_F_R(u8),
    LD_B_R(u8),
    LD_II_R(u8),
    LD_R_II(u8),

    ADD_R_B(u8, u8),
    ADD_I_R(u8),

    RND(u8, u8),
    DRW(u8, u8, u8),
    SKP(u8),
    SKNP(u8),
}

/// Top nibble of an opcode word.
pub open spec fn nib_a(w: u16) -> u8 {
    ((w >> 12) & 0xF) as u8
}

/// Second nibble of an opcode word (the X register field).
pub open spec fn nib_x(w: u16) -> u8 {
    ((w >> 8) & 0xF) as u8
}

/// Third nibble of an opcode word (the Y register field).
pub open spec fn nib_y(w: u16) -> u8 {
    ((w >> 4) & 0xF) as u8
}

/// Bottom nibble of an opcode word.
pub open spec fn nib_z(w: u16) -> u8 {
    (w & 0xF) as u8
}

/// Low byte of an opcode word (the immediate field).
pub open spec fn low_byte(w: u16) -> u8 {
    (w & 0xFF) as u8
}

/// Low 12 bits of an opcode word (the address field).
pub open spec fn low_addr(w: u16) -> u16 {
    w & 0xFFF
}

impl Instr {
    /// Which instruction, if any, a 16-bit word decodes to.
    pub open spec fn spec_decode(w: u16) -> Option<Instr> {
        let a = nib_a(w);
        let x = nib_x(w);
        let y = nib_y(w);
        let z = nib_z(w);
        let yz = low_byte(w);
        let xyz = low_addr(w);
        if a == 0x0 {
            if xyz == 0x0E0 {
                Some(Instr::CLS)
            } else if xyz == 0x0EE {
                Some(Instr::RET)
            } else {
                Some(Instr::SYS(xyz))
            }
        } else if a == 0x1 {
            Some(Instr::JP(xyz))
        } else if a == 0x2 {
            Some(Instr::CALL(xyz))
        } else if a == 0x3 {
            Some(Instr::SE(x, yz))
        } else if a == 0x4 {
            Some(Instr::SNE(x, yz))
        } else if a == 0x5 {
            if z == 0 {
                Some(Instr::SE_R(x, y))
            } else {
                None
            }
        } else if a == 0x6 {
            Some(Instr::LD_R_B(x, yz))
        } else if a == 0x7 {
            Some(Instr::ADD_R_B(x, yz))
        } else if a == 0x8 {
            if z == 0x0 {
                Some(Instr::LD_R_R(x, y))
            } else if z == 0x1 {
                Some(Instr::OR(x, y))
            } else if z == 0x2 {
                Some(Instr::AND(x, y))
            } else if z == 0x3 {
                Some(Instr::XOR(x, y))
            } else if z == 0x4 {
                Some(Instr::ADD(x, y))
            } else if z == 0x5 {
                Some(Instr::SUB(x, y))
            } else if z == 0x6 {
                Some(Instr::SHR(x, y))
            } else if z == 0x7 {
                Some(Instr::SUBN(x, y))
            } else if z == 0xE {
                Some(Instr::SHL(x, y))
            } else {
                None
            }
        } else if a == 0x9 {
            if z == 0 {
                Some(Instr::SNE_R(x, y))
            } else {
                None
            }
        } else if a == 0xA {
            Some(Instr::LD_I_A(xyz))
        } else if a == 0xB {
            Some(Instr::JP_V0(xyz))
        } else if a == 0xC {
            Some(Instr::RND(x, yz))
        } else if a == 0xD {
            Some(Instr::DRW(x, y, z))
        } else if a == 0xE {
            if yz == 0x9E {
                Some(Instr::SKP(x))
            } else if yz == 0xA1 {
                Some(Instr::SKNP(x))
            } else {
                None
            }
        } else {
            if yz == 0x07 {
                Some(Instr::LD_R_DT(x))
            } else if yz == 0x0A {
                Some(Instr::LD_R_K(x))
            } else if yz == 0x15 {
                Some(Instr::LD_DT_R(x))
            } else if yz == 0x18 {
                Some(Instr::LD_ST_R(x))
            } else if yz == 0x1E {
                Some(Instr::ADD_I_R(x))
            } else if yz == 0x29 {
                Some(Instr::LD_F_R(x))
            } else if yz == 0x33 {
                Some(Instr::LD_B_R(x))
            } else if yz == 0x55 {
                Some(Instr::LD_II_R(x))
            } else if yz == 0x65 {
                Some(Instr::LD_R_II(x))
            } else {
                None
            }
        }
    }

    /// The 16-bit word an instruction encodes to.
    pub open spec fn spec_encode(self) -> u16 {
        match self {
            Instr::CLS => 0x00E0,
            Instr::RET => 0x00EE,
            Instr::SYS(xyz) => 0x0000 | xyz,
            Instr::JP(xyz) => 0x1000 | xyz,
            Instr::CALL(xyz) => 0x2000 | xyz,
            Instr::JP_V0(xyz) => 0xB000 | xyz,
            Instr::SE(x, yz) => 0x3000 | ((x as u16) << 8) | (yz as u16),
            Instr::SNE(x, yz) => 0x4000 | ((x as u16) << 8) | (yz as u16),
            Instr::SE_R(x, y) => 0x5000 | ((x as u16) << 8) | ((y as u16) << 4),
            Instr::SNE_R(x, y) => 0x9000 | ((x as u16) << 8) | ((y as u16) << 4),
            Instr::OR(x, y) => 0x8001 | ((x as u16) << 8) | ((y as u16) << 4),
            Instr::AND(x, y) => 0x8002 | ((x as u16) << 8) | ((y as u16) << 4),
            Instr::XOR(x, y) => 0x8003 | ((x as u16) << 8) | ((y as u16) << 4),
            Instr::ADD(x, y) => 0x8004 | ((x as u16) << 8) | ((y as u16) << 4),
            Instr::SUB(x, y) => 0x8005 | ((x as u16) << 8) | ((y as u16) << 4),
            Instr::SUBN(x, y) => 0x8007 | ((x as u16) << 8) | ((y as u16) << 4),
            Instr::SHR(x, y) => 0x8006 | ((x as u16) << 8) | ((y as u16) << 4),
            Instr::SHL(x, y) => 0x800E | ((x as u16) << 8) | ((y as u16) << 4),
            Instr::LD_R_B(x, yz) => 0x6000 | ((x as u16) << 8) | (yz as u16),
            Instr::LD_R_R(x, y) => 0x8000 | ((x as u16) << 8) | ((y as u16) << 4),
            Instr::LD_I_A(xyz) => 0xA000 | xyz,
            Instr::LD_R_DT(x) => 0xF007 | ((x as u16) << 8),
            Instr::LD_R_K(x) => 0xF00A | ((x as u16) << 8),
            Instr::LD_DT_R(x) => 0xF015 | ((x as u16) << 8),
            Instr::LD_ST_R(x) => 0xF018 | ((x as u16) << 8),
            Instr::LD_F_R(x) => 0xF029 | ((x as u16) << 8),
            Instr::LD_B_R(x) => 0xF033 | ((x as u16) << 8),
            Instr::LD_II_R(x) => 0xF055 | ((x as u16) << 8),
            Instr::LD_R_II(x) => 0xF065 | ((x as u16) << 8),
            Instr::ADD_R_B(x, yz) => 0x7000 | ((x as u16) << 8) | (yz as u16),
            Instr::ADD_I_R(x) => 0xF01E | ((x as u16) << 8),
            Instr::RND(x, yz) => 0xC000 | ((x as u16) << 8) | (yz as u16),
            Instr::DRW(x, y, z) => 0xD000 | ((x as u16) << 8) | ((y as u16) << 4) | (z as u16),
            Instr::SKP(x) => 0xE09E | ((x as u16) << 8),
            Instr::SKNP(x) => 0xE0A1 | ((x as u16) << 8),
        }
    }

    /// An instruction is representable when every operand fits its field: a
    /// register index or nibble operand is below 16 and an address is below
    /// 0x1000. A `SYS` address may not collide with the dedicated `CLS` and
    /// `RET` words.
    pub open spec fn wf(self) -> bool {
        match self {
            Instr::CLS => true,
            Instr::RET => true,
            Instr::SYS(xyz) => xyz < 0x1000 && xyz != 0x0E0 && xyz != 0x0EE,
            Instr::JP(xyz) => xyz < 0x1000,
            Instr::CALL(xyz) => xyz < 0x1000,
            Instr::JP_V0(xyz) => xyz < 0x1000,
            Instr::SE(x, yz) => x < 16,
            Instr::SNE(x, yz) => x < 16,
            Instr::SE_R(x, y) => x < 16 && y < 16,
            Instr::SNE_R(x, y) => x < 16 && y < 16,
            Instr::OR(x, y) => x < 16 && y < 16,
            Instr::AND(x, y) => x < 16 && y < 16,
            Instr::XOR(x, y) => x < 16 && y < 16,
            Instr::ADD(x, y) => x < 16 && y < 16,
            Instr::SUB(x, y) => x < 16 && y < 16,
            Instr::SUBN(x, y) => x < 16 && y < 16,
            Instr::SHR(x, y) => x < 16 && y < 16,
            Instr::SHL(x, y) => x < 16 && y < 16,
            Instr::LD_R_B(x, yz) => x < 16,
            Instr::LD_R_R(x, y) => x < 16 && y < 16,
            Instr::LD_I_A(xyz) => xyz < 0x1000,
            Instr::LD_R_DT(x) => x < 16,
            Instr::LD_R_K(x) => x < 16,
            Instr::LD_DT_R(x) => x < 16,
            Instr::LD_ST_R(x) => x < 16,
            Instr::LD_F_R(x) => x < 16,
            Instr::LD_B_R(x) => x < 16,
            Instr::LD_II_R(x) => x < 16,
            Instr::LD_R_II(x) => x < 16,
            Instr::ADD_R_B(x, yz) => x < 16,
            Instr::ADD_I_R(x) => x < 16,
            Instr::RND(x, yz) => x < 16,
            Instr::DRW(x, y, z) => x < 16 && y < 16 && z < 16,
            Instr::SKP(x) => x < 16,
            Instr::SKNP(x) => x < 16,
        }
    }

    /// Decode a big-endian 16-bit opcode word, dispatching on the top nibble
    /// and refining on the low nibble or low byte where an opcode family has
    /// sub-cases. Returns `None` for words not assigned to any instruction.
    pub fn from(b: u16) -> (r: Option<Instr>)
        ensures
            r == Instr::spec_decode(b),
    {
        let a: u8 = ((b >> 12) & 0xF) as u8;
        let x: u8 = ((b >> 8) & 0xF) as u8;
        let y: u8 = ((b >> 4) & 0xF) as u8;
        let z: u8 = (b & 0xF) as u8;
        let yz: u8 = (b & 0xFF) as u8;
        let xyz: u16 = b & 0xFFF;

        if a == 0x0 {
            if xyz == 0x0E0 {
                Some(Instr::CLS)
            } else if xyz == 0x0EE {
                Some(Instr::RET)
            } else {
                Some(Instr::SYS(xyz))
            }
        } else if a == 0x1 {
            Some(Instr::JP(xyz))
        } else if a == 0x2 {
            Some(Instr::CALL(xyz))
        } else if a == 0x3 {
            Some(Instr::SE(x, yz))
        } else if a == 0x4 {
            Some(Instr::SNE(x, yz))
        } else if a == 0x5 {
            if z == 0 {
                Some(Instr::SE_R(x, y))
            } else {
                None
            }
        } else if a == 0x6 {
            Some(Instr::LD_R_B(x, yz))
        } else if a == 0x7 {
            Some(Instr::ADD_R_B(x, yz))
        } else if a == 0x8 {
            if z == 0x0 {
                Some(Instr::LD_R_R(x, y))
            } else if z == 0x1 {
                Some(Instr::OR(x, y))
            } else if z == 0x2 {
                Some(Instr::AND(x, y))
            } else if z == 0x3 {
                Some(Instr::XOR(x, y))
            } else if z == 0x4 {
                Some(Instr::ADD(x, y))
            } else if z == 0x5 {
                Some(Instr::SUB(x, y))
            } else if z == 0x6 {
                Some(Instr::SHR(x, y))
            } else if z == 0x7 {
                Some(Instr::SUBN(x, y))
            } else if z == 0xE {
                Some(Instr::SHL(x, y))
            } else {
                None
            }
        } else if a == 0x9 {
            if z == 0 {
                Some(Instr::SNE_R(x, y))
            } else {
                None
            }
        } else if a == 0xA {
            Some(Instr::LD_I_A(xyz))
        } else if a == 0xB {
            Some(Instr::JP_V0(xyz))
        } else if a == 0xC {
            Some(Instr::RND(x, yz))
        } else if a == 0xD {
            Some(Instr::DRW(x, y, z))
        } else if a == 0xE {
            if yz == 0x9E {
                Some(Instr::SKP(x))
            } else if yz == 0xA1 {
                Some(Instr::SKNP(x))
            } else {
                None
            }
        } else {
            if yz == 0x07 {
                Some(Instr::LD_R_DT(x))
            } else if yz == 0x0A {
                Some(Instr::LD_R_K(x))
            } else if yz == 0x15 {
                Some(Instr::LD_DT_R(x))
            } else if yz == 0x18 {
                Some(Instr::LD_ST_R(x))
            } else if yz == 0x1E {
                Some(Instr::ADD_I_R(x))
            } else if yz == 0x29 {
                Some(Instr::LD_F_R(x))
            } else if yz == 0x33 {
                Some(Instr::LD_B_R(x))
            } else if yz == 0x55 {
                Some(Instr::LD_II_R(x))
            } else if yz == 0x65 {
                Some(Instr::LD_R_II(x))
            } else {
                None
            }
        }
    }

    /// Encode an instruction back into its 16-bit opcode word. Total: every
    /// constructible instruction value maps to exactly one word.
    pub fn to(self) -> (r: u16)
        ensures
            r == self.spec_encode(),
    {
        match self {
            Instr::CLS => 0x00E0,
            Instr::RET => 0x00EE,
            Instr::SYS(xyz) => 0x0000 | xyz,
            Instr::JP(xyz) => 0x1000 | xyz,
            Instr::CALL(xyz) => 0x2000 | xyz,
            Instr::JP_V0(xyz) => 0xB000 | xyz,
            Instr::SE(x, yz) => 0x3000 | ((x as u16) << 8) | (yz as u16),
            Instr::SNE(x, yz) => 0x4000 | ((x as u16) << 8) | (yz as u16),
            Instr::SE_R(x, y) => 0x5000 | ((x as u16) << 8) | ((y as u16) << 4),
            Instr::SNE_R(x, y) => 0x9000 | ((x as u16) << 8) | ((y as u16) << 4),
            Instr::OR(x, y) => 0x8001 | ((x as u16) << 8) | ((y as u16) << 4),
            Instr::AND(x, y) => 0x8002 | ((x as u16) << 8) | ((y as u16) << 4),
            Instr::XOR(x, y) => 0x8003 | ((x as u16) << 8) | ((y as u16) << 4),
            Instr::ADD(x, y) => 0x8004 | ((x as u16) << 8) | ((y as u16) << 4),
            Instr::SUB(x, y) => 0x8005 | ((x as u16) << 8) | ((y as u16) << 4),
            Instr::SUBN(x, y) => 0x8007 | ((x as u16) << 8) | ((y as u16) << 4),
            Instr::SHR(x, y) => 0x8006 | ((x as u16) << 8) | ((y as u16) << 4),
            Instr::SHL(x, y) => 0x800E | ((x as u16) << 8) | ((y as u16) << 4),
            Instr::LD_R_B(x, yz) => 0x6000 | ((x as u16) << 8) | (yz as u16),
            Instr::LD_R_R(x, y) => 0x8000 | ((x as u16) << 8) | ((y as u16) << 4),
            Instr::LD_I_A(xyz) => 0xA000 | xyz,
            Instr::LD_R_DT(x) => 0xF007 | ((x as u16) << 8),
            Instr::LD_R_K(x) => 0xF00A | ((x as u16) << 8),
            Instr::LD_DT_R(x) => 0xF015 | ((x as u16) << 8),
            Instr::LD_ST_R(x) => 0xF018 | ((x as u16) << 8),
            Instr::LD_F_R(x) => 0xF029 | ((x as u16) << 8),
            Instr::LD_B_R(x) => 0xF033 | ((x as u16) << 8),
            Instr::LD_II_R(x) => 0xF055 | ((x as u16) << 8),
            Instr::LD_R_II(x) => 0xF065 | ((x as u16) << 8),
            Instr::ADD_R_B(x, yz) => 0x7000 | ((x as u16) << 8) | (yz as u16),
            Instr::ADD_I_R(x) => 0xF01E | ((x as u16) << 8),
            Instr::RND(x, yz) => 0xC000 | ((x as u16) << 8) | (yz as u16),
            Instr::DRW(x, y, z) => 0xD000 | ((x as u16) << 8) | ((y as u16) << 4) | (z as u16),
            Instr::SKP(x) => 0xE09E | ((x as u16) << 8),
            Instr::SKNP(x) => 0xE0A1 | ((x as u16) << 8),
        }
    }
}

/// Field-extraction facts about an arbitrary opcode word: every nibble is
/// below 16, the address field is below 0x1000, and the word reassembles
/// from its fields.
proof fn lemma_bv_fields(w: u16)
    by (bit_vector)
    ensures
        nib_a(w) < 16,
        nib_x(w) < 16,
        nib_y(w) < 16,
        nib_z(w) < 16,
        low_addr(w) < 0x1000,
        w == ((nib_a(w) as u16) << 12) | low_addr(w),
        low_addr(w) == ((nib_x(w) as u16) << 8) | (low_byte(w) as u16),
        (low_byte(w) as u16) == ((nib_y(w) as u16) << 4) | (nib_z(w) as u16),
{
}

/// Bitwise or is associative on 16-bit words.
proof fn lemma_bv_or_assoc(p: u16, q: u16, r: u16)
    by (bit_vector)
    ensures
        p | (q | r) == (p | q) | r,
{
}

/// The top-nibble shifts and the or-combinations of the fixed opcode words,
/// folded to their literal values.
proof fn lemma_bv_consts()
    by (bit_vector)
    ensures
        (0x0u8 as u16) << 12 == 0x0000u16,
        (0x1u8 as u16) << 12 == 0x1000u16,
        (0x2u8 as u16) << 12 == 0x2000u16,
        (0x3u8 as u16) << 12 == 0x3000u16,
        (0x4u8 as u16) << 12 == 0x4000u16,
        (0x5u8 as u16) << 12 == 0x5000u16,
        (0x6u8 as u16) << 12 == 0x6000u16,
        (0x7u8 as u16) << 12 == 0x7000u16,
        (0x8u8 as u16) << 12 == 0x8000u16,
        (0x9u8 as u16) << 12 == 0x9000u16,
        (0xAu8 as u16) << 12 == 0xA000u16,
        (0xBu8 as u16) << 12 == 0xB000u16,
        (0xCu8 as u16) << 12 == 0xC000u16,
        (0xDu8 as u16) << 12 == 0xD000u16,
        (0xEu8 as u16) << 12 == 0xE000u16,
        (0xFu8 as u16) << 12 == 0xF000u16,
        0x0000u16 | 0x00E0u16 == 0x00E0u16,
        0x0000u16 | 0x00EEu16 == 0x00EEu16,
{
}

/// Folding the fixed low byte of the skip and timer opcode families into the
/// base word: `0xF000 | (xv | 0x07)` is `0xF007 | xv`, and so on.
proof fn lemma_bv_fold_low_byte(xv: u16)
    by (bit_vector)
    ensures
        0xE000u16 | (xv | 0x9Eu16) == 0xE09Eu16 | xv,
        0xE000u16 | (xv | 0xA1u16) == 0xE0A1u16 | xv,
        0xF000u16 | (xv | 0x07u16) == 0xF007u16 | xv,
        0xF000u16 | (xv | 0x0Au16) == 0xF00Au16 | xv,
        0xF000u16 | (xv | 0x15u16) == 0xF015u16 | xv,
        0xF000u16 | (xv | 0x18u16) == 0xF018u16 | xv,
        0xF000u16 | (xv | 0x1Eu16) == 0xF01Eu16 | xv,
        0xF000u16 | (xv | 0x29u16) == 0xF029u16 | xv,
        0xF000u16 | (xv | 0x33u16) == 0xF033u16 | xv,
        0xF000u16 | (xv | 0x55u16) == 0xF055u16 | xv,
        0xF000u16 | (xv | 0x65u16) == 0xF065u16 | xv,
{
}

/// Folding the fixed bottom nibble of the register-register opcode families
/// into the base word.
proof fn lemma_bv_fold_nib(xv: u16, yv: u16)
    by (bit_vector)
    ensures
        0x5000u16 | (xv | (yv | 0x0u16)) == (0x5000u16 | xv) | yv,
        0x9000u16 | (xv | (yv | 0x0u16)) == (0x9000u16 | xv) | yv,
        0x8000u16 | (xv | (yv | 0x0u16)) == (0x8000u16 | xv) | yv,
        0x8000u16 | (xv | (yv | 0x1u16)) == (0x8001u16 | xv) | yv,
        0x8000u16 | (xv | (yv | 0x2u16)) == (0x8002u16 | xv) | yv,
        0x8000u16 | (xv | (yv | 0x3u16)) == (0x8003u16 | xv) | yv,
        0x8000u16 | (xv | (yv | 0x4u16)) == (0x8004u16 | xv) | yv,
        0x8000u16 | (xv | (yv | 0x5u16)) == (0x8005u16 | xv) | yv,
        0x8000u16 | (xv | (yv | 0x6u16)) == (0x8006u16 | xv) | yv,
        0x8000u16 | (xv | (yv | 0x7u16)) == (0x8007u16 | xv) | yv,
        0x8000u16 | (xv | (yv | 0xEu16)) == (0x800Eu16 | xv) | yv,
{
}

/// Regrouping a draw opcode word from extraction order to encoding order.
proof fn lemma_bv_fold_drw(xv: u16, yv: u16, zv: u16)
    by (bit_vector)
    ensures
        0xD000u16 | (xv | (yv | zv)) == ((0xD000u16 | xv) | yv) | zv,
{
}

/// Field extraction on an encoded address-family word.
proof fn lemma_bv_enc_addr(n: u16)
    by (bit_vector)
    requires
        n < 0x1000,
    ensures
        nib_a(0x0000u16 | n) == 0x0 && low_addr(0x0000u16 | n) == n,
        nib_a(0x1000u16 | n) == 0x1 && low_addr(0x1000u16 | n) == n,
        nib_a(0x2000u16 | n) == 0x2 && low_addr(0x2000u16 | n) == n,
        nib_a(0xA000u16 | n) == 0xA && low_addr(0xA000u16 | n) == n,
        nib_a(0xB000u16 | n) == 0xB && low_addr(0xB000u16 | n) == n,
{
}

/// Field extraction on an encoded register-immediate word.
proof fn lemma_bv_enc_x_yz(x: u8, yz: u8)
    by (bit_vector)
    requires
        x < 16,
    ensures
        nib_a(0x3000u16 | ((x as u16) << 8) | (yz as u16)) == 0x3,
        nib_a(0x4000u16 | ((x as u16) << 8) | (yz as u16)) == 0x4,
        nib_a(0x6000u16 | ((x as u16) << 8) | (yz as u16)) == 0x6,
        nib_a(0x7000u16 | ((x as u16) << 8) | (yz as u16)) == 0x7,
        nib_a(0xC000u16 | ((x as u16) << 8) | (yz as u16)) == 0xC,
        nib_x(0x3000u16 | ((x as u16) << 8) | (yz as u16)) == x,
        nib_x(0x4000u16 | ((x as u16) << 8) | (yz as u16)) == x,
        nib_x(0x6000u16 | ((x as u16) << 8) | (yz as u16)) == x,
        nib_x(0x7000u16 | ((x as u16) << 8) | (yz as u16)) == x,
        nib_x(0xC000u16 | ((x as u16) << 8) | (yz as u16)) == x,
        low_byte(0x3000u16 | ((x as u16) << 8) | (yz as u16)) == yz,
        low_byte(0x4000u16 | ((x as u16) << 8) | (yz as u16)) == yz,
        low_byte(0x6000u16 | ((x as u16) << 8) | (yz as u16)) == yz,
        low_byte(0x7000u16 | ((x as u16) << 8) | (yz as u16)) == yz,
        low_byte(0xC000u16 | ((x as u16) << 8) | (yz as u16)) == yz,
{
}

/// Field extraction on an encoded register-register word.
proof fn lemma_bv_enc_xy(x: u8, y: u8)
    by (bit_vector)
    requires
        x < 16,
        y < 16,
    ensures
        nib_a(0x5000u16 | ((x as u16) << 8) | ((y as u16) << 4)) == 0x5,
        nib_a(0x9000u16 | ((x as u16) << 8) | ((y as u16) << 4)) == 0x9,
        nib_a(0x8000u16 | ((x as u16) << 8) | ((y as u16) << 4)) == 0x8,
        nib_a(0x8001u16 | ((x as u16) << 8) | ((y as u16) << 4)) == 0x8,
        nib_a(0x8002u16 | ((x as u16) << 8) | ((y as u16) << 4)) == 0x8,
        nib_a(0x8003u16 | ((x as u16) << 8) | ((y as u16) << 4)) == 0x8,
        nib_a(0x8004u16 | ((x as u16) << 8) | ((y as u16) << 4)) == 0x8,
        nib_a(0x8005u16 | ((x as u16) << 8) | ((y as u16) << 4)) == 0x8,
        nib_a(0x8006u16 | ((x as u16) << 8) | ((y as u16) << 4)) == 0x8,
        nib_a(0x8007u16 | ((x as u16) << 8) | ((y as u16) << 4)) == 0x8,
        nib_a(0x800Eu16 | ((x as u16) << 8) | ((y as u16) << 4)) == 0x8,
        nib_x(0x5000u16 | ((x as u16) << 8) | ((y as u16) << 4)) == x,
        nib_x(0x9000u16 | ((x as u16) << 8) | ((y as u16) << 4)) == x,
        nib_x(0x8000u16 | ((x as u16) << 8) | ((y as u16) << 4)) == x,
        nib_x(0x8001u16 | ((x as u16) << 8) | ((y as u16) << 4)) == x,
        nib_x(0x8002u16 | ((x as u16) << 8) | ((y as u16) << 4)) == x,
        nib_x(0x8003u16 | ((x as u16) << 8) | ((y as u16) << 4)) == x,
        nib_x(0x8004u16 | ((x as u16) << 8) | ((y as u16) << 4)) == x,
        nib_x(0x8005u16 | ((x as u16) << 8) | ((y as u16) << 4)) == x,
        nib_x(0x8006u16 | ((x as u16) << 8) | ((y as u16) << 4)) == x,
        nib_x(0x8007u16 | ((x as u16) << 8) | ((y as u16) << 4)) == x,
        nib_x(0x800Eu16 | ((x as u16) << 8) | ((y as u16) << 4)) == x,
        nib_y(0x5000u16 | ((x as u16) << 8) | ((y as u16) << 4)) == y,
        nib_y(0x9000u16 | ((x as u16) << 8) | ((y as u16) << 4)) == y,
        nib_y(0x8000u16 | ((x as u16) << 8) | ((y as u16) << 4)) == y,
        nib_y(0x8001u16 | ((x as u16) << 8) | ((y as u16) << 4)) == y,
        nib_y(0x8002u16 | ((x as u16) << 8) | ((y as u16) << 4)) == y,
        nib_y(0x8003u16 | ((x as u16) << 8) | ((y as u16) << 4)) == y,
        nib_y(0x8004u16 | ((x as u16) << 8) | ((y as u16) << 4)) == y,
        nib_y(0x8005u16 | ((x as u16) << 8) | ((y as u16) << 4)) == y,
        nib_y(0x8006u16 | ((x as u16) << 8) | ((y as u16) << 4)) == y,
        nib_y(0x8007u16 | ((x as u16) << 8) | ((y as u16) << 4)) == y,
        nib_y(0x800Eu16 | ((x as u16) << 8) | ((y as u16) << 4)) == y,
        nib_z(0x5000u16 | ((x as u16) << 8) | ((y as u16) << 4)) == 0x0,
        nib_z(0x9000u16 | ((x as u16) << 8) | ((y as u16) << 4)) == 0x0,
        nib_z(0x8000u16 | ((x as u16) << 8) | ((y as u16) << 4)) == 0x0,
        nib_z(0x8001u16 | ((x as u16) << 8) | ((y as u16) << 4)) == 0x1,
        nib_z(0x8002u16 | ((x as u16) << 8) | ((y as u16) << 4)) == 0x2,
        nib_z(0x8003u16 | ((x as u16) << 8) | ((y as u16) << 4)) == 0x3,
        nib_z(0x8004u16 | ((x as u16) << 8) | ((y as u16) << 4)) == 0x4,
        nib_z(0x8005u16 | ((x as u16) << 8) | ((y as u16) << 4)) == 0x5,
        nib_z(0x8006u16 | ((x as u16) << 8) | ((y as u16) << 4)) == 0x6,
        nib_z(0x8007u16 | ((x as u16) << 8) | ((y as u16) << 4)) == 0x7,
        nib_z(0x800Eu16 | ((x as u16) << 8) | ((y as u16) << 4)) == 0xE,
{
}

/// Field extraction on an encoded single-register word from the skip and
/// timer opcode families.
proof fn lemma_bv_enc_x(x: u8)
    by (bit_vector)
    requires
        x < 16,
    ensures
        nib_a(0xE09Eu16 | ((x as u16) << 8)) == 0xE,
        nib_a(0xE0A1u16 | ((x as u16) << 8)) == 0xE,
        nib_a(0xF007u16 | ((x as u16) << 8)) == 0xF,
        nib_a(0xF00Au16 | ((x as u16) << 8)) == 0xF,
        nib_a(0xF015u16 | ((x as u16) << 8)) == 0xF,
        nib_a(0xF018u16 | ((x as u16) << 8)) == 0xF,
        nib_a(0xF01Eu16 | ((x as u16) << 8)) == 0xF,
        nib_a(0xF029u16 | ((x as u16) << 8)) == 0xF,
        nib_a(0xF033u16 | ((x as u16) << 8)) == 0xF,
        nib_a(0xF055u16 | ((x as u16) << 8)) == 0xF,
        nib_a(0xF065u16 | ((x as u16) << 8)) == 0xF,
        nib_x(0xE09Eu16 | ((x as u16) << 8)) == x,
        nib_x(0xE0A1u16 | ((x as u16) << 8)) == x,
        nib_x(0xF007u16 | ((x as u16) << 8)) == x,
        nib_x(0xF00Au16 | ((x as u16) << 8)) == x,
        nib_x(0xF015u16 | ((x as u16) << 8)) == x,
        nib_x(0xF018u16 | ((x as u16) << 8)) == x,
        nib_x(0xF01Eu16 | ((x as u16) << 8)) == x,
        nib_x(0xF029u16 | ((x as u16) << 8)) == x,
        nib_x(0xF033u16 | ((x as u16) << 8)) == x,
        nib_x(0xF055u16 | ((x as u16) << 8)) == x,
        nib_x(0xF065u16 | ((x as u16) << 8)) == x,
        low_byte(0xE09Eu16 | ((x as u16) << 8)) == 0x9E,
        low_byte(0xE0A1u16 | ((x as u16) << 8)) == 0xA1,
        low_byte(0xF007u16 | ((x as u16) << 8)) == 0x07,
        low_byte(0xF00Au16 | ((x as u16) << 8)) == 0x0A,
        low_byte(0xF015u16 | ((x as u16) << 8)) == 0x15,
        low_byte(0xF018u16 | ((x as u16) << 8)) == 0x18,
        low_byte(0xF01Eu16 | ((x as u16) << 8)) == 0x1E,
        low_byte(0xF029u16 | ((x as u16) << 8)) == 0x29,
        low_byte(0xF033u16 | ((x as u16) << 8)) == 0x33,
        low_byte(0xF055u16 | ((x as u16) << 8)) == 0x55,
        low_byte(0xF065u16 | ((x as u16) << 8)) == 0x65,
{
}

/// Field extraction on an encoded draw word.
proof fn lemma_bv_enc_drw(x: u8, y: u8, z: u8)
    by (bit_vector)
    requires
        x < 16,
        y < 16,
        z < 16,
    ensures
        nib_a(0xD000u16 | ((x as u16) << 8) | ((y as u16) << 4) | (z as u16)) == 0xD,
        nib_x(0xD000u16 | ((x as u16) << 8) | ((y as u16) << 4) | (z as u16)) == x,
        nib_y(0xD000u16 | ((x as u16) << 8) | ((y as u16) << 4) | (z as u16)) == y,
        nib_z(0xD000u16 | ((x as u16) << 8) | ((y as u16) << 4) | (z as u16)) == z,
{
}

/// Field extraction on the two fixed system words.
proof fn lemma_bv_enc_fixed()
    by (bit_vector)
    ensures
        nib_a(0x00E0u16) == 0x0 && low_addr(0x00E0u16) == 0x0E0,
        nib_a(0x00EEu16) == 0x0 && low_addr(0x00EEu16) == 0x0EE,
{
}

/// Decoding is a left inverse of encoding: every representable instruction
/// decodes back from its encoded word.
pub proof fn lemma_encode_decode(i: Instr)
    requires
        i.wf(),
    ensures
        Instr::spec_decode(i.spec_encode()) == Some(i),
{
    match i {
        Instr::CLS => {
            lemma_bv_enc_fixed();
        },
        Instr::RET => {
            lemma_bv_enc_fixed();
        },
        Instr::SYS(xyz) => {
            lemma_bv_enc_addr(xyz);
        },
        Instr::JP(xyz) => {
            lemma_bv_enc_addr(xyz);
        },
        Instr::CALL(xyz) => {
            lemma_bv_enc_addr(xyz);
        },
        Instr::JP_V0(xyz) => {
            lemma_bv_enc_addr(xyz);
        },
        Instr::LD_I_A(xyz) => {
            lemma_bv_enc_addr(xyz);
        },
        Instr::SE(x, yz) => {
            lemma_bv_enc_x_yz(x, yz);
        },
        Instr::SNE(x, yz) => {
            lemma_bv_enc_x_yz(x, yz);
        },
        Instr::LD_R_B(x, yz) => {
            lemma_bv_enc_x_yz(x, yz);
        },
        Instr::ADD_R_B(x, yz) => {
            lemma_bv_enc_x_yz(x, yz);
        },
        Instr::RND(x, yz) => {
            lemma_bv_enc_x_yz(x, yz);
        },
        Instr::SE_R(x, y) => {
            lemma_bv_enc_xy(x, y);
        },
        Instr::SNE_R(x, y) => {
            lemma_bv_enc_xy(x, y);
        },
        Instr::LD_R_R(x, y) => {
            lemma_bv_enc_xy(x, y);
        },
        Instr::OR(x, y) => {
            lemma_bv_enc_xy(x, y);
        },
        Instr::AND(x, y) => {
            lemma_bv_enc_xy(x, y);
        },
        Instr::XOR(x, y) => {
            lemma_bv_enc_xy(x, y);
        },
        Instr::ADD(x, y) => {
            lemma_bv_enc_xy(x, y);
        },
        Instr::SUB(x, y) => {
            lemma_bv_enc_xy(x, y);
        },
        Instr::SUBN(x, y) => {
            lemma_bv_enc_xy(x, y);
        },
        Instr::SHR(x, y) => {
            lemma_bv_enc_xy(x, y);
        },
        Instr::SHL(x, y) => {
            lemma_bv_enc_xy(x, y);
        },
        Instr::DRW(x, y, z) => {
            lemma_bv_enc_drw(x, y, z);
        },
        Instr::SKP(x) => {
            lemma_bv_enc_x(x);
        },
        Instr::SKNP(x) => {
            lemma_bv_enc_x(x);
        },
        Instr::LD_R_DT(x) => {
            lemma_bv_enc_x(x);
        },
        Instr::LD_R_K(x) => {
            lemma_bv_enc_x(x);
        },
        Instr::LD_DT_R(x) => {
            lemma_bv_enc_x(x);
        },
        Instr::LD_ST_R(x) => {
            lemma_bv_enc_x(x);
        },
        Instr::LD_F_R(x) => {
            lemma_bv_enc_x(x);
        },
        Instr::LD_B_R(x) => {
            lemma_bv_enc_x(x);
        },
        Instr::LD_II_R(x) => {
            lemma_bv_enc_x(x);
        },
        Instr::LD_R_II(x) => {
            lemma_bv_enc_x(x);
        },
        Instr::ADD_I_R(x) => {
            lemma_bv_enc_x(x);
        },
    }
}

/// Encoding is a left inverse of decoding: whenever a word decodes, the
/// decoded instruction is representable and re-encodes to the original word.
pub proof fn lemma_decode_encode(w: u16)
    ensures
        Instr::spec_decode(w) matches Some(i) ==> i.wf() && i.spec_encode() == w,
{
    lemma_bv_fields(w);
    lemma_bv_consts();
    let a = nib_a(w);
    let x = nib_x(w);
    let y = nib_y(w);
    let z = nib_z(w);
    let yz = low_byte(w);
    let xyz = low_addr(w);
    let xv = (x as u16) << 8;
    let yv = (y as u16) << 4;
    let zv = z as u16;
    let bv = yz as u16;
    lemma_bv_or_assoc((a as u16) << 12, xv, bv);
    lemma_bv_fold_low_byte(xv);
    lemma_bv_fold_nib(xv, yv);
    lemma_bv_fold_drw(xv, yv, zv);
}

} // verus!
