//! Tests for the instruction codec: decoding, encoding, and the round trip
//! over every 16-bit word.

use chiprs::instr::Instr;
use chiprs::instr::Instr::{
    ADD, ADD_I_R, ADD_R_B, AND, CALL, CLS, DRW, JP, JP_V0, LD_B_R, LD_DT_R, LD_F_R, LD_II_R,
    LD_I_A, LD_R_B, LD_R_DT, LD_R_II, LD_R_K, LD_R_R, LD_ST_R, OR, RET, RND, SE, SE_R, SHL, SHR,
    SKNP, SKP, SNE, SNE_R, SUB, SUBN, SYS, XOR,
};

fn legal_pairs() -> Vec<(u16, Instr)> {
    vec![
        (0x00E0, CLS),
        (0x00EE, RET),
        (0x0123, SYS(0x123)),
        (0x1123, JP(0x123)),
        (0x2123, CALL(0x123)),
        (0x3123, SE(0x1, 0x23)),
        (0x4123, SNE(0x1, 0x23)),
        (0x5120, SE_R(0x1, 0x2)),
        (0x6123, LD_R_B(0x1, 0x23)),
        (0x7123, ADD_R_B(0x1, 0x23)),
        (0x8120, LD_R_R(0x1, 0x2)),
        (0x8121, OR(0x1, 0x2)),
        (0x8122, AND(0x1, 0x2)),
        (0x8123, XOR(0x1, 0x2)),
        (0x8124, ADD(0x1, 0x2)),
        (0x8125, SUB(0x1, 0x2)),
        (0x8126, SHR(0x1, 0x2)),
        (0x8127, SUBN(0x1, 0x2)),
        (0x812E, SHL(0x1, 0x2)),
        (0x9120, SNE_R(0x1, 0x2)),
        (0xA123, LD_I_A(0x123)),
        (0xB123, JP_V0(0x123)),
        (0xC123, RND(0x1, 0x23)),
        (0xD123, DRW(0x1, 0x2, 0x3)),
        (0xE19E, SKP(0x1)),
        (0xE1A1, SKNP(0x1)),
        (0xF107, LD_R_DT(0x1)),
        (0xF10A, LD_R_K(0x1)),
        (0xF115, LD_DT_R(0x1)),
        (0xF118, LD_ST_R(0x1)),
        (0xF11E, ADD_I_R(0x1)),
        (0xF129, LD_F_R(0x1)),
        (0xF133, LD_B_R(0x1)),
        (0xF155, LD_II_R(0x1)),
        (0xF165, LD_R_II(0x1)),
    ]
}

fn illegal_words() -> Vec<u16> {
    vec![0x5121, 0x812A, 0x9121, 0xE100, 0xF100]
}

#[test]
fn test_from() {
    for (b, i) in legal_pairs().iter() {
        assert_eq!(Instr::from(*b), Some(*i), "{:04X} should parse to {:?}", *b, *i);
    }

    for b in illegal_words().iter() {
        assert_eq!(Instr::from(*b), None, "{:04X} should not parse", *b);
    }
}

#[test]
fn test_to() {
    for (b, i) in legal_pairs().iter() {
        assert_eq!(i.to(), *b, "{:?} should generate {:04X}", *i, *b);
    }
}

#[test]
fn test_all() {
    for b in 0x0000..=0xFFFF {
        if let Some(i) = Instr::from(b) {
            assert_eq!(i.to(), b, "{:?} should generate back {:04X}", i, b)
        }
    }
}

#[test]
fn instr_test_from() {
    for (b, i) in legal_pairs().iter() {
        assert_eq!(Instr::from(*b), Some(*i), "{:04x} should parse", *b);
    }

    for b in illegal_words().iter() {
        assert_eq!(Instr::from(*b), None, "{:04x} should not parse", *b);
    }
}

#[test]
fn test_round_trip_random_operands() {
    // Every representable instruction comes back from its encoding; spot
    // checks across the operand space.
    for x in 0..16u8 {
        for yz in [0x00u8, 0x01, 0x7F, 0x80, 0xFF] {
            let cases = vec![
                SE(x, yz),
                SNE(x, yz),
                LD_R_B(x, yz),
                ADD_R_B(x, yz),
                RND(x, yz),
            ];
            for i in cases {
                assert_eq!(Instr::from(i.to()), Some(i));
            }
        }
        for y in 0..16u8 {
            let cases = vec![
                SE_R(x, y),
                SNE_R(x, y),
                LD_R_R(x, y),
                OR(x, y),
                AND(x, y),
                XOR(x, y),
                ADD(x, y),
                SUB(x, y),
                SUBN(x, y),
                SHR(x, y),
                SHL(x, y),
                DRW(x, y, 5),
            ];
            for i in cases {
                assert_eq!(Instr::from(i.to()), Some(i));
            }
        }
    }
}
