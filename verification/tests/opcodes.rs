//! Opcode-level tests: one exact expected value for each arithmetic and
//! control-flow formula.

use chiprs::chip::Chip;
use chiprs::instr::Instr;
use chiprs::instr::Instr::{
    ADD_I_R, AND, CALL, DRW, JP, JP_V0, LD_F_R, LD_I_A, LD_R_B, LD_R_R, OR, RET, SE, SE_R, SHL,
    SHR, SNE, SNE_R, SUBN, XOR,
};

const FUEL: usize = 1_000_000;

fn run(program: &[Instr]) -> Chip {
    let mut chip = Chip::new();
    chip.memory.load_program(0x200, program);
    chip.run_program(0x200, FUEL).unwrap();
    chip
}

#[test]
fn test_shr_shifts_out_low_bit() {
    let chip = run(&[LD_R_B(0, 0xB5), SHR(0, 1), JP(0xFFF)]);
    assert_eq!(chip.v[0], 0x5A);
    assert_eq!(chip.v[0xF], 1);

    let chip = run(&[LD_R_B(0, 0xB4), SHR(0, 1), JP(0xFFF)]);
    assert_eq!(chip.v[0], 0x5A);
    assert_eq!(chip.v[0xF], 0);
}

#[test]
fn test_shl_shifts_out_high_bit() {
    let chip = run(&[LD_R_B(0, 0xB5), SHL(0, 1), JP(0xFFF)]);
    assert_eq!(chip.v[0], 0x6A);
    assert_eq!(chip.v[0xF], 1);

    let chip = run(&[LD_R_B(0, 0x35), SHL(0, 1), JP(0xFFF)]);
    assert_eq!(chip.v[0], 0x6A);
    assert_eq!(chip.v[0xF], 0);
}

#[test]
fn test_bitwise_ops() {
    let chip = run(&[LD_R_B(0, 0xCC), LD_R_B(1, 0xAA), OR(0, 1), JP(0xFFF)]);
    assert_eq!(chip.v[0], 0xEE);
    let chip = run(&[LD_R_B(0, 0xCC), LD_R_B(1, 0xAA), AND(0, 1), JP(0xFFF)]);
    assert_eq!(chip.v[0], 0x88);
    let chip = run(&[LD_R_B(0, 0xCC), LD_R_B(1, 0xAA), XOR(0, 1), JP(0xFFF)]);
    assert_eq!(chip.v[0], 0x66);
}

#[test]
fn test_subn_borrow() {
    // SUBN computes VY - VX into VX; VF = 1 means no borrow.
    let chip = run(&[LD_R_B(0, 2), LD_R_B(1, 5), SUBN(0, 1), JP(0xFFF)]);
    assert_eq!(chip.v[0], 3);
    assert_eq!(chip.v[0xF], 1);

    let chip = run(&[LD_R_B(0, 5), LD_R_B(1, 2), SUBN(0, 1), JP(0xFFF)]);
    assert_eq!(chip.v[0], 0xFD);
    assert_eq!(chip.v[0xF], 0);
}

#[test]
fn test_conditional_skips() {
    // SE skips when equal.
    let chip = run(&[LD_R_B(0, 7), SE(0, 7), LD_R_B(1, 1), JP(0xFFF)]);
    assert_eq!(chip.v[1], 0);
    let chip = run(&[LD_R_B(0, 7), SE(0, 8), LD_R_B(1, 1), JP(0xFFF)]);
    assert_eq!(chip.v[1], 1);

    // SNE skips when different.
    let chip = run(&[LD_R_B(0, 7), SNE(0, 8), LD_R_B(1, 1), JP(0xFFF)]);
    assert_eq!(chip.v[1], 0);

    // Register-register variants.
    let chip = run(&[LD_R_B(0, 7), LD_R_R(2, 0), SE_R(0, 2), LD_R_B(1, 1), JP(0xFFF)]);
    assert_eq!(chip.v[1], 0);
    let chip = run(&[LD_R_B(0, 7), LD_R_B(2, 9), SNE_R(0, 2), LD_R_B(1, 1), JP(0xFFF)]);
    assert_eq!(chip.v[1], 0);
}

#[test]
fn test_jp_v0_offsets_jump() {
    // JP_V0 jumps to the address plus V0: 0x204 + 4 lands on the
    // instruction at 0x208.
    let chip = run(&[
        LD_R_B(0, 4),
        JP_V0(0x204),
        LD_R_B(1, 1),
        JP(0xFFF),
        LD_R_B(2, 2),
        JP(0xFFF),
    ]);
    assert_eq!(chip.v[1], 0);
    assert_eq!(chip.v[2], 2);
}

#[test]
fn test_call_ret() {
    let chip = run(&[
        CALL(0x206),
        LD_R_B(1, 1),
        JP(0xFFF),
        LD_R_B(2, 2),
        RET,
    ]);
    // The subroutine ran, then RET resumed right after the CALL.
    assert_eq!(chip.v[2], 2);
    assert_eq!(chip.v[1], 1);
    assert_eq!(chip.sp, 0);
}

#[test]
fn test_ld_f_r_addresses_glyph() {
    let chip = run(&[LD_R_B(0, 0xA), LD_F_R(0), JP(0xFFF)]);
    assert_eq!(chip.i, 0xA * 5);
}

#[test]
fn test_add_i_r_wraps() {
    let chip = run(&[LD_R_B(0, 0x10), LD_I_A(0xFFF), ADD_I_R(0), JP(0xFFF)]);
    // I is a full 16-bit register: 0xFFF + 0x10 does not wrap.
    assert_eq!(chip.i, 0x100F);
}

#[test]
fn test_drw_empty_sprite() {
    let chip = run(&[LD_I_A(0x300), DRW(0, 0, 0), JP(0xFFF)]);
    assert_eq!(chip.v[0xF], 0);
    for x in 0..64 {
        for y in 0..32 {
            assert_eq!(chip.display.at(x, y), false);
        }
    }
}

#[test]
fn test_sys_is_a_no_op() {
    let mut chip = Chip::new();
    chip.memory.load_bytes(0x200, &[0x03, 0x21]);
    chip.jump(0x200);
    chip.step().unwrap();
    assert_eq!(chip.pc, 0x202);
    assert_eq!(chip.v, Chip::new().v);
}
