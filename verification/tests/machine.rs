//! End-to-end tests for the machine: programs run to the 0xFFF sentinel,
//! arithmetic flags, drawing, timers, keypad waits, and every error variant.

use chiprs::chip::Chip;
use chiprs::chip::ChipError;
use chiprs::instr::Instr::{
    ADD, CALL, CLS, DRW, JP, LD_B_R, LD_DT_R, LD_F_R, LD_II_R, LD_I_A, LD_R_B, LD_R_DT, LD_R_II,
    LD_R_K, LD_R_R, RET, RND, SKP, SNE, SUB,
};

const FUEL: usize = 1_000_000;

#[test]
fn test_fib() {
    let mut chip = Chip::new();

    // Calc Fibonacci
    chip.memory.load_program(
        0x200,
        &[
            LD_R_B(0, 7),
            LD_R_B(1, 1),
            LD_R_B(2, 0),
            // loop:
            // finish if V0 == 0
            SNE(0, 0),
            JP(0xFFF),
            // V1, V2 = V1 + V2, V1
            LD_R_R(3, 1),
            ADD(1, 2),
            LD_R_R(2, 3),
            // decrement V0
            LD_R_B(3, 1),
            SUB(0, 3),
            // jump to loop
            JP(0x200 + 6),
        ],
    );

    chip.run_program(0x200, FUEL).unwrap();
    assert_eq!(chip.v[1], 21);
    assert_eq!(chip.v[2], 13);
}

#[test]
fn test_sprites() {
    let mut chip = Chip::new();
    chip.memory.load_font();

    chip.memory.load_program(
        0x200,
        &[
            LD_R_B(0, 3),
            LD_R_B(1, 10),
            LD_R_B(2, 0xA),
            LD_F_R(2),
            DRW(0, 1, 5),
            LD_R_B(0, 8),
            LD_R_B(1, 10),
            LD_R_B(2, 0x7),
            LD_F_R(2),
            DRW(0, 1, 5),
            JP(0xFFF),
        ],
    );

    chip.run_program(0x200, FUEL).unwrap();
    assert_eq!(chip.display.at(3, 10), true);
    assert_eq!(chip.display.at(4, 11), false);
}

#[test]
fn test_add_carry() {
    let mut chip = Chip::new();
    chip.memory.load_program(
        0x200,
        &[LD_R_B(0, 0xFF), LD_R_B(1, 0x01), ADD(0, 1), JP(0xFFF)],
    );
    chip.run_program(0x200, FUEL).unwrap();
    assert_eq!(chip.v[0], 0x00);
    assert_eq!(chip.v[0xF], 1);

    // No carry: VF is overwritten with 0.
    let mut chip = Chip::new();
    chip.memory.load_program(
        0x200,
        &[LD_R_B(0, 0x10), LD_R_B(1, 0x01), ADD(0, 1), JP(0xFFF)],
    );
    chip.run_program(0x200, FUEL).unwrap();
    assert_eq!(chip.v[0], 0x11);
    assert_eq!(chip.v[0xF], 0);
}

#[test]
fn test_sub_borrow() {
    let mut chip = Chip::new();
    chip.memory.load_program(
        0x200,
        &[LD_R_B(0, 0x01), LD_R_B(1, 0x02), SUB(0, 1), JP(0xFFF)],
    );
    chip.run_program(0x200, FUEL).unwrap();
    assert_eq!(chip.v[0], 0xFF);
    // A borrow occurred, so VF holds 0.
    assert_eq!(chip.v[0xF], 0);

    let mut chip = Chip::new();
    chip.memory.load_program(
        0x200,
        &[LD_R_B(0, 0x05), LD_R_B(1, 0x02), SUB(0, 1), JP(0xFFF)],
    );
    chip.run_program(0x200, FUEL).unwrap();
    assert_eq!(chip.v[0], 0x03);
    assert_eq!(chip.v[0xF], 1);
}

#[test]
fn test_font_glyph_a() {
    // LD_F_R with VX = 0xA followed by DRW renders the canonical "A" glyph:
    // rows 0xF0, 0x90, 0xF0, 0x90, 0x90 with bit 7 leftmost.
    let mut chip = Chip::new();
    chip.memory.load_font();
    chip.memory.load_program(
        0x200,
        &[
            LD_R_B(0, 0),
            LD_R_B(1, 0),
            LD_R_B(2, 0xA),
            LD_F_R(2),
            DRW(0, 1, 5),
            JP(0xFFF),
        ],
    );
    chip.run_program(0x200, FUEL).unwrap();

    let rows: Vec<u8> = vec![0xF0, 0x90, 0xF0, 0x90, 0x90];
    for (y, row) in rows.iter().enumerate() {
        for x in 0..8 {
            let expected = (row >> (7 - x)) & 1 == 1;
            assert_eq!(
                chip.display.at(x, y),
                expected,
                "glyph A pixel at ({}, {})",
                x,
                y
            );
        }
    }
}

#[test]
fn test_keypad_wait() {
    let mut chip = Chip::new();
    chip.memory.load_program(0x200, &[LD_R_K(3), LD_R_B(4, 9), JP(0xFFF)]);
    chip.jump(0x200);

    // Executing LD_R_K advances PC once and sets the wait marker.
    chip.step().unwrap();
    assert_eq!(chip.pc, 0x202);
    assert_eq!(chip.key_wait_reg, Some(3));

    // While waiting, step is a no-op that succeeds without moving PC.
    chip.step().unwrap();
    chip.step().unwrap();
    assert_eq!(chip.pc, 0x202);

    // A key press resolves the wait: the key lands in V3.
    chip.key_down(0x7);
    assert_eq!(chip.v[3], 0x7);
    assert_eq!(chip.key_wait_reg, None);

    // The next step resumes normal advancement.
    chip.step().unwrap();
    assert_eq!(chip.pc, 0x204);
    assert_eq!(chip.v[4], 9);
}

#[test]
fn test_keypad_wait_edge_triggered() {
    let mut chip = Chip::new();
    chip.memory.load_program(0x200, &[LD_R_K(3), JP(0xFFF)]);
    chip.jump(0x200);
    chip.key_down(0x7);

    chip.step().unwrap();
    assert_eq!(chip.key_wait_reg, Some(3));

    // The key is already held: pressing it again does not resolve the wait.
    chip.key_down(0x7);
    assert_eq!(chip.key_wait_reg, Some(3));

    // After a release, a fresh press does.
    chip.key_up(0x7);
    chip.key_down(0x7);
    assert_eq!(chip.key_wait_reg, None);
    assert_eq!(chip.v[3], 0x7);
}

#[test]
fn test_skp_and_keys() {
    let mut chip = Chip::new();
    chip.memory.load_program(0x200, &[LD_R_B(0, 0x4), SKP(0), LD_R_B(1, 1), JP(0xFFF)]);
    chip.key_down(0x4);
    chip.run_program(0x200, FUEL).unwrap();
    // Key 4 was held, so the LD_R_B(1, 1) was skipped.
    assert_eq!(chip.v[1], 0);

    let mut chip = Chip::new();
    chip.memory.load_program(0x200, &[LD_R_B(0, 0x4), SKP(0), LD_R_B(1, 1), JP(0xFFF)]);
    chip.run_program(0x200, FUEL).unwrap();
    assert_eq!(chip.v[1], 1);
}

#[test]
fn test_bcd() {
    let mut chip = Chip::new();
    chip.memory.load_program(
        0x200,
        &[LD_R_B(0, 234), LD_I_A(0x300), LD_B_R(0), JP(0xFFF)],
    );
    chip.run_program(0x200, FUEL).unwrap();
    assert_eq!(chip.memory.bytes[0x300], 2);
    assert_eq!(chip.memory.bytes[0x301], 3);
    assert_eq!(chip.memory.bytes[0x302], 4);
}

#[test]
fn test_register_block_store_load() {
    let mut chip = Chip::new();
    chip.memory.load_program(
        0x200,
        &[
            LD_R_B(0, 11),
            LD_R_B(1, 22),
            LD_R_B(2, 33),
            LD_I_A(0x300),
            LD_II_R(2),
            LD_R_B(0, 0),
            LD_R_B(1, 0),
            LD_R_B(2, 0),
            LD_R_II(2),
            JP(0xFFF),
        ],
    );
    chip.run_program(0x200, FUEL).unwrap();
    assert_eq!(chip.memory.bytes[0x300], 11);
    assert_eq!(chip.memory.bytes[0x301], 22);
    assert_eq!(chip.memory.bytes[0x302], 33);
    assert_eq!(chip.v[0], 11);
    assert_eq!(chip.v[1], 22);
    assert_eq!(chip.v[2], 33);
}

#[test]
fn test_tick_counts_delay_down() {
    let mut chip = Chip::new();
    chip.memory
        .load_program(0x200, &[LD_R_B(0, 3), LD_DT_R(0), LD_R_DT(5), JP(0xFFF)]);
    chip.run_program(0x200, FUEL).unwrap();
    assert_eq!(chip.v[5], 3);
    assert_eq!(chip.dt, 3);
    chip.tick();
    assert_eq!(chip.dt, 2);
    chip.tick();
    chip.tick();
    assert_eq!(chip.dt, 0);
    // The delay timer stops at zero.
    chip.tick();
    assert_eq!(chip.dt, 0);
}

#[test]
fn test_rnd_masks() {
    // Whatever byte the random source produced, the immediate mask holds.
    for _ in 0..32 {
        let mut chip = Chip::new();
        chip.memory
            .load_program(0x200, &[RND(0, 0x0F), JP(0xFFF)]);
        chip.run_program(0x200, FUEL).unwrap();
        assert_eq!(chip.v[0] & 0xF0, 0);
    }
}

#[test]
fn test_cls_clears() {
    let mut chip = Chip::new();
    chip.memory.load_font();
    chip.memory.load_program(
        0x200,
        &[LD_R_B(2, 0x8), LD_F_R(2), DRW(0, 1, 5), CLS, JP(0xFFF)],
    );
    chip.run_program(0x200, FUEL).unwrap();
    for x in 0..64 {
        for y in 0..32 {
            assert_eq!(chip.display.at(x, y), false);
        }
    }
}

#[test]
fn test_error_stack_underflow() {
    let mut chip = Chip::new();
    chip.memory.load_program(0x200, &[RET]);
    chip.jump(0x200);
    assert_eq!(chip.step(), Err(ChipError::StackUnderflow));
}

#[test]
fn test_error_stack_overflow() {
    let mut chip = Chip::new();
    // CALL to itself: pushes a return address every step until the stack
    // is full after 16 calls; the 17th fails.
    chip.memory.load_program(0x200, &[CALL(0x200)]);
    chip.jump(0x200);
    for _ in 0..16 {
        chip.step().unwrap();
    }
    assert_eq!(chip.sp, 16);
    assert_eq!(chip.step(), Err(ChipError::StackOverflow));
}

#[test]
fn test_error_decode_failure() {
    let mut chip = Chip::new();
    chip.memory.load_bytes(0x200, &[0x51, 0x21]);
    chip.jump(0x200);
    assert_eq!(chip.step(), Err(ChipError::DecodeFailure(0x5121)));
}

#[test]
fn test_error_pc_out_of_bounds() {
    let mut chip = Chip::new();
    chip.jump(0xFFF);
    assert_eq!(chip.step(), Err(ChipError::OutOfBounds));
}

#[test]
fn test_error_bcd_out_of_bounds() {
    let mut chip = Chip::new();
    chip.memory
        .load_program(0x200, &[LD_I_A(0xFFE), LD_B_R(0)]);
    chip.jump(0x200);
    chip.step().unwrap();
    assert_eq!(chip.step(), Err(ChipError::OutOfBounds));
}

#[test]
fn test_error_invalid_key_index() {
    let mut chip = Chip::new();
    chip.memory
        .load_program(0x200, &[LD_R_B(0, 20), SKP(0)]);
    chip.jump(0x200);
    chip.step().unwrap();
    assert_eq!(chip.step(), Err(ChipError::InvalidKeyIndex(20)));
}

#[test]
fn test_run_program_stops_on_error() {
    let mut chip = Chip::new();
    chip.memory.load_program(0x200, &[RET]);
    assert_eq!(chip.run_program(0x200, FUEL), Err(ChipError::StackUnderflow));
}
