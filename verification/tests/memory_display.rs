//! Tests for memory loading, big-endian word reads, the built-in font, and
//! the display's XOR blit with wraparound and collision.

use chiprs::display::Display;
use chiprs::instr::Instr::JP;
use chiprs::memory::Memory;

#[test]
fn test_u16_at_big_endian() {
    let mut m = Memory::new();
    m.load_bytes(0x200, &[0x12, 0x34]);
    assert_eq!(m.u16_at(0x200), 0x1234);
    assert_eq!(m.bytes[0x200], 0x12);
    assert_eq!(m.bytes[0x201], 0x34);
}

#[test]
fn test_load_program_writes_big_endian_words() {
    let mut m = Memory::new();
    m.load_program(0x200, &[JP(0x123), JP(0x456)]);
    assert_eq!(m.u16_at(0x200), 0x1123);
    assert_eq!(m.u16_at(0x202), 0x1456);
    // Untouched memory stays zero.
    assert_eq!(m.bytes[0x204], 0);
}

#[test]
fn test_font_layout() {
    let mut m = Memory::new();
    m.load_font();
    // The glyph for digit d starts at 5 * d; glyph 0 is a box, glyph F is
    // four rows starting 0xF0, 0x80, 0xF0, 0x80, 0x80.
    let zero: Vec<u8> = vec![0xF0, 0x90, 0x90, 0x90, 0xF0];
    let a: Vec<u8> = vec![0xF0, 0x90, 0xF0, 0x90, 0x90];
    let f: Vec<u8> = vec![0xF0, 0x80, 0xF0, 0x80, 0x80];
    for k in 0..5 {
        assert_eq!(m.bytes[k], zero[k]);
        assert_eq!(m.bytes[5 * 0xA + k], a[k]);
        assert_eq!(m.bytes[5 * 0xF + k], f[k]);
    }
    // The rest of memory is untouched.
    assert_eq!(m.bytes[80], 0);
}

#[test]
fn test_draw_sets_pixels_and_reports_no_collision_on_blank() {
    let mut d = Display::new();
    let collision = d.draw(2, 3, &[0b1010_0001]);
    assert_eq!(collision, false);
    assert_eq!(d.at(2, 3), true);
    assert_eq!(d.at(3, 3), false);
    assert_eq!(d.at(4, 3), true);
    assert_eq!(d.at(9, 3), true);
    assert_eq!(d.at(2, 4), false);
}

#[test]
fn test_draw_twice_toggles_off_and_collides() {
    let mut d = Display::new();
    let sprite: Vec<u8> = vec![0xF0, 0x90, 0xF0];
    let first = d.draw(10, 5, &sprite);
    assert_eq!(first, false);
    let second = d.draw(10, 5, &sprite);
    // The second draw turned already-set pixels off: collision.
    assert_eq!(second, true);
    for x in 0..64 {
        for y in 0..32 {
            assert_eq!(d.at(x, y), false, "pixel ({}, {}) should be off", x, y);
        }
    }
}

#[test]
fn test_draw_wraps_around() {
    let mut d = Display::new();
    // 8 pixels starting at column 60 wrap to columns 60..63 and 0..3;
    // row 31 + 1 wraps to row 0.
    d.draw(60, 31, &[0xFF, 0xFF]);
    assert_eq!(d.at(60, 31), true);
    assert_eq!(d.at(63, 31), true);
    assert_eq!(d.at(0, 31), true);
    assert_eq!(d.at(3, 31), true);
    assert_eq!(d.at(60, 0), true);
    assert_eq!(d.at(0, 0), true);
    assert_eq!(d.at(4, 31), false);
    assert_eq!(d.at(0, 1), false);
}

#[test]
fn test_collision_only_where_overlap() {
    let mut d = Display::new();
    d.draw(0, 0, &[0b1000_0000]);
    // Disjoint second sprite: no collision.
    assert_eq!(d.draw(8, 0, &[0b1000_0000]), false);
    // Overlapping third sprite: collision, and the shared pixel goes off.
    assert_eq!(d.draw(0, 0, &[0b1100_0000]), true);
    assert_eq!(d.at(0, 0), false);
    assert_eq!(d.at(1, 0), true);
}

#[test]
fn test_clear() {
    let mut d = Display::new();
    d.draw(5, 5, &[0xFF]);
    d.clear();
    for x in 0..64 {
        for y in 0..32 {
            assert_eq!(d.at(x, y), false);
        }
    }
}
