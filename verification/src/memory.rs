//! Fixed-size addressable memory: font loader, program loader, and
//! big-endian word reads.

use vstd::prelude::*;

use crate::instr::Instr;
use crate::instr::low_byte;

verus! {

/// Total memory size in bytes; valid addresses are 0x000..=0xFFF.
pub const MEMORY_SIZE: usize = 0x1000;

/// Bytes occupied by the built-in font: 16 glyphs of 5 bytes each.
pub const FONT_BYTES: usize = 80;

/// The interpreter's byte-addressable memory. Addresses 0x000–0x1FF are
/// reserved for the interpreter and font; programs conventionally load at
/// 0x200.
pub struct Memory {
    pub bytes: Vec<u8>,
}

/// The built-in hexadecimal digit font. Each glyph is 5 bytes, one byte per
/// pixel row, with the glyph in the high 4 bits; the glyph for digit `d`
/// starts at byte `5 * d`.
pub open spec fn font_seq() -> Seq<u8> {
    seq![
        0xF0u8, 0x90, 0x90, 0x90, 0xF0,
        0x20, 0x60, 0x20, 0x20, 0x70,
        0xF0, 0x10, 0xF0, 0x80, 0xF0,
        0xF0, 0x10, 0xF0, 0x10, 0xF0,
        0x90, 0x90, 0xF0, 0x10, 0x10,
        0xF0, 0x80, 0xF0, 0x10, 0xF0,
        0xF0, 0x80, 0xF0, 0x90, 0xF0,
        0xF0, 0x10, 0x20, 0x40, 0x40,
        0xF0, 0x90, 0xF0, 0x90, 0xF0,
        0xF0, 0x90, 0xF0, 0x10, 0xF0,
        0xF0, 0x90, 0xF0, 0x90, 0x90,
        0xE0, 0x90, 0xE0, 0x90, 0xE0,
        0xF0, 0x80, 0x80, 0x80, 0xF0,
        0xE0, 0x90, 0x90, 0x90, 0xE0,
        0xF0, 0x80, 0xF0, 0x80, 0xF0,
        0xF0, 0x80, 0xF0, 0x80, 0x80,
    ]
}

/// The big-endian 16-bit word formed by two consecutive memory bytes.
pub open spec fn word_at(mem: Seq<u8>, addr: int) -> u16 {
    ((mem[addr] as u16) << 8) | (mem[addr + 1] as u16)
}

/// High byte of a 16-bit word.
pub open spec fn high_byte(w: u16) -> u8 {
    (w >> 8) as u8
}

/// The font as an executable table.
fn font_table() -> (r: Vec<u8>)
    ensures
        r@ == font_seq(),
{
    let mut f: Vec<u8> = Vec::new();
    f.push(0xF0); f.push(0x90); f.push(0x90); f.push(0x90); f.push(0xF0);
    f.push(0x20); f.push(0x60); f.push(0x20); f.push(0x20); f.push(0x70);
    f.push(0xF0); f.push(0x10); f.push(0xF0); f.push(0x80); f.push(0xF0);
    f.push(0xF0); f.push(0x10); f.push(0xF0); f.push(0x10); f.push(0xF0);
    f.push(0x90); f.push(0x90); f.push(0xF0); f.push(0x10); f.push(0x10);
    f.push(0xF0); f.push(0x80); f.push(0xF0); f.push(0x10); f.push(0xF0);
    f.push(0xF0); f.push(0x80); f.push(0xF0); f.push(0x90); f.push(0xF0);
    f.push(0xF0); f.push(0x10); f.push(0x20); f.push(0x40); f.push(0x40);
    f.push(0xF0); f.push(0x90); f.push(0xF0); f.push(0x90); f.push(0xF0);
    f.push(0xF0); f.push(0x90); f.push(0xF0); f.push(0x10); f.push(0xF0);
    f.push(0xF0); f.push(0x90); f.push(0xF0); f.push(0x90); f.push(0x90);
    f.push(0xE0); f.push(0x90); f.push(0xE0); f.push(0x90); f.push(0xE0);
    f.push(0xF0); f.push(0x80); f.push(0x80); f.push(0x80); f.push(0xF0);
    f.push(0xE0); f.push(0x90); f.push(0x90); f.push(0x90); f.push(0xE0);
    f.push(0xF0); f.push(0x80); f.push(0xF0); f.push(0x80); f.push(0xF0);
    f.push(0xF0); f.push(0x80); f.push(0xF0); f.push(0x80); f.push(0x80);
    proof {
        assert(f@ =~= font_seq());
    }
    f
}

impl Memory {
    /// Memory is well-formed when it holds exactly `MEMORY_SIZE` bytes.
    pub open spec fn wf(&self) -> bool {
        self.bytes@.len() == MEMORY_SIZE
    }

    /// Fresh memory, zeroed.
    pub fn new() -> (r: Memory)
        ensures
            r.wf(),
            r.bytes@ == Seq::new(MEMORY_SIZE as nat, |i: int| 0u8),
    {
        Memory { bytes: vec![0u8; MEMORY_SIZE] }
    }

    /// Install the built-in font at the reserved low region; the rest of
    /// memory is untouched.
    pub fn load_font(&mut self)
        requires
            old(self).wf(),
        ensures
            final(self).wf(),
            final(self).bytes@ == font_seq() + old(self).bytes@.subrange(
                FONT_BYTES as int,
                MEMORY_SIZE as int,
            ),
    {
        let font = font_table();
        let mut k: usize = 0;
        while k < FONT_BYTES
            invariant
                k <= FONT_BYTES,
                self.bytes@.len() == MEMORY_SIZE,
                font@ == font_seq(),
                forall|j: int| 0 <= j < k ==> self.bytes@[j] == font_seq()[j],
                forall|j: int| k <= j < MEMORY_SIZE ==> self.bytes@[j] == old(self).bytes@[j],
            decreases FONT_BYTES - k,
        {
            self.bytes.set(k, font[k]);
            k = k + 1;
        }
        proof {
            assert(self.bytes@ =~= font_seq() + old(self).bytes@.subrange(
                FONT_BYTES as int,
                MEMORY_SIZE as int,
            ));
        }
    }

    /// Encode each instruction and write it big-endian at consecutive
    /// two-byte offsets starting at `addr`; the rest of memory is untouched.
    pub fn load_program(&mut self, addr: usize, program: &[Instr])
        requires
            old(self).wf(),
            addr + 2 * program@.len() <= MEMORY_SIZE,
        ensures
            final(self).wf(),
            forall|k: int|
                0 <= k < program@.len() ==> {
                    &&& final(self).bytes@[addr + 2 * k] == high_byte(
                        #[trigger] program@[k].spec_encode(),
                    )
                    &&& final(self).bytes@[addr + 2 * k + 1] == low_byte(program@[k].spec_encode())
                },
            forall|j: int|
                0 <= j < MEMORY_SIZE && !(addr <= j < addr + 2 * program@.len())
                    ==> final(self).bytes@[j] == old(self).bytes@[j],
    {
        let n = program.len();
        let mut i: usize = 0;
        while i < n
            invariant
                i <= n,
                n == program@.len(),
                addr + 2 * n <= MEMORY_SIZE,
                self.bytes@.len() == MEMORY_SIZE,
                forall|k: int|
                    0 <= k < i ==> {
                        &&& self.bytes@[addr + 2 * k] == high_byte(
                            #[trigger] program@[k].spec_encode(),
                        )
                        &&& self.bytes@[addr + 2 * k + 1] == low_byte(program@[k].spec_encode())
                    },
                forall|j: int|
                    0 <= j < MEMORY_SIZE && !(addr <= j < addr + 2 * i)
                        ==> self.bytes@[j] == old(self).bytes@[j],
            decreases n - i,
        {
            let b = program[i].to();
            self.bytes.set(addr + 2 * i, (b >> 8) as u8);
            self.bytes.set(addr + 2 * i + 1, (b & 0xFF) as u8);
            i = i + 1;
        }
    }

    /// Copy raw bytes (a ROM image) into memory starting at `addr`; the rest
    /// of memory is untouched.
    pub fn load_bytes(&mut self, addr: usize, data: &[u8])
        requires
            old(self).wf(),
            addr + data@.len() <= MEMORY_SIZE,
        ensures
            final(self).wf(),
            forall|k: int| 0 <= k < data@.len() ==> final(self).bytes@[addr + k] == data@[k],
            forall|j: int|
                0 <= j < MEMORY_SIZE && !(addr <= j < addr + data@.len())
                    ==> final(self).bytes@[j] == old(self).bytes@[j],
    {
        let n = data.len();
        let mut i: usize = 0;
        while i < n
            invariant
                i <= n,
                n == data@.len(),
                addr + n <= MEMORY_SIZE,
                self.bytes@.len() == MEMORY_SIZE,
                forall|k: int| 0 <= k < i ==> self.bytes@[addr + k] == data@[k],
                forall|j: int|
                    0 <= j < MEMORY_SIZE && !(addr <= j < addr + i)
                        ==> self.bytes@[j] == old(self).bytes@[j],
            decreases n - i,
        {
            self.bytes.set(addr + i, data[i]);
            i = i + 1;
        }
    }

    /// Read two consecutive bytes as a big-endian 16-bit word.
    pub fn u16_at(&self, addr: usize) -> (r: u16)
        requires
            self.wf(),
            addr + 1 < MEMORY_SIZE,
        ensures
            r == word_at(self.bytes@, addr as int),
    {
        ((self.bytes[addr] as u16) << 8) | (self.bytes[addr + 1] as u16)
    }
}

} // verus!
