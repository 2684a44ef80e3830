//! Byte-addressable memory: a fixed font table, a reserved interpreter region,
//! and the loaded program, with byte/word reads, byte writes and range reads.

use vstd::prelude::*;

verus! {

/// Offset at which the loaded program begins; everything below it is reserved
/// for the interpreter (the font table and scratch space).
pub const PROGRAM_START: usize = 512;

/// Number of bytes occupied by the built-in font table: sixteen glyphs of five
/// bytes each.
pub const FONT_BYTES: usize = 80;

/// The sixteen built-in 5-byte glyph sprites for the hexadecimal digits 0-F,
/// in digit order.
pub open spec fn font_data() -> Seq<u8> {
    seq![
        0xF0u8, 0x90, 0x90, 0x90, 0xF0, // 0
        0x20, 0x60, 0x20, 0x20, 0x70, // 1
        0xF0, 0x10, 0xF0, 0x80, 0xF0, // 2
        0xF0, 0x10, 0xF0, 0x10, 0xF0, // 3
        0x90, 0x90, 0xF0, 0x10, 0x10, // 4
        0xF0, 0x80, 0xF0, 0x10, 0xF0, // 5
        0xF0, 0x80, 0xF0, 0x90, 0xF0, // 6
        0xF0, 0x10, 0x20, 0x40, 0x40, // 7
        0xF0, 0x90, 0xF0, 0x90, 0xF0, // 8
        0xF0, 0x90, 0xF0, 0x10, 0xF0, // 9
        0xF0, 0x90, 0xF0, 0x90, 0x90, // A
        0xE0, 0x90, 0xE0, 0x90, 0xE0, // B
        0xF0, 0x80, 0x80, 0x80, 0xF0, // C
        0xE0, 0x90, 0x90, 0x90, 0xE0, // D
        0xF0, 0x80, 0xF0, 0x80, 0xF0, // E
        0xF0, 0x80, 0xF0, 0x80, 0x80, // F
    ]
}

/// The contents of a freshly built memory: the font table, zeroed reserved
/// space up to the program offset, then the program bytes.
pub open spec fn initial_memory(program: Seq<u8>) -> Seq<u8> {
    font_data() + Seq::new((PROGRAM_START - FONT_BYTES) as nat, |i: int| 0u8) + program
}

/// The 16-bit instruction word stored at address `a`: two consecutive bytes,
/// most-significant byte first.
pub open spec fn word_at(mem: Seq<u8>, a: int) -> u16 {
    (mem[a] * 256 + mem[a + 1]) as u16
}

/// A contiguous byte-addressable store, fixed in size once built.
pub struct Memory {
    buffer: Vec<u8>,
}

impl View for Memory {
    type V = Seq<u8>;

    closed spec fn view(&self) -> Seq<u8> {
        self.buffer@
    }
}

/// Builds the font table as executable data.
fn font_vec() -> (v: Vec<u8>)
    ensures
        v@ == font_data(),
{
    let mut v: Vec<u8> = Vec::new();
    v.push(0xF0); v.push(0x90); v.push(0x90); v.push(0x90); v.push(0xF0); // 0
    v.push(0x20); v.push(0x60); v.push(0x20); v.push(0x20); v.push(0x70); // 1
    v.push(0xF0); v.push(0x10); v.push(0xF0); v.push(0x80); v.push(0xF0); // 2
    v.push(0xF0); v.push(0x10); v.push(0xF0); v.push(0x10); v.push(0xF0); // 3
    v.push(0x90); v.push(0x90); v.push(0xF0); v.push(0x10); v.push(0x10); // 4
    v.push(0xF0); v.push(0x80); v.push(0xF0); v.push(0x10); v.push(0xF0); // 5
    v.push(0xF0); v.push(0x80); v.push(0xF0); v.push(0x90); v.push(0xF0); // 6
    v.push(0xF0); v.push(0x10); v.push(0x20); v.push(0x40); v.push(0x40); // 7
    v.push(0xF0); v.push(0x90); v.push(0xF0); v.push(0x90); v.push(0xF0); // 8
    v.push(0xF0); v.push(0x90); v.push(0xF0); v.push(0x10); v.push(0xF0); // 9
    v.push(0xF0); v.push(0x90); v.push(0xF0); v.push(0x90); v.push(0x90); // A
    v.push(0xE0); v.push(0x90); v.push(0xE0); v.push(0x90); v.push(0xE0); // B
    v.push(0xF0); v.push(0x80); v.push(0x80); v.push(0x80); v.push(0xF0); // C
    v.push(0xE0); v.push(0x90); v.push(0x90); v.push(0x90); v.push(0xE0); // D
    v.push(0xF0); v.push(0x80); v.push(0xF0); v.push(0x80); v.push(0xF0); // E
    v.push(0xF0); v.push(0x80); v.push(0xF0); v.push(0x80); v.push(0x80); // F
    proof {
        assert(v@ =~= font_data());
    }
    v
}

impl Memory {
    /// Builds the memory: the font table at offset 0, zeroes up to the program
    /// offset, then the program bytes as given.
    pub fn new(program: &[u8]) -> (m: Memory)
        ensures
            m@ == initial_memory(program@),
            m@.len() == PROGRAM_START + program@.len(),
    {
        let mut buffer = font_vec();
        while buffer.len() < PROGRAM_START
            invariant
                FONT_BYTES <= buffer@.len() <= PROGRAM_START,
                buffer@ == font_data() + Seq::new((buffer@.len() - FONT_BYTES) as nat, |i: int| 0u8),
            decreases PROGRAM_START - buffer@.len(),
        {
            buffer.push(0);
            proof {
                assert(buffer@ =~= font_data()
                    + Seq::new((buffer@.len() - FONT_BYTES) as nat, |i: int| 0u8));
            }
        }
        let mut j: usize = 0;
        while j < program.len()
            invariant
                j <= program@.len(),
                buffer@.len() == PROGRAM_START + j,
                buffer@ == font_data()
                    + Seq::new((PROGRAM_START - FONT_BYTES) as nat, |i: int| 0u8)
                    + program@.subrange(0, j as int),
            decreases program@.len() - j,
        {
            let b = program[j];
            buffer.push(b);
            proof {
                assert(buffer@ =~= font_data()
                    + Seq::new((PROGRAM_START - FONT_BYTES) as nat, |i: int| 0u8)
                    + program@.subrange(0, j + 1));
            }
            j = j + 1;
        }
        proof {
            assert(program@.subrange(0, program@.len() as int) =~= program@);
        }
        Memory { buffer }
    }

    /// The fixed offset of the glyph sprite for hexadecimal digit `font`
    /// within the reserved font region.
    pub fn get_font_adress(&self, font: u8) -> (r: usize)
        requires
            font < 16,
        ensures
            r == font * 5,
    {
        usize::from(font) * 5
    }

    /// Total number of addressable bytes.
    pub fn len(&self) -> (r: usize)
        ensures
            r == self@.len(),
    {
        self.buffer.len()
    }

    /// Single-byte read; the address must be in range.
    pub fn read(&self, adress: usize) -> (r: u8)
        requires
            adress < self@.len(),
        ensures
            r == self@[adress as int],
    {
        self.buffer[adress]
    }

    /// Contiguous read of `n` bytes starting at `adress`; the whole range must
    /// be in range.
    pub fn read_bytes(&self, adress: usize, n: usize) -> (r: &[u8])
        requires
            adress + n <= self@.len(),
        ensures
            r@ == self@.subrange(adress as int, adress + n),
    {
        let _total = self.buffer.len();
        vstd::slice::slice_subrange(self.buffer.as_slice(), adress, adress + n)
    }

    /// Reads the 16-bit instruction word at `adress`: two consecutive bytes,
    /// most-significant byte first.
    pub fn read_opcode(&self, adress: usize) -> (r: u16)
        requires
            adress + 1 < self@.len(),
        ensures
            r == word_at(self@, adress as int),
    {
        let _total = self.buffer.len();
        let hi = self.buffer[adress];
        let lo = self.buffer[adress + 1];
        (hi as u16) * 256 + (lo as u16)
    }

    /// Single-byte write; the address must be in range.
    pub fn write(&mut self, adress: usize, byte: u8)
        requires
            adress < old(self)@.len(),
        ensures
            final(self)@ == old(self)@.update(adress as int, byte),
    {
        self.buffer[adress] = byte;
    }
}

} // verus!
