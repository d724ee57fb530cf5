//! Reading bytes from data, at any bit.
use vstd::prelude::*;
use vstd::slice::slice_subrange;
use crate::defs::bits;
use crate::defs::bits::number_at;
use crate::defs::bitsize::BitSize;
use crate::defs::sizes::SizeBytes;

verus! {

/// What reads bytes from data.
pub trait TDataReader {
    /// The bytes that are read.
    spec fn data(&self) -> Seq<u8>;

    /// The bit at which reading begins.
    spec fn start(&self) -> int;

    /// Whether there is such a byte to read.
    spec fn covers(&self, n: int) -> bool;

    /// How many bits there are to read.
    fn get_bit_size(&self) -> (r: BitSize)
        requires
            0 <= self.start() <= 8 * self.data().len() <= usize::MAX,
        ensures
            r.bits == 8 * self.data().len() - self.start(),
    ;

    /// The `n`th byte from the start.
    fn read(&self, n: usize) -> (r: u8)
        requires
            self.covers(n as int),
        ensures
            r == bits::number(
                bits::window(bits::bits_of(self.data()), self.start() + 8 * n, 8),
            ),
    ;
}

/// Reads bytes from any bit on. Behind the end it reads zeros.
#[derive(Debug)]
pub struct BitReader<'a> {
    pub data: &'a [u8],
    pub offset: BitSize,
}

impl<'a> BitReader<'a> {
    pub fn new(data: &'a [u8], offset: BitSize) -> (r: Self)
        ensures
            r.data@ == data@,
            r.offset == offset,
    {
        Self { data, offset }
    }

    /// The same data, read from so many bits further on.
    pub fn add_bit_offset(&self, offs: BitSize) -> (r: Self)
        requires
            self.offset.bits + offs.bits <= usize::MAX,
        ensures
            r.data@ == self.data@,
            r.offset.bits == self.offset.bits + offs.bits,
    {
        Self { data: self.data, offset: self.offset + offs }
    }
}

impl<'a> TDataReader for BitReader<'a> {
    open spec fn data(&self) -> Seq<u8> {
        self.data@
    }

    open spec fn start(&self) -> int {
        self.offset.bits as int
    }

    open spec fn covers(&self, n: int) -> bool {
        self.offset.bits + 8 * n + 8 <= usize::MAX
    }

    fn get_bit_size(&self) -> (r: BitSize) {
        BitSize::with_bits(self.data.len() * 8 - self.offset.bits)
    }

    fn read(&self, n: usize) -> (r: u8) {
        let at: usize = self.offset.bits + n * 8;
        let byte: usize = at / 8;
        if at % 8 == 0 && byte < self.data.len() {
            proof {
                bits::law_aligned_window_is_byte(self.data@, byte as int);
            }
            return self.data[byte];
        }
        proof {
            bits::lemma_number_bound(bits::window(bits::bits_of(self.data@), at as int, 8));
            vstd::arithmetic::power2::lemma2_to64();
        }
        number_at(self.data, at, 8) as u8
    }
}

/// Reads whole bytes.
#[derive(Debug)]
pub struct ByteReader<'a> {
    pub data: &'a [u8],
}

impl<'a> ByteReader<'a> {
    /// Reads the first `size` bytes of data.
    pub fn new(data: &'a [u8], size: usize) -> (r: Self)
        requires
            size <= data@.len(),
        ensures
            r.data@ == data@.take(size as int),
    {
        Self { data: slice_subrange(data, 0, size) }
    }

    /// A shorter reader, which begins further on.
    pub fn set_offset_and_size(self, offs: SizeBytes, size: SizeBytes) -> (r: Self)
        requires
            offs.count <= self.data@.len(),
        ensures
            ({
                let left = self.data@.len() - offs.count;
                let n = if size.count < left {
                    size.count as int
                } else {
                    left
                };
                r.data@ == self.data@.subrange(offs.count as int, offs.count + n)
            }),
    {
        let left: usize = self.data.len() - offs.bytes();
        let n: usize = if size.bytes() < left {
            size.bytes()
        } else {
            left
        };
        Self { data: slice_subrange(self.data, offs.bytes(), offs.bytes() + n) }
    }
}

impl<'a> TDataReader for ByteReader<'a> {
    open spec fn data(&self) -> Seq<u8> {
        self.data@
    }

    open spec fn start(&self) -> int {
        0
    }

    open spec fn covers(&self, n: int) -> bool {
        n < self.data@.len()
    }

    fn get_bit_size(&self) -> (r: BitSize) {
        BitSize::with_bytes(self.data.len())
    }

    fn read(&self, n: usize) -> (r: u8) {
        proof {
            bits::law_aligned_window_is_byte(self.data@, n as int);
        }
        self.data[n]
    }
}

// ---------------------------------------------------------------------------
// What holds of every reader
// ---------------------------------------------------------------------------
/// Behind the end of the data all bytes are zero.
pub proof fn law_behind_the_end_is_zero(data: Seq<u8>, at: int)
    requires
        at >= 8 * data.len(),
    ensures
        bits::number(bits::window(bits::bits_of(data), at, 8)) == 0,
{
    reveal_with_fuel(bits::number, 9);
}

} // verus!
