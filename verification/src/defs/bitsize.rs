//! Sizes measured in bits.
use std::cmp::Ordering;
use vstd::prelude::*;
use crate::defs::sizes::{SizeBytes, SizeWords, BYTE_BITS, WORD_BYTES};

verus! {

/// A size in bits.
#[derive(Copy, Clone, Debug, PartialEq, Eq, Ord, Structural)]
pub struct BitSize {
    pub bits: usize,
}

impl BitSize {
    pub fn zero() -> (r: Self)
        ensures
            r.bits == 0,
    {
        Self { bits: 0 }
    }

    pub fn is_empty(self) -> (r: bool)
        ensures
            r == (self.bits == 0),
    {
        self.bits == 0
    }

    pub fn with_bits(bit_count: usize) -> (r: Self)
        ensures
            r.bits == bit_count,
    {
        Self { bits: bit_count }
    }

    pub fn with_bytesize(size: SizeBytes) -> (r: Self)
        requires
            size.count * 8 <= usize::MAX,
        ensures
            r.bits == size.count * 8,
    {
        Self { bits: size.bytes() * BYTE_BITS }
    }

    pub fn with_bytes(size: usize) -> (r: Self)
        requires
            size * 8 <= usize::MAX,
        ensures
            r.bits == size * 8,
    {
        Self { bits: size * BYTE_BITS }
    }

    /// So many units of so many bits. There has to be a unit, and room for one more of it.
    pub fn with_unit(size: usize, unit: usize) -> (r: Self)
        requires
            unit > 0,
            size < usize::MAX / unit,
        ensures
            r.bits == size * unit,
    {
        assert(0 <= size * unit <= usize::MAX) by (nonlinear_arith)
            requires
                unit > 0,
                size < usize::MAX / unit,
        ;
        Self { bits: size * unit }
    }

    /// So many units of so many bits.
    pub fn with_unit_const(size: usize, unit: usize) -> (r: Self)
        requires
            size * unit <= usize::MAX,
        ensures
            r.bits == size * unit,
    {
        Self { bits: size * unit }
    }

    /// How many bits hang over the last whole byte.
    pub fn get_last_byte_bits(&self) -> (r: usize)
        ensures
            r == self.bits % 8,
    {
        self.bits % BYTE_BITS
    }

    /// The whole bytes.
    pub fn get_byte_size_rounded_down(&self) -> (r: SizeBytes)
        ensures
            r.count == self.bits / 8,
    {
        SizeBytes::new(self.bits / BYTE_BITS)
    }

    /// The number of whole bytes.
    pub fn get_bytes_rounded_down(&self) -> (r: usize)
        ensures
            r == self.bits / 8,
    {
        self.bits / BYTE_BITS
    }

    /// The bytes, with one more for bits that hang over.
    pub fn get_byte_size_rounded_up(self) -> (r: SizeBytes)
        requires
            self.bits + 7 <= usize::MAX,
        ensures
            r.count == (self.bits + 7) / 8,
    {
        SizeBytes::new((self.bits + (BYTE_BITS - 1)) / BYTE_BITS)
    }

    /// The words that the whole bytes take.
    pub fn get_words_rounded_up(self) -> (r: SizeWords)
        ensures
            r.words == (self.bits / 8 + 7) / 8,
    {
        let b: usize = self.get_byte_size_rounded_down().bytes();
        SizeWords::new((b + (WORD_BYTES - 1)) / WORD_BYTES)
    }

    /// The text of a size.
    pub fn text(&self) -> (r: String)
        ensures
            r@ == crate::util::text::decimal(self.bits as nat) + " bits"@,
    {
        let n: String = crate::util::text::u64_to_text(self.bits as u64);
        crate::util::text::concat2(n.as_str(), " bits")
    }
}

impl std::ops::Add<BitSize> for BitSize {
    type Output = BitSize;

    fn add(self, other: BitSize) -> (r: BitSize) {
        BitSize { bits: self.bits + other.bits }
    }
}

impl vstd::std_specs::ops::AddSpecImpl<BitSize> for BitSize {
    open spec fn obeys_add_spec() -> bool {
        true
    }

    open spec fn add_req(self, other: BitSize) -> bool {
        self.bits + other.bits <= usize::MAX
    }

    open spec fn add_spec(self, other: BitSize) -> BitSize {
        BitSize { bits: (self.bits + other.bits) as usize }
    }
}

impl std::ops::Sub<BitSize> for BitSize {
    type Output = BitSize;

    fn sub(self, other: BitSize) -> (r: BitSize) {
        BitSize { bits: self.bits - other.bits }
    }
}

impl vstd::std_specs::ops::SubSpecImpl<BitSize> for BitSize {
    open spec fn obeys_sub_spec() -> bool {
        true
    }

    open spec fn sub_req(self, other: BitSize) -> bool {
        other.bits <= self.bits
    }

    open spec fn sub_spec(self, other: BitSize) -> BitSize {
        BitSize { bits: (self.bits - other.bits) as usize }
    }
}

impl PartialOrd for BitSize {
    fn partial_cmp(&self, other: &BitSize) -> (r: Option<Ordering>) {
        if self.bits < other.bits {
            Some(Ordering::Less)
        } else if self.bits == other.bits {
            Some(Ordering::Equal)
        } else {
            Some(Ordering::Greater)
        }
    }
}

impl vstd::std_specs::cmp::PartialOrdSpecImpl for BitSize {
    open spec fn obeys_partial_cmp_spec() -> bool {
        true
    }

    open spec fn partial_cmp_spec(&self, other: &BitSize) -> Option<Ordering> {
        if self.bits < other.bits {
            Some(Ordering::Less)
        } else if self.bits == other.bits {
            Some(Ordering::Equal)
        } else {
            Some(Ordering::Greater)
        }
    }
}

/// Sizes are ordered as their numbers of bits are.
pub proof fn law_ordered_by_bits(a: BitSize, b: BitSize)
    ensures
        vstd::std_specs::cmp::PartialOrdSpec::partial_cmp_spec(&a, &b) == Some(Ordering::Less)
            <==> a.bits < b.bits,
        vstd::std_specs::cmp::PartialOrdSpec::partial_cmp_spec(&a, &b) == Some(Ordering::Equal)
            <==> a == b,
        vstd::std_specs::cmp::PartialOrdSpec::partial_cmp_spec(&a, &b) == Some(Ordering::Greater)
            <==> b.bits < a.bits,
        a == b <==> a.bits == b.bits,
{
}

/// Nothing is smaller than no bits, and adding none changes nothing.
pub proof fn law_zero_is_least(x: BitSize, zero: BitSize)
    requires
        zero.bits == 0,
    ensures
        vstd::std_specs::cmp::PartialOrdSpec::partial_cmp_spec(&zero, &x) != Some(
            Ordering::Greater,
        ),
        vstd::std_specs::ops::AddSpec::add_req(x, zero),
        vstd::std_specs::ops::AddSpec::add_spec(x, zero) == x,
        vstd::std_specs::ops::SubSpec::sub_req(x, x),
        vstd::std_specs::ops::SubSpec::sub_spec(x, x) == zero,
        x.bits == 0 <==> x == zero,
{
}

/// The bits of two sizes add up, and taking away what was added gives the size back.
pub proof fn law_sub_undoes_add(a: BitSize, b: BitSize)
    requires
        a.bits + b.bits <= usize::MAX,
    ensures
        vstd::std_specs::ops::AddSpec::add_req(a, b),
        vstd::std_specs::ops::AddSpec::add_spec(a, b).bits == a.bits + b.bits,
        vstd::std_specs::ops::SubSpec::sub_spec(
            vstd::std_specs::ops::AddSpec::add_spec(a, b),
            b,
        ) == a,
{
}

} // verus!
