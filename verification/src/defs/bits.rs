//! Bytes as sequences of bits, the highest bit of each byte first.
use vstd::prelude::*;
use vstd::arithmetic::power2;

verus! {

/// What the bit at a place of a byte counts.
pub open spec fn place(k: int) -> int {
    if k == 0 {
        128
    } else if k == 1 {
        64
    } else if k == 2 {
        32
    } else if k == 3 {
        16
    } else if k == 4 {
        8
    } else if k == 5 {
        4
    } else if k == 6 {
        2
    } else {
        1
    }
}

/// A bit of a byte; the highest is bit 0.
pub open spec fn bit_of(b: u8, k: int) -> bool {
    (b as int / place(k)) % 2 == 1
}

/// The bits of bytes, in order.
pub open spec fn bits_of(data: Seq<u8>) -> Seq<bool> {
    Seq::new(8 * data.len(), |i: int| bit_of(data[i / 8], i % 8))
}

/// The number that bits stand for, the highest first.
pub open spec fn number(bits: Seq<bool>) -> nat
    decreases bits.len(),
{
    if bits.len() == 0 {
        0
    } else {
        2 * number(bits.drop_last()) + if bits.last() {
            1nat
        } else {
            0nat
        }
    }
}

/// So many bits from a place on; behind the end all are zero.
pub open spec fn window(bits: Seq<bool>, at: int, n: nat) -> Seq<bool> {
    Seq::new(n, |k: int| 0 <= at + k < bits.len() && bits[at + k])
}

/// The number of `n` bits is below 2 to the `n`.
pub proof fn lemma_number_bound(bits: Seq<bool>)
    ensures
        number(bits) < power2::pow2(bits.len()),
    decreases bits.len(),
{
    power2::lemma_pow2_pos(bits.len());
    if bits.len() > 0 {
        lemma_number_bound(bits.drop_last());
        power2::lemma_pow2_unfold(bits.len());
    }
}

/// The eight bits of a byte stand for the byte.
pub proof fn lemma_byte_number(b: u8)
    ensures
        number(Seq::new(8, |k: int| bit_of(b, k))) == b,
{
    let s = Seq::new(8, |k: int| bit_of(b, k));
    reveal_with_fuel(number, 9);
    let x = b as int;
    assert(s[0] == ((x / 128) % 2 == 1));
    assert(s[1] == ((x / 64) % 2 == 1));
    assert(s[2] == ((x / 32) % 2 == 1));
    assert(s[3] == ((x / 16) % 2 == 1));
    assert(s[4] == ((x / 8) % 2 == 1));
    assert(s[5] == ((x / 4) % 2 == 1));
    assert(s[6] == ((x / 2) % 2 == 1));
    assert(s[7] == (x % 2 == 1));
}

/// What the bit at a place of a byte counts.
fn place_of(k: usize) -> (r: u8)
    requires
        k < 8,
    ensures
        r == place(k as int),
{
    if k == 0 {
        128
    } else if k == 1 {
        64
    } else if k == 2 {
        32
    } else if k == 3 {
        16
    } else if k == 4 {
        8
    } else if k == 5 {
        4
    } else if k == 6 {
        2
    } else {
        1
    }
}

/// The bit at a place; behind the end it is zero.
pub fn bit_at(data: &[u8], at: usize) -> (r: bool)
    ensures
        r == (at < bits_of(data@).len() && bits_of(data@)[at as int]),
{
    let byte: usize = at / 8;
    if byte >= data.len() {
        return false;
    }
    let p: u8 = place_of(at % 8);
    (data[byte] / p) % 2 == 1
}

/// The number of so many bits from a place on.
pub fn number_at(data: &[u8], at: usize, n: usize) -> (r: u64)
    requires
        n <= 64,
        at + n <= usize::MAX,
    ensures
        r == number(window(bits_of(data@), at as int, n as nat)),
{
    let ghost bits = bits_of(data@);
    let mut acc: u64 = 0;
    let mut k: usize = 0;
    assert(window(bits, at as int, 0) =~= Seq::<bool>::empty());
    while k < n
        invariant
            k <= n,
            n <= 64,
            at + n <= usize::MAX,
            bits == bits_of(data@),
            acc == number(window(bits, at as int, k as nat)),
        decreases n - k,
    {
        let ghost before = window(bits, at as int, k as nat);
        let ghost next = window(bits, at as int, (k + 1) as nat);
        proof {
            assert(next.drop_last() =~= before);
            lemma_number_bound(before);
            power2::lemma2_to64();
            power2::lemma2_to64_rest();
            if k < 63 {
                power2::lemma_pow2_strictly_increases(k as nat, 63);
            }
        }
        let b: bool = bit_at(data, at + k);
        acc = 2 * acc + if b {
            1
        } else {
            0
        };
        k += 1;
    }
    acc
}

/// Reading whole bytes where they stand gives the bytes.
pub proof fn law_aligned_window_is_byte(data: Seq<u8>, i: int)
    requires
        0 <= i < data.len(),
    ensures
        number(window(bits_of(data), 8 * i, 8)) == data[i],
{
    assert(window(bits_of(data), 8 * i, 8) =~= Seq::new(8, |k: int| bit_of(data[i], k)));
    lemma_byte_number(data[i]);
}

/// Different bits are different numbers: so many bits are known by the number they are.
pub proof fn law_number_tells_bits(a: Seq<bool>, b: Seq<bool>)
    requires
        a.len() == b.len(),
        number(a) == number(b),
    ensures
        a == b,
    decreases a.len(),
{
    if a.len() > 0 {
        law_number_tells_bits(a.drop_last(), b.drop_last());
        assert(a =~= a.drop_last().push(a.last()));
        assert(b =~= b.drop_last().push(b.last()));
    } else {
        assert(a =~= b);
    }
}

/// A number of bits goes on as numbers do: one more bit doubles what stands before it.
pub proof fn law_highest_bit_first(a: Seq<bool>, b: Seq<bool>)
    ensures
        number(a + b) == number(a) * power2::pow2(b.len()) + number(b),
    decreases b.len(),
{
    if b.len() == 0 {
        assert(a + b =~= a);
        power2::lemma2_to64();
    } else {
        let rest = b.drop_last();
        law_highest_bit_first(a, rest);
        assert((a + b).drop_last() =~= a + rest);
        assert((a + b).last() == b.last());
        power2::lemma_pow2_unfold(b.len());
        let x = number(a) as int;
        let k = power2::pow2(rest.len()) as int;
        assert(x * (2 * k) == 2 * (x * k)) by (nonlinear_arith);
    }
}

} // verus!
