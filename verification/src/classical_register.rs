//! A fixed-width classical bit register: a vector of bits together with
//! the integer value they denote.  Bits are stored least-significant
//! first: the bit at position `k` carries weight 2^k.  The register is
//! used to name a computational basis state; it has no algorithmic role
//! in the execution engine itself.

use vstd::arithmetic::div_mod::*;
use vstd::arithmetic::power2::*;
use vstd::prelude::*;

verus! {

/// The integer value denoted by a little-endian bit sequence.
pub open spec fn spec_value(bits: Seq<u8>) -> nat
    decreases bits.len(),
{
    if bits.len() == 0 {
        0
    } else {
        bits[0] as nat + 2 * spec_value(bits.drop_first())
    }
}

/// The `width` low bits of `value`, least-significant first.
pub open spec fn spec_bits_of(value: nat, width: nat) -> Seq<u8> {
    Seq::new(width, |k: int| ((value / pow2(k as nat)) % 2) as u8)
}

/// Appending a bit at the top adds its weight to the value.
proof fn lemma_spec_value_push(bits: Seq<u8>, b: u8)
    ensures
        spec_value(bits.push(b)) == spec_value(bits) + b * pow2(bits.len()),
    decreases bits.len(),
{
    if bits.len() == 0 {
        assert(bits.push(b).drop_first() =~= bits);
        assert(bits.push(b)[0] == b);
        assert(pow2(0) == 1) by {
            lemma2_to64();
        }
    } else {
        assert(bits.push(b).drop_first() =~= bits.drop_first().push(b));
        assert(bits.push(b)[0] == bits[0]);
        lemma_spec_value_push(bits.drop_first(), b);
        lemma_pow2_unfold(bits.len());
        assert(2 * (b * pow2((bits.len() - 1) as nat)) == b * pow2(bits.len()))
            by (nonlinear_arith)
            requires
                pow2(bits.len()) == 2 * pow2((bits.len() - 1) as nat),
        ;
    }
}

/// A bit sequence of length `w` denotes a value below 2^w.
proof fn lemma_spec_value_bound(bits: Seq<u8>)
    requires
        forall|k: int| 0 <= k < bits.len() ==> bits[k] <= 1,
    ensures
        spec_value(bits) < pow2(bits.len() as nat),
    decreases bits.len(),
{
    if bits.len() == 0 {
        lemma2_to64();
    } else {
        lemma_spec_value_bound(bits.drop_first());
        lemma_pow2_unfold(bits.len() as nat);
    }
}

/// 2^k as a `u32`.
fn pow2_u32(k: usize) -> (r: u32)
    requires
        k < 32,
    ensures
        r == pow2(k as nat),
{
    let mut r: u32 = 1;
    let mut j: usize = 0;
    proof {
        lemma2_to64();
        lemma_pow2_strictly_increases(k as nat, 32);
    }
    while j < k
        invariant
            j <= k,
            k < 32,
            r == pow2(j as nat),
            pow2(k as nat) < 0x100000000,
        decreases k - j,
    {
        proof {
            lemma_pow2_unfold((j + 1) as nat);
            if j + 1 < k {
                lemma_pow2_strictly_increases((j + 1) as nat, k as nat);
            }
        }
        r = r * 2;
        j = j + 1;
    }
    r
}

/// A classical register: a vector of bits, each 0 or 1, least-significant
/// first.
#[derive(Debug, Clone, PartialEq, Eq)]
pub struct ClassicalRegister {
    bits: Vec<u8>,
}

impl View for ClassicalRegister {
    type V = Seq<u8>;

    closed spec fn view(&self) -> Seq<u8> {
        self.bits@
    }
}

impl ClassicalRegister {
    /// Every stored bit is 0 or 1.
    pub open spec fn wf(&self) -> bool {
        forall|k: int| 0 <= k < self@.len() ==> self@[k] <= 1
    }

    /// Wraps a bit vector, least-significant bit first.
    pub fn new(bits: Vec<u8>) -> (r: ClassicalRegister)
        requires
            forall|k: int| 0 <= k < bits@.len() ==> bits@[k] <= 1,
        ensures
            r@ == bits@,
            r.wf(),
    {
        ClassicalRegister { bits }
    }

    /// A register of `width` zero bits.
    pub fn zeroed(width: usize) -> (r: ClassicalRegister)
        ensures
            r@ =~= Seq::new(width as nat, |k: int| 0u8),
            r.wf(),
    {
        let mut bits: Vec<u8> = Vec::new();
        let mut j: usize = 0;
        while j < width
            invariant
                j <= width,
                bits@.len() == j,
                forall|k: int| 0 <= k < j ==> bits@[k] == 0u8,
            decreases width - j,
        {
            bits.push(0);
            j = j + 1;
        }
        ClassicalRegister { bits }
    }

    /// Builds the register whose bits spell `bitstring` in binary.
    pub fn from_bitstring(width: usize, bitstring: u32) -> (r: ClassicalRegister)
        requires
            width < 32,
            bitstring < pow2(width as nat),
        ensures
            r@ == spec_bits_of(bitstring as nat, width as nat),
            r.wf(),
    {
        ClassicalRegister::from_value(width, bitstring)
    }

    /// Builds the register of the given width that denotes `value`.
    pub fn from_value(width: usize, value: u32) -> (r: ClassicalRegister)
        requires
            width < 32,
            value < pow2(width as nat),
        ensures
            r@ == spec_bits_of(value as nat, width as nat),
            r.wf(),
    {
        let mut bits: Vec<u8> = Vec::new();
        let mut rem: u32 = value;
        let mut j: usize = 0;
        proof {
            lemma2_to64();
        }
        while j < width
            invariant
                j <= width,
                bits@.len() == j,
                rem == (value as nat) / pow2(j as nat),
                forall|k: int|
                    0 <= k < j ==> bits@[k] == (((value as nat) / pow2(k as nat)) % 2) as u8,
            decreases width - j,
        {
            bits.push((rem % 2) as u8);
            proof {
                lemma_pow2_unfold((j + 1) as nat);
                lemma_pow2_pos(j as nat);
                lemma_div_denominator(value as int, pow2(j as nat) as int, 2);
            }
            rem = rem / 2;
            j = j + 1;
        }
        assert(bits@ =~= spec_bits_of(value as nat, width as nat));
        ClassicalRegister { bits }
    }

    /// The number of bits in the register.
    pub fn width(&self) -> (r: usize)
        ensures
            r == self@.len(),
    {
        self.bits.len()
    }

    /// The integer value the bits denote.  Set bits at position 32 or
    /// beyond would overflow the result and are excluded.
    pub fn value(&self) -> (r: u32)
        requires
            self.wf(),
            forall|k: int| 32 <= k < self@.len() ==> self@[k] == 0u8,
        ensures
            r == spec_value(self@),
    {
        let mut acc: u32 = 0;
        let mut j: usize = 0;
        let width = self.bits.len();
        proof {
            lemma2_to64();
            assert(self@.subrange(0, 0) =~= Seq::<u8>::empty());
        }
        while j < width
            invariant
                j <= width,
                width == self@.len(),
                self.wf(),
                forall|k: int| 32 <= k < self@.len() ==> self@[k] == 0u8,
                acc == spec_value(self@.subrange(0, j as int)),
                acc < pow2(if j < 32 { j as nat } else { 32 }),
            decreases width - j,
        {
            proof {
                assert(self@.subrange(0, j + 1).drop_last() =~= self@.subrange(0, j as int));
                lemma_spec_value_push(self@.subrange(0, j as int), self@[j as int]);
                assert(self@.subrange(0, j + 1) =~= self@.subrange(0, j as int).push(
                    self@[j as int],
                ));
                if j >= 32 {
                    lemma_pow2_strictly_increases(32, (j + 1) as nat);
                } else {
                    lemma_pow2_unfold((j + 1) as nat);
                    if j + 1 < 32 {
                        lemma_pow2_strictly_increases((j + 1) as nat, 32);
                    }
                }
                lemma2_to64();
            }
            let b = self.bits[j];
            if b != 0 {
                proof {
                    assert(self@[j as int] * pow2(j as nat) == pow2(j as nat))
                        by (nonlinear_arith)
                        requires
                            self@[j as int] == 1u8,
                    ;
                }
                acc = acc + pow2_u32(j);
            } else {
                proof {
                    assert(self@[j as int] * pow2(j as nat) == 0) by (nonlinear_arith)
                        requires
                            self@[j as int] == 0u8,
                    ;
                }
            }
            j = j + 1;
        }
        proof {
            assert(self@.subrange(0, width as int) =~= self@);
        }
        acc
    }
}

} // verus!
