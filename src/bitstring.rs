use vstd::prelude::*;

verus! {

/// The number whose binary digits, most significant first, are `bits`.
pub open spec fn bits_value(bits: Seq<bool>) -> nat
    decreases bits.len(),
{
    if bits.len() == 0 {
        0
    } else {
        2 * bits_value(bits.drop_last()) + if bits.last() {
            1nat
        } else {
            0nat
        }
    }
}

/// A sequence of pin levels packed into an integer, the first level in the
/// most significant place.
pub struct Bitstring {
    /// The levels as binary digits, kept modulo 2^64.
    pub val: u64,
    /// How many levels were packed.
    pub size: usize,
}

impl Bitstring {
    /// Packs `bits`, first to last, shifting each one in at the low end.
    pub fn from_bits(bits: &[bool]) -> (b: Bitstring)
        ensures
            b.size == bits@.len(),
            b.val == bits_value(bits@) % 0x1_0000_0000_0000_0000,
    {
        let mut val: u64 = 0;
        let mut size: usize = 0;
        while size < bits.len()
            invariant
                size <= bits@.len(),
                val == bits_value(bits@.subrange(0, size as int)) % 0x1_0000_0000_0000_0000,
            decreases bits@.len() - size,
        {
            let x = bits[size];
            let ghost prev = bits@.subrange(0, size as int);
            let ghost next = bits@.subrange(0, size as int + 1);
            let ghost d: nat = if x { 1 } else { 0 };
            assert(next.drop_last() =~= prev);
            let v = val;
            let bit = x as u64;
            let ghost w: u64 = if v >= 0x8000_0000_0000_0000 {
                (v - 0x8000_0000_0000_0000) as u64
            } else {
                v
            };
            assert(v << 1u64 == w << 1u64) by (bit_vector)
                requires
                    w == (if v >= 0x8000_0000_0000_0000u64 {
                        (v - 0x8000_0000_0000_0000u64) as u64
                    } else {
                        v
                    }),
            ;
            proof {
                vstd::arithmetic::power2::lemma2_to64();
                vstd::bits::lemma_u64_shl_is_mul(w, 1);
            }
            assert((v << 1u64) | bit == (v << 1u64) + bit && (v << 1u64) + bit <= 0xffff_ffff_ffff_ffffu64)
                by (bit_vector)
                requires
                    bit <= 1,
            ;
            proof {
                vstd::arithmetic::div_mod::lemma_add_mod_noop(
                    2 * bits_value(prev) as int,
                    d as int,
                    0x1_0000_0000_0000_0000,
                );
                vstd::arithmetic::div_mod::lemma_mul_mod_noop_right(
                    2,
                    bits_value(prev) as int,
                    0x1_0000_0000_0000_0000,
                );
            }
            proof {
                let b = bits_value(prev) as int;
                let m: int = 0x1_0000_0000_0000_0000;
                assert((v << 1u64) as int == (2 * v) % m);
                assert((2 * (b % m)) % m == (2 * b) % m);
                assert(((2 * b) % m) % m == (2 * b) % m) by {
                    vstd::arithmetic::div_mod::lemma_mod_twice(2 * b, m);
                }
                assert((d as int) % m == d as int);
                assert(((2 * b) % m + d) % m == (2 * b + d) % m);
                assert(bits_value(next) == 2 * b + d);
            }
            val = (val << 1) | bit;
            size = size + 1;
        }
        assert(bits@.subrange(0, size as int) =~= bits@);
        Bitstring { val, size }
    }
}

} // verus!
