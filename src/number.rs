use vstd::arithmetic::power2::{
    lemma2_to64, lemma2_to64_rest, lemma_pow2_strictly_increases, lemma_pow2_unfold, pow2,
};
use vstd::bits::lemma_u64_shr_is_div;
use vstd::prelude::*;

verus! {

/// The biased exponent of a double given as a bit pattern.
pub open spec fn exponent(b: u64) -> u64 {
    (b >> 52u64) & 0x7ffu64
}

/// The stored fraction bits of a double given as a bit pattern.
pub open spec fn fraction(b: u64) -> u64 {
    b & 0xf_ffff_ffff_ffffu64
}

/// Whether the sign bit of a double's bit pattern is set.
pub open spec fn negative(b: u64) -> bool {
    (b >> 63u64) == 1
}

/// The absolute value of a finite double, truncated toward zero.
pub open spec fn magnitude(b: u64) -> nat {
    let e = exponent(b);
    let full: nat = (fraction(b) + pow2(52)) as nat;
    if e < 1023 {
        0
    } else if e >= 1075 {
        (full * pow2((e - 1075) as nat)) as nat
    } else {
        (full as int / pow2((1075 - e) as nat) as int) as nat
    }
}

/// Whether a double is greater than 2^64, the largest `usize` as a double.
pub open spec fn exceeds_usize(b: u64) -> bool {
    !negative(b) && (exponent(b) > 1087 || (exponent(b) == 1087 && fraction(b) != 0))
}

/// The integer a double selects as a list index: the double truncated
/// toward zero; `None` for NaN, the infinities and doubles above 2^64.
pub open spec fn index_spec(b: u64) -> Option<int> {
    if exponent(b) == 0x7ff || exceeds_usize(b) {
        None
    } else if negative(b) {
        Some(-(magnitude(b) as int))
    } else {
        Some(magnitude(b) as int)
    }
}

/// The integer a double selects as a list index. A negative result stands
/// for every negative index alike.
pub fn to_integer(b: u64) -> (r: Option<i128>)
    ensures
        index_spec(b) is None <==> r is None,
        index_spec(b) matches Some(i) ==> (i >= 0 ==> r is Some && r->Some_0 as int == i) && (i < 0
            ==> r->Some_0 < 0),
{
    let e = (b >> 52u64) & 0x7ffu64;
    let frac = b & 0xf_ffff_ffff_ffffu64;
    let neg = (b >> 63u64) == 1;
    if e == 0x7ff {
        return None;
    }
    if !neg && (e > 1087 || (e == 1087 && frac != 0)) {
        return None;
    }
    if e < 1023 {
        return Some(0);
    }
    proof {
        lemma2_to64();
        lemma2_to64_rest();
    }
    assert(frac <= 0xf_ffff_ffff_ffffu64) by (bit_vector)
        requires
            frac == b & 0xf_ffff_ffff_ffffu64,
    ;
    let full: u64 = frac + 0x10_0000_0000_0000u64;
    assert(full == fraction(b) + pow2(52));
    assert(e == exponent(b));
    if e >= 1075 {
        let k = e - 1075;
        if neg {
            proof {
                vstd::arithmetic::power2::lemma_pow2_pos(k as nat);
                assert(full * pow2(k as nat) >= 1) by (nonlinear_arith)
                    requires
                        full >= 1,
                        pow2(k as nat) >= 1,
                ;
            }
            return Some(-1);
        }
        let mut mag: u128 = full as u128;
        let mut j: u64 = 0;
        assert(pow2(0) == 1);
        while j < k
            invariant
                j <= k,
                k <= 12,
                full < 0x20_0000_0000_0000u64,
                mag == full * pow2(j as nat),
                pow2(12) == 4096,
            decreases k - j,
        {
            proof {
                if j < 12 {
                    lemma_pow2_strictly_increases(j as nat, 12);
                }
                lemma_pow2_unfold((j + 1) as nat);
            }
            assert(full * pow2(j as nat) <= 0x20_0000_0000_0000u64 * 4096) by (nonlinear_arith)
                requires
                    full < 0x20_0000_0000_0000u64,
                    pow2(j as nat) <= 4096,
            ;
            assert(mag * 2 == full * pow2((j + 1) as nat)) by (nonlinear_arith)
                requires
                    mag == full * pow2(j as nat),
                    pow2((j + 1) as nat) == 2 * pow2(j as nat),
            ;
            mag = mag * 2;
            j = j + 1;
        }
        assert(mag <= 0x20_0000_0000_0000u64 * 4096) by {
            if j < 12 {
                lemma_pow2_strictly_increases(j as nat, 12);
            }
            assert(full * pow2(j as nat) <= 0x20_0000_0000_0000u64 * 4096) by (nonlinear_arith)
                requires
                    full < 0x20_0000_0000_0000u64,
                    pow2(j as nat) <= 4096,
            ;
        }
        assert(magnitude(b) == mag);
        Some(mag as i128)
    } else {
        let k = 1075 - e;
        proof {
            lemma_u64_shr_is_div(full, k);
        }
        if neg {
            proof {
                if k < 52 {
                    lemma_pow2_strictly_increases(k as nat, 52);
                }
                let p = pow2(k as nat);
                assert(full as int / p as int >= 1) by (nonlinear_arith)
                    requires
                        full >= p,
                        p > 0,
                {
                }
            }
            return Some(-1);
        }
        assert(magnitude(b) == (full >> k));
        Some((full >> k) as i128)
    }
}

} // verus!
