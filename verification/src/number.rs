//! JavaScript numbers and the element ids they carry.
//!
//! A JS number is an IEEE 754 double. The library holds it as its 64 bits and
//! reads the value from the bit fields, so every rule about ids is stated and
//! checked over exact integers.

use vstd::arithmetic::power2::*;
use vstd::prelude::*;

verus! {

/// 2^53 - 1, `Number.MAX_SAFE_INTEGER`: the largest integer every smaller
/// integer of which a double still holds exactly.
pub const MAX_SAFE_INTEGER: u64 = 9_007_199_254_740_991;

/// 2^52, the weight of the hidden bit of a normal double.
pub const HIDDEN_BIT: u64 = 0x10_0000_0000_0000;

/// A JavaScript number, held as the bits of the IEEE 754 double it is.
#[derive(Clone, Copy, Debug, PartialEq, Eq, Structural)]
pub struct JsNumber {
    pub bits: u64,
}

/// The biased exponent field (11 bits).
pub open spec fn exponent_field(bits: u64) -> int {
    (bits / HIDDEN_BIT) as int % 0x800
}

/// The fraction field (52 bits).
pub open spec fn fraction_field(bits: u64) -> int {
    (bits % HIDDEN_BIT) as int
}

/// The sign bit.
pub open spec fn sign_bit(bits: u64) -> bool {
    bits >= 0x8000_0000_0000_0000
}

/// The significand, with the hidden bit of a normal number restored.
pub open spec fn significand(bits: u64) -> int {
    if exponent_field(bits) == 0 {
        fraction_field(bits)
    } else {
        fraction_field(bits) + HIDDEN_BIT
    }
}

/// The absolute value of the double is exactly the integer `k`: it is
/// `significand * 2^(exponent - 1075)`, where a subnormal counts as exponent 1.
pub open spec fn magnitude_is(bits: u64, k: int) -> bool {
    let e = exponent_field(bits);
    if e >= 1075 {
        significand(bits) * pow2((e - 1075) as nat) == k
    } else {
        significand(bits) == k * pow2((1075 - (if e == 0 { 1 } else { e })) as nat)
    }
}

/// The double is finite and its value is exactly the integer `n`. Both zeros
/// denote 0.
pub open spec fn denotes_integer(bits: u64, n: int) -> bool {
    &&& exponent_field(bits) != 0x7ff
    &&& magnitude_is(bits, if n < 0 { -n } else { n })
    &&& n != 0 ==> (sign_bit(bits) <==> n < 0)
}

/// `n` is the element id that `id` stands for: a whole number from 0 to
/// `MAX_SAFE_INTEGER`.
pub open spec fn is_element_id(id: JsNumber, n: int) -> bool {
    0 <= n <= MAX_SAFE_INTEGER && denotes_integer(id.bits, n)
}

/// The element id that `id` stands for, if any.
pub open spec fn element_id(id: JsNumber) -> Option<u64> {
    if exists|n: int| is_element_id(id, n) {
        Some((choose|n: int| is_element_id(id, n)) as u64)
    } else {
        None
    }
}

/// A number stands for at most one id.
pub proof fn lemma_element_id_unique(id: JsNumber, a: int, b: int)
    requires
        is_element_id(id, a),
        is_element_id(id, b),
    ensures
        a == b,
{
    let e = exponent_field(id.bits);
    let s = significand(id.bits);
    if e < 1075 {
        let p = pow2((1075 - (if e == 0 { 1 } else { e })) as nat);
        lemma_pow2_pos((1075 - (if e == 0 { 1 } else { e })) as nat);
        assert(a == b) by (nonlinear_arith)
            requires
                s == a * p,
                s == b * p,
                p > 0,
        ;
    }
}

/// A number that is not a valid element id.
#[derive(Clone, Copy, Debug, PartialEq, Eq, Structural)]
pub struct InvalidElementId {
    pub id: JsNumber,
}

/// Validate a JS number as an element id. JS numbers are doubles, lossless for
/// integers up to 2^53, so an id must be finite, not negative, whole, and no
/// larger than `MAX_SAFE_INTEGER`; `-0` is the id 0.
pub fn raw_element_id(id: JsNumber) -> (r: Result<u64, InvalidElementId>)
    ensures
        match r {
            Ok(n) => is_element_id(id, n as int) && element_id(id) == Some(n),
            Err(e) => e.id == id && !exists|n: int| is_element_id(id, n),
        },
        r is Err ==> element_id(id) is None,
{
    let bits = id.bits;
    let e: u64 = (bits / HIDDEN_BIT) % 0x800;
    let f: u64 = bits % HIDDEN_BIT;
    let negative: bool = bits >= 0x8000_0000_0000_0000;
    proof {
        lemma2_to64();
        lemma2_to64_rest();
        assert(e == exponent_field(bits));
        assert(f == fraction_field(bits));
    }
    if e == 0x7ff {
        return Err(InvalidElementId { id });
    }
    if e == 0 {
        if f == 0 {
            proof {
                assert(significand(bits) == 0);
                assert(0 == 0 * pow2(1074)) by (nonlinear_arith);
            }
            proof {
                assert(is_element_id(id, 0));
                let m = choose|m: int| is_element_id(id, m);
                lemma_element_id_unique(id, m, 0);
            }
            return Ok(0);
        }
        proof {
            assert forall|n: int| !is_element_id(id, n) by {
                if is_element_id(id, n) {
                    lemma_pow2_strictly_increases(52, 1074);
                    assert(significand(bits) == n * pow2(1074));
                    if n >= 1 {
                        assert(n * pow2(1074) >= pow2(1074)) by (nonlinear_arith)
                            requires
                                n >= 1,
                        ;
                    }
                }
            }
        }
        return Err(InvalidElementId { id });
    }
    if e < 1023 {
        proof {
            assert forall|n: int| !is_element_id(id, n) by {
                if is_element_id(id, n) {
                    let s = (1075 - e) as nat;
                    if s > 53 {
                        lemma_pow2_strictly_increases(53, s);
                    }
                    assert(significand(bits) == n * pow2(s));
                    if n >= 1 {
                        assert(n * pow2(s) >= pow2(s)) by (nonlinear_arith)
                            requires
                                n >= 1,
                        ;
                    }
                }
            }
        }
        return Err(InvalidElementId { id });
    }
    if e > 1075 {
        proof {
            assert forall|n: int| !is_element_id(id, n) by {
                if is_element_id(id, n) {
                    let s = (e - 1075) as nat;
                    lemma_pow2_strictly_increases(0, s);
                    let sig = significand(bits);
                    assert(sig * pow2(s) >= sig * 2) by (nonlinear_arith)
                        requires
                            pow2(s) >= 2,
                            sig >= 0,
                    ;
                }
            }
        }
        return Err(InvalidElementId { id });
    }
    let shift: u64 = 1075 - e;
    let sig: u64 = f + HIDDEN_BIT;
    proof {
        vstd::bits::lemma_u64_pow2_no_overflow(shift as nat);
        vstd::bits::lemma_u64_shl_is_mul(1, shift);
    }
    let p: u64 = 1u64 << shift;
    proof {
        assert(p == pow2(shift as nat));
        lemma_pow2_pos(shift as nat);
    }
    if sig % p != 0 {
        proof {
            assert forall|n: int| !is_element_id(id, n) by {
                if is_element_id(id, n) {
                    if e == 1075 {
                        assert(p == 1) by {
                            lemma_pow2(0);
                            vstd::arithmetic::power::lemma_pow0(2);
                        }
                    } else {
                        assert(sig == n * p);
                        vstd::arithmetic::div_mod::lemma_mod_multiples_basic(n, p as int);
                    }
                }
            }
        }
        return Err(InvalidElementId { id });
    }
    let n: u64 = sig / p;
    proof {
        vstd::arithmetic::div_mod::lemma_fundamental_div_mod(sig as int, p as int);
        assert(sig == p * n);
        assert(sig == n * p) by (nonlinear_arith)
            requires
                sig == p * n,
        ;
        assert(n <= sig) by (nonlinear_arith)
            requires
                sig == n * p,
                p >= 1,
                n >= 0,
        ;
        assert(n >= 1) by (nonlinear_arith)
            requires
                sig == n * p,
                sig >= 1,
        ;
        if e == 1075 {
            assert(p == 1) by {
                lemma_pow2(0);
                vstd::arithmetic::power::lemma_pow0(2);
            }
            assert(significand(bits) * pow2(0) == n);
        } else {
            assert(magnitude_is(bits, n as int));
        }
    }
    if negative {
        proof {
            assert forall|m: int| !is_element_id(id, m) by {
                if is_element_id(id, m) {
                    if m == 0 {
                        if e == 1075 {
                            assert(significand(bits) * pow2(0) == 0);
                        } else {
                            assert(significand(bits) == 0 * pow2((1075 - e) as nat));
                        }
                    }
                }
            }
        }
        return Err(InvalidElementId { id });
    }
    proof {
        let m = choose|m: int| is_element_id(id, m);
        assert(is_element_id(id, n as int));
        lemma_element_id_unique(id, m, n as int);
    }
    Ok(n)
}

} // verus!
