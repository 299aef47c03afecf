//! Canonical field elements of the proving backend's scalar field.
//!
//! A witness value is a 256-bit integer strictly below the scalar-field
//! modulus of the BN254 curve, held in four 64-bit little-endian limbs.
//! Caller-supplied strings (decimal, or hex after a `0x` prefix) are parsed
//! into this canonical form; a string whose value is not canonical, or that
//! holds a stray character, is rejected.

use vstd::prelude::*;

verus! {

/// A 256-bit unsigned integer in four 64-bit little-endian limbs: the raw
/// form a field element is accumulated and compared in.
#[derive(Clone, Copy, PartialEq, Eq, Structural, Debug)]
pub struct Limbs {
    pub w0: u64,
    pub w1: u64,
    pub w2: u64,
    pub w3: u64,
}

/// The integer a limb vector denotes.
pub open spec fn limbs_value(w: Limbs) -> int {
    (w.w0 as int) + (w.w1 as int) * 0x10000000000000000int
        + (w.w2 as int) * 0x100000000000000000000000000000000int
        + (w.w3 as int) * 0x1000000000000000000000000000000000000000000000000int
}

/// One past the largest value four 64-bit limbs can hold.
pub open spec fn limbs_cap() -> int {
    0x10000000000000000000000000000000000000000000000000000000000000000int
}

/// The BN254 scalar-field modulus, limb by limb, least significant first.
pub const MODULUS_W0: u64 = 0x43e1f593f0000001;
pub const MODULUS_W1: u64 = 0x2833e84879b97091;
pub const MODULUS_W2: u64 = 0xb85045b68181585d;
pub const MODULUS_W3: u64 = 0x30644e72e131a029;

/// The BN254 scalar-field modulus as an integer.
pub open spec fn modulus() -> int {
    limbs_value(Limbs { w0: MODULUS_W0, w1: MODULUS_W1, w2: MODULUS_W2, w3: MODULUS_W3 })
}

/// The modulus in executable form.
pub fn modulus_limbs() -> (m: Limbs)
    ensures
        limbs_value(m) == modulus(),
{
    Limbs { w0: MODULUS_W0, w1: MODULUS_W1, w2: MODULUS_W2, w3: MODULUS_W3 }
}

/// Chaining one multiply-and-add across four limbs: the carries cancel and
/// leave the whole-number equation.
proof fn lemma_mul_add_carry(
    w0: int, w1: int, w2: int, w3: int,
    base: int, d: int,
    r0: int, r1: int, r2: int, r3: int,
    k1: int, k2: int, k3: int, k4: int,
) by (nonlinear_arith)
    requires
        w0 * base + d == k1 * 0x10000000000000000int + r0,
        w1 * base + k1 == k2 * 0x10000000000000000int + r1,
        w2 * base + k2 == k3 * 0x10000000000000000int + r2,
        w3 * base + k3 == k4 * 0x10000000000000000int + r3,
    ensures
        (w0 + w1 * 0x10000000000000000int + w2 * 0x100000000000000000000000000000000int
            + w3 * 0x1000000000000000000000000000000000000000000000000int) * base + d
            == r0 + r1 * 0x10000000000000000int + r2 * 0x100000000000000000000000000000000int
                + r3 * 0x1000000000000000000000000000000000000000000000000int
                + k4 * 0x10000000000000000000000000000000000000000000000000000000000000000int,
{
}

/// `w * base + d` over four limbs; `None` when the true value needs a fifth.
fn mul_small_add(w: &Limbs, base: u64, d: u64) -> (r: Option<Limbs>)
    requires
        2 <= base <= 16,
        d < base,
    ensures
        match r {
            Some(v) => limbs_value(v) == limbs_value(*w) * base + d,
            None => limbs_value(*w) * base + d >= limbs_cap(),
        },
{
    assert((w.w0 as int) * (base as int) <= 16 * 0xffffffffffffffff) by (nonlinear_arith)
        requires w.w0 <= 0xffffffffffffffffu64 && base <= 16;
    let c0: u128 = (w.w0 as u128) * (base as u128) + (d as u128);
    let r0: u64 = (c0 % 0x10000000000000000u128) as u64;
    let k1: u64 = (c0 / 0x10000000000000000u128) as u64;

    assert((w.w1 as int) * (base as int) <= 16 * 0xffffffffffffffff) by (nonlinear_arith)
        requires w.w1 <= 0xffffffffffffffffu64 && base <= 16;
    let c1: u128 = (w.w1 as u128) * (base as u128) + (k1 as u128);
    let r1: u64 = (c1 % 0x10000000000000000u128) as u64;
    let k2: u64 = (c1 / 0x10000000000000000u128) as u64;

    assert((w.w2 as int) * (base as int) <= 16 * 0xffffffffffffffff) by (nonlinear_arith)
        requires w.w2 <= 0xffffffffffffffffu64 && base <= 16;
    let c2: u128 = (w.w2 as u128) * (base as u128) + (k2 as u128);
    let r2: u64 = (c2 % 0x10000000000000000u128) as u64;
    let k3: u64 = (c2 / 0x10000000000000000u128) as u64;

    assert((w.w3 as int) * (base as int) <= 16 * 0xffffffffffffffff) by (nonlinear_arith)
        requires w.w3 <= 0xffffffffffffffffu64 && base <= 16;
    let c3: u128 = (w.w3 as u128) * (base as u128) + (k3 as u128);
    let r3: u64 = (c3 % 0x10000000000000000u128) as u64;
    let k4: u64 = (c3 / 0x10000000000000000u128) as u64;

    proof {
        lemma_mul_add_carry(
            w.w0 as int, w.w1 as int, w.w2 as int, w.w3 as int,
            base as int, d as int,
            r0 as int, r1 as int, r2 as int, r3 as int,
            k1 as int, k2 as int, k3 as int, k4 as int,
        );
    }
    if k4 != 0 {
        None
    } else {
        Some(Limbs { w0: r0, w1: r1, w2: r2, w3: r3 })
    }
}

/// Limb-by-limb comparison, most significant first, decides the order of
/// the denoted integers.
pub fn limbs_lt(a: &Limbs, b: &Limbs) -> (r: bool)
    ensures
        r == (limbs_value(*a) < limbs_value(*b)),
{
    if a.w3 != b.w3 {
        a.w3 < b.w3
    } else if a.w2 != b.w2 {
        a.w2 < b.w2
    } else if a.w1 != b.w1 {
        a.w1 < b.w1
    } else {
        a.w0 < b.w0
    }
}

/// A canonical element of the proving backend's scalar field: a 256-bit
/// value strictly below the field modulus.
#[derive(Clone, Copy, PartialEq, Eq, Structural, Debug)]
pub struct FieldElement {
    pub limbs: Limbs,
}

impl FieldElement {
    /// The integer this element denotes.
    pub open spec fn value(self) -> int {
        limbs_value(self.limbs)
    }

    /// A field element is canonical: strictly below the modulus.
    pub open spec fn wf(self) -> bool {
        self.value() < modulus()
    }
}

/// A decimal digit, by code point.
pub open spec fn dec_digit(c: char) -> bool {
    48 <= c as int <= 57
}

/// The digits a string may hold: decimal always; hex letters only in base 16.
pub open spec fn is_digit(c: char, base: int) -> bool {
    dec_digit(c)
        || (base == 16 && (97 <= c as int <= 102 || 65 <= c as int <= 70))
}

/// The value of one digit.
pub open spec fn digit_value(c: char, base: int) -> int {
    if dec_digit(c) {
        c as int - 48
    } else if 97 <= c as int <= 102 {
        c as int - 87
    } else {
        c as int - 55
    }
}

/// Every character of `s` is a digit of `base`.
pub open spec fn all_digits(s: Seq<char>, base: int) -> bool {
    forall|i: int| 0 <= i < s.len() ==> is_digit(#[trigger] s[i], base)
}

/// The integer a digit string denotes, most significant digit first.
pub open spec fn digits_value(s: Seq<char>, base: int) -> int
    decreases s.len(),
{
    if s.len() == 0 {
        0
    } else {
        digits_value(s.drop_last(), base) * base + digit_value(s.last(), base)
    }
}

/// A digit string's value is never negative.
proof fn lemma_digits_value_nonneg(s: Seq<char>, base: int)
    requires
        base >= 2,
        all_digits(s, base),
    ensures
        digits_value(s, base) >= 0,
    decreases s.len(),
{
    if s.len() > 0 {
        lemma_digits_value_nonneg(s.drop_last(), base);
        assert(digits_value(s.drop_last(), base) * base >= 0) by (nonlinear_arith)
            requires digits_value(s.drop_last(), base) >= 0 && base >= 2;
        assert(is_digit(s.last(), base));
    }
}

/// Reading more digits never shrinks the value: the value of a prefix is a
/// lower bound for the value of the whole string.
proof fn lemma_digits_value_prefix_bound(s: Seq<char>, base: int, k: int)
    requires
        base >= 2,
        all_digits(s, base),
        0 <= k <= s.len(),
    ensures
        digits_value(s.take(k), base) <= digits_value(s, base),
    decreases s.len(),
{
    if k == s.len() {
        assert(s.take(k) =~= s);
    } else {
        lemma_digits_value_prefix_bound(s.drop_last(), base, k);
        assert(s.drop_last().take(k) =~= s.take(k));
        lemma_digits_value_nonneg(s.drop_last(), base);
        assert(is_digit(s.last(), base));
        assert(digits_value(s.drop_last(), base) * base >= digits_value(s.drop_last(), base))
            by (nonlinear_arith)
            requires digits_value(s.drop_last(), base) >= 0 && base >= 2;
    }
}

/// The string begins with the hex marker `0x`.
pub open spec fn has_hex_prefix(s: Seq<char>) -> bool {
    s.len() >= 2 && s[0] == '0' && s[1] == 'x'
}

/// The digits of the string: everything after a hex marker, else all of it.
pub open spec fn digits_part(s: Seq<char>) -> Seq<char> {
    if has_hex_prefix(s) {
        s.skip(2)
    } else {
        s
    }
}

/// The base the string is read in.
pub open spec fn str_base(s: Seq<char>) -> int {
    if has_hex_prefix(s) {
        16
    } else {
        10
    }
}

/// The strings accepted as a field element: a nonempty run of digits
/// (decimal, or hex after `0x`) denoting a canonical value.
pub open spec fn parses_as_field(s: Seq<char>) -> bool {
    digits_part(s).len() > 0
        && all_digits(digits_part(s), str_base(s))
        && digits_value(digits_part(s), str_base(s)) < modulus()
}

/// The value of an accepted string.
pub open spec fn field_value_of(s: Seq<char>) -> int {
    digits_value(digits_part(s), str_base(s))
}

/// Turns one character into its digit value, or rejects it.
fn digit_of_char(c: char, base: u64) -> (r: Option<u64>)
    requires
        base == 10 || base == 16,
    ensures
        match r {
            Some(d) => is_digit(c, base as int) && d == digit_value(c, base as int) && d < base,
            None => !is_digit(c, base as int),
        },
{
    let v = c as u32;
    if 48 <= v && v <= 57 {
        Some((v - 48) as u64)
    } else if base == 16 && 97 <= v && v <= 102 {
        Some((v - 87) as u64)
    } else if base == 16 && 65 <= v && v <= 70 {
        Some((v - 55) as u64)
    } else {
        None
    }
}

/// Parses a caller string as a canonical field element: nonempty decimal,
/// or `0x`-prefixed hex, strictly below the modulus. Anything else — an
/// empty digit run, a stray character, a value at or above the modulus —
/// is rejected.
pub fn parse_field_element(s: &str) -> (r: Option<FieldElement>)
    ensures
        match r {
            Some(fe) => parses_as_field(s@) && fe.wf() && fe.value() == field_value_of(s@),
            None => !parses_as_field(s@),
        },
{
    let n = s.unicode_len();
    let base: u64;
    let start: usize;
    if n >= 2 && s.get_char(0) == '0' && s.get_char(1) == 'x' {
        base = 16;
        start = 2;
    } else {
        base = 10;
        start = 0;
    }
    assert(base as int == str_base(s@));
    assert(digits_part(s@) =~= s@.skip(start as int));
    if n == start {
        assert(digits_part(s@).len() == 0);
        return None;
    }

    let mut acc = Limbs { w0: 0, w1: 0, w2: 0, w3: 0 };
    let mut i: usize = start;
    while i < n
        invariant
            start <= i <= n,
            n == s@.len(),
            base == 10 || base == 16,
            base as int == str_base(s@),
            start == (if has_hex_prefix(s@) { 2int } else { 0int }),
            all_digits(s@.subrange(start as int, i as int), base as int),
            limbs_value(acc) == digits_value(s@.subrange(start as int, i as int), base as int),
            limbs_value(acc) < modulus(),
        decreases n - i,
    {
        let c = s.get_char(i);
        proof {
            assert(digits_part(s@) =~= s@.skip(start as int));
            assert(s@.subrange(start as int, i + 1).drop_last() =~= s@.subrange(
                start as int,
                i as int,
            ));
            assert(s@.subrange(start as int, i + 1).last() == s@[i as int]);
        }
        let d = match digit_of_char(c, base) {
            Some(d) => d,
            None => {
                // The string holds a character that is no digit of its base.
                assert(digits_part(s@)[i - start] == c);
                assert(!all_digits(digits_part(s@), str_base(s@)));
                return None;
            },
        };
        let next = match mul_small_add(&acc, base, d) {
            Some(v) => v,
            None => {
                // The value no longer fits in 256 bits; the remaining digits
                // can only grow it, so it cannot come back below the modulus.
                proof {
                    assert(modulus() < limbs_cap());
                    if parses_as_field(s@) {
                        lemma_digits_value_prefix_bound(
                            digits_part(s@),
                            base as int,
                            i + 1 - start,
                        );
                        assert(digits_part(s@).take(i + 1 - start) =~= s@.subrange(
                            start as int,
                            i + 1,
                        ));
                    }
                }
                return None;
            },
        };
        assert(limbs_value(next) == digits_value(s@.subrange(start as int, i + 1), base as int));
        if !limbs_lt(&next, &modulus_limbs()) {
            // Already at or above the modulus: the remaining digits can only
            // grow the value, so the string is not canonical.
            proof {
                if parses_as_field(s@) {
                    lemma_digits_value_prefix_bound(digits_part(s@), base as int, i + 1 - start);
                    assert(digits_part(s@).take(i + 1 - start) =~= s@.subrange(
                        start as int,
                        i + 1,
                    ));
                }
            }
            return None;
        }
        acc = next;
        i = i + 1;
    }
    proof {
        assert(s@.subrange(start as int, n as int) =~= digits_part(s@));
    }
    Some(FieldElement { limbs: acc })
}

} // verus!
