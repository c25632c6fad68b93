//! Fixed-precision non-negative decimals and the vendor's canonical
//! checksum formatting.
//!
//! A value is kept as `mantissa * 10^-scale` with `scale <= 19`, in a
//! canonical form (no trailing zeros in the mantissa while the scale is
//! positive), so that numerically equal values are structurally equal.

use vstd::prelude::*;
use crate::digits::{pow10, dec_digits, u64_to_string};

verus! {

/// Largest scale (number of fractional digits) a `Decimal` can carry.
pub const MAX_SCALE: u32 = 19;

/// A non-negative fixed-precision decimal: `mantissa * 10^-scale`.
#[derive(Clone, Copy, PartialEq, Eq, Structural, Debug, Hash)]
pub struct Decimal {
    pub mantissa: u64,
    pub scale: u32,
}

impl Decimal {
    /// The value is canonical: the scale is within range, zero is stored
    /// as `(0, 0)`, and a positive scale implies no trailing zero digit.
    pub open spec fn wf(self) -> bool {
        &&& self.scale <= 19
        &&& (self.mantissa == 0 ==> self.scale == 0)
        &&& (self.scale > 0 ==> self.mantissa % 10 != 0)
    }

    /// The value in units of `10^-19`; equal decimals have equal units.
    pub open spec fn units(self) -> nat {
        (self.mantissa * pow10((19 - self.scale) as nat)) as nat
    }

    /// The zero value.
    pub fn zero() -> (r: Decimal)
        ensures
            r.wf(),
            r.units() == 0,
            r == (Decimal { mantissa: 0, scale: 0 }),
    {
        Decimal { mantissa: 0, scale: 0 }
    }

    /// Whether this is the zero value.
    pub fn is_zero(&self) -> (r: bool)
        requires
            self.wf(),
        ensures
            r == (self.units() == 0),
    {
        proof {
            if self.mantissa != 0 {
                lemma_pow10_pos((19 - self.scale) as nat);
                assert(self.units() > 0) by (nonlinear_arith)
                    requires
                        self.units() == (self.mantissa * pow10((19 - self.scale) as nat)) as nat,
                        self.mantissa > 0,
                        pow10((19 - self.scale) as nat) > 0,
                ;
            }
        }
        self.mantissa == 0
    }

    /// Builds the canonical decimal `mantissa * 10^-scale`; `None` when the
    /// canonical form still needs more than `MAX_SCALE` fractional digits.
    pub fn new(mantissa: u64, scale: u32) -> (r: Option<Decimal>)
        ensures
            match r {
                Some(d) => {
                    &&& d.wf()
                    &&& (d.mantissa as nat, d.scale as nat) == canon(mantissa as nat, scale as nat)
                },
                None => canon(mantissa as nat, scale as nat).1 > 19,
            },
    {
        let mut m = mantissa;
        let mut s = scale;
        while m != 0 && s > 0 && m % 10 == 0
            invariant
                canon(m as nat, s as nat) == canon(mantissa as nat, scale as nat),
            decreases s,
        {
            m = m / 10;
            s = s - 1;
        }
        if m == 0 {
            assert(canon(m as nat, s as nat) == (0nat, 0nat));
            Some(Decimal { mantissa: 0, scale: 0 })
        } else if s <= 19 {
            assert(canon(m as nat, s as nat) == (m as nat, s as nat));
            Some(Decimal { mantissa: m, scale: s })
        } else {
            assert(canon(m as nat, s as nat) == (m as nat, s as nat));
            None
        }
    }
}

/// Canonicalizes a mantissa/scale pair: strips trailing zeros while the
/// scale is positive, and forces scale zero for the zero value.
pub open spec fn canon(m: nat, s: nat) -> (nat, nat)
    decreases s,
{
    if m != 0 && s > 0 && m % 10 == 0 {
        canon(m / 10, (s - 1) as nat)
    } else if m == 0 {
        (0, 0)
    } else {
        (m, s)
    }
}

pub proof fn lemma_pow10_pos(e: nat)
    ensures
        pow10(e) >= 1,
    decreases e,
{
    if e > 0 {
        lemma_pow10_pos((e - 1) as nat);
    }
}

pub proof fn lemma_pow10_mono(a: nat, b: nat)
    requires
        a <= b,
    ensures
        pow10(a) <= pow10(b),
    decreases b,
{
    if a < b {
        lemma_pow10_mono(a, (b - 1) as nat);
        lemma_pow10_pos((b - 1) as nat);
    }
}

/// `pow10(19)` fits in a `u64`.
pub proof fn lemma_pow10_19_value()
    ensures
        pow10(19) == 10000000000000000000,
{
    assert(pow10(19) == 10000000000000000000) by {
        reveal_with_fuel(pow10, 21);
    }
}

/// Computes `pow10(e)` for exponents up to `MAX_SCALE`.
pub fn pow10_u64(e: u32) -> (r: u64)
    requires
        e <= 19,
    ensures
        r == pow10(e as nat),
{
    proof {
        lemma_pow10_19_value();
    }
    let mut r: u64 = 1;
    let mut i: u32 = 0;
    while i < e
        invariant
            i <= e <= 19,
            r == pow10(i as nat),
        decreases e - i,
    {
        proof {
            lemma_pow10_19_value();
            lemma_pow10_mono((i + 1) as nat, 19);
        }
        r = r * 10;
        i = i + 1;
    }
    r
}

/// The value of a decimal in units of `10^-19`, computed exactly.
pub fn units_u128(d: &Decimal) -> (r: u128)
    requires
        d.wf(),
    ensures
        r == d.units(),
{
    proof {
        lemma_pow10_19_value();
        lemma_pow10_mono((19 - d.scale) as nat, 19);
        assert((d.mantissa as nat) * pow10((19 - d.scale) as nat) <= (u64::MAX as nat) * pow10(19))
            by (nonlinear_arith)
            requires
                d.mantissa as nat <= u64::MAX as nat,
                pow10((19 - d.scale) as nat) <= pow10(19),
        ;
    }
    (d.mantissa as u128) * (pow10_u64(19 - d.scale) as u128)
}

/// Half-to-even rounding of `v / d`.
pub open spec fn round_half_even(v: nat, d: nat) -> nat
    recommends
        d > 0,
{
    let q = v / d;
    let r = v % d;
    if 2 * r < d {
        q
    } else if 2 * r > d {
        q + 1
    } else if q % 2 == 0 {
        q
    } else {
        q + 1
    }
}

/// The number of `10^-target` units the decimal rounds to, half-to-even.
pub open spec fn rescaled_units(d: Decimal, target: nat) -> nat {
    if target >= d.scale {
        (d.mantissa * pow10((target - d.scale) as nat)) as nat
    } else {
        round_half_even(d.mantissa as nat, pow10((d.scale - target) as nat))
    }
}

/// The canonical checksum rendering of a decimal at a given scale: the
/// digits of the value rounded to `target` fractional places, with the
/// decimal point removed and leading zeros stripped (`"0"` for zero).
pub open spec fn spec_format_fixed(d: Decimal, target: nat) -> Seq<char> {
    dec_digits(rescaled_units(d, target))
}

proof fn lemma_dec_digits_times_ten(m: nat)
    requires
        m > 0,
    ensures
        dec_digits(m * 10) == dec_digits(m).push('0'),
{
    assert(m * 10 >= 10) by (nonlinear_arith)
        requires m >= 1,
    ;
    assert(m * 10 / 10 == m) by (nonlinear_arith);
    assert(m * 10 % 10 == 0) by (nonlinear_arith);
    assert(dec_digits(m * 10) == dec_digits(m).push(crate::digits::digit_char(0)));
}

/// Formats a decimal to exactly `scale` fractional places, removes the
/// decimal point and strips leading zeros, per the vendor's checksum rule.
pub fn format_fixed(dec: &Decimal, scale: u32) -> (r: String)
    requires
        dec.wf(),
        scale <= 19,
    ensures
        r@ == spec_format_fixed(*dec, scale as nat),
{
    if scale >= dec.scale {
        if dec.mantissa == 0 {
            assert(rescaled_units(*dec, scale as nat) == 0) by {
                assert(0nat * pow10((scale - dec.scale) as nat) == 0) by (nonlinear_arith);
            }
            return u64_to_string(0);
        }
        let mut out = u64_to_string(dec.mantissa);
        assert(pow10(0) == 1);
        assert(dec.mantissa as nat * pow10(0) == dec.mantissa as nat) by (nonlinear_arith)
            requires pow10(0) == 1,
        ;
        let mut j: u32 = 0;
        let k = scale - dec.scale;
        while j < k
            invariant
                j <= k,
                dec.mantissa > 0,
                out@ == dec_digits(dec.mantissa as nat * pow10(j as nat)),
            decreases k - j,
        {
            proof {
                lemma_pow10_pos(j as nat);
                assert(dec.mantissa as nat * pow10(j as nat) > 0) by (nonlinear_arith)
                    requires
                        dec.mantissa as nat > 0,
                        pow10(j as nat) > 0,
                ;
                lemma_dec_digits_times_ten(dec.mantissa as nat * pow10(j as nat));
                assert(dec.mantissa as nat * pow10(j as nat) * 10
                    == dec.mantissa as nat * pow10((j + 1) as nat)) by (nonlinear_arith)
                    requires pow10((j + 1) as nat) == 10 * pow10(j as nat),
                ;
            }
            crate::strutil::push_char(&mut out, '0');
            j = j + 1;
        }
        assert(rescaled_units(*dec, scale as nat) == dec.mantissa as nat * pow10(k as nat));
        out
    } else {
        let div = pow10_u64(dec.scale - scale);
        proof {
            lemma_pow10_pos((dec.scale - scale) as nat);
        }
        let q = dec.mantissa / div;
        let rem = dec.mantissa % div;
        let half = div / 2;
        proof {
            assert(div == 10 * pow10((dec.scale - scale - 1) as nat));
            assert(div % 2 == 0) by (nonlinear_arith)
                requires div == 10 * pow10((dec.scale - scale - 1) as nat),
            ;
            assert(q <= dec.mantissa / 10) by (nonlinear_arith)
                requires
                    div >= 10,
                    q as nat == dec.mantissa as nat / div as nat,
            ;
        }
        let n: u64 = if rem < half {
            assert(2 * rem < div);
            q
        } else if rem > half {
            assert(2 * rem > div);
            q + 1
        } else {
            assert(2 * rem == div);
            if q % 2 == 0 {
                q
            } else {
                q + 1
            }
        };
        assert(n == rescaled_units(*dec, scale as nat));
        u64_to_string(n)
    }
}

/// Compares two decimals by numeric value.
pub fn dec_lt(a: &Decimal, b: &Decimal) -> (r: bool)
    requires
        a.wf(),
        b.wf(),
    ensures
        r == (a.units() < b.units()),
{
    units_u128(a) < units_u128(b)
}

/// Builds the canonical decimal worth `u` units of `10^-19`; `None` when
/// the canonical mantissa does not fit in 64 bits.
pub fn dec_from_units(u: u128) -> (r: Option<Decimal>)
    ensures
        match r {
            Some(d) => {
                &&& d.wf()
                &&& d.units() == u
                &&& (d.mantissa as nat, d.scale as nat) == canon(u as nat, 19)
            },
            None => canon(u as nat, 19).0 > u64::MAX,
        },
{
    let mut m = u;
    let mut s: u32 = 19;
    assert(pow10(0) == 1);
    assert(m as nat * pow10(0) == m as nat) by (nonlinear_arith)
        requires pow10(0) == 1,
    ;
    while m != 0 && s > 0 && m % 10 == 0
        invariant
            s <= 19,
            canon(m as nat, s as nat) == canon(u as nat, 19),
            m * pow10((19 - s) as nat) == u,
        decreases s,
    {
        proof {
            let m10 = (m as nat) / 10;
            assert(m as nat == m10 * 10);
            assert(pow10((19 - s + 1) as nat) == 10 * pow10((19 - s) as nat));
            assert(m10 * (10 * pow10((19 - s) as nat)) == (m10 * 10) * pow10((19 - s) as nat))
                by (nonlinear_arith);
        }
        m = m / 10;
        s = s - 1;
    }
    if m == 0 {
        assert(canon(m as nat, s as nat) == (0nat, 0nat));
        assert(u == 0) by {
            assert(0nat * pow10((19 - s) as nat) == 0) by (nonlinear_arith);
        }
        Some(Decimal { mantissa: 0, scale: 0 })
    } else if m <= u64::MAX as u128 {
        assert(canon(m as nat, s as nat) == (m as nat, s as nat));
        let d = Decimal { mantissa: m as u64, scale: s };
        assert(d.units() == u);
        Some(d)
    } else {
        assert(canon(m as nat, s as nat) == (m as nat, s as nat));
        None
    }
}

/// The first index in `s` holding `c1` or `c2` (the length when absent).
pub open spec fn find_ch2(s: Seq<char>, c1: char, c2: char) -> int
    decreases s.len(),
{
    if s.len() == 0 {
        0
    } else if s[0] == c1 || s[0] == c2 {
        0
    } else {
        1 + find_ch2(s.skip(1), c1, c2)
    }
}

proof fn lemma_find_ch2(s: Seq<char>, c1: char, c2: char)
    ensures
        0 <= find_ch2(s, c1, c2) <= s.len(),
        forall|j: int| 0 <= j < find_ch2(s, c1, c2) ==> #[trigger] s[j] != c1 && s[j] != c2,
        find_ch2(s, c1, c2) < s.len() ==> s[find_ch2(s, c1, c2)] == c1 || s[find_ch2(s, c1, c2)] == c2,
    decreases s.len(),
{
    if s.len() > 0 && !(s[0] == c1 || s[0] == c2) {
        lemma_find_ch2(s.skip(1), c1, c2);
        let f = find_ch2(s, c1, c2);
        assert forall|j: int| 0 <= j < f implies #[trigger] s[j] != c1 && s[j] != c2 by {
            if j > 0 {
                assert(s.skip(1)[j - 1] == s[j]);
            }
        }
        if f < s.len() {
            assert(s.skip(1)[f - 1] == s[f]);
        }
    }
}

fn find_char2(s: &str, c1: char, c2: char) -> (r: usize)
    ensures
        r == find_ch2(s@, c1, c2),
        r <= s@.len(),
        forall|j: int| 0 <= j < r ==> #[trigger] s@[j] != c1 && s@[j] != c2,
        r < s@.len() ==> s@[r as int] == c1 || s@[r as int] == c2,
{
    let n = s.unicode_len();
    let mut i: usize = 0;
    while i < n
        invariant
            n == s@.len(),
            i <= n,
            forall|j: int| 0 <= j < i ==> #[trigger] s@[j] != c1 && s@[j] != c2,
        decreases n - i,
    {
        let c = s.get_char(i);
        if c == c1 || c == c2 {
            proof {
                lemma_find_ch2(s@, c1, c2);
                let f = find_ch2(s@, c1, c2);
                if f < i {
                    assert(s@[f] == c1 || s@[f] == c2);
                }
                if f > i {
                    assert(s@[i as int] != c1 && s@[i as int] != c2);
                }
                assert(f == i);
            }
            return i;
        }
        i = i + 1;
    }
    proof {
        lemma_find_ch2(s@, c1, c2);
        let f = find_ch2(s@, c1, c2);
        if f < n {
            assert(s@[f] == c1 || s@[f] == c2);
        }
    }
    n
}

use crate::digits::{is_digit, digit_val, all_digits, digits_val};

proof fn lemma_digits_val_leading_zeros(s: Seq<char>, k: int)
    requires
        0 <= k <= s.len(),
        forall|j: int| 0 <= j < k ==> #[trigger] s[j] == '0',
    ensures
        digits_val(s) == digits_val(s.skip(k)),
    decreases s.len(),
{
    if k == s.len() {
        lemma_digits_val_all_zeros(s);
        assert(s.skip(k) =~= Seq::<char>::empty());
    } else {
        let dl = s.drop_last();
        assert(s.len() > k);
        lemma_digits_val_leading_zeros(dl, k);
        assert(s.skip(k).drop_last() =~= dl.skip(k));
        assert(s.skip(k).last() == s.last());
        assert(s.skip(k).len() > 0);
    }
}

proof fn lemma_digits_val_all_zeros(s: Seq<char>)
    requires
        forall|j: int| 0 <= j < s.len() ==> #[trigger] s[j] == '0',
    ensures
        digits_val(s) == 0,
    decreases s.len(),
{
    if s.len() > 0 {
        lemma_digits_val_all_zeros(s.drop_last());
        assert(s.last() == s[s.len() - 1]);
        assert(digit_val('0') == 0);
    }
}

proof fn lemma_digits_val_trailing_zeros(s: Seq<char>, t: int)
    requires
        0 <= t <= s.len(),
        forall|j: int| s.len() - t <= j < s.len() ==> #[trigger] s[j] == '0',
    ensures
        digits_val(s) == digits_val(s.take(s.len() - t)) * pow10(t as nat),
    decreases t,
{
    if t == 0 {
        assert(s.take(s.len() - 0) =~= s);
        assert(pow10(0) == 1);
        assert(digits_val(s) * 1 == digits_val(s)) by (nonlinear_arith);
    } else {
        assert(s.last() == s[s.len() - 1]);
        assert(s.last() == '0');
        assert(digit_val('0') == 0);
        let dl = s.drop_last();
        lemma_digits_val_trailing_zeros(dl, t - 1);
        assert(dl.take(dl.len() - (t - 1)) =~= s.take(s.len() - t));
        let base = digits_val(s.take(s.len() - t));
        assert(digits_val(s) == digits_val(dl) * 10);
        assert(digits_val(dl) == base * pow10((t - 1) as nat));
        assert(base * pow10((t - 1) as nat) * 10 == base * (10 * pow10((t - 1) as nat)))
            by (nonlinear_arith);
    }
}

proof fn lemma_digits_val_upper(s: Seq<char>)
    requires
        all_digits(s),
    ensures
        digits_val(s) < pow10(s.len() as nat),
    decreases s.len(),
{
    if s.len() == 0 {
        assert(pow10(0) == 1);
    } else {
        let dl = s.drop_last();
        assert(all_digits(dl)) by {
            assert(forall|j: int| 0 <= j < dl.len() ==> dl[j] == s[j]);
        }
        lemma_digits_val_upper(dl);
        assert(is_digit(s[s.len() - 1]));
        assert(digit_val(s.last()) <= 9);
        assert(digits_val(dl) * 10 + 9 < pow10(dl.len() as nat) * 10) by (nonlinear_arith)
            requires digits_val(dl) < pow10(dl.len() as nat),
        ;
    }
}

proof fn lemma_digits_val_lower(s: Seq<char>)
    requires
        all_digits(s),
        s.len() > 0,
        s[0] != '0',
    ensures
        digits_val(s) >= pow10((s.len() - 1) as nat),
    decreases s.len(),
{
    if s.len() == 1 {
        assert(is_digit(s[0]));
        assert(digit_val(s[0]) >= 1) by {
            if s[0] as u32 == 48 {
                vstd::utf8::char_u32_cast(s[0], 48);
                vstd::utf8::char_u32_cast('0', 48);
                assert(s[0] == '0');
            }
        }
        assert(pow10(0) == 1);
    } else {
        let dl = s.drop_last();
        assert(all_digits(dl)) by {
            assert(forall|j: int| 0 <= j < dl.len() ==> dl[j] == s[j]);
        }
        assert(dl[0] == s[0]);
        lemma_digits_val_lower(dl);
        assert(digits_val(dl) * 10 >= pow10((dl.len() - 1) as nat) * 10) by (nonlinear_arith)
            requires digits_val(dl) >= pow10((dl.len() - 1) as nat),
        ;
    }
}

proof fn lemma_digits_val_mod10(s: Seq<char>)
    requires
        all_digits(s),
        s.len() > 0,
    ensures
        digits_val(s) % 10 == digit_val(s.last()),
    decreases s.len(),
{
    assert(is_digit(s[s.len() - 1]));
    assert(digit_val(s.last()) < 10);
    assert((digits_val(s.drop_last()) * 10 + digit_val(s.last())) % 10 == digit_val(s.last()))
        by (nonlinear_arith)
        requires digit_val(s.last()) < 10,
    ;
}

proof fn lemma_canon_zero(s: nat)
    ensures
        canon(0, s) == (0nat, 0nat),
{
}

proof fn lemma_canon_strip(d0: nat, t: nat, s: nat)
    requires
        t <= s,
    ensures
        canon(d0 * pow10(t), s) == canon(d0, (s - t) as nat),
    decreases t,
{
    if t == 0 {
        assert(pow10(0) == 1);
        assert(d0 * 1 == d0) by (nonlinear_arith);
    } else {
        let d = d0 * pow10(t);
        if d0 == 0 {
            assert(d == 0) by (nonlinear_arith)
                requires
                    d == d0 * pow10(t),
                    d0 == 0,
            ;
            lemma_canon_zero(s);
            lemma_canon_zero((s - t) as nat);
        } else {
            lemma_pow10_pos((t - 1) as nat);
            assert(pow10(t) == 10 * pow10((t - 1) as nat));
            assert(pow10(t) >= 10) by (nonlinear_arith)
                requires
                    pow10(t) == 10 * pow10((t - 1) as nat),
                    pow10((t - 1) as nat) >= 1,
            ;
            assert(d >= 10) by (nonlinear_arith)
                requires
                    d == d0 * pow10(t),
                    d0 >= 1,
                    pow10(t) >= 10,
            ;
            let dprev = d0 * pow10((t - 1) as nat);
            assert(d == dprev * 10) by (nonlinear_arith)
                requires
                    d == d0 * (10 * pow10((t - 1) as nat)),
                    dprev == d0 * pow10((t - 1) as nat),
            ;
            assert(d % 10 == 0 && d / 10 == dprev) by (nonlinear_arith)
                requires d == dprev * 10,
            ;
            assert(canon(d, s) == canon(dprev, (s - 1) as nat));
            lemma_canon_strip(d0, (t - 1) as nat, (s - 1) as nat);
        }
    }
}

/// The syntax scan of a decimal numeral: the combined digit value, the
/// count of fractional digits, and the exponent. The grammar is
/// `digits ['.' digits] [('e'|'E') ['+'|'-'] digits]`, with exponent
/// magnitudes above 38 rejected.
pub open spec fn spec_scan_number(s: Seq<char>) -> Option<(nat, nat, int)> {
    let epos = find_ch2(s, 'e', 'E');
    let mant = s.take(epos);
    let dotpos = find_ch2(mant, '.', '.');
    let intd = mant.take(dotpos);
    let frac = if dotpos < mant.len() {
        mant.skip(dotpos + 1)
    } else {
        Seq::empty()
    };
    if intd.len() == 0 || !all_digits(intd) {
        None
    } else if dotpos < mant.len() && (frac.len() == 0 || !all_digits(frac)) {
        None
    } else {
        let d = digits_val(intd + frac);
        let s0 = frac.len();
        if epos == s.len() {
            Some((d, s0, 0))
        } else {
            let ex = s.skip(epos + 1);
            let neg = ex.len() > 0 && ex[0] == '-';
            let digits = if ex.len() > 0 && (ex[0] == '-' || ex[0] == '+') {
                ex.skip(1)
            } else {
                ex
            };
            if digits.len() == 0 || !all_digits(digits) || digits_val(digits) > 38 {
                None
            } else {
                Some((d, s0, if neg { -(digits_val(digits) as int) } else { digits_val(digits) as int }))
            }
        }
    }
}

/// The canonical decimal worth `d * 10^-scale`, when representable.
pub open spec fn dec_from_scaled(d: nat, scale: int) -> Option<Decimal> {
    if d == 0 {
        Some(Decimal { mantissa: 0, scale: 0 })
    } else if scale <= 0 {
        let m = d * pow10((-scale) as nat);
        if m <= u64::MAX {
            Some(Decimal { mantissa: m as u64, scale: 0 })
        } else {
            None
        }
    } else {
        let c = canon(d, scale as nat);
        if c.0 <= u64::MAX && c.1 <= 19 {
            Some(Decimal { mantissa: c.0 as u64, scale: c.1 as u32 })
        } else {
            None
        }
    }
}

/// What a decimal numeral parses to: the scanned value, canonicalized,
/// when it fits the type.
pub open spec fn spec_parse_decimal(s: Seq<char>) -> Option<Decimal> {
    match spec_scan_number(s) {
        None => None,
        Some((d, s0, e)) => dec_from_scaled(d, s0 - e),
    }
}

fn all_digits_range(s: &str, from: usize, to: usize) -> (r: bool)
    requires
        from <= to <= s@.len(),
    ensures
        r == all_digits(s@.subrange(from as int, to as int)),
{
    let ghost seg = s@.subrange(from as int, to as int);
    let mut i: usize = from;
    while i < to
        invariant
            from <= i <= to <= s@.len(),
            seg == s@.subrange(from as int, to as int),
            forall|j: int| 0 <= j < i - from ==> is_digit(#[trigger] seg[j]),
        decreases to - i,
    {
        let c = s.get_char(i);
        let cv = c as u32;
        proof {
            assert(seg[i - from] == s@[i as int]);
        }
        if cv < 48 || cv > 57 {
            assert(!is_digit(seg[i - from]));
            return false;
        }
        i = i + 1;
    }
    proof {
        assert(all_digits(seg));
    }
    true
}

proof fn lemma_digit_nonzero(c: char)
    requires
        is_digit(c),
        c != '0',
    ensures
        digit_val(c) >= 1,
{
    if c as u32 == 48 {
        vstd::utf8::char_u32_cast(c, 48);
        vstd::utf8::char_u32_cast('0', 48);
        assert(c == '0');
    }
}

/// Parses a decimal numeral (`digits ['.' digits]`, with an optional
/// exponent part `e`/`E`, sign, digits) into a canonical decimal.
/// Rejects anything outside that grammar, exponent magnitudes above 38,
/// and values whose canonical form does not fit the type.
fn fold_digits(s: &str, from: usize, to: usize) -> (r: u128)
    requires
        from <= to <= s@.len(),
        to - from <= 20,
        all_digits(s@.subrange(from as int, to as int)),
    ensures
        r == digits_val(s@.subrange(from as int, to as int)),
        r < pow10((to - from) as nat),
{
    let ghost seg = s@.subrange(from as int, to as int);
    let mut acc: u128 = 0;
    let mut p: usize = from;
    proof {
        assert(pow10(0) == 1);
        assert(seg.take(0) =~= Seq::<char>::empty());
    }
    while p < to
        invariant
            from <= p <= to <= s@.len(),
            to - from <= 20,
            seg == s@.subrange(from as int, to as int),
            all_digits(seg),
            acc == digits_val(seg.take(p - from)),
            acc < pow10((p - from) as nat),
        decreases to - p,
    {
        let c = s.get_char(p);
        let cv = c as u32;
        proof {
            assert(seg[p - from] == s@[p as int]);
            assert(is_digit(seg[p - from]));
            assert(seg.take(p - from + 1).drop_last() =~= seg.take(p - from));
            assert(seg.take(p - from + 1).last() == seg[p - from]);
            lemma_pow10_mono((p - from + 1) as nat, 20);
            assert(pow10(20) == 100000000000000000000) by {
                reveal_with_fuel(pow10, 22);
            }
            assert(acc * 10 + 9 < pow10((p - from + 1) as nat)) by (nonlinear_arith)
                requires
                    acc < pow10((p - from) as nat),
                    pow10((p - from + 1) as nat) == 10 * pow10((p - from) as nat),
            ;
        }
        let dv = (cv - 48) as u128;
        acc = acc * 10 + dv;
        p = p + 1;
    }
    proof {
        assert(seg.take((to - from) as int) =~= seg);
    }
    acc
}

/// Builds the canonical decimal worth `digits * 10^-big_s0` from an
/// all-digit numeral.
#[verifier::rlimit(100)]
fn build_decimal(combined: &str, big_s0: i128) -> (r: Option<Decimal>)
    requires
        all_digits(combined@),
        combined@.len() >= 1,
        big_s0 >= -38,
    ensures
        r == dec_from_scaled(digits_val(combined@), big_s0 as int),
        r is Some ==> r->Some_0.wf(),
{
    proof {
        lemma_pow10_19_value();
        assert(pow10(20) == 100000000000000000000) by {
            reveal_with_fuel(pow10, 22);
        }
    }
    let ghost comb = combined@;
    let ghost d = digits_val(comb);
    let clen = combined.unicode_len();
    // Skip leading zeros; an all-zero numeral is the zero value.
    let mut a: usize = 0;
    while a < clen && combined.get_char(a) == '0'
        invariant
            clen == comb.len(),
            comb == combined@,
            a <= clen,
            forall|j: int| 0 <= j < a ==> #[trigger] comb[j] == '0',
        decreases clen - a,
    {
        a = a + 1;
    }
    if a == clen {
        proof {
            lemma_digits_val_all_zeros(comb);
        }
        return Some(Decimal { mantissa: 0, scale: 0 });
    }
    assert(comb[a as int] != '0');
    proof {
        lemma_digits_val_leading_zeros(comb, a as int);
    }
    // Count trailing zeros.
    let mut tz: usize = 0;
    while tz < clen && combined.get_char(clen - tz - 1) == '0'
        invariant
            clen == comb.len(),
            comb == combined@,
            tz <= clen,
            forall|j: int| clen - tz <= j < clen ==> #[trigger] comb[j] == '0',
        decreases clen - tz,
    {
        tz = tz + 1;
    }
    assert(a + tz < clen) by {
        if a >= clen - tz {
            assert(comb[a as int] == '0');
        }
    }
    assert(tz < clen ==> comb[clen - tz - 1] != '0');
    // How many trailing zeros to strip: bounded by the scale.
    let t: usize = if big_s0 <= 0 {
        0
    } else if big_s0 >= tz as i128 {
        tz
    } else {
        big_s0 as usize
    };
    assert(t <= tz);
    assert(big_s0 > 0 ==> t <= big_s0);
    assert(big_s0 <= 0 ==> t == 0);
    assert((t as i128) < big_s0 ==> t == tz);
    let ghost eff = comb.subrange(a as int, (clen - t) as int);
    proof {
        assert(comb.skip(a as int).take((clen - t - a) as int) =~= eff);
        lemma_digits_val_trailing_zeros(comb.skip(a as int), t as int);
        assert(d == digits_val(eff) * pow10(t as nat));
        assert(all_digits(eff)) by {
            assert(forall|k: int| 0 <= k < eff.len() ==> eff[k] == comb[a + k]);
        }
        assert(eff[0] == comb[a as int]);
        lemma_digits_val_lower(eff);
        lemma_pow10_pos((eff.len() - 1) as nat);
        assert(digits_val(eff) >= 1);
        lemma_pow10_pos(t as nat);
        assert(d >= 1) by (nonlinear_arith)
            requires
                d == digits_val(eff) * pow10(t as nat),
                digits_val(eff) >= 1,
                pow10(t as nat) >= 1,
        ;
    }
    let elen = clen - t - a;
    if elen > 20 {
        // More than 20 significant digits cannot fit a 64-bit mantissa.
        proof {
            if (t as i128) < big_s0 {
                assert(eff.last() == comb[clen - tz - 1]);
            }
            lemma_too_many_digits(d, eff, t as nat, big_s0 as int, a as int, clen as int,
                tz as int, comb);
        }
        return None;
    }
    let dd = fold_digits(combined, a, clen - t);
    assert(dd == digits_val(eff));
    assert(1 <= dd);
    let big_s2: i128 = big_s0 - t as i128;
    if big_s2 <= 0 {
        let k = (-big_s2) as u32;
        assert(k <= 38);
        assert(big_s0 > 0 ==> t == big_s0) by {
            if big_s0 > 0 && (t as i128) < big_s0 {
                assert(big_s2 > 0);
            }
        }
        if k > 19 {
            proof {
                assert(big_s0 <= 0 && t == 0);
                assert(d == digits_val(eff)) by {
                    assert(pow10(0) == 1);
                    assert(digits_val(eff) * 1 == digits_val(eff)) by (nonlinear_arith);
                }
                lemma_pow10_mono(20, k as nat);
                assert(d * pow10(k as nat) > u64::MAX) by (nonlinear_arith)
                    requires
                        d >= 1,
                        pow10(k as nat) >= pow10(20),
                        pow10(20) > u64::MAX,
                ;
            }
            return None;
        }
        if dd > u64::MAX as u128 {
            proof {
                lemma_parse_big_mantissa(d, dd, t as nat, big_s0 as int, k as nat);
            }
            return None;
        }
        let pk = pow10_u64(k);
        proof {
            lemma_pow10_mono(k as nat, 19);
            assert(dd * pow10(k as nat) <= (u64::MAX as nat) * pow10(19)) by (nonlinear_arith)
                requires
                    dd <= u64::MAX,
                    pow10(k as nat) <= pow10(19),
            ;
            lemma_parse_exact_scale0(d, dd as nat, t as nat, big_s0 as int, k as nat);
            lemma_pow10_pos(k as nat);
        }
        let m128 = dd * (pk as u128);
        if m128 > u64::MAX as u128 {
            return None;
        }
        assert(m128 >= 1) by (nonlinear_arith)
            requires
                m128 == dd * pow10(k as nat),
                dd >= 1,
                pow10(k as nat) >= 1,
        ;
        return Some(Decimal { mantissa: m128 as u64, scale: 0 });
    }
    // A positive remaining scale: only trailing zeros were stripped, so
    // the mantissa already ends in a non-zero digit.
    assert(t == tz);
    proof {
        assert(tz < clen);
        assert(eff.last() == comb[clen - tz - 1]);
        lemma_digit_nonzero(eff.last());
        lemma_digits_val_mod10(eff);
        assert(dd % 10 != 0);
        lemma_canon_strip(dd as nat, t as nat, big_s0 as nat);
        assert(canon(d, big_s0 as nat) == canon(dd as nat, (big_s0 - t) as nat));
        assert(canon(dd as nat, big_s2 as nat) == (dd as nat, big_s2 as nat));
    }
    if big_s2 > 19 {
        return None;
    }
    if dd > u64::MAX as u128 {
        return None;
    }
    Some(Decimal { mantissa: dd as u64, scale: big_s2 as u32 })
}

/// Parses a decimal numeral (`digits ['.' digits]`, with an optional
/// exponent part `e`/`E`, sign, digits) into a canonical decimal.
/// Rejects anything outside that grammar, exponent magnitudes above 38,
/// and values whose canonical form does not fit the type.
#[verifier::rlimit(100)]
pub fn parse_decimal(s: &str) -> (r: Option<Decimal>)
    ensures
        r == spec_parse_decimal(s@),
        r is Some ==> r->Some_0.wf(),
{
    let n = s.unicode_len();
    let epos = find_char2(s, 'e', 'E');
    assert(epos <= n);
    let ghost mant = s@.take(epos as int);
    let mant_str = s.substring_char(0, epos);
    proof {
        assert(mant_str@ =~= mant);
    }
    let dotpos = find_char2(mant_str, '.', '.');
    assert(dotpos <= epos) by {
        assert(mant.len() == epos);
    }
    let has_dot = dotpos < epos;
    let ghost intd = mant.take(dotpos as int);
    let ghost frac: Seq<char> = if has_dot { mant.skip(dotpos + 1) } else { Seq::empty() };
    proof {
        assert(intd =~= s@.subrange(0, dotpos as int));
        if has_dot {
            assert(frac =~= s@.subrange(dotpos + 1, epos as int));
        }
    }
    // Validate the digit segments.
    if dotpos == 0 {
        return None;
    }
    if !all_digits_range(s, 0, dotpos) {
        return None;
    }
    if has_dot {
        if dotpos + 1 == epos {
            return None;
        }
        if !all_digits_range(s, dotpos + 1, epos) {
            return None;
        }
    }
    // The exponent.
    let ghost scan = spec_scan_number(s@);
    let s0: usize = if has_dot { epos - dotpos - 1 } else { 0 };
    assert(s0 == frac.len());
    let (neg, e_val): (bool, u64) = if epos == n {
        (false, 0)
    } else {
        if epos + 1 == n {
            proof {
                assert(s@.skip(epos + 1) =~= Seq::<char>::empty());
            }
            return None;
        }
        let c0 = s.get_char(epos + 1);
        proof {
            assert(s@.skip(epos + 1)[0] == s@[epos + 1]);
        }
        let has_sign = c0 == '-' || c0 == '+';
        let dig_start = if has_sign { epos + 2 } else { epos + 1 };
        proof {
            if has_sign {
                assert(s@.skip(epos + 1).skip(1) =~= s@.subrange(dig_start as int, n as int));
            } else {
                assert(s@.skip(epos + 1) =~= s@.subrange(dig_start as int, n as int));
            }
        }
        let dig_str = s.substring_char(dig_start, n);
        match crate::digits::parse_u64(dig_str) {
            None => {
                return None;
            },
            Some(v) => {
                if v > 38 {
                    return None;
                }
                (c0 == '-', v)
            },
        }
    };
    assert(scan is Some);
    let ghost d = digits_val(intd + frac);
    let ghost e: int = if neg { -(e_val as int) } else { e_val as int };
    assert(scan == Some((d, s0 as nat, e)));
    // Assemble the combined digit string.
    let mut combined = String::new();
    let mut i: usize = 0;
    while i < dotpos
        invariant
            dotpos <= epos <= n == s@.len(),
            i <= dotpos,
            intd == s@.subrange(0, dotpos as int),
            combined@ == intd.take(i as int),
        decreases dotpos - i,
    {
        proof {
            assert(intd.take(i + 1).drop_last() =~= intd.take(i as int));
            assert(intd.take(i + 1).last() == intd[i as int]);
            assert(intd[i as int] == s@[i as int]);
        }
        crate::strutil::push_char(&mut combined, s.get_char(i));
        i = i + 1;
    }
    proof {
        assert(intd.take(dotpos as int) =~= intd);
    }
    if has_dot {
        let mut j: usize = dotpos + 1;
        while j < epos
            invariant
                has_dot,
                dotpos + 1 <= j <= epos <= n == s@.len(),
                frac == s@.subrange(dotpos + 1, epos as int),
                intd.len() == dotpos,
                combined@ == intd + frac.take(j - dotpos - 1),
            decreases epos - j,
        {
            proof {
                let k = j - dotpos - 1;
                assert(frac.take(k + 1).drop_last() =~= frac.take(k));
                assert(frac.take(k + 1).last() == frac[k]);
                assert(frac[k] == s@[j as int]);
                assert((intd + frac.take(k)).push(s@[j as int]) =~= intd + frac.take(k + 1));
            }
            crate::strutil::push_char(&mut combined, s.get_char(j));
            j = j + 1;
        }
        proof {
            assert(frac.take(epos - dotpos - 1) =~= frac);
        }
    } else {
        proof {
            assert(intd + frac =~= intd);
        }
    }
    assert(combined@ == intd + frac);
    assert(all_digits(combined@)) by {
        assert forall|k: int| 0 <= k < combined@.len() implies is_digit(#[trigger] combined@[k]) by {
            if k < intd.len() {
                assert(combined@[k] == intd[k]);
            } else {
                assert(combined@[k] == frac[k - intd.len()]);
            }
        }
    }
    assert(combined@.len() >= 1);
    let s0_i = s0 as i128;
    let big_s0: i128 = if neg {
        s0_i + e_val as i128
    } else {
        s0_i - e_val as i128
    };
    assert(big_s0 == s0 - e);
    build_decimal(combined.as_str(), big_s0)
}

proof fn lemma_too_many_digits(
    d: nat,
    eff: Seq<char>,
    t: nat,
    big_s0: int,
    a: int,
    clen: int,
    tz: int,
    comb: Seq<char>,
)
    requires
        all_digits(eff),
        eff.len() > 20,
        eff[0] != '0',
        d == digits_val(eff) * pow10(t),
        big_s0 <= 0 ==> t == 0,
        big_s0 > 0 ==> t <= big_s0,
        t < big_s0 ==> (t == tz && tz < clen && comb[clen - tz - 1] != '0'
            && eff.last() == comb[clen - tz - 1]),
        d > 0,
    ensures
        dec_from_scaled(d, big_s0) is None,
{
    lemma_digits_val_lower(eff);
    lemma_pow10_mono(20, (eff.len() - 1) as nat);
    reveal_with_fuel(pow10, 22);
    let dd = digits_val(eff);
    assert(dd > u64::MAX);
    if big_s0 <= 0 {
        assert(pow10(0) == 1);
        assert(d == dd) by (nonlinear_arith)
            requires
                d == dd * pow10(0),
                pow10(0) == 1,
        ;
        lemma_pow10_pos((-big_s0) as nat);
        assert(d * pow10((-big_s0) as nat) >= dd) by (nonlinear_arith)
            requires
                d == dd,
                pow10((-big_s0) as nat) >= 1,
        ;
    } else {
        lemma_canon_strip(dd, t, big_s0 as nat);
        if t < big_s0 {
            lemma_digit_nonzero(eff.last());
            lemma_digits_val_mod10(eff);
            assert(canon(dd, (big_s0 - t) as nat) == (dd, (big_s0 - t) as nat));
        } else {
            assert(t == big_s0);
            assert(canon(dd, 0) == (dd, 0nat));
        }
    }
}

proof fn lemma_parse_big_mantissa(d: nat, dd: u128, t: nat, big_s0: int, k: nat)
    requires
        d == (dd as nat) * pow10(t),
        dd > u64::MAX,
        big_s0 <= 0 ==> t == 0,
        big_s0 > 0 ==> t == big_s0,
        big_s0 - t == -(k as int),
        d > 0,
    ensures
        dec_from_scaled(d, big_s0) is None,
{
    if big_s0 <= 0 {
        assert(pow10(0) == 1);
        assert(d == dd) by (nonlinear_arith)
            requires
                d == (dd as nat) * pow10(0),
                pow10(0) == 1,
        ;
        lemma_pow10_pos((-big_s0) as nat);
        assert(d * pow10((-big_s0) as nat) >= d) by (nonlinear_arith)
            requires pow10((-big_s0) as nat) >= 1,
        ;
    } else {
        lemma_canon_strip(dd as nat, t, big_s0 as nat);
        assert(canon(dd as nat, 0) == (dd as nat, 0nat));
    }
}

proof fn lemma_parse_exact_scale0(d: nat, dd: nat, t: nat, big_s0: int, k: nat)
    requires
        d == dd * pow10(t),
        dd >= 1,
        big_s0 <= 0 ==> t == 0,
        big_s0 > 0 ==> t == big_s0,
        big_s0 - t == -(k as int),
    ensures
        big_s0 <= 0 ==> d * pow10((-big_s0) as nat) == dd * pow10(k),
        big_s0 > 0 ==> canon(d, big_s0 as nat) == (dd * pow10(k), 0nat),
{
    if big_s0 <= 0 {
        assert(t == 0 && k == -big_s0);
        assert(pow10(0) == 1);
        assert(d == dd) by (nonlinear_arith)
            requires
                d == dd * pow10(0),
                pow10(0) == 1,
        ;
    } else {
        assert(t == big_s0 && k == 0);
        lemma_canon_strip(dd, t, big_s0 as nat);
        assert(canon(dd, 0) == (dd, 0nat));
        assert(pow10(0) == 1);
        assert(dd * pow10(0) == dd) by (nonlinear_arith)
            requires pow10(0) == 1,
        ;
    }
}

/// The number of `10^-target` units a decimal rounds to, half-to-even.
pub fn rescale_units_exec(d: &Decimal, target: u32) -> (r: u128)
    requires
        d.wf(),
        target <= 19,
    ensures
        r == rescaled_units(*d, target as nat),
        r <= (u64::MAX as nat) * pow10(19),
{
    proof {
        lemma_pow10_19_value();
    }
    if target >= d.scale {
        let p = pow10_u64(target - d.scale);
        proof {
            lemma_pow10_mono((target - d.scale) as nat, 19);
            assert((d.mantissa as nat) * pow10((target - d.scale) as nat)
                <= (u64::MAX as nat) * pow10(19)) by (nonlinear_arith)
                requires
                    d.mantissa as nat <= u64::MAX as nat,
                    pow10((target - d.scale) as nat) <= pow10(19),
            ;
        }
        (d.mantissa as u128) * (p as u128)
    } else {
        let div = pow10_u64(d.scale - target);
        proof {
            lemma_pow10_pos((d.scale - target) as nat);
        }
        let q = d.mantissa / div;
        let rem = d.mantissa % div;
        let half = div / 2;
        proof {
            assert(div == 10 * pow10((d.scale - target - 1) as nat));
            assert(div % 2 == 0) by (nonlinear_arith)
                requires div == 10 * pow10((d.scale - target - 1) as nat),
            ;
            assert(q <= d.mantissa / 10) by (nonlinear_arith)
                requires
                    div >= 10,
                    q as nat == d.mantissa as nat / div as nat,
            ;
        }
        let n: u64 = if rem < half {
            assert(2 * rem < div);
            q
        } else if rem > half {
            assert(2 * rem > div);
            q + 1
        } else {
            assert(2 * rem == div);
            if q % 2 == 0 {
                q
            } else {
                q + 1
            }
        };
        proof {
            lemma_pow10_pos(19);
            assert((n as nat) <= (u64::MAX as nat) * pow10(19)) by (nonlinear_arith)
                requires
                    n as nat <= u64::MAX as nat,
                    pow10(19) >= 1,
            ;
        }
        n as u128
    }
}

} // verus!
