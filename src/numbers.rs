//! Numbers read from text: signed decimal integers and exact decimal fractions.
use vstd::prelude::*;

verus! {

/// The largest magnitude that a signed 64-bit integer can take (that of `i64::MIN`).
pub const MAGNITUDE_LIMIT: u64 = 0x8000_0000_0000_0000;

pub open spec fn is_digit(c: char) -> bool {
    '0' <= c && c <= '9'
}

pub open spec fn digit_value(c: char) -> int {
    c as int - '0' as int
}

pub open spec fn all_digits(s: Seq<char>) -> bool {
    forall|i: int| 0 <= i < s.len() ==> #[trigger] is_digit(s[i])
}

/// The value of a string of decimal digits, most significant first.
pub open spec fn digits_value(s: Seq<char>) -> int
    decreases s.len(),
{
    if s.len() == 0 {
        0
    } else {
        digits_value(s.drop_last()) * 10 + digit_value(s.last())
    }
}

/// Length of the leading sign, if any.
pub open spec fn sign_len(s: Seq<char>) -> int {
    if s.len() > 0 && (s[0] == '+' || s[0] == '-') {
        1
    } else {
        0
    }
}

pub open spec fn with_sign(s: Seq<char>, magnitude: int) -> int {
    if s.len() > 0 && s[0] == '-' {
        -magnitude
    } else {
        magnitude
    }
}

pub open spec fn fits_i64(v: int) -> bool {
    i64::MIN <= v <= i64::MAX
}

/// The integer that `s` writes: an optional `+` or `-`, then one digit or more.
pub open spec fn int_text(s: Seq<char>) -> Option<int> {
    let body = s.skip(sign_len(s));
    if body.len() > 0 && all_digits(body) {
        Some(with_sign(s, digits_value(body)))
    } else {
        None
    }
}

/// Number of characters before the first `a` or `z` (the whole length if
/// there is none).
pub open spec fn first_of(s: Seq<char>, a: char, z: char) -> int
    decreases s.len(),
{
    if s.len() == 0 || s[0] == a || s[0] == z {
        0
    } else {
        1 + first_of(s.skip(1), a, z)
    }
}

/// Number of characters before the first `.`.
pub open spec fn dot_index(s: Seq<char>) -> int {
    first_of(s, '.', '.')
}

/// Number of characters before the exponent marker `e` or `E`.
pub open spec fn exponent_index(s: Seq<char>) -> int {
    first_of(s, 'e', 'E')
}

/// The digits before the point.
pub open spec fn whole_part(b: Seq<char>) -> Seq<char> {
    b.take(dot_index(b))
}

/// The digits after the point (none where there is no point).
pub open spec fn fraction_part(b: Seq<char>) -> Seq<char> {
    if dot_index(b) < b.len() {
        b.skip(dot_index(b) + 1)
    } else {
        Seq::empty()
    }
}

/// The part before the exponent marker.
pub open spec fn significand(b: Seq<char>) -> Seq<char> {
    b.take(exponent_index(b))
}

/// The exponent: 0 where there is no marker, else the integer after it
/// (where that is an integer that fits in an `i64`).
pub open spec fn exponent_value(b: Seq<char>) -> Option<int> {
    if exponent_index(b) < b.len() {
        match int_of(b.skip(exponent_index(b) + 1)) {
            Some(v) => Some(v as int),
            None => None,
        }
    } else {
        Some(0)
    }
}

/// The decimal that `s` writes, as (mantissa, scale) with value
/// mantissa / 10^scale: an optional sign, digits with at most one point and at
/// least one digit, and optionally `e` or `E` followed by an integer exponent.
pub open spec fn decimal_text(s: Seq<char>) -> Option<(int, int)> {
    let b = s.skip(sign_len(s));
    let m = significand(b);
    let digits = whole_part(m) + fraction_part(m);
    if digits.len() > 0 && all_digits(digits) && exponent_value(b).is_some() {
        Some(
            (
                with_sign(s, digits_value(digits)),
                fraction_part(m).len() - exponent_value(b).unwrap(),
            ),
        )
    } else {
        None
    }
}

/// The integer that `s` writes, where it fits in an `i64`.
pub open spec fn int_of(s: Seq<char>) -> Option<i64> {
    if int_text(s).is_some() && fits_i64(int_text(s).unwrap()) {
        Some(int_text(s).unwrap() as i64)
    } else {
        None
    }
}

/// The decimal that `s` writes, as a `Decimal` where one holds it: the
/// mantissa and the scale must each fit in an `i64`.
pub open spec fn decimal_of(s: Seq<char>) -> Option<Decimal> {
    match decimal_text(s) {
        None => None,
        Some((m, sc)) => decimal_value(m, sc),
    }
}

/// The `Decimal` of `m / 10^sc`, where both fit in an `i64`.
pub open spec fn decimal_value(m: int, sc: int) -> Option<Decimal> {
    if fits_i64(m) && fits_i64(sc) {
        Some(Decimal { mantissa: m as i64, scale: sc as i64 })
    } else {
        None
    }
}

pub open spec fn pow10(n: nat) -> int
    decreases n,
{
    if n == 0 {
        1
    } else {
        10 * pow10((n - 1) as nat)
    }
}

/// An exact decimal number: `mantissa / 10^scale`, where a negative scale
/// multiplies by a power of ten. It keeps the digits as written: `1e3` is
/// mantissa 1 and scale -3.
#[derive(Clone, Copy, Debug, PartialEq, Eq)]
pub struct Decimal {
    pub mantissa: i64,
    pub scale: i64,
}

/// -1, 0 or 1 as `v` is below, at or above zero.
pub open spec fn sign_of(v: int) -> i8 {
    if v < 0 {
        -1i8
    } else if v == 0 {
        0i8
    } else {
        1i8
    }
}

/// Bound on the magnitude of `factor` in `Decimal::compare_scaled`.
pub const FACTOR_LIMIT: i128 = 0x8000_0000_0000_0001;

impl Decimal {
    /// The sign of `self * factor - 1`.
    pub open spec fn scaled_sign(self, factor: int) -> i8 {
        if self.scale >= 0 {
            sign_of(self.mantissa * factor - pow10(self.scale as nat))
        } else {
            sign_of(self.mantissa * factor * pow10((-self.scale) as nat) - 1)
        }
    }

    /// Compares `self * factor` with 1: -1 below, 0 equal, 1 above.
    pub fn compare_scaled(&self, factor: i128) -> (r: i8)
        requires
            -FACTOR_LIMIT <= factor <= FACTOR_LIMIT,
        ensures
            r == self.scaled_sign(factor as int),
    {
        let a: i128 = self.mantissa as i128;
        assert(-0x8000_0000_0000_0000 <= a < 0x8000_0000_0000_0000);
        assert(-0x4000_0000_0000_0000_8000_0000_0000_0000 <= a * factor
            <= 0x4000_0000_0000_0000_8000_0000_0000_0000) by (nonlinear_arith)
            requires
                -0x8000_0000_0000_0000 <= a <= 0x8000_0000_0000_0000,
                -FACTOR_LIMIT <= factor <= FACTOR_LIMIT,
        ;
        let product: i128 = a * factor;
        if self.scale < 0 {
            proof {
                let q = pow10((-self.scale) as nat);
                lemma_pow10_monotone(1, (-self.scale) as nat);
                assert(pow10(1) == 10 * pow10(0));
                assert(product <= 0 ==> product * q <= 0) by (nonlinear_arith)
                    requires
                        q >= 10,
                ;
                assert(product >= 1 ==> product * q >= 10) by (nonlinear_arith)
                    requires
                        q >= 10,
                ;
            }
            return if product <= 0 {
                -1
            } else {
                1
            };
        }
        proof {
            lemma_pow10_38();
        }
        if self.scale >= 38 {
            proof {
                lemma_pow10_monotone(38, self.scale as nat);
            }
            return -1;
        }
        let mut p: i128 = 1;
        let mut i: i64 = 0;
        proof {
            lemma_pow10_monotone(self.scale as nat, 38);
        }
        while i < self.scale
            invariant
                0 <= i <= self.scale < 38,
                p == pow10(i as nat),
                pow10(self.scale as nat) <= pow10(38),
                pow10(38) == 100_000_000_000_000_000_000_000_000_000_000_000_000,
            decreases self.scale - i,
        {
            proof {
                lemma_pow10_monotone((i + 1) as nat, self.scale as nat);
            }
            p = p * 10;
            i = i + 1;
        }
        if product < p {
            -1
        } else if product == p {
            0
        } else {
            1
        }
    }
}

pub proof fn lemma_pow10_monotone(a: nat, b: nat)
    requires
        a <= b,
    ensures
        1 <= pow10(a) <= pow10(b),
    decreases b,
{
    if b > a {
        lemma_pow10_monotone(a, (b - 1) as nat);
    } else if a > 0 {
        lemma_pow10_monotone((a - 1) as nat, (a - 1) as nat);
    }
}

proof fn lemma_pow10_38()
    ensures
        pow10(38) == 100_000_000_000_000_000_000_000_000_000_000_000_000,
{
    reveal_with_fuel(pow10, 39);
}

/// The characters of `s` from `start` to `end`, with the one at `dot` left out
/// where `dot < end`.
pub open spec fn joined(s: Seq<char>, start: int, dot: int, end: int) -> Seq<char> {
    if dot < end {
        s.subrange(start, dot) + s.subrange(dot + 1, end)
    } else {
        s.subrange(start, end)
    }
}

pub proof fn lemma_digits_value_nonneg(s: Seq<char>)
    requires
        all_digits(s),
    ensures
        digits_value(s) >= 0,
    decreases s.len(),
{
    if s.len() > 0 {
        assert(is_digit(s[s.len() - 1]));
        lemma_digits_value_nonneg(s.drop_last());
    }
}

/// A string of digits is worth at least as much as any of its prefixes.
pub proof fn lemma_digits_value_prefix(s: Seq<char>, k: int)
    requires
        all_digits(s),
        0 <= k <= s.len(),
    ensures
        digits_value(s.take(k)) <= digits_value(s),
    decreases s.len(),
{
    if k < s.len() {
        assert(is_digit(s[s.len() - 1]));
        lemma_digits_value_nonneg(s.drop_last());
        assert(s.drop_last().take(k) =~= s.take(k));
        lemma_digits_value_prefix(s.drop_last(), k);
    } else {
        assert(s.take(k) =~= s);
    }
}

/// Reads the digits of `joined(s, start, dot, end)` into their value, or
/// `None` where one is not a digit or the value exceeds `MAGNITUDE_LIMIT`.
fn magnitude(s: &str, start: usize, dot: usize, end: usize) -> (r: Option<u64>)
    requires
        start <= dot <= end <= s@.len(),
    ensures
        r.is_some() <==> (all_digits(joined(s@, start as int, dot as int, end as int))
            && digits_value(joined(s@, start as int, dot as int, end as int))
            <= MAGNITUDE_LIMIT),
        r.is_some() ==> r.unwrap() == digits_value(
            joined(s@, start as int, dot as int, end as int),
        ),
{
    let ghost d = joined(s@, start as int, dot as int, end as int);
    let total: usize = if dot < end {
        end - start - 1
    } else {
        end - start
    };
    let mut mag: u64 = 0;
    let mut k: usize = 0;
    assert(d.take(0) =~= Seq::<char>::empty());
    while k < total
        invariant
            start <= dot <= end <= s@.len(),
            d == joined(s@, start as int, dot as int, end as int),
            total == d.len(),
            k <= total,
            all_digits(d.take(k as int)),
            mag == digits_value(d.take(k as int)),
            mag <= MAGNITUDE_LIMIT,
        decreases total - k,
    {
        let pos: usize = if k < dot - start {
            start + k
        } else {
            start + k + 1
        };
        let c = s.get_char(pos);
        assert(c == d[k as int]);
        if !('0' <= c && c <= '9') {
            assert(!is_digit(d[k as int]));
            return None;
        }
        let v: u64 = (c as u32 - '0' as u32) as u64;
        assert(d.take(k as int + 1).drop_last() =~= d.take(k as int));
        assert(d.take(k as int + 1).last() == c);
        if mag > (MAGNITUDE_LIMIT - v) / 10 {
            proof {
                if all_digits(d) {
                    lemma_digits_value_prefix(d, k as int + 1);
                }
            }
            return None;
        }
        mag = mag * 10 + v;
        k = k + 1;
        assert(all_digits(d.take(k as int))) by {
            assert forall|i: int| 0 <= i < k as int implies #[trigger] is_digit(
                d.take(k as int)[i],
            ) by {
                if i < k as int - 1 {
                    assert(d.take(k as int)[i] == d.take(k as int - 1)[i]);
                }
            }
        }
    }
    assert(d.take(total as int) =~= d);
    Some(mag)
}

/// Length of the sign that starts `s` (0 or 1).
fn sign_length(s: &str, len: usize) -> (r: usize)
    requires
        len == s@.len(),
    ensures
        r == sign_len(s@),
{
    if len > 0 {
        let c = s.get_char(0);
        if c == '+' || c == '-' {
            return 1;
        }
    }
    0
}

fn is_negative(s: &str, len: usize) -> (r: bool)
    requires
        len == s@.len(),
    ensures
        r == (s@.len() > 0 && s@[0] == '-'),
{
    len > 0 && s.get_char(0) == '-'
}

/// Reads a signed decimal integer.
///
/// Returns the integer that `s` writes, or `None` where `s` is not an optional
/// sign followed by digits, or the value does not fit in an `i64`.
pub fn parse_int(s: &str) -> (r: Option<i64>)
    ensures
        r == int_of(s@),
{
    let len = s.unicode_len();
    let off = sign_length(s, len);
    let neg = is_negative(s, len);
    let ghost body = s@.skip(off as int);
    if off == len {
        return None;
    }
    assert(joined(s@, off as int, len as int, len as int) =~= body);
    match magnitude(s, off, len, len) {
        None => {
            proof {
                if all_digits(body) {
                    lemma_digits_value_nonneg(body);
                }
            }
            None
        },
        Some(m) => {
            if neg {
                if m == MAGNITUDE_LIMIT {
                    Some(i64::MIN)
                } else {
                    Some(-(m as i64))
                }
            } else if m <= i64::MAX as u64 {
                Some(m as i64)
            } else {
                None
            }
        },
    }
}

proof fn lemma_first_of(b: Seq<char>, a: char, z: char, p: int)
    requires
        0 <= p <= b.len(),
        forall|j: int| 0 <= j < p ==> b[j] != a && b[j] != z,
        p == b.len() || b[p] == a || b[p] == z,
    ensures
        first_of(b, a, z) == p,
    decreases b.len(),
{
    if b.len() > 0 && b[0] != a && b[0] != z {
        let t = b.skip(1);
        assert forall|j: int| 0 <= j < p - 1 implies t[j] != a && t[j] != z by {
            assert(t[j] == b[j + 1]);
        }
        if p - 1 < t.len() {
            assert(t[p - 1] == b[p]);
        }
        lemma_first_of(t, a, z, p - 1);
    }
}

/// Position of the first `a` or `z` in `from..to`, or `to` where there is none.
fn find_first(s: &str, from: usize, to: usize, a: char, z: char) -> (r: usize)
    requires
        from <= to <= s@.len(),
    ensures
        from <= r <= to,
        r == from + first_of(s@.subrange(from as int, to as int), a, z),
{
    let mut i = from;
    while i < to
        invariant
            from <= i <= to <= s@.len(),
            forall|j: int| from <= j < i ==> s@[j] != a && s@[j] != z,
        ensures
            from <= i <= to,
            forall|j: int| from <= j < i ==> s@[j] != a && s@[j] != z,
            i < to ==> (s@[i as int] == a || s@[i as int] == z),
        decreases to - i,
    {
        let c = s.get_char(i);
        if c == a || c == z {
            break;
        }
        i = i + 1;
    }
    proof {
        let b = s@.subrange(from as int, to as int);
        assert forall|j: int| 0 <= j < i - from implies b[j] != a && b[j] != z by {
            assert(b[j] == s@[from + j]);
        }
        if i < to {
            assert(b[i - from] == s@[i as int]);
        }
        lemma_first_of(b, a, z, i - from);
    }
    i
}

/// Reads an exact decimal number.
///
/// Returns the decimal that `s` writes (see `decimal_text` and `decimal_of`),
/// or `None` where `s` is not of that form or the value has no `Decimal`
/// (its mantissa or its scale does not fit in an `i64`).
#[verifier::rlimit(50)]
pub fn parse_decimal(s: &str) -> (r: Option<Decimal>)
    ensures
        r == decimal_of(s@),
{
    let len = s.unicode_len();
    let off = sign_length(s, len);
    let neg = is_negative(s, len);
    let e = find_first(s, off, len, 'e', 'E');
    let dot = find_first(s, off, e, '.', '.');
    let ghost b = s@.skip(off as int);
    let ghost m = significand(b);
    assert(s@.subrange(off as int, len as int) =~= b);
    assert(s@.subrange(off as int, e as int) =~= m);
    let ghost digits = whole_part(m) + fraction_part(m);
    assert(joined(s@, off as int, dot as int, e as int) =~= digits);
    let exponent: i64 = if e < len {
        let t = s.substring_char(e + 1, len);
        assert(t@ =~= b.skip(exponent_index(b) + 1));
        match parse_int(t) {
            Some(v) => v,
            None => {
                assert(exponent_value(b).is_none());
                assert(decimal_text(s@).is_none());
                return None;
            },
        }
    } else {
        0
    };
    assert(exponent_value(b) == Some(exponent as int));
    let frac: usize = if dot < e {
        e - dot - 1
    } else {
        0
    };
    assert(frac == fraction_part(m).len());
    if (dot == e && off == e) || (dot < e && off == e - 1) {
        assert(digits.len() == 0);
        return None;
    }
    let mag = match magnitude(s, off, dot, e) {
        None => {
            proof {
                if all_digits(digits) {
                    lemma_digits_value_nonneg(digits);
                }
            }
            return None;
        },
        Some(v) => v,
    };
    let mantissa: i128 = if neg {
        -(mag as i128)
    } else {
        mag as i128
    };
    let scale: i128 = frac as i128 - exponent as i128;
    assert(decimal_text(s@) == Some((mantissa as int, scale as int)));
    if mantissa < i64::MIN as i128 || mantissa > i64::MAX as i128 || scale < i64::MIN as i128
        || scale > i64::MAX as i128 {
        return None;
    }
    Some(Decimal { mantissa: mantissa as i64, scale: scale as i64 })
}

} // verus!
