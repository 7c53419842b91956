use vstd::prelude::*;
use vstd::string::{StrSliceExecFns, StringSliceAdditionalSpecFns};
use crate::time::{digit_val, is_digit};

verus! {

/// The widest mantissa a `DecimalValue` may carry, ten to the twenty-seventh.
pub const MANTISSA_LIMIT: i128 = 1000000000000000000000000000;

/// An exact decimal number: `mantissa / 10^scale`.
///
/// Currency amounts are parsed from text such as `1.50` and summed without
/// rounding. The scale is capped at nine fractional digits and the mantissa
/// at `MANTISSA_LIMIT`; operations that would leave that range say so
/// instead of wrapping.
#[derive(Debug, Clone, Copy, PartialEq, Eq, Hash, Structural)]
pub struct DecimalValue {
    pub mantissa: i128,
    pub scale: u32,
}

pub open spec fn pow10(n: int) -> int
    decreases n,
{
    if n <= 0 {
        1
    } else {
        10 * pow10(n - 1)
    }
}

proof fn lemma_pow10_le(a: int, b: int)
    requires
        0 <= a <= b,
    ensures
        1 <= pow10(a) <= pow10(b),
    decreases b,
{
    if b > 0 {
        if a == b {
            lemma_pow10_le(0, a - 1);
        } else {
            lemma_pow10_le(a, b - 1);
        }
    }
}

pub open spec fn all_digits(s: Seq<u8>) -> bool {
    forall|i: int| 0 <= i < s.len() ==> is_digit(#[trigger] s[i])
}

/// The number the digit bytes spell, most significant first.
pub open spec fn digits_val(s: Seq<u8>) -> int
    decreases s.len(),
{
    if s.len() == 0 {
        0
    } else {
        digits_val(s.drop_last()) * 10 + digit_val(s.last())
    }
}

/// The index of the first `.` byte, or the length if there is none.
pub open spec fn find_dot(s: Seq<u8>) -> int
    decreases s.len(),
{
    if s.len() == 0 {
        0
    } else if s[0] == 46 {
        0
    } else {
        1 + find_dot(s.skip(1))
    }
}

proof fn lemma_find_dot_le(s: Seq<u8>)
    ensures
        0 <= find_dot(s) <= s.len(),
    decreases s.len(),
{
    if s.len() > 0 && s[0] != 46 {
        lemma_find_dot_le(s.skip(1));
    }
}

proof fn lemma_find_dot_ge(s: Seq<u8>, i: int)
    requires
        0 <= i <= s.len(),
        forall|k: int| 0 <= k < i ==> s[k] != 46,
    ensures
        find_dot(s) >= i,
    decreases i,
{
    if i > 0 {
        assert(s[0] != 46);
        assert forall|k: int| 0 <= k < i - 1 implies s.skip(1)[k] != 46 by {
            assert(s.skip(1)[k] == s[k + 1]);
        }
        lemma_find_dot_ge(s.skip(1), i - 1);
    } else {
        lemma_find_dot_le(s);
    }
}

proof fn lemma_find_dot_eq(s: Seq<u8>, i: int)
    requires
        0 <= i <= s.len(),
        forall|k: int| 0 <= k < i ==> s[k] != 46,
        i == s.len() || s[i] == 46,
    ensures
        find_dot(s) == i,
    decreases i,
{
    if i == 0 {
        if s.len() > 0 {
            assert(s[0] == 46);
        }
    } else {
        assert(s[0] != 46);
        assert forall|k: int| 0 <= k < i - 1 implies s.skip(1)[k] != 46 by {
            assert(s.skip(1)[k] == s[k + 1]);
        }
        if i < s.len() {
            assert(s.skip(1)[i - 1] == s[i]);
        }
        lemma_find_dot_eq(s.skip(1), i - 1);
    }
}

/// Whether the text carries a leading sign byte.
pub open spec fn dec_sign_len(s: Seq<u8>) -> int {
    if s.len() > 0 && (s[0] == 43 || s[0] == 45) {
        1
    } else {
        0
    }
}

pub open spec fn dec_is_neg(s: Seq<u8>) -> bool {
    s.len() > 0 && s[0] == 45
}

/// What parsing decimal text yields: an optional sign, at most eighteen
/// integer digits, and optionally a dot followed by one to nine fractional
/// digits. The scale is the number of fractional digits; nothing else is
/// accepted.
pub open spec fn spec_parse_decimal(s: Seq<u8>) -> Option<DecimalValue> {
    let body = s.skip(dec_sign_len(s));
    let dot = find_dot(body);
    let ip = body.take(dot);
    let fp = if dot < body.len() {
        body.skip(dot + 1)
    } else {
        Seq::<u8>::empty()
    };
    if 1 <= ip.len() <= 18 && all_digits(ip) && (dot == body.len() || (1 <= fp.len() <= 9
        && all_digits(fp))) {
        Some(
            (DecimalValue {
                mantissa: ((if dec_is_neg(s) {
                    -1int
                } else {
                    1int
                }) * (digits_val(ip) * pow10(fp.len() as int) + digits_val(fp))) as i128,
                scale: fp.len() as u32,
            }),
        )
    } else {
        None
    }
}

/// Ten to the given power, for exponents up to nine.
pub fn pow10_i128(e: u32) -> (r: i128)
    requires
        e <= 9,
    ensures
        r == pow10(e as int),
        1 <= r <= 1000000000,
{
    let mut r: i128 = 1;
    let mut k: u32 = 0;
    proof {
        lemma_pow10_le(e as int, 9);
        assert(pow10(9) == 1000000000) by {
            reveal_with_fuel(pow10, 10);
        }
    }
    while k < e
        invariant
            k <= e <= 9,
            r == pow10(k as int),
            pow10(e as int) <= 1000000000,
        decreases e - k,
    {
        proof {
            lemma_pow10_le(k as int + 1, e as int);
        }
        r = r * 10;
        k = k + 1;
    }
    r
}

impl DecimalValue {
    /// The mantissa stays within `MANTISSA_LIMIT` and the scale within nine.
    pub open spec fn wf(self) -> bool {
        &&& self.scale <= 9
        &&& -MANTISSA_LIMIT <= self.mantissa <= MANTISSA_LIMIT
    }

    /// An exact zero, at scale zero.
    pub fn zero() -> (r: DecimalValue)
        ensures
            r == (DecimalValue { mantissa: 0, scale: 0 as u32 }),
            r.wf(),
    {
        DecimalValue { mantissa: 0, scale: 0 }
    }

    /// The common scale two summands are brought to: the larger of the two.
    pub open spec fn spec_add_scale(self, other: DecimalValue) -> int {
        if self.scale >= other.scale {
            self.scale as int
        } else {
            other.scale as int
        }
    }

    /// The exact mantissa of the sum at the common scale.
    pub open spec fn spec_add_mantissa(self, other: DecimalValue) -> int {
        self.mantissa * pow10(self.spec_add_scale(other) - self.scale) + other.mantissa * pow10(
            self.spec_add_scale(other) - other.scale,
        )
    }

    /// Adds exactly at the larger of the two scales; reports overflow past
    /// `MANTISSA_LIMIT` instead of wrapping.
    pub fn checked_add(self, other: DecimalValue) -> (r: Option<DecimalValue>)
        requires
            self.wf(),
            other.wf(),
        ensures
            match r {
                Some(d) => {
                    &&& d.wf()
                    &&& d.scale == self.spec_add_scale(other)
                    &&& d.mantissa == self.spec_add_mantissa(other)
                },
                None => !(-MANTISSA_LIMIT <= self.spec_add_mantissa(other) <= MANTISSA_LIMIT),
            },
    {
        let scale: u32 = if self.scale >= other.scale {
            self.scale
        } else {
            other.scale
        };
        let fa = pow10_i128(scale - self.scale);
        let fb = pow10_i128(scale - other.scale);
        proof {
            assert(self.mantissa * fa <= 1000000000000000000000000000000000000 && self.mantissa
                * fa >= -1000000000000000000000000000000000000) by (nonlinear_arith)
                requires
                    -MANTISSA_LIMIT <= self.mantissa <= MANTISSA_LIMIT,
                    1 <= fa <= 1000000000,
            ;
            assert(other.mantissa * fb <= 1000000000000000000000000000000000000 && other.mantissa
                * fb >= -1000000000000000000000000000000000000) by (nonlinear_arith)
                requires
                    -MANTISSA_LIMIT <= other.mantissa <= MANTISSA_LIMIT,
                    1 <= fb <= 1000000000,
            ;
        }
        let am = self.mantissa * fa;
        let bm = other.mantissa * fb;
        let sum = am + bm;
        if sum > MANTISSA_LIMIT || sum < -MANTISSA_LIMIT {
            None
        } else {
            Some(DecimalValue { mantissa: sum, scale })
        }
    }

    /// Multiplies the amount by a whole quantity, keeping the scale;
    /// reports overflow past `MANTISSA_LIMIT` instead of wrapping.
    pub fn checked_mul_u32(self, q: u32) -> (r: Option<DecimalValue>)
        requires
            self.wf(),
        ensures
            match r {
                Some(d) => {
                    &&& d.wf()
                    &&& d.scale == self.scale
                    &&& d.mantissa == self.mantissa * q
                },
                None => !(-MANTISSA_LIMIT <= self.mantissa * q <= MANTISSA_LIMIT),
            },
    {
        proof {
            assert(self.mantissa * (q as i128) <= 5000000000000000000000000000000000000
                && self.mantissa * (q as i128) >= -5000000000000000000000000000000000000)
                by (nonlinear_arith)
                requires
                    -MANTISSA_LIMIT <= self.mantissa <= MANTISSA_LIMIT,
                    0 <= (q as i128) <= 4294967295,
            ;
        }
        let m = self.mantissa * (q as i128);
        if m > MANTISSA_LIMIT || m < -MANTISSA_LIMIT {
            None
        } else {
            Some(DecimalValue { mantissa: m, scale: self.scale })
        }
    }

    /// Reads decimal text such as `1.50`, `-3`, or `+0.125`.
    pub fn from_str(s: &str) -> (r: Option<DecimalValue>)
        ensures
            r == spec_parse_decimal(s.spec_bytes()),
            r is Some ==> r.unwrap().wf(),
    {
        let bytes: Vec<u8> = s.as_bytes_vec();
        let n = bytes.len();
        let mut i: usize = 0;
        let mut neg = false;
        if n > 0 && (bytes[0] == 43 || bytes[0] == 45) {
            neg = bytes[0] == 45;
            i = 1;
        }
        let ghost body = bytes@.skip(dec_sign_len(bytes@));
        let start = i;
        assert(start == dec_sign_len(bytes@));
        assert(body =~= bytes@.skip(start as int));
        let mut acc: u64 = 0;
        while i < n && bytes[i] != 46
            invariant
                bytes@ == s.spec_bytes(),
                n == bytes@.len(),
                body == bytes@.skip(start as int),
                start <= i <= n,
                start == dec_sign_len(bytes@),
                forall|k: int|
                    start <= k < i ==> is_digit(#[trigger] bytes@[k]) && bytes@[k] != 46,
                acc == digits_val(bytes@.subrange(start as int, i as int)),
                i - start <= 18,
                acc < pow10(i - start),
            decreases n - i,
        {
            let b = bytes[i];
            proof {
                lemma_find_dot_le(body);
                assert forall|k: int| 0 <= k < i - start implies body[k] != 46 by {
                    assert(body[k] == bytes@[k + start]);
                }
                assert(body[i - start] == bytes@[i as int]);
                lemma_find_dot_ge(body, i - start + 1);
            }
            if !(b >= 48 && b <= 57) {
                // Not a digit and not a dot: the integer part is malformed.
                proof {
                    let dot = find_dot(body);
                    let ip = body.take(dot);
                    assert(ip[i - start] == body[i - start]);
                    assert(!is_digit(ip[i - start]));
                }
                return None;
            }
            if i - start >= 18 {
                // A nineteenth integer digit: past the supported width.
                proof {
                    assert(body.take(find_dot(body)).len() > 18);
                }
                return None;
            }
            proof {
                lemma_pow10_le(i - start, 18);
                assert(pow10(18) == 1000000000000000000) by {
                    reveal_with_fuel(pow10, 19);
                }
                let pref = bytes@.subrange(start as int, i as int);
                let next = bytes@.subrange(start as int, i + 1 as int);
                assert(next.drop_last() =~= pref);
                assert(next.last() == bytes@[i as int]);
                assert(acc * 10 + digit_val(bytes@[i as int]) < pow10(i - start + 1))
                    by (nonlinear_arith)
                    requires
                        acc < pow10(i - start),
                        0 <= digit_val(bytes@[i as int]) < 10,
                        pow10(i - start + 1) == 10 * pow10(i - start),
                ;
            }
            acc = acc * 10 + ((b - 48) as u64);
            i = i + 1;
        }
        let int_len = i - start;
        if int_len == 0 {
            proof {
                lemma_find_dot_eq(body, 0);
            }
            return None;
        }
        proof {
            assert forall|k: int| 0 <= k < i - start implies body[k] != 46 by {
                assert(body[k] == bytes@[k + start]);
            }
            if i < n {
                assert(body[i - start] == bytes@[i as int]);
            }
            lemma_find_dot_eq(body, i - start);
            assert(body.take(i - start) =~= bytes@.subrange(start as int, i as int));
            let ip = body.take(i - start);
            assert forall|k: int| 0 <= k < ip.len() implies is_digit(ip[k]) by {
                assert(ip[k] == bytes@[k + start]);
            }
        }
        if i == n {
            // No fractional part.
            proof {
                lemma_pow10_le(int_len as int, 18);
                assert(pow10(18) == 1000000000000000000) by {
                    reveal_with_fuel(pow10, 19);
                }
            }
            let m: i128 = acc as i128;
            let mantissa: i128 = if neg {
                -m
            } else {
                m
            };
            proof {
                let ss = s.spec_bytes();
                let dot = find_dot(body);
                assert(dot == i - start);
                assert(dot == body.len());
                let ip = body.take(dot);
                assert(ip =~= bytes@.subrange(start as int, i as int));
                assert(digits_val(ip) == acc);
                assert(neg == dec_is_neg(ss));
                assert(pow10(0) == 1);
                assert(digits_val(Seq::<u8>::empty()) == 0);
                assert(spec_parse_decimal(ss) is Some);
                assert((if dec_is_neg(ss) {
                    -1int
                } else {
                    1int
                }) * (digits_val(ip) * 1 + 0) == mantissa as int);
                assert(spec_parse_decimal(ss).unwrap().mantissa == mantissa);
            }
            return Some(DecimalValue { mantissa, scale: 0 });
        }
        // bytes[i] is the dot; fractional digits follow.
        let fstart = i + 1;
        let mut j: usize = fstart;
        let mut facc: u64 = 0;
        while j < n
            invariant
                bytes@ == s.spec_bytes(),
                n == bytes@.len(),
                body == bytes@.skip(start as int),
                start == dec_sign_len(bytes@),
                start <= i < n,
                bytes@[i as int] == 46,
                find_dot(body) == i - start,
                fstart == i + 1,
                fstart <= j <= n,
                forall|k: int| fstart <= k < j ==> is_digit(#[trigger] bytes@[k]),
                facc == digits_val(bytes@.subrange(fstart as int, j as int)),
                j - fstart <= 9,
                facc < pow10(j - fstart),
            decreases n - j,
        {
            let b = bytes[j];
            if !(b >= 48 && b <= 57) {
                proof {
                    let fp = body.skip(i - start + 1);
                    assert(fp[j - fstart] == body[j - start]);
                    assert(body[j - start] == bytes@[j as int]);
                    assert(!is_digit(fp[j - fstart]));
                }
                return None;
            }
            if j - fstart >= 9 {
                proof {
                    assert(body.skip(i - start + 1).len() > 9);
                }
                return None;
            }
            proof {
                lemma_pow10_le(j - fstart, 9);
                assert(pow10(9) == 1000000000) by {
                    reveal_with_fuel(pow10, 10);
                }
                let pref = bytes@.subrange(fstart as int, j as int);
                let next = bytes@.subrange(fstart as int, j + 1 as int);
                assert(next.drop_last() =~= pref);
                assert(next.last() == bytes@[j as int]);
                assert(facc * 10 + digit_val(bytes@[j as int]) < pow10(j - fstart + 1))
                    by (nonlinear_arith)
                    requires
                        facc < pow10(j - fstart),
                        0 <= digit_val(bytes@[j as int]) < 10,
                        pow10(j - fstart + 1) == 10 * pow10(j - fstart),
                ;
            }
            facc = facc * 10 + ((b - 48) as u64);
            j = j + 1;
        }
        let frac_len = j - fstart;
        if frac_len == 0 {
            return None;
        }
        proof {
            let fp = body.skip(i - start + 1);
            assert(fp =~= bytes@.subrange(fstart as int, n as int));
            assert forall|k: int| 0 <= k < fp.len() implies is_digit(fp[k]) by {
                assert(fp[k] == bytes@[k + fstart]);
            }
            lemma_pow10_le(int_len as int, 18);
            lemma_pow10_le(frac_len as int, 9);
            assert(pow10(18) == 1000000000000000000) by {
                reveal_with_fuel(pow10, 19);
            }
            assert(pow10(9) == 1000000000) by {
                reveal_with_fuel(pow10, 10);
            }
            assert((acc as int) * pow10(frac_len as int) + (facc as int)
                < 1000000000000000000000000000) by (nonlinear_arith)
                requires
                    0 <= (acc as int) < 1000000000000000000,
                    0 <= (facc as int) < pow10(frac_len as int),
                    1 <= pow10(frac_len as int) <= 1000000000,
            ;
        }
        let pw = pow10_i128(frac_len as u32);
        let m: i128 = (acc as i128) * pw + (facc as i128);
        let mantissa: i128 = if neg {
            -m
        } else {
            m
        };
        proof {
            assert(pw == pow10(frac_len as int));
            assert(m == (acc as i128) * pw + (facc as i128));
            assert((acc as i128) * pw == (acc as int) * pow10(frac_len as int));
            let ss = s.spec_bytes();
            let dot = find_dot(body);
            assert(dot == i - start);
            let ip = body.take(dot);
            let fp = body.skip(dot + 1);
            assert(ip =~= bytes@.subrange(start as int, i as int));
            assert(digits_val(ip) == acc);
            assert(fp =~= bytes@.subrange(fstart as int, n as int));
            assert(digits_val(fp) == facc);
            assert(fp.len() == frac_len);
            assert(neg == dec_is_neg(ss));
            assert(spec_parse_decimal(ss) is Some);
            let v = digits_val(ip) * pow10(frac_len as int) + digits_val(fp);
            assert(v == m as int);
            if dec_is_neg(ss) {
                assert(mantissa as int == -v);
                assert((-1int) * v == -v) by (nonlinear_arith);
            } else {
                assert(mantissa as int == v);
                assert((1int) * v == v) by (nonlinear_arith);
            }
            assert(spec_parse_decimal(ss).unwrap().mantissa == mantissa);
            assert(spec_parse_decimal(ss).unwrap().scale == frac_len as u32);
        }
        Some(DecimalValue { mantissa, scale: frac_len as u32 })
    }
}

} // verus!
