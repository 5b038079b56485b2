//! Exact decimal ratios, as written in telemetry samples and release metadata.

use vstd::prelude::*;
use vstd::string::StrSliceExecFns;

verus! {

pub open spec fn is_digit(c: char) -> bool {
    '0' <= c && c <= '9'
}

pub open spec fn all_digits(d: Seq<char>) -> bool {
    forall|i: int| 0 <= i < d.len() ==> is_digit(#[trigger] d[i])
}

/// The number that a string of decimal digits spells.
pub open spec fn digits_value(d: Seq<char>) -> nat
    decreases d.len(),
{
    if d.len() == 0 {
        0
    } else {
        10 * digits_value(d.drop_last()) + ((d.last() as nat) - ('0' as nat)) as nat
    }
}

pub open spec fn pow10(n: nat) -> nat
    decreases n,
{
    if n == 0 {
        1
    } else {
        10 * pow10((n - 1) as nat)
    }
}

/// `s` is digits, a point at `p`, and digits, with at least one digit in all.
pub open spec fn point_at(s: Seq<char>, p: int) -> bool {
    &&& 0 <= p < s.len()
    &&& s[p] == '.'
    &&& s.len() > 1
    &&& all_digits(s.take(p))
    &&& all_digits(s.skip(p + 1))
}

/// The value of a decimal text such as `42`, `0.8` or `.5`, as `(units, scale)`, meaning
/// `units / 10^scale`. `None` for any other text (signs, exponents, `NaN` included).
pub open spec fn decimal_of(s: Seq<char>) -> Option<(nat, nat)> {
    if s.len() > 0 && all_digits(s) {
        Some((digits_value(s), 0))
    } else if exists|p: int| point_at(s, p) {
        let p = choose|p: int| point_at(s, p);
        Some((digits_value(s.take(p) + s.skip(p + 1)), (s.len() - p - 1) as nat))
    } else {
        None
    }
}

/// The largest scale a `Ratio` holds.
pub const MAX_SCALE: u32 = 19;

/// A non-negative decimal number `units / 10^scale`.
#[derive(Clone, Copy, Debug, PartialEq, Eq, Structural)]
pub struct Ratio {
    pub units: u64,
    pub scale: u32,
}

/// `a > b` as rational numbers.
pub open spec fn exceeds(a: Ratio, b: Ratio) -> bool {
    a.units * pow10(b.scale as nat) > b.units * pow10(a.scale as nat)
}

/// What `parse_ratio` gives for a text.
pub open spec fn ratio_of(s: Seq<char>) -> Option<Ratio> {
    match decimal_of(s) {
        Some(d) => if d.0 <= u64::MAX && d.1 <= MAX_SCALE {
            Some(Ratio { units: d.0 as u64, scale: d.1 as u32 })
        } else {
            None
        },
        None => None,
    }
}

proof fn lemma_pow10_bound(n: nat)
    requires
        n <= 19,
    ensures
        1 <= pow10(n) <= pow10(19),
        pow10(19) == 10000000000000000000,
    decreases 19 - n,
{
    reveal_with_fuel(pow10, 20);
    if n < 19 {
        lemma_pow10_bound(n + 1);
    }
}

proof fn lemma_digits_append(a: Seq<char>, b: Seq<char>)
    ensures
        digits_value(a + b) == digits_value(a) * pow10(b.len()) + digits_value(b),
    decreases b.len(),
{
    if b.len() > 0 {
        assert((a + b).drop_last() =~= a + b.drop_last());
        assert((a + b).last() == b.last());
        lemma_digits_append(a, b.drop_last());
        let x = digits_value(a);
        let y = pow10((b.len() - 1) as nat);
        let v = digits_value(b.drop_last());
        let d = ((b.last() as nat) - ('0' as nat)) as nat;
        assert(digits_value(a + b) == 10 * digits_value(a + b.drop_last()) + d);
        assert(digits_value(b) == 10 * v + d);
        assert(pow10(b.len()) == 10 * y);
        assert(digits_value(a + b.drop_last()) == x * y + v);
        assert(10 * (x * y + v) == x * (10 * y) + 10 * v) by (nonlinear_arith);
        assert(x * pow10(b.len()) == x * (10 * y));
        assert(digits_value(a + b) == x * pow10(b.len()) + digits_value(b));
    } else {
        assert(a + b =~= a);
        assert(pow10(b.len()) == 1);
        assert(digits_value(a) * 1 == digits_value(a));
    }
}

proof fn lemma_digits_grow(a: Seq<char>, b: Seq<char>)
    ensures
        digits_value(a + b) >= digits_value(a),
{
    lemma_digits_append(a, b);
    lemma_pow10_pos(b.len());
    let x = digits_value(a);
    let y = pow10(b.len());
    assert(x * y >= x) by (nonlinear_arith)
        requires
            y >= 1,
    ;
}

proof fn lemma_pow10_pos(n: nat)
    ensures
        pow10(n) >= 1,
    decreases n,
{
    if n > 0 {
        lemma_pow10_pos((n - 1) as nat);
    }
}

/// Only one point can stand in a decimal text.
proof fn lemma_point_unique(s: Seq<char>, p: int, q: int)
    requires
        point_at(s, p),
        0 <= q < s.len(),
        s[q] == '.',
    ensures
        p == q,
{
    if q < p {
        assert(s.take(p)[q] == '.');
    } else if q > p {
        assert(s.skip(p + 1)[q - p - 1] == '.');
    }
}

/// Parses a decimal text into a ratio; `None` when the text is not a decimal, or when it
/// has more than `MAX_SCALE` digits after the point or more units than a `u64` holds.
pub fn parse_ratio(s: &str) -> (r: Option<Ratio>)
    ensures
        r == ratio_of(s@),
        r is Some ==> r->Some_0.wf(),
{
    let n = s.unicode_len();
    let mut i: usize = 0;
    let mut units: u64 = 0;
    let mut point: Option<usize> = None;
    while i < n
        invariant
            n == s@.len(),
            i <= n,
            match point {
                None => all_digits(s@.take(i as int)) && units == digits_value(s@.take(i as int)),
                Some(p) => p < i && s@[p as int] == '.' && all_digits(s@.take(p as int))
                    && all_digits(s@.subrange(p + 1, i as int)) && units == digits_value(
                    s@.take(p as int) + s@.subrange(p + 1, i as int),
                ) && i - p - 1 <= MAX_SCALE,
            },
        decreases n - i,
    {
        let c = s.get_char(i);
        if c == '.' {
            match point {
                Some(p) => {
                    proof {
                        assert(decimal_of(s@) is None) by {
                            assert(!all_digits(s@));
                            if exists|q: int| point_at(s@, q) {
                                let q = choose|q: int| point_at(s@, q);
                                lemma_point_unique(s@, q, p as int);
                                lemma_point_unique(s@, q, i as int);
                            }
                        }
                    }
                    return None;
                },
                None => {
                    proof {
                        assert(s@.subrange(i + 1, i + 1) =~= Seq::<char>::empty());
                        assert(s@.take(i as int) + Seq::<char>::empty() =~= s@.take(i as int));
                    }
                    point = Some(i);
                },
            }
        } else if '0' <= c && c <= '9' {
            let d = (c as u32 - '0' as u32) as u64;
            let ghost before = match point {
                None => s@.take(i as int),
                Some(p) => s@.take(p as int) + s@.subrange(p + 1, i as int),
            };
            let ghost after = match point {
                None => s@.take(i + 1),
                Some(p) => s@.take(p as int) + s@.subrange(p + 1, i + 1),
            };
            proof {
                assert(after.drop_last() =~= before);
                assert(after.last() == c);
            }
            if units > (u64::MAX - d) / 10 {
                proof {
                    assert(digits_value(after) > u64::MAX);
                    match point {
                        None => lemma_too_long(s@, None, i + 1),
                        Some(p) => lemma_too_long(s@, Some(p as int), i + 1),
                    }
                }
                return None;
            }
            match point {
                Some(p) => {
                    if i - p > MAX_SCALE as usize {
                        proof {
                            lemma_too_fine(s@, p as int, i as int);
                        }
                        return None;
                    }
                },
                None => {},
            }
            units = units * 10 + d;
            proof {
                match point {
                    None => {
                        assert forall|k: int| 0 <= k < i + 1 implies is_digit(
                            #[trigger] s@.take(i + 1)[k],
                        ) by {
                            if k < i {
                                assert(s@.take(i + 1)[k] == s@.take(i as int)[k]);
                            }
                        }
                    },
                    Some(p) => {
                        assert forall|k: int| 0 <= k < i - p implies is_digit(
                            #[trigger] s@.subrange(p + 1, i + 1)[k],
                        ) by {
                            if k < i - p - 1 {
                                assert(s@.subrange(p + 1, i + 1)[k] == s@.subrange(p + 1, i as int)[k]);
                            }
                        }
                    },
                }
            }
        } else {
            proof {
                assert(decimal_of(s@) is None) by {
                    assert(!is_digit(s@[i as int]));
                    if exists|q: int| point_at(s@, q) {
                        let q = choose|q: int| point_at(s@, q);
                        if (i as int) < q {
                            assert(s@.take(q)[i as int] == c);
                        } else if (i as int) > q {
                            assert(s@.skip(q + 1)[i - q - 1] == c);
                        }
                    }
                }
            }
            return None;
        }
        i = i + 1;
    }
    match point {
        None => {
            assert(s@.take(n as int) =~= s@);
            if n == 0 {
                return None;
            }
            Some(Ratio { units, scale: 0 })
        },
        Some(p) => {
            assert(s@.subrange(p + 1, n as int) =~= s@.skip(p + 1));
            if n == 1 {
                proof {
                    assert(!all_digits(s@));
                    if exists|q: int| point_at(s@, q) {
                        let q = choose|q: int| point_at(s@, q);
                    }
                }
                return None;
            }
            proof {
                assert(point_at(s@, p as int));
                assert(!all_digits(s@)) by {
                    assert(!is_digit(s@[p as int]));
                }
                let q = choose|q: int| point_at(s@, q);
                lemma_point_unique(s@, p as int, q);
            }
            Some(Ratio { units, scale: (n - p - 1) as u32 })
        },
    }
}

fn power_of_ten(n: u32) -> (r: u128)
    requires
        n <= MAX_SCALE,
    ensures
        r == pow10(n as nat),
{
    let mut r: u128 = 1;
    let mut k: u32 = 0;
    while k < n
        invariant
            k <= n <= MAX_SCALE,
            r == pow10(k as nat),
        decreases n - k,
    {
        proof {
            lemma_pow10_bound((k + 1) as nat);
        }
        r = r * 10;
        k = k + 1;
    }
    r
}

impl Ratio {
    /// The scale is one that a `Ratio` can hold.
    pub open spec fn wf(&self) -> bool {
        self.scale <= MAX_SCALE
    }

    /// Whether this ratio is strictly greater than `other`.
    pub fn exceeds(&self, other: &Ratio) -> (r: bool)
        requires
            self.wf(),
            other.wf(),
        ensures
            r == exceeds(*self, *other),
    {
        let a = power_of_ten(other.scale);
        let b = power_of_ten(self.scale);
        proof {
            lemma_pow10_bound(other.scale as nat);
            lemma_pow10_bound(self.scale as nat);
            let (x, y, p, q) = (self.units as int, other.units as int, a as int, b as int);
            assert(x * p <= 18446744073709551615 * 10000000000000000000) by (nonlinear_arith)
                requires
                    0 <= x <= 18446744073709551615,
                    0 <= p <= 10000000000000000000,
            ;
            assert(y * q <= 18446744073709551615 * 10000000000000000000) by (nonlinear_arith)
                requires
                    0 <= y <= 18446744073709551615,
                    0 <= q <= 10000000000000000000,
            ;
        }
        (self.units as u128) * a > (other.units as u128) * b
    }
}

/// A prefix of the digits already exceeds a `u64`.
proof fn lemma_too_long(s: Seq<char>, point: Option<int>, j: int)
    requires
        match point {
            None => 0 < j <= s.len() && all_digits(s.take(j)) && digits_value(s.take(j)) > u64::MAX,
            Some(p) => 0 <= p < j <= s.len() && s[p] == '.' && all_digits(s.take(p))
                && digits_value(s.take(p) + s.subrange(p + 1, j)) > u64::MAX,
        },
    ensures
        ratio_of(s) is None,
{
    match point {
        None => {
            if all_digits(s) && s.len() > 0 {
                assert(s =~= s.take(j) + s.skip(j));
                lemma_digits_grow(s.take(j), s.skip(j));
            } else if exists|q: int| point_at(s, q) {
                let q = choose|q: int| point_at(s, q);
                if q < j {
                    assert(s.take(j)[q] == '.');
                }
                assert(s.take(q) + s.skip(q + 1) =~= s.take(j) + (s.subrange(j, q) + s.skip(q + 1)));
                lemma_digits_grow(s.take(j), s.subrange(j, q) + s.skip(q + 1));
            }
        },
        Some(p) => {
            assert(!all_digits(s)) by {
                assert(!is_digit(s[p]));
            }
            if exists|q: int| point_at(s, q) {
                let q = choose|q: int| point_at(s, q);
                lemma_point_unique(s, q, p);
                let a = s.take(p) + s.subrange(p + 1, j);
                assert(s.take(p) + s.skip(p + 1) =~= a + s.skip(j));
                lemma_digits_grow(a, s.skip(j));
            }
        },
    }
}

/// More than `MAX_SCALE` digits follow the point at `p`.
proof fn lemma_too_fine(s: Seq<char>, p: int, i: int)
    requires
        0 <= p < i < s.len(),
        s[p] == '.',
        i - p > MAX_SCALE,
    ensures
        ratio_of(s) is None,
{
    assert(!all_digits(s)) by {
        assert(!is_digit(s[p]));
    }
    if exists|q: int| point_at(s, q) {
        let q = choose|q: int| point_at(s, q);
        lemma_point_unique(s, q, p);
    }
}

} // verus!
