//! Exact decimal numbers: a signed 64-bit coefficient times a power of ten.
//!
//! Timestamps and every number with a fraction or an exponent are held in
//! this form. Reading, ordering and writing are exact: nothing is rounded.

use vstd::prelude::*;
use crate::text::{
    all_digits, as_i64_spec, chars_of, digits_to_u64, digits_value, i64_to_text, int_of_text,
    int_text, is_digit, nat_text, parse_int_chars, scan_digits, text_of, u64_digits,
};

verus! {

/// Largest power of ten, in absolute value, that a [`Decimal`] may carry.
pub const EXP_LIMIT: i32 = 1000;

/// The number `(-1)^neg * mant * 10^exp`.
#[derive(Clone, Copy, Debug)]
pub struct Decimal {
    pub neg: bool,
    pub mant: u64,
    pub exp: i32,
}

/// Ten to the power `e`.
pub open spec fn pow10(e: nat) -> nat
    decreases e,
{
    if e == 0 {
        1
    } else {
        10 * pow10((e - 1) as nat)
    }
}

/// Powers of ten are positive and grow with the exponent.
pub proof fn lemma_pow10_grows(a: nat, b: nat)
    requires
        a <= b,
    ensures
        1 <= pow10(a) <= pow10(b),
    decreases b,
{
    if a == 0 {
        if b > 0 {
            lemma_pow10_grows(0, (b - 1) as nat);
        }
    } else {
        lemma_pow10_grows((a - 1) as nat, (b - 1) as nat);
    }
}

proof fn lemma_pow10_19()
    ensures
        pow10(19) == 10_000_000_000_000_000_000,
        pow10(20) == 100_000_000_000_000_000_000,
{
    reveal_with_fuel(pow10, 21);
}

/// Length of the run of digits at the start of `s`.
pub open spec fn digit_run(s: Seq<char>) -> nat
    decreases s.len(),
{
    if s.len() > 0 && is_digit(s[0]) {
        1 + digit_run(s.drop_first())
    } else {
        0
    }
}

proof fn lemma_digit_run(s: Seq<char>, k: int)
    requires
        0 <= k <= s.len(),
        all_digits(s.take(k)),
        k < s.len() ==> !is_digit(s[k]),
    ensures
        digit_run(s) == k,
    decreases k,
{
    if k > 0 {
        assert(s.take(k)[0] == s[0]);
        let t = s.drop_first();
        assert forall|i: int| 0 <= i < k - 1 implies is_digit(#[trigger] t.take(k - 1)[i]) by {
            assert(t.take(k - 1)[i] == s.take(k)[i + 1]);
        }
        lemma_digit_run(t, k - 1);
    }
}

/// Where the parts of a written number lie in `s`: the whole digits are
/// `s[a..b]`, the fraction digits `s[c..d]`, with a point between them when
/// `b < c`; a sign comes before `a` when `a` is 1.
pub open spec fn number_layout(s: Seq<char>) -> (int, int, int, int) {
    let signed = s.len() > 0 && (s[0] == '-' || s[0] == '+');
    let a: int = if signed {
        1
    } else {
        0
    };
    let b: int = a + digit_run(s.skip(a));
    let dotted = b < s.len() && s[b] == '.';
    let c: int = if dotted {
        b + 1
    } else {
        b
    };
    let d: int = if dotted {
        c + digit_run(s.skip(c))
    } else {
        c
    };
    (a, b, c, d)
}

/// The exponent written in `s` from position `d` on: 0 when the text ends
/// there; the integer after `e` or `E`; `None` for anything else and for an
/// integer beyond 64 bits.
pub open spec fn written_power(s: Seq<char>, d: int) -> Option<int> {
    if d < s.len() && (s[d] == 'e' || s[d] == 'E') {
        match as_i64_spec(int_of_text(s.skip(d + 1))) {
            Some(p) => Some(p as int),
            None => None,
        }
    } else if d == s.len() {
        Some(0int)
    } else {
        None
    }
}

/// The decimal that `s` writes. The text is an optional sign, digits with at
/// most one point among them (one digit at least), and an optional exponent:
/// `e` or `E`, an optional sign, digits. `None` for any other text, for a
/// coefficient or a written exponent beyond 64 bits, and for a power of ten
/// beyond [`EXP_LIMIT`].
pub open spec fn decimal_of_text(s: Seq<char>) -> Option<Decimal> {
    let (a, b, c, d) = number_layout(s);
    let whole = s.subrange(a, b);
    let frac = s.subrange(c, d);
    let mant = digits_value(whole + frac);
    if whole.len() + frac.len() == 0 {
        None
    } else {
        match written_power(s, d) {
            None => None,
            Some(p) => {
                let exp = p - frac.len();
                if mant <= u64::MAX && -EXP_LIMIT <= exp <= EXP_LIMIT {
                    Some(Decimal { neg: a == 1 && s[0] == '-', mant: mant as u64, exp: exp as i32 })
                } else {
                    None
                }
            },
        }
    }
}

/// `m * 10^e` with the zeros at the end of `m` moved into the power of ten,
/// as far as the power stays at or below zero.
pub open spec fn strip_zeros(m: nat, e: int) -> (nat, int)
    decreases m,
{
    if e < 0 && m > 0 && m % 10 == 0 {
        strip_zeros(m / 10, e + 1)
    } else {
        (m, e)
    }
}

/// `n` zeros.
pub open spec fn zeros(n: nat) -> Seq<char> {
    Seq::new(n, |i: int| '0')
}

/// `secs` seconds and `nanos` nanoseconds as a number of seconds: counted in
/// nanoseconds up to eighteen thousand million seconds, and in whole seconds
/// beyond them, where the nanoseconds are left out.
pub open spec fn seconds_of(secs: u64, nanos: u32) -> Decimal {
    if secs <= 18_000_000_000 {
        Decimal { neg: false, mant: (secs * 1_000_000_000 + nanos) as u64, exp: -9i32 }
    } else {
        Decimal { neg: false, mant: secs, exp: 0 }
    }
}

/// The whole number `n` as a decimal.
pub open spec fn decimal_of_i64(n: i64) -> Decimal {
    Decimal {
        neg: n < 0,
        mant: (if n < 0 {
            -n
        } else {
            n as int
        }) as u64,
        exp: 0,
    }
}

impl Decimal {
    /// The power of ten is within [`EXP_LIMIT`].
    pub open spec fn wf(self) -> bool {
        -EXP_LIMIT <= self.exp <= EXP_LIMIT
    }

    /// The coefficient with its sign.
    pub open spec fn signed_mant(self) -> int {
        if self.neg {
            -(self.mant as int)
        } else {
            self.mant as int
        }
    }

    /// The number in units of `10^base`, for `base` at most `self.exp`.
    pub open spec fn scaled(self, base: int) -> int {
        self.signed_mant() * pow10((self.exp - base) as nat)
    }

    /// `self < other` as numbers.
    pub open spec fn lt_spec(self, other: Decimal) -> bool {
        let base = if self.exp <= other.exp {
            self.exp as int
        } else {
            other.exp as int
        };
        self.scaled(base) < other.scaled(base)
    }

    /// `self == other` as numbers.
    pub open spec fn same_spec(self, other: Decimal) -> bool {
        let base = if self.exp <= other.exp {
            self.exp as int
        } else {
            other.exp as int
        };
        self.scaled(base) == other.scaled(base)
    }

    /// The whole number `n`.
    pub fn from_i64(n: i64) -> (d: Decimal)
        ensures
            d == decimal_of_i64(n),
            d.wf(),
            d.signed_mant() == n,
    {
        if n < 0 {
            let m: u64 = if n == i64::MIN {
                0x8000_0000_0000_0000
            } else {
                (-n) as u64
            };
            Decimal { neg: true, mant: m, exp: 0 }
        } else {
            Decimal { neg: false, mant: n as u64, exp: 0 }
        }
    }

    /// The whole number `n`.
    pub fn from_u64(n: u64) -> (d: Decimal)
        ensures
            d == (Decimal { neg: false, mant: n, exp: 0 }),
    {
        Decimal { neg: false, mant: n, exp: 0 }
    }

    /// `secs` seconds and `nanos` nanoseconds, in seconds. Seconds beyond
    /// what the coefficient can hold in nanoseconds are kept whole.
    pub fn from_secs_nanos(secs: u64, nanos: u32) -> (d: Decimal)
        requires
            nanos < 1_000_000_000,
        ensures
            d == seconds_of(secs, nanos),
            d.wf(),
            !d.neg,
            secs <= 18_000_000_000 ==> d.exp == -9 && d.mant == secs * 1_000_000_000 + nanos,
            secs > 18_000_000_000 ==> d.exp == 0 && d.mant == secs,
    {
        if secs <= 18_000_000_000 {
            Decimal { neg: false, mant: secs * 1_000_000_000 + nanos as u64, exp: -9 }
        } else {
            Decimal { neg: false, mant: secs, exp: 0 }
        }
    }

    /// -1, 0 or 1 as `self` is below, equal to or above `other`.
    #[verifier::rlimit(40)]
    pub fn order(&self, other: &Decimal) -> (r: i8)
        ensures
            r == -1 || r == 0 || r == 1,
            (r == -1) == self.lt_spec(*other),
            (r == 0) == self.same_spec(*other),
            (r == 1) == other.lt_spec(*self),
    {
        let ghost base: int = if self.exp <= other.exp {
            self.exp as int
        } else {
            other.exp as int
        };
        let m: i8 = order_magnitudes(self.mant, self.exp, other.mant, other.exp);
        proof {
            let x = (self.mant * pow10((self.exp - base) as nat)) as int;
            let y = (other.mant * pow10((other.exp - base) as nat)) as int;
            assert(self.scaled(base) == if self.neg {
                -x
            } else {
                x
            }) by (nonlinear_arith)
                requires
                    x == self.mant * pow10((self.exp - base) as nat),
                    self.scaled(base) == self.signed_mant() * pow10((self.exp - base) as nat),
                    self.signed_mant() == if self.neg {
                        -(self.mant as int)
                    } else {
                        self.mant as int
                    },
            ;
            assert(other.scaled(base) == if other.neg {
                -y
            } else {
                y
            }) by (nonlinear_arith)
                requires
                    y == other.mant * pow10((other.exp - base) as nat),
                    other.scaled(base) == other.signed_mant() * pow10((other.exp - base) as nat),
                    other.signed_mant() == if other.neg {
                        -(other.mant as int)
                    } else {
                        other.mant as int
                    },
            ;
            lemma_pow10_grows(0, (self.exp - base) as nat);
            lemma_pow10_grows(0, (other.exp - base) as nat);
            assert(x >= 0 && (x == 0 <==> self.mant == 0)) by (nonlinear_arith)
                requires
                    x == self.mant * pow10((self.exp - base) as nat),
                    pow10((self.exp - base) as nat) >= 1,
            ;
            assert(y >= 0 && (y == 0 <==> other.mant == 0)) by (nonlinear_arith)
                requires
                    y == other.mant * pow10((other.exp - base) as nat),
                    pow10((other.exp - base) as nat) >= 1,
            ;
        }
        if self.neg && other.neg {
            -m
        } else if self.neg {
            if self.mant == 0 && other.mant == 0 {
                0
            } else {
                -1
            }
        } else if other.neg {
            if self.mant == 0 && other.mant == 0 {
                0
            } else {
                1
            }
        } else {
            m
        }
    }

    /// Whether `self < other` as numbers.
    pub fn lt(&self, other: &Decimal) -> (r: bool)
        ensures
            r == self.lt_spec(*other),
    {
        self.order(other) == -1
    }

    /// Whether `self == other` as numbers.
    pub fn same(&self, other: &Decimal) -> (r: bool)
        ensures
            r == self.same_spec(*other),
    {
        self.order(other) == 0
    }

    /// The number written in positional notation: a minus sign when `neg`,
    /// the whole digits, and a point with the fraction digits where the
    /// fraction is not zero. It has no exponent and no zeros that could be
    /// left out.
    pub open spec fn plain_text(self) -> Seq<char> {
        let (m, e) = strip_zeros(self.mant as nat, self.exp as int);
        let digits = nat_text(m);
        let sign = if self.neg {
            seq!['-']
        } else {
            Seq::<char>::empty()
        };
        let body = if m == 0 {
            seq!['0']
        } else if e >= 0 {
            digits + zeros(e as nat)
        } else if digits.len() > -e {
            digits.take(digits.len() + e) + seq!['.'] + digits.skip(digits.len() + e)
        } else {
            seq!['0', '.'] + zeros((-e - digits.len()) as nat) + digits
        };
        sign + body
    }

    /// The number written in positional notation.
    #[verifier::rlimit(40)]
    pub fn plain(&self) -> (s: String)
        requires
            self.wf(),
        ensures
            s@ == self.plain_text(),
    {
        let mut m: u64 = self.mant;
        let mut e: i32 = self.exp;
        while e < 0 && m > 0 && m % 10 == 0
            invariant
                -EXP_LIMIT <= self.exp <= e <= EXP_LIMIT,
                strip_zeros(m as nat, e as int) == strip_zeros(self.mant as nat, self.exp as int),
            decreases m,
        {
            m = m / 10;
            e = e + 1;
        }
        let digits = u64_digits(m);
        let mut v: Vec<char> = Vec::new();
        if self.neg {
            v.push('-');
        }
        let ghost sign = v@;
        if m == 0 {
            v.push('0');
            assert(v@ =~= sign + seq!['0']);
        } else if e >= 0 {
            let mut d = digits;
            let ghost dg = d@;
            v.append(&mut d);
            push_zeros(&mut v, e as usize);
            assert(v@ =~= sign + (dg + zeros(e as nat)));
        } else if digits.len() > (-e) as usize {
            let cut: usize = digits.len() - (-e) as usize;
            let mut i: usize = 0;
            while i < digits.len()
                invariant
                    i <= digits.len(),
                    cut < digits.len(),
                    v@ == sign + if i <= cut {
                        digits@.take(i as int)
                    } else {
                        digits@.take(cut as int) + seq!['.'] + digits@.subrange(
                            cut as int,
                            i as int,
                        )
                    },
                decreases digits.len() - i,
            {
                if i == cut {
                    v.push('.');
                }
                v.push(digits[i]);
                proof {
                    if i < cut {
                        assert(digits@.take(i + 1) =~= digits@.take(i as int).push(
                            digits@[i as int],
                        ));
                    } else if i == cut {
                        assert(digits@.subrange(cut as int, i + 1) =~= seq![digits@[i as int]]);
                    } else {
                        assert(digits@.subrange(cut as int, i + 1) =~= digits@.subrange(
                            cut as int,
                            i as int,
                        ).push(digits@[i as int]));
                    }
                    assert(v@ =~= sign + if i + 1 <= cut {
                        digits@.take(i + 1)
                    } else {
                        digits@.take(cut as int) + seq!['.'] + digits@.subrange(
                            cut as int,
                            i + 1,
                        )
                    });
                }
                i += 1;
            }
            proof {
                assert(digits@.subrange(cut as int, digits.len() as int) =~= digits@.skip(
                    cut as int,
                ));
                assert(v@ =~= sign + (digits@.take(cut as int) + seq!['.'] + digits@.skip(
                    cut as int,
                )));
            }
        } else {
            v.push('0');
            v.push('.');
            let pad: usize = (-e) as usize - digits.len();
            push_zeros(&mut v, pad);
            let mut d = digits;
            let ghost dg = d@;
            v.append(&mut d);
            assert(v@ =~= sign + (seq!['0', '.'] + zeros(pad as nat) + dg));
        }
        text_of(&v)
    }

    /// The number written as coefficient, `e`, power of ten.
    pub open spec fn literal_text(self) -> Seq<char> {
        (if self.neg {
            seq!['-']
        } else {
            Seq::<char>::empty()
        }) + nat_text(self.mant as nat) + seq!['e'] + int_text(self.exp as int)
    }

    /// The number written as coefficient, `e`, power of ten.
    pub fn literal(&self) -> (s: String)
        ensures
            s@ == self.literal_text(),
    {
        let mut v: Vec<char> = Vec::new();
        if self.neg {
            v.push('-');
        }
        let mut m = u64_digits(self.mant);
        v.append(&mut m);
        v.push('e');
        let e = i64_to_text(self.exp as i64);
        let mut ev = chars_of(e.as_str());
        v.append(&mut ev);
        proof {
            assert(v@ =~= self.literal_text());
        }
        text_of(&v)
    }
}

/// Appends `n` zeros to `v`.
fn push_zeros(v: &mut Vec<char>, n: usize)
    ensures
        final(v)@ == old(v)@ + zeros(n as nat),
{
    let mut i: usize = 0;
    assert(v@ =~= old(v)@ + zeros(0));
    while i < n
        invariant
            i <= n,
            v@ == old(v)@ + zeros(i as nat),
        decreases n - i,
    {
        v.push('0');
        assert(v@ =~= old(v)@ + zeros((i + 1) as nat));
        i += 1;
    }
}

/// Ten to the power `d`.
fn pow10_u128(d: u32) -> (p: u128)
    requires
        d <= 19,
    ensures
        p == pow10(d as nat),
        p <= 10_000_000_000_000_000_000,
{
    let mut p: u128 = 1;
    let mut i: u32 = 0;
    proof {
        lemma_pow10_19();
        lemma_pow10_grows(0, 19);
    }
    while i < d
        invariant
            i <= d <= 19,
            p == pow10(i as nat),
            p <= pow10(19),
            pow10(19) == 10_000_000_000_000_000_000,
        decreases d - i,
    {
        proof {
            lemma_pow10_19();
            lemma_pow10_grows((i + 1) as nat, 19);
        }
        p = p * 10;
        i += 1;
    }
    proof {
        lemma_pow10_19();
    }
    p
}

/// -1, 0 or 1 as `am * 10^ae` is below, equal to or above `bm * 10^be`.
fn order_magnitudes(am: u64, ae: i32, bm: u64, be: i32) -> (r: i8)
    ensures
        r == -1 || r == 0 || r == 1,
        ({
            let base = if ae <= be {
                ae as int
            } else {
                be as int
            };
            let x = am * pow10((ae - base) as nat);
            let y = bm * pow10((be - base) as nat);
            &&& (r == -1) == (x < y)
            &&& (r == 0) == (x == y)
            &&& (r == 1) == (x > y)
        }),
    decreases (if ae >= be {
        0int
    } else {
        1int
    }),
{
    assert(pow10(0) == 1);
    if ae >= be {
        let d: i64 = ae as i64 - be as i64;
        assert(bm * pow10((be - be) as nat) == bm) by {
            assert(pow10((be - be) as nat) == 1);
            assert(bm * 1 == bm);
        }
        if am == 0 {
            assert(am * pow10((ae - be) as nat) == 0);
            if bm == 0 {
                0
            } else {
                -1
            }
        } else if d >= 20 {
            proof {
                lemma_pow10_19();
                lemma_pow10_grows(20, d as nat);
                assert(am * pow10(d as nat) >= pow10(20)) by (nonlinear_arith)
                    requires
                        am >= 1,
                        pow10(d as nat) >= pow10(20),
                ;
            }
            1
        } else {
            let p: u128 = pow10_u128(d as u32);
            assert(am * p <= 0xffff_ffff_ffff_ffff * 10_000_000_000_000_000_000) by (nonlinear_arith)
                requires
                    am <= 0xffff_ffff_ffff_ffff,
                    p <= 10_000_000_000_000_000_000,
            ;
            let x: u128 = am as u128 * p;
            let y: u128 = bm as u128;
            assert(x == am * pow10((ae - be) as nat));
            if x < y {
                -1
            } else if x == y {
                0
            } else {
                1
            }
        }
    } else {
        let r: i8 = order_magnitudes(bm, be, am, ae);
        assert(am * pow10((ae - ae) as nat) == am) by {
            assert(pow10((ae - ae) as nat) == 1);
            assert(am * 1 == am);
        }
        -r
    }
}

/// Finds the whole and the fraction digits of a written number.
fn scan_number(v: &Vec<char>) -> (r: (usize, usize, usize, usize))
    ensures
        (r.0 as int, r.1 as int, r.2 as int, r.3 as int) == number_layout(v@),
        r.0 <= r.1 <= r.2 <= r.3 <= v.len(),
        all_digits(v@.subrange(r.0 as int, r.1 as int)),
        all_digits(v@.subrange(r.2 as int, r.3 as int)),
{
    let signed = v.len() > 0 && (v[0] == '-' || v[0] == '+');
    let a: usize = if signed {
        1
    } else {
        0
    };
    let b = scan_digits(v, a);
    proof {
        assert(v@.skip(a as int).take(b - a) =~= v@.subrange(a as int, b as int));
        lemma_digit_run(v@.skip(a as int), b - a);
    }
    let dotted = b < v.len() && v[b] == '.';
    if dotted {
        let c: usize = b + 1;
        let d = scan_digits(v, c);
        proof {
            assert(v@.skip(c as int).take(d - c) =~= v@.subrange(c as int, d as int));
            lemma_digit_run(v@.skip(c as int), d - c);
        }
        (a, b, c, d)
    } else {
        assert(v@.subrange(b as int, b as int) =~= Seq::<char>::empty());
        (a, b, b, b)
    }
}

/// Reads the exponent written from position `d` on.
fn scan_power(v: &Vec<char>, d: usize) -> (r: Option<i64>)
    requires
        d <= v.len(),
    ensures
        match r {
            Some(p) => written_power(v@, d as int) == Some(p as int),
            None => written_power(v@, d as int) is None,
        },
{
    if d < v.len() && (v[d] == 'e' || v[d] == 'E') {
        parse_int_chars(v, d + 1)
    } else if d == v.len() {
        Some(0)
    } else {
        None
    }
}

/// The digits `v[a..b]` followed by `v[c..d]`.
fn join_runs(v: &Vec<char>, a: usize, b: usize, c: usize, d: usize) -> (digits: Vec<char>)
    requires
        a <= b <= v.len(),
        c <= d <= v.len(),
        all_digits(v@.subrange(a as int, b as int)),
        all_digits(v@.subrange(c as int, d as int)),
    ensures
        digits@ == v@.subrange(a as int, b as int) + v@.subrange(c as int, d as int),
        all_digits(digits@),
{
    let mut digits: Vec<char> = Vec::new();
    let mut i: usize = a;
    while i < b
        invariant
            a <= i <= b <= v.len(),
            digits@ == v@.subrange(a as int, i as int),
        decreases b - i,
    {
        digits.push(v[i]);
        proof {
            assert(v@.subrange(a as int, i + 1) =~= v@.subrange(a as int, i as int).push(
                v@[i as int],
            ));
        }
        i += 1;
    }
    let mut j: usize = c;
    while j < d
        invariant
            c <= j <= d <= v.len(),
            digits@ == v@.subrange(a as int, b as int) + v@.subrange(c as int, j as int),
        decreases d - j,
    {
        digits.push(v[j]);
        proof {
            assert(v@.subrange(c as int, j + 1) =~= v@.subrange(c as int, j as int).push(
                v@[j as int],
            ));
            assert(digits@ =~= v@.subrange(a as int, b as int) + v@.subrange(c as int, j + 1));
        }
        j += 1;
    }
    proof {
        let whole = v@.subrange(a as int, b as int);
        let frac = v@.subrange(c as int, d as int);
        assert forall|k: int| 0 <= k < digits@.len() implies is_digit(#[trigger] digits@[k]) by {
            if k < whole.len() {
                assert(digits@[k] == whole[k]);
            } else {
                assert(digits@[k] == frac[k - whole.len()]);
            }
        }
    }
    digits
}

/// The decimal that `s` writes, when it writes one.
pub fn parse_decimal(s: &str) -> (r: Option<Decimal>)
    ensures
        r == decimal_of_text(s@),
        r is Some ==> r->0.wf(),
{
    let v = chars_of(s);
    let (a, b, c, d) = scan_number(&v);
    if (b - a) + (d - c) == 0 {
        return None;
    }
    let power: i64 = match scan_power(&v, d) {
        Some(p) => p,
        None => {
            return None;
        },
    };
    let digits = join_runs(&v, a, b, c, d);
    assert(digits@.subrange(0, digits.len() as int) =~= digits@);
    let mant = match digits_to_u64(&digits, 0, digits.len()) {
        Some(m) => m,
        None => {
            return None;
        },
    };
    let exp: i128 = power as i128 - (d - c) as i128;
    if exp < -(EXP_LIMIT as i128) || exp > EXP_LIMIT as i128 {
        return None;
    }
    Some(Decimal { neg: a == 1 && v[0] == '-', mant, exp: exp as i32 })
}

} // verus!
