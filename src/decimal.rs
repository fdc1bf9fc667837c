//! Exact decimal numbers as they arrive in a device's JSON telemetry, and their
//! fixed-place text.

use vstd::prelude::*;
use vstd::arithmetic::div_mod::{lemma_fundamental_div_mod_converse, lemma_mod_multiples_basic};
use crate::text::{
    pow10, digits_of, zeros, lemma_pow10_positive, lemma_pow10_monotone,
    lemma_digits_shift, push_digits, push_zeros, string_of,
};

verus! {

/// Largest magnitude of a decimal exponent that a `Decimal` holds.
pub const EXPONENT_BOUND: i64 = 100000;

/// The number `(-1)^negative * mantissa * 10^exponent`.
///
/// A well-formed value is normalized: the mantissa carries no trailing zero
/// digit, and zero is written only as `0 * 10^0` without sign, so that two
/// well-formed values are equal exactly when they denote the same number.
#[derive(Clone, Copy, Debug, PartialEq, Eq)]
pub struct Decimal {
    pub negative: bool,
    pub mantissa: u64,
    pub exponent: i64,
}

/// Largest exponent digit value, and largest count of fractional digits, that
/// `Decimal::parse` takes.
pub const TEXT_EXPONENT_LIMIT: u64 = 10000;

pub open spec fn is_digit(c: char) -> bool {
    48 <= (c as u32) && (c as u32) <= 57
}

pub open spec fn digit_value(c: char) -> nat {
    ((c as u32) - 48) as nat
}

/// The first index at or after `i` that does not hold a digit.
pub open spec fn digit_run(s: Seq<char>, i: int) -> int
    decreases s.len() - i,
{
    if 0 <= i < s.len() && is_digit(s[i]) {
        digit_run(s, i + 1)
    } else {
        i
    }
}

/// The digits `s` read in base ten after the value `acc`.
pub open spec fn fold_digits(acc: nat, s: Seq<char>) -> nat
    decreases s.len(),
{
    if s.len() == 0 {
        acc
    } else {
        fold_digits(acc * 10 + digit_value(s[0]), s.drop_first())
    }
}

/// The parts of a JSON number text `-? digits (. digits)? ([eE] [+-]? digits)?`
/// (leading zeros are taken).
pub ghost struct NumberText {
    pub negative: bool,
    /// All integer and fractional digits read as one integer.
    pub mantissa: nat,
    pub frac_len: nat,
    pub exp_negative: bool,
    pub exp_value: nat,
}

impl NumberText {
    /// The power of ten that scales the mantissa.
    pub open spec fn exponent(self) -> int {
        (if self.exp_negative {
            -self.exp_value
        } else {
            self.exp_value as int
        }) - self.frac_len
    }

    /// Whether the parts are small enough for a `Decimal`.
    pub open spec fn fits(self) -> bool {
        self.mantissa <= u64::MAX && self.exp_value <= TEXT_EXPONENT_LIMIT && self.frac_len
            <= TEXT_EXPONENT_LIMIT
    }
}

/// The parts of `s` read as a JSON number, or `None` where `s` is not one.
pub open spec fn number_text(s: Seq<char>) -> Option<NumberText> {
    let neg = s.len() > 0 && s[0] == '-';
    let a: int = if neg {
        1
    } else {
        0
    };
    let b = digit_run(s, a);
    let has_frac = b < s.len() && s[b] == '.';
    let c = if has_frac {
        digit_run(s, b + 1)
    } else {
        b
    };
    let has_exp = c < s.len() && (s[c] == 'e' || s[c] == 'E');
    let signed = has_exp && c + 1 < s.len() && (s[c + 1] == '+' || s[c + 1] == '-');
    let es = if signed {
        c + 2
    } else {
        c + 1
    };
    let d = if has_exp {
        digit_run(s, es)
    } else {
        c
    };
    if b == a || (has_frac && c == b + 1) || (has_exp && d == es) || d != s.len() {
        None
    } else {
        let frac = if has_frac {
            s.subrange(b + 1, c)
        } else {
            Seq::<char>::empty()
        };
        Some(
            NumberText {
                negative: neg,
                mantissa: fold_digits(fold_digits(0, s.subrange(a, b)), frac),
                frac_len: frac.len(),
                exp_negative: signed && s[c + 1] == '-',
                exp_value: if has_exp {
                    fold_digits(0, s.subrange(es, d))
                } else {
                    0
                },
            },
        )
    }
}

/// `(-1)^negative * m * 10^e` with the trailing zero digits of `m` moved into the
/// exponent, and zero as `0 * 10^0` without sign.
pub open spec fn normal_form(negative: bool, m: nat, e: int) -> (bool, nat, int)
    decreases m,
{
    if m == 0 {
        (false, 0, 0)
    } else if m % 10 == 0 {
        normal_form(negative, m / 10, e + 1)
    } else {
        (negative, m, e)
    }
}

/// The `Decimal` that `s` denotes as a JSON number, if it is one and fits.
pub open spec fn parsed(s: Seq<char>) -> Option<Decimal> {
    match number_text(s) {
        Some(t) => if t.fits() {
            let (n, m, e) = normal_form(t.negative, t.mantissa, t.exponent());
            Some(Decimal { negative: n, mantissa: m as u64, exponent: e as i64 })
        } else {
            None
        },
        None => None,
    }
}

/// What `parsed` gives is well formed.
pub proof fn lemma_parsed_wf(s: Seq<char>)
    ensures
        parsed(s) matches Some(d) ==> d.wf(),
{
    if let Some(t) = number_text(s) {
        if t.fits() {
            lemma_normal_form_wf(t.negative, t.mantissa, t.exponent());
        }
    }
}

proof fn lemma_normal_form_wf(negative: bool, m: nat, e: int)
    requires
        m <= u64::MAX,
        -2 * TEXT_EXPONENT_LIMIT <= e <= TEXT_EXPONENT_LIMIT,
    ensures
        ({
            let (n, mm, ee) = normal_form(negative, m, e);
            (Decimal { negative: n, mantissa: mm as u64, exponent: ee as i64 }).wf()
        }),
{
    lemma_normal_form_shape(negative, m, e);
    lemma_normal_form_exponent(negative, m, e);
}

proof fn lemma_normal_form_shape(negative: bool, m: nat, e: int)
    ensures
        ({
            let (n, mm, ee) = normal_form(negative, m, e);
            &&& m == 0 ==> !n && mm == 0 && ee == 0
            &&& m != 0 ==> mm % 10 != 0 && 1 <= mm <= m
        }),
    decreases m,
{
    if m != 0 && m % 10 == 0 {
        lemma_normal_form_shape(negative, m / 10, e + 1);
    }
}

/// Each trailing zero moved into the exponent divides the mantissa by ten, so
/// a `u64` mantissa moves at most nineteen of them.
proof fn lemma_normal_form_exponent(negative: bool, m: nat, e: int)
    requires
        m <= u64::MAX,
    ensures
        ({
            let (n, mm, ee) = normal_form(negative, m, e);
            m == 0 || (e <= ee && mm * pow10((ee - e) as nat) == m && ee <= e + 19)
        }),
    decreases m,
{
    reveal_with_fuel(pow10, 1);
    if m == 0 {
    } else if m % 10 == 0 {
        assert(m / 10 > 0);
        lemma_normal_form_exponent(negative, m / 10, e + 1);
        let (n, mm, ee) = normal_form(negative, m / 10, e + 1);
        let k = (ee - e - 1) as nat;
        assert(pow10(k + 1) == 10 * pow10(k));
        assert(mm * pow10((ee - e) as nat) == m) by (nonlinear_arith)
            requires
                mm * pow10(k) == m / 10,
                m % 10 == 0,
                pow10(k + 1) == 10 * pow10(k),
                (ee - e) == k + 1,
        ;
        if ee > e + 19 {
            reveal_with_fuel(pow10, 21);
            lemma_pow10_monotone(20, (ee - e) as nat);
            lemma_normal_form_shape(negative, m, e);
            assert(mm * pow10((ee - e) as nat) >= pow10((ee - e) as nat)) by (nonlinear_arith)
                requires
                    mm >= 1,
            ;
            assert(false);
        }
    } else {
        assert(m * pow10(0) == m) by (nonlinear_arith)
            requires
                pow10(0) == 1,
        ;
    }
}

/// Whether `(-1)^na * ma * 10^ea` and `(-1)^nb * mb * 10^eb` are the same number.
pub open spec fn same_value(na: bool, ma: nat, ea: int, nb: bool, mb: nat, eb: int) -> bool {
    if ma == 0 || mb == 0 {
        ma == 0 && mb == 0
    } else {
        na == nb && if ea <= eb {
            ma == mb * pow10((eb - ea) as nat)
        } else {
            mb == ma * pow10((ea - eb) as nat)
        }
    }
}

/// `n / p` rounded to the nearest integer, ties to the even neighbour.
pub open spec fn round_half_even(n: nat, p: nat) -> nat {
    let q = n / p;
    let r = n % p;
    if 2 * r > p || (2 * r == p && q % 2 == 1) {
        q + 1
    } else {
        q
    }
}

/// `m * 10^e * 10^places`, rounded half to even to an integer.
pub open spec fn scaled(m: nat, e: int, places: nat) -> nat {
    if e + places >= 0 {
        m * pow10((e + places) as nat)
    } else {
        round_half_even(m, pow10((-(e + places)) as nat))
    }
}

/// Digit text `d` of an integer `n`, read as `n / 10^places`: padded with leading
/// zeros to at least one integer digit, with a point before the last `places`
/// digits (and no point when `places` is zero).
pub open spec fn place_point(d: Seq<char>, places: nat) -> Seq<char> {
    let padded = if d.len() <= places {
        zeros((places + 1 - d.len()) as nat) + d
    } else {
        d
    };
    let cut = padded.len() - places;
    if places == 0 {
        padded
    } else {
        padded.subrange(0, cut) + seq!['.'] + padded.subrange(cut, padded.len() as int)
    }
}

/// Text of `(-1)^negative * m * 10^e` with exactly `places` fractional digits,
/// rounded half to even; the sign stays on a negative number that rounds to zero.
pub open spec fn fixed_text(negative: bool, m: nat, e: int, places: nat) -> Seq<char> {
    (if negative {
        seq!['-']
    } else {
        Seq::<char>::empty()
    }) + place_point(digits_of(scaled(m, e, places)), places)
}

impl Decimal {
    pub open spec fn wf(&self) -> bool {
        -EXPONENT_BOUND <= self.exponent <= EXPONENT_BOUND && if self.mantissa == 0 {
            !self.negative && self.exponent == 0
        } else {
            self.mantissa % 10 != 0
        }
    }

    /// The number written `s` in JSON, normalized; `None` where `s` is no JSON
    /// number or its parts do not fit (see `NumberText::fits`).
    pub fn parse(s: &str) -> (r: Option<Decimal>)
        ensures
            r == parsed(s@),
            match number_text(s@) {
                None => r is None,
                Some(t) => if t.fits() {
                    r matches Some(d) && d.wf() && same_value(
                        d.negative,
                        d.mantissa as nat,
                        d.exponent as int,
                        t.negative,
                        t.mantissa,
                        t.exponent(),
                    )
                } else {
                    r is None
                },
            },
    {
        let n = s.unicode_len();
        let neg = n > 0 && s.get_char(0) == '-';
        let a: usize = if neg {
            1
        } else {
            0
        };
        let b = digit_run_exec(s, a);
        let has_frac = b < n && s.get_char(b) == '.';
        let c = if has_frac {
            digit_run_exec(s, b + 1)
        } else {
            b
        };
        let mut has_exp = false;
        if c < n {
            let ch = s.get_char(c);
            has_exp = ch == 'e' || ch == 'E';
        }
        let mut signed = false;
        let mut exp_negative = false;
        if has_exp && c + 1 < n {
            let ch = s.get_char(c + 1);
            signed = ch == '+' || ch == '-';
            exp_negative = ch == '-';
        }
        let es = if signed {
            c + 2
        } else if has_exp {
            c + 1
        } else {
            c
        };
        let d = if has_exp {
            digit_run_exec(s, es)
        } else {
            c
        };
        if b == a || (has_frac && c == b + 1) || (has_exp && d == es) || d != n {
            return None;
        }
        let ghost frac = if has_frac {
            s@.subrange(b + 1, c as int)
        } else {
            Seq::<char>::empty()
        };
        let m1 = match fold_exec(s, a, b, 0, u64::MAX) {
            Some(v) => v,
            None => {
                proof {
                    lemma_fold_digits_grows(fold_digits(0, s@.subrange(a as int, b as int)), frac);
                }
                return None;
            },
        };
        let mut m = m1;
        let mut frac_len: u64 = 0;
        if has_frac {
            if c - (b + 1) > TEXT_EXPONENT_LIMIT as usize {
                return None;
            }
            frac_len = (c - (b + 1)) as u64;
            m = match fold_exec(s, b + 1, c, m1, u64::MAX) {
                Some(v) => v,
                None => {
                    return None;
                },
            };
        } else {
            assert(fold_digits(m1 as nat, frac) == m1);
        }
        let mut exp_value: u64 = 0;
        if has_exp {
            exp_value = match fold_exec(s, es, d, 0, TEXT_EXPONENT_LIMIT) {
                Some(v) => v,
                None => {
                    return None;
                },
            };
        }
        let ev: i64 = if exp_negative {
            -(exp_value as i64)
        } else {
            exp_value as i64
        };
        Some(normalize(neg, m, ev - frac_len as i64))
    }

    /// Plain decimal text of this number: no exponent, no trailing fractional
    /// zero, and no point for an integer.
    pub open spec fn canonical_spec(&self) -> Seq<char> {
        self.fixed_spec(
            if self.exponent < 0 {
                (-self.exponent) as nat
            } else {
                0
            },
            0,
        )
    }

    /// This number in plain decimal text (see `canonical_spec`).
    pub fn canonical_text(&self) -> (r: String)
        requires
            self.wf(),
        ensures
            r@ == self.canonical_spec(),
    {
        let places: u64 = if self.exponent < 0 {
            (-self.exponent) as u64
        } else {
            0
        };
        self.to_fixed(places, 0)
    }

    /// Text of this number divided by `10^shift`, with `places` fractional digits.
    pub open spec fn fixed_spec(&self, places: nat, shift: nat) -> Seq<char> {
        fixed_text(self.negative, self.mantissa as nat, self.exponent - shift, places)
    }

    /// This number divided by `10^shift`, written with exactly `places` digits
    /// after the point, rounded half to even.
    pub fn to_fixed(&self, places: u64, shift: u64) -> (r: String)
        requires
            self.wf(),
            places <= EXPONENT_BOUND,
            shift <= EXPONENT_BOUND,
        ensures
            r@ == self.fixed_spec(places as nat, shift as nat),
    {
        let k: i64 = self.exponent - shift as i64 + places as i64;
        let ghost e: int = self.exponent - shift;
        let mut digits: Vec<char> = Vec::new();
        if k >= 0 {
            if self.mantissa == 0 {
                digits.push('0');
                proof {
                    assert(0 * pow10(k as nat) == 0);
                    assert(digits_of(0) =~= seq!['0']);
                }
            } else {
                push_digits(self.mantissa, &mut digits);
                push_zeros(k as u64, &mut digits);
                proof {
                    lemma_digits_shift(self.mantissa as nat, k as nat);
                }
            }
            assert(digits@ == digits_of(scaled(self.mantissa as nat, e, places as nat)));
        } else {
            let j: u64 = (-k) as u64;
            let q = round_scaled(self.mantissa, j);
            push_digits(q, &mut digits);
            assert(digits@ == digits_of(scaled(self.mantissa as nat, e, places as nat)));
        }
        let mut out: Vec<char> = Vec::new();
        if self.negative {
            out.push('-');
        }
        push_point(&digits, places as usize, &mut out);
        assert(out@ =~= self.fixed_spec(places as nat, shift as nat));
        string_of(&out)
    }
}

/// Numerically equal well-formed decimals are the same value, so they render to the
/// same text at every precision and scaling: an integer and a fractional JSON
/// number of equal value display alike.
pub proof fn lemma_equal_numbers_display_alike(a: Decimal, b: Decimal, places: nat, shift: nat)
    requires
        a.wf(),
        b.wf(),
        same_value(
            a.negative,
            a.mantissa as nat,
            a.exponent as int,
            b.negative,
            b.mantissa as nat,
            b.exponent as int,
        ),
    ensures
        a == b,
        a.fixed_spec(places, shift) == b.fixed_spec(places, shift),
{
    if a.mantissa != 0 {
        if a.exponent < b.exponent {
            lemma_unit_mantissa_not_scaled(a.mantissa as nat, b.mantissa as nat, (b.exponent - a.exponent) as nat);
        } else if b.exponent < a.exponent {
            lemma_unit_mantissa_not_scaled(b.mantissa as nat, a.mantissa as nat, (a.exponent - b.exponent) as nat);
        } else {
            reveal_with_fuel(pow10, 1);
            assert(a.mantissa == b.mantissa * pow10(0));
            assert(b.mantissa * pow10(0) == b.mantissa) by (nonlinear_arith)
                requires
                    pow10(0) == 1,
            ;
        }
    }
}

/// Two JSON number texts of the same value, such as `100`, `100.0` and `1e2`,
/// parse to the same `Decimal`, and so display alike.
pub proof fn lemma_equal_number_texts_parse_alike(s1: Seq<char>, s2: Seq<char>)
    requires
        number_text(s1) matches Some(t1) && t1.fits(),
        number_text(s2) matches Some(t2) && t2.fits(),
        same_value(
            number_text(s1)->0.negative,
            number_text(s1)->0.mantissa,
            number_text(s1)->0.exponent(),
            number_text(s2)->0.negative,
            number_text(s2)->0.mantissa,
            number_text(s2)->0.exponent(),
        ),
    ensures
        parsed(s1) is Some,
        parsed(s1) == parsed(s2),
{
    let t1 = number_text(s1)->0;
    let t2 = number_text(s2)->0;
    lemma_normal_form_same(
        t1.negative,
        t1.mantissa,
        t1.exponent(),
        t2.negative,
        t2.mantissa,
        t2.exponent(),
    );
}

/// Numbers of the same value have the same normal form.
proof fn lemma_normal_form_same(n1: bool, m1: nat, e1: int, n2: bool, m2: nat, e2: int)
    requires
        same_value(n1, m1, e1, n2, m2, e2),
    ensures
        normal_form(n1, m1, e1) == normal_form(n2, m2, e2),
    decreases m1 + m2,
{
    if m1 == 0 {
    } else if e1 < e2 {
        let k = (e2 - e1) as nat;
        let k1 = (k - 1) as nat;
        assert(pow10(k) == 10 * pow10(k1));
        assert(m1 == (m2 * pow10(k1)) * 10) by (nonlinear_arith)
            requires
                m1 == m2 * pow10(k),
                pow10(k) == 10 * pow10(k1),
        ;
        lemma_mod_multiples_basic((m2 * pow10(k1)) as int, 10);
        assert(m1 / 10 == m2 * pow10(k1));
        if k1 == 0 {
            reveal_with_fuel(pow10, 1);
            assert(m2 * pow10(0) == m2) by (nonlinear_arith)
                requires
                    pow10(0) == 1,
            ;
            assert(m2 == (m1 / 10) * pow10(0)) by (nonlinear_arith)
                requires
                    pow10(0) == 1,
                    m1 / 10 == m2 * pow10(k1),
                    k1 == 0,
            ;
        }
        lemma_normal_form_same(n1, m1 / 10, e1 + 1, n2, m2, e2);
    } else if e2 < e1 {
        let k = (e1 - e2) as nat;
        let k1 = (k - 1) as nat;
        assert(pow10(k) == 10 * pow10(k1));
        assert(m2 == (m1 * pow10(k1)) * 10) by (nonlinear_arith)
            requires
                m2 == m1 * pow10(k),
                pow10(k) == 10 * pow10(k1),
        ;
        lemma_mod_multiples_basic((m1 * pow10(k1)) as int, 10);
        assert(m2 / 10 == m1 * pow10(k1));
        if k1 == 0 {
            reveal_with_fuel(pow10, 1);
            assert(m1 == (m2 / 10) * pow10(0)) by (nonlinear_arith)
                requires
                    pow10(0) == 1,
                    m2 / 10 == m1 * pow10(k1),
                    k1 == 0,
            ;
        }
        lemma_normal_form_same(n1, m1, e1, n2, m2 / 10, e2 + 1);
    } else {
        reveal_with_fuel(pow10, 1);
        assert(m2 * pow10(0) == m2) by (nonlinear_arith)
            requires
                pow10(0) == 1,
        ;
    }
}

/// A mantissa without trailing zero is no positive power of ten times an integer.
proof fn lemma_unit_mantissa_not_scaled(x: nat, y: nat, k: nat)
    requires
        x % 10 != 0,
        k > 0,
    ensures
        x != y * pow10(k),
{
    let k1 = (k - 1) as nat;
    assert(pow10(k) == 10 * pow10(k1));
    if x == y * pow10(k) {
        assert(x == (y * pow10(k1)) * 10) by (nonlinear_arith)
            requires
                x == y * pow10(k),
                pow10(k) == 10 * pow10(k1),
        ;
        lemma_mod_multiples_basic((y * pow10(k1)) as int, 10);
    }
}

/// Normal form of `(-1)^negative * m * 10^e`.
fn normalize(negative: bool, m: u64, e: i64) -> (d: Decimal)
    requires
        -2 * TEXT_EXPONENT_LIMIT <= e <= TEXT_EXPONENT_LIMIT,
    ensures
        d.wf(),
        same_value(d.negative, d.mantissa as nat, d.exponent as int, negative, m as nat, e as int),
        (d.negative, d.mantissa as nat, d.exponent as int) == normal_form(negative, m as nat, e as int),
{
    if m == 0 {
        return Decimal { negative: false, mantissa: 0, exponent: 0 };
    }
    let mut mm: u64 = m;
    let mut ee: i64 = e;
    proof {
        reveal_with_fuel(pow10, 1);
        assert(m == mm * pow10(0)) by (nonlinear_arith)
            requires
                pow10(0) == 1,
                mm == m,
        ;
    }
    while mm % 10 == 0
        invariant
            mm > 0,
            e <= ee <= e + 20,
            m == mm * pow10((ee - e) as nat),
            -2 * TEXT_EXPONENT_LIMIT <= e <= TEXT_EXPONENT_LIMIT,
            normal_form(negative, mm as nat, ee as int) == normal_form(negative, m as nat, e as int),
        decreases mm,
    {
        let ghost k: nat = (ee - e) as nat;
        proof {
            assert(pow10(k + 1) == 10 * pow10(k));
            assert(m == (mm / 10) * pow10(k + 1)) by (nonlinear_arith)
                requires
                    m == mm * pow10(k),
                    mm % 10 == 0,
                    pow10(k + 1) == 10 * pow10(k),
            ;
            assert(mm / 10 >= 1);
            lemma_pow10_positive(k);
            assert(pow10(k + 1) <= m) by (nonlinear_arith)
                requires
                    m == (mm / 10) * pow10(k + 1),
                    mm / 10 >= 1,
            ;
            if k + 1 > 19 {
                reveal_with_fuel(pow10, 21);
                lemma_pow10_monotone(20, k + 1);
                assert(false);
            }
        }
        mm = mm / 10;
        ee = ee + 1;
    }
    proof {
        if ee == e {
            reveal_with_fuel(pow10, 1);
            assert(mm == m * pow10(0)) by (nonlinear_arith)
                requires
                    pow10(0) == 1,
                    m == mm * pow10(0),
            ;
        }
    }
    Decimal { negative, mantissa: mm, exponent: ee }
}

/// The first index at or after `i` that does not hold a digit.
fn digit_run_exec(s: &str, i: usize) -> (j: usize)
    requires
        i <= s@.len(),
    ensures
        j == digit_run(s@, i as int),
        i <= j <= s@.len(),
        forall|k: int| i <= k < j ==> is_digit(#[trigger] s@[k]),
{
    let n = s.unicode_len();
    let mut j: usize = i;
    while j < n && is_digit_char(s.get_char(j))
        invariant
            i <= j <= n,
            n == s@.len(),
            digit_run(s@, j as int) == digit_run(s@, i as int),
            forall|k: int| i <= k < j ==> is_digit(#[trigger] s@[k]),
        decreases n - j,
    {
        j = j + 1;
    }
    j
}

fn is_digit_char(c: char) -> (r: bool)
    ensures
        r == is_digit(c),
{
    let v = c as u32;
    48 <= v && v <= 57
}

pub proof fn lemma_fold_digits_grows(acc: nat, s: Seq<char>)
    ensures
        fold_digits(acc, s) >= acc,
    decreases s.len(),
{
    if s.len() > 0 {
        lemma_fold_digits_grows(acc * 10 + digit_value(s[0]), s.drop_first());
    }
}

/// The digits `s[from..to]` read after `acc`, or `None` where that exceeds `limit`.
fn fold_exec(s: &str, from: usize, to: usize, acc: u64, limit: u64) -> (r: Option<u64>)
    requires
        from <= to <= s@.len(),
        acc <= limit,
        forall|k: int| from <= k < to ==> is_digit(#[trigger] s@[k]),
    ensures
        match r {
            Some(v) => v == fold_digits(acc as nat, s@.subrange(from as int, to as int)) && v
                <= limit,
            None => fold_digits(acc as nat, s@.subrange(from as int, to as int)) > limit,
        },
{
    let mut cur: u64 = acc;
    let mut i: usize = from;
    while i < to
        invariant
            from <= i <= to <= s@.len(),
            cur <= limit,
            forall|k: int| from <= k < to ==> is_digit(#[trigger] s@[k]),
            fold_digits(cur as nat, s@.subrange(i as int, to as int)) == fold_digits(
                acc as nat,
                s@.subrange(from as int, to as int),
            ),
        decreases to - i,
    {
        let ch = s.get_char(i);
        assert(is_digit(s@[i as int]));
        let dv = (ch as u32 - 48) as u64;
        assert(s@.subrange(i as int, to as int).drop_first() =~= s@.subrange(
            (i + 1) as int,
            to as int,
        ));
        let next: u128 = cur as u128 * 10 + dv as u128;
        if next > limit as u128 {
            proof {
                lemma_fold_digits_grows(next as nat, s@.subrange((i + 1) as int, to as int));
            }
            return None;
        }
        cur = next as u64;
        i = i + 1;
    }
    assert(s@.subrange(to as int, to as int).len() == 0);
    Some(cur)
}

/// `10^j` for `j <= 19`.
fn pow10_u64(j: u64) -> (r: u64)
    requires
        j <= 19,
    ensures
        r == pow10(j as nat),
{
    proof {
        reveal_with_fuel(pow10, 20);
    }
    let mut r: u64 = 1;
    let mut i: u64 = 0;
    while i < j
        invariant
            i <= j <= 19,
            r == pow10(i as nat),
        decreases j - i,
    {
        proof {
            reveal_with_fuel(pow10, 20);
            lemma_pow10_monotone((i + 1) as nat, 19);
            assert(pow10((i + 1) as nat) == 10 * pow10(i as nat));
            assert(pow10(19) == 10000000000000000000nat);
        }
        r = r * 10;
        i = i + 1;
    }
    r
}

/// `m / 10^j` rounded half to even, for `j >= 1`.
fn round_scaled(m: u64, j: u64) -> (q: u64)
    requires
        j >= 1,
    ensures
        q == round_half_even(m as nat, pow10(j as nat)),
{
    if j >= 20 {
        proof {
            reveal_with_fuel(pow10, 21);
            lemma_pow10_monotone(20, j as nat);
            lemma_fundamental_div_mod_converse(m as int, pow10(j as nat) as int, 0, m as int);
        }
        0
    } else {
        let p = pow10_u64(j);
        proof {
            reveal_with_fuel(pow10, 2);
            lemma_pow10_monotone(1, j as nat);
        }
        let q = m / p;
        let r = m % p;
        assert(q < 0xffff_ffff_ffff_ffffu64) by (nonlinear_arith)
            requires
                q == m / p,
                p >= 10,
                m <= 0xffff_ffff_ffff_ffffu64,
        ;
        if 2 * (r as u128) > p as u128 || (2 * (r as u128) == p as u128 && q % 2 == 1) {
            q + 1
        } else {
            q
        }
    }
}

/// Appends `src[from..to]` to `out`.
fn push_range(src: &Vec<char>, from: usize, to: usize, out: &mut Vec<char>)
    requires
        from <= to <= src@.len(),
    ensures
        final(out)@ == old(out)@ + src@.subrange(from as int, to as int),
{
    let mut i: usize = from;
    while i < to
        invariant
            from <= i <= to <= src@.len(),
            out@ == old(out)@ + src@.subrange(from as int, i as int),
        decreases to - i,
    {
        out.push(src[i]);
        i = i + 1;
        assert(old(out)@ + src@.subrange(from as int, i as int) =~= (old(out)@ + src@.subrange(
            from as int,
            (i - 1) as int,
        )).push(src@[i - 1]));
    }
}

/// Appends `place_point(digits, places)` to `out`.
fn push_point(digits: &Vec<char>, places: usize, out: &mut Vec<char>)
    requires
        places <= EXPONENT_BOUND,
    ensures
        final(out)@ == old(out)@ + place_point(digits@, places as nat),
{
    let mut padded: Vec<char> = Vec::new();
    if digits.len() <= places {
        push_zeros((places + 1 - digits.len()) as u64, &mut padded);
    }
    let n = digits.len();
    push_range(digits, 0, n, &mut padded);
    assert(digits@.subrange(0, n as int) =~= digits@);
    let len = padded.len();
    let cut = len - places;
    push_range(&padded, 0, cut, out);
    if places > 0 {
        out.push('.');
        push_range(&padded, cut, len, out);
    }
    assert(final(out)@ =~= old(out)@ + place_point(digits@, places as nat));
}

} // verus!
