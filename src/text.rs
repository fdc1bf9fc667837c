//! Decimal digit text for natural numbers, and building `String`s from characters.

use vstd::prelude::*;

verus! {

/// `10^k`.
pub open spec fn pow10(k: nat) -> nat
    decreases k,
{
    if k == 0 {
        1
    } else {
        10 * pow10((k - 1) as nat)
    }
}

/// The character of a decimal digit `d < 10`.
pub open spec fn digit_char(d: nat) -> char {
    if d == 0 {
        '0'
    } else if d == 1 {
        '1'
    } else if d == 2 {
        '2'
    } else if d == 3 {
        '3'
    } else if d == 4 {
        '4'
    } else if d == 5 {
        '5'
    } else if d == 6 {
        '6'
    } else if d == 7 {
        '7'
    } else if d == 8 {
        '8'
    } else {
        '9'
    }
}

/// Decimal text of `n`, most significant digit first, without leading zeros
/// (`"0"` for zero).
pub open spec fn digits_of(n: nat) -> Seq<char>
    decreases n,
{
    if n < 10 {
        seq![digit_char(n)]
    } else {
        digits_of(n / 10).push(digit_char(n % 10))
    }
}

/// `k` zero characters.
pub open spec fn zeros(k: nat) -> Seq<char> {
    Seq::new(k, |i: int| '0')
}

pub proof fn lemma_pow10_positive(k: nat)
    ensures
        pow10(k) >= 1,
    decreases k,
{
    if k > 0 {
        lemma_pow10_positive((k - 1) as nat);
    }
}

pub proof fn lemma_pow10_monotone(j: nat, k: nat)
    requires
        j <= k,
    ensures
        pow10(j) <= pow10(k),
    decreases k,
{
    if j < k {
        lemma_pow10_monotone(j, (k - 1) as nat);
        lemma_pow10_positive((k - 1) as nat);
    }
}

/// Appending `k` zeros to the text of a positive number multiplies it by `10^k`.
pub proof fn lemma_digits_shift(m: nat, k: nat)
    requires
        m > 0,
    ensures
        digits_of(m * pow10(k)) == digits_of(m) + zeros(k),
    decreases k,
{
    if k == 0 {
        reveal_with_fuel(pow10, 1);
        assert(pow10(0) == 1);
        assert(m * pow10(0) == m) by (nonlinear_arith)
            requires
                pow10(0) == 1,
        ;
        assert(digits_of(m) + zeros(0) =~= digits_of(m));
    } else {
        let k1 = (k - 1) as nat;
        lemma_digits_shift(m, k1);
        lemma_pow10_positive(k1);
        let x = m * pow10(k1);
        assert(x >= 1) by (nonlinear_arith)
            requires
                m >= 1,
                pow10(k1) >= 1,
                x == m * pow10(k1),
        ;
        assert(m * pow10(k) == x * 10) by (nonlinear_arith)
            requires
                pow10(k) == 10 * pow10(k1),
                x == m * pow10(k1),
        ;
        assert((x * 10) / 10 == x);
        assert((x * 10) % 10 == 0);
        assert(digits_of(x * 10) == digits_of(x).push('0'));
        assert(digits_of(m) + zeros(k) =~= (digits_of(m) + zeros(k1)).push('0'));
    }
}

/// The character of the digit `d`.
pub fn digit_to_char(d: u64) -> (c: char)
    requires
        d < 10,
    ensures
        c == digit_char(d as nat),
{
    if d == 0 {
        '0'
    } else if d == 1 {
        '1'
    } else if d == 2 {
        '2'
    } else if d == 3 {
        '3'
    } else if d == 4 {
        '4'
    } else if d == 5 {
        '5'
    } else if d == 6 {
        '6'
    } else if d == 7 {
        '7'
    } else if d == 8 {
        '8'
    } else {
        '9'
    }
}

/// Appends the decimal text of `n` to `out`.
pub fn push_digits(n: u64, out: &mut Vec<char>)
    ensures
        final(out)@ == old(out)@ + digits_of(n as nat),
    decreases n,
{
    if n < 10 {
        out.push(digit_to_char(n));
        assert(old(out)@ + digits_of(n as nat) =~= old(out)@.push(digit_char(n as nat)));
    } else {
        push_digits(n / 10, out);
        out.push(digit_to_char(n % 10));
        assert(old(out)@ + digits_of(n as nat) =~= old(out)@ + digits_of((n / 10) as nat) + seq![
            digit_char((n % 10) as nat),
        ]);
    }
}

/// Appends `k` zero characters to `out`.
pub fn push_zeros(k: u64, out: &mut Vec<char>)
    ensures
        final(out)@ == old(out)@ + zeros(k as nat),
{
    let mut i: u64 = 0;
    while i < k
        invariant
            i <= k,
            out@ == old(out)@ + zeros(i as nat),
        decreases k - i,
    {
        out.push('0');
        i = i + 1;
        assert(old(out)@ + zeros(i as nat) =~= (old(out)@ + zeros((i - 1) as nat)).push('0'));
    }
}

/// Appends the characters of `s` to `out`.
pub fn push_str(s: &str, out: &mut Vec<char>)
    ensures
        final(out)@ == old(out)@ + s@,
{
    let n = s.unicode_len();
    let mut i: usize = 0;
    while i < n
        invariant
            i <= n,
            n == s@.len(),
            out@ == old(out)@ + s@.subrange(0, i as int),
        decreases n - i,
    {
        out.push(s.get_char(i));
        i = i + 1;
        assert(old(out)@ + s@.subrange(0, i as int) =~= (old(out)@ + s@.subrange(0, (i - 1) as int)).push(s@[i - 1]));
    }
    assert(s@.subrange(0, n as int) =~= s@);
}

/// Relies on `String`'s `FromIterator<&char>`: collects the characters in order.
#[verifier::external_body]
pub(crate) fn string_of(chars: &Vec<char>) -> (r: String)
    ensures
        r@ == chars@,
{
    chars.iter().collect()
}

} // verus!
