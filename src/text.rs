use vstd::prelude::*;

verus! {

/// The decimal digit for a value below ten.
pub open spec fn digit_char(d: nat) -> char {
    if d == 0 { '0' }
    else if d == 1 { '1' }
    else if d == 2 { '2' }
    else if d == 3 { '3' }
    else if d == 4 { '4' }
    else if d == 5 { '5' }
    else if d == 6 { '6' }
    else if d == 7 { '7' }
    else if d == 8 { '8' }
    else { '9' }
}

/// The decimal notation of `n`, without sign or leading zeros.
pub open spec fn decimal(n: nat) -> Seq<char>
    decreases n,
{
    if n < 10 {
        seq![digit_char(n)]
    } else {
        decimal(n / 10).push(digit_char(n % 10))
    }
}

/// `1024` to the power `k`.
pub open spec fn pow1024(k: nat) -> nat
    decreases k,
{
    if k == 0 { 1 } else { 1024 * pow1024((k - 1) as nat) }
}

/// How many times `n` can be divided by 1024 before it drops below 1024.
pub open spec fn unit_index(n: nat) -> nat
    decreases n,
{
    if n < 1024 { 0 } else { 1 + unit_index(n / 1024) }
}

/// `n / d` rounded to the nearest integer, ties to the even neighbour.
pub open spec fn rounded_div(n: nat, d: nat) -> nat
    recommends d > 0,
{
    let q = n / d;
    let r = n % d;
    if r > d - r || (r == d - r && q % 2 == 1) { q + 1 } else { q }
}

/// The binary prefix of unit `k` (`Ki` for 1024, `Mi` for 1024 squared, ...).
pub open spec fn binary_prefix(k: nat) -> Seq<char> {
    if k == 1 { seq!['K', 'i'] }
    else if k == 2 { seq!['M', 'i'] }
    else if k == 3 { seq!['G', 'i'] }
    else if k == 4 { seq!['T', 'i'] }
    else if k == 5 { seq!['P', 'i'] }
    else { seq!['E', 'i'] }
}

/// A byte count for people: `"10 B"` below 1024 bytes, else the count in the
/// largest binary unit that keeps it at least 1, rounded (`"4 KiB"`).
pub open spec fn human_size(n: nat) -> Seq<char> {
    if n < 1024 {
        decimal(n) + seq![' ', 'B']
    } else {
        let k = unit_index(n);
        decimal(rounded_div(n, pow1024(k))) + seq![' '] + binary_prefix(k) + seq!['B']
    }
}

/// Relies on `String::push`: appends one character.
#[verifier::external_body]
pub(crate) fn push_char(s: &mut String, c: char)
    ensures
        final(s)@ == old(s)@.push(c),
{
    s.push(c)
}

fn digit(d: u64) -> (c: char)
    requires
        d < 10,
    ensures
        c == digit_char(d as nat),
{
    if d == 0 { '0' }
    else if d == 1 { '1' }
    else if d == 2 { '2' }
    else if d == 3 { '3' }
    else if d == 4 { '4' }
    else if d == 5 { '5' }
    else if d == 6 { '6' }
    else if d == 7 { '7' }
    else if d == 8 { '8' }
    else { '9' }
}

/// Appends the decimal notation of `n` to `out`.
pub fn push_decimal(out: &mut String, n: u64)
    ensures
        final(out)@ == old(out)@ + decimal(n as nat),
    decreases n,
{
    if n >= 10 {
        push_decimal(out, n / 10);
    }
    push_char(out, digit(n % 10));
    assert(final(out)@ =~= old(out)@ + decimal(n as nat));
}

/// The decimal notation of `n`.
pub fn decimal_string(n: u64) -> (r: String)
    ensures
        r@ == decimal(n as nat),
{
    let mut r = String::new();
    push_decimal(&mut r, n);
    assert(r@ =~= decimal(n as nat));
    r
}

proof fn lemma_pow1024_6()
    ensures
        pow1024(6) == 0x1000000000000000nat,
{
    reveal_with_fuel(pow1024, 7);
}

fn push_prefix(out: &mut String, k: u64)
    requires
        1 <= k <= 6,
    ensures
        final(out)@ == old(out)@ + binary_prefix(k as nat),
{
    let c = if k == 1 { 'K' }
        else if k == 2 { 'M' }
        else if k == 3 { 'G' }
        else if k == 4 { 'T' }
        else if k == 5 { 'P' }
        else { 'E' };
    push_char(out, c);
    push_char(out, 'i');
    assert(final(out)@ =~= old(out)@ + binary_prefix(k as nat));
}

/// The byte count `n` for people, in binary units (see [`human_size`]).
pub fn human_size_string(n: u64) -> (r: String)
    ensures
        r@ == human_size(n as nat),
{
    let mut r = String::new();
    if n < 1024 {
        push_decimal(&mut r, n);
        push_char(&mut r, ' ');
        push_char(&mut r, 'B');
        assert(r@ =~= human_size(n as nat));
        return r;
    }
    let mut m: u64 = n / 1024;
    let mut d: u64 = 1024;
    let mut k: u64 = 1;
    proof {
        reveal_with_fuel(pow1024, 2);
        reveal_with_fuel(unit_index, 2);
    }
    while m >= 1024
        invariant
            1 <= k <= 6,
            d as nat == pow1024(k as nat),
            1024 <= d,
            m == n / d,
            1 <= m,
            unit_index(n as nat) == k + unit_index(m as nat),
        decreases m,
    {
        proof {
            lemma_pow1024_6();
            vstd::arithmetic::div_mod::lemma_fundamental_div_mod(n as int, d as int);
            vstd::arithmetic::div_mod::lemma_div_denominator(n as int, d as int, 1024);
            if k == 6 {
                assert(d * m >= 0x1000000000000000 * 1024) by (nonlinear_arith)
                    requires d == 0x1000000000000000u64, m >= 1024;
            }
            assert(d * m <= n) by (nonlinear_arith)
                requires n == d * m + n % d, n % d >= 0;
            assert(d * 1024 <= d * m) by (nonlinear_arith)
                requires m >= 1024, d >= 0;
        }
        m = m / 1024;
        d = d * 1024;
        k = k + 1;
    }
    let q = n / d;
    let rem = n % d;
    let rounded = if rem > d - rem || (rem == d - rem && q % 2 == 1) { q + 1 } else { q };
    push_decimal(&mut r, rounded);
    push_char(&mut r, ' ');
    push_prefix(&mut r, k);
    push_char(&mut r, 'B');
    proof {
        assert(unit_index(m as nat) == 0);
    }
    assert(r@ =~= human_size(n as nat));
    r
}

} // verus!
