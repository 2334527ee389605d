use vstd::prelude::*;

use crate::text::{dec_text, digit, digit_char, push_char, push_decimal};

verus! {

/// The two unit systems in which a byte count can be shown.
#[derive(Clone, Copy, Debug, PartialEq, Eq, Structural)]
pub enum Prefix {
    /// Powers of 1000: B, KB, MB, ...
    Decimal,
    /// Powers of 1024: B, KiB, MiB, ...
    Binary,
}

pub open spec fn base_of(p: Prefix) -> nat {
    match p {
        Prefix::Decimal => 1000,
        Prefix::Binary => 1024,
    }
}

pub fn base(p: Prefix) -> (r: u64)
    ensures
        r == base_of(p),
{
    match p {
        Prefix::Decimal => 1000,
        Prefix::Binary => 1024,
    }
}

/// The number of units above the byte: kilo, mega, giga, tera, peta, exa.
pub const LARGEST_SCALE: usize = 6;

/// `b` raised to the power `k`.
pub open spec fn power(b: nat, k: nat) -> nat
    decreases k,
{
    if k == 0 {
        1
    } else {
        b * power(b, (k - 1) as nat)
    }
}

/// Climbs from unit `k` while the next unit's threshold still fits in `bytes`.
pub open spec fn scale_from(bytes: nat, b: nat, k: nat) -> nat
    decreases LARGEST_SCALE - k,
{
    if k < LARGEST_SCALE && power(b, k + 1) <= bytes {
        scale_from(bytes, b, k + 1)
    } else {
        k
    }
}

/// The index of the unit a byte count is shown in: the largest unit, up to
/// the exa unit, whose threshold does not exceed the count (bytes below the
/// first threshold, zero included, stay in bytes).
pub open spec fn scale(bytes: nat, p: Prefix) -> nat {
    scale_from(bytes, base_of(p), 0)
}

/// The letter of the unit with index `k` (from 1 on).
pub open spec fn scale_letter(k: nat) -> char {
    if k == 1 {
        'K'
    } else if k == 2 {
        'M'
    } else if k == 3 {
        'G'
    } else if k == 4 {
        'T'
    } else if k == 5 {
        'P'
    } else {
        'E'
    }
}

/// The label of unit `k`: "B", then "KB", "MB", ... or "KiB", "MiB", ...
pub open spec fn unit_label(p: Prefix, k: nat) -> Seq<char> {
    if k == 0 {
        seq!['B']
    } else {
        match p {
            Prefix::Decimal => seq![scale_letter(k), 'B'],
            Prefix::Binary => seq![scale_letter(k), 'i', 'B'],
        }
    }
}

/// The count in its unit, in hundredths, rounded toward zero.
pub open spec fn hundredths(bytes: nat, p: Prefix) -> nat {
    (bytes * 100) / power(base_of(p), scale(bytes, p))
}

/// The number part of the text: whole units, a dot, two digits of fraction.
pub open spec fn amount_text(bytes: nat, p: Prefix) -> Seq<char> {
    let h = hundredths(bytes, p);
    dec_text(h / 100) + seq!['.', digit_char((h % 100) / 10), digit_char(h % 10)]
}

/// A byte count as shown to a reader, e.g. "512.00 B", "4.30 MB", "1.25 GiB".
pub open spec fn format_spec(bytes: nat, p: Prefix) -> Seq<char> {
    amount_text(bytes, p) + seq![' '] + unit_label(p, scale(bytes, p))
}

proof fn lemma_div_step(d: nat, b: nat, bytes: nat)
    requires
        b > 0,
    ensures
        (d <= bytes / b) <==> (d * b <= bytes),
{
    let q = bytes / b;
    let r = bytes % b;
    vstd::arithmetic::div_mod::lemma_fundamental_div_mod(bytes as int, b as int);
    assert(0 <= r < b);
    assert((d <= q) <==> (d * b <= bytes)) by (nonlinear_arith)
        requires
            bytes == b * q + r,
            0 <= r < b,
            b > 0,
    ;
}

/// Appends the label of unit `k` to `s`.
fn push_label(s: &mut String, p: Prefix, k: usize)
    requires
        k <= LARGEST_SCALE,
    ensures
        final(s)@ == old(s)@ + unit_label(p, k as nat),
{
    if k > 0 {
        let letter = if k == 1 {
            'K'
        } else if k == 2 {
            'M'
        } else if k == 3 {
            'G'
        } else if k == 4 {
            'T'
        } else if k == 5 {
            'P'
        } else {
            'E'
        };
        push_char(s, letter);
        if p == Prefix::Binary {
            push_char(s, 'i');
        }
    }
    push_char(s, 'B');
    assert(final(s)@ =~= old(s)@ + unit_label(p, k as nat));
}

/// Renders a byte count in the largest unit of `p` that keeps the number at
/// one or more, with two digits of fraction, rounded toward zero.
pub fn format(bytes: u64, p: Prefix) -> (r: String)
    ensures
        r@ == format_spec(bytes as nat, p),
{
    let b = base(p);
    let mut d: u64 = 1;
    let mut k: usize = 0;
    while k < LARGEST_SCALE && d <= bytes / b
        invariant
            b == base_of(p),
            k <= LARGEST_SCALE,
            d == power(b as nat, k as nat),
            d >= 1,
            d <= bytes || k == 0,
            scale(bytes as nat, p) == scale_from(bytes as nat, b as nat, k as nat),
        decreases LARGEST_SCALE - k,
    {
        proof {
            lemma_div_step(d as nat, b as nat, bytes as nat);
        }
        assert(d * b >= 1) by (nonlinear_arith)
            requires
                d >= 1,
                b >= 1,
        ;
        d = d * b;
        k = k + 1;
    }
    proof {
        lemma_div_step(d as nat, b as nat, bytes as nat);
        assert(power(b as nat, (k + 1) as nat) == d * b);
    }
    let h: u128 = (bytes as u128 * 100) / (d as u128);
    assert(h == hundredths(bytes as nat, p));
    assert(h as int <= bytes as int * 100) by (nonlinear_arith)
        requires
            h as int == (bytes as int * 100) / (d as int),
            d >= 1;
    let whole: u64 = (h / 100) as u64;
    let frac: u64 = (h % 100) as u64;
    let mut s = String::new();
    push_decimal(&mut s, whole);
    push_char(&mut s, '.');
    push_char(&mut s, digit(frac / 10));
    push_char(&mut s, digit(frac % 10));
    push_char(&mut s, ' ');
    push_label(&mut s, p, k);
    assert(s@ =~= format_spec(bytes as nat, p));
    s
}

proof fn lemma_power_positive(b: nat, k: nat)
    requires
        b >= 1,
    ensures
        power(b, k) >= 1,
    decreases k,
{
    if k > 0 {
        lemma_power_positive(b, (k - 1) as nat);
        assert(b * power(b, (k - 1) as nat) >= 1) by (nonlinear_arith)
            requires
                b >= 1,
                power(b, (k - 1) as nat) >= 1,
        ;
    }
}

proof fn lemma_power_monotone(b: nat, i: nat, j: nat)
    requires
        b >= 1,
        i <= j,
    ensures
        power(b, i) <= power(b, j),
    decreases j,
{
    if i < j {
        lemma_power_monotone(b, i, (j - 1) as nat);
        lemma_power_positive(b, (j - 1) as nat);
        assert(power(b, (j - 1) as nat) <= b * power(b, (j - 1) as nat)) by (nonlinear_arith)
            requires
                b >= 1,
        ;
    }
}

/// A count at or above the threshold of unit `k`, and below that of the
/// next unit (if there is one), is shown in unit `k`.
proof fn lemma_scale_is(bytes: nat, b: nat, j: nat, k: nat)
    requires
        b >= 2,
        j <= k <= LARGEST_SCALE,
        k == 0 || power(b, k) <= bytes,
        k == LARGEST_SCALE || bytes < power(b, k + 1),
    ensures
        scale_from(bytes, b, j) == k,
    decreases k - j,
{
    if j < k {
        lemma_power_monotone(b, j + 1, k);
        lemma_scale_is(bytes, b, j + 1, k);
    }
}

/// Zero bytes read the same in both unit systems.
pub proof fn lemma_zero_same_in_both(p: Prefix, q: Prefix)
    ensures
        format_spec(0, p) == format_spec(0, q),
        scale(0, p) == 0,
{
    assert(power(base_of(p), 0) == 1 && power(base_of(q), 0) == 1);
    assert(power(base_of(p), 1) == base_of(p) && power(base_of(q), 1) == base_of(q));
    lemma_scale_is(0, base_of(p), 0, 0);
    lemma_scale_is(0, base_of(q), 0, 0);
    assert(format_spec(0, p) =~= format_spec(0, q));
}

/// At each threshold the unit changes: one byte below the threshold of unit
/// `k` the count is shown in unit `k - 1`, at the threshold in unit `k`.
pub proof fn lemma_threshold_boundary(p: Prefix, k: nat)
    requires
        1 <= k <= LARGEST_SCALE,
    ensures
        scale((power(base_of(p), k) - 1) as nat, p) == k - 1,
        scale(power(base_of(p), k), p) == k,
        format_spec((power(base_of(p), k) - 1) as nat, p) == amount_text(
            (power(base_of(p), k) - 1) as nat,
            p,
        ) + seq![' '] + unit_label(p, (k - 1) as nat),
        format_spec(power(base_of(p), k), p) == amount_text(power(base_of(p), k), p) + seq![' ']
            + unit_label(p, k),
{
    let b = base_of(p);
    let t = power(b, k);
    lemma_power_positive(b, (k - 1) as nat);
    assert(power(b, (k - 1) as nat) < t) by (nonlinear_arith)
        requires
            t == b * power(b, (k - 1) as nat),
            b >= 2,
            power(b, (k - 1) as nat) >= 1,
    ;
    lemma_scale_is((t - 1) as nat, b, 0, (k - 1) as nat);
    if k < LARGEST_SCALE {
        lemma_power_positive(b, k);
        assert(t < power(b, k + 1)) by (nonlinear_arith)
            requires
                power(b, k + 1) == b * t,
                b >= 2,
                t >= 1,
        ;
    }
    lemma_scale_is(t, b, 0, k);
}

} // verus!
