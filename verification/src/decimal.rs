//! Decimal text of a token supply.
//!
//! A supply is a count of smallest units, of which 10^18 make one token. It
//! is written as the whole tokens in decimal, followed, where the rest is
//! not zero, by a point and the rest in eighteen decimal places without the
//! zeros at the end.

use vstd::prelude::*;
use vstd::string::*;
use crate::text::digit_char;
use crate::text::digit_of;
use crate::text::digit_str;
use crate::text::digit_value;
use crate::text::is_digit;
use crate::uint::uint256_bound;
use crate::uint::Uint256;

verus! {

/// Decimal places of a supply.
pub const DECIMALS: usize = 18;

/// Smallest units in one token: ten to the power [`DECIMALS`].
pub const UNITS_PER_TOKEN: u64 = 1_000_000_000_000_000_000;

/// Ten to the power `k`.
pub open spec fn pow10(k: nat) -> nat
    decreases k,
{
    if k == 0 {
        1
    } else {
        10 * pow10((k - 1) as nat)
    }
}

/// The decimal digits of `n`, without leading zeros; `"0"` for zero.
pub open spec fn decimal_text(n: nat) -> Seq<char>
    decreases n,
{
    if n < 10 {
        seq![digit_char(n)]
    } else {
        decimal_text(n / 10).push(digit_char(n % 10))
    }
}

/// The last `width` decimal digits of `f`, with leading zeros.
pub open spec fn fixed_digits(f: nat, width: nat) -> Seq<char>
    decreases width,
{
    if width == 0 {
        Seq::empty()
    } else {
        fixed_digits(f / 10, (width - 1) as nat).push(digit_char(f % 10))
    }
}

/// The last `width` decimal digits of `f` without the zeros at their end.
pub open spec fn fraction_text(f: nat, width: nat) -> Seq<char>
    decreases width,
{
    if width == 0 {
        Seq::empty()
    } else if f % 10 == 0 {
        fraction_text(f / 10, (width - 1) as nat)
    } else {
        fixed_digits(f, width)
    }
}

/// The text of a supply of `raw` smallest units.
pub open spec fn supply_text(raw: nat) -> Seq<char> {
    let whole = raw / (UNITS_PER_TOKEN as nat);
    let rest = raw % (UNITS_PER_TOKEN as nat);
    if rest == 0 {
        decimal_text(whole)
    } else {
        decimal_text(whole) + seq!['.'] + fraction_text(rest, DECIMALS as nat)
    }
}

/// Whether the character can stand in the text of a supply.
pub open spec fn is_numeric(c: char) -> bool {
    is_digit(c) || c == '.'
}

/// The number `a` with the digits of `s` written behind it. A character
/// that is no digit counts as a zero.
pub open spec fn extend(a: nat, s: Seq<char>) -> nat
    decreases s.len(),
{
    if s.len() == 0 {
        a
    } else {
        extend(a, s.drop_last()) * 10 + digit_value(s.last())
    }
}

/// Whether `p` is where the first point of `s` stands, or the length of `s`
/// where it has none.
pub open spec fn is_first_point(s: Seq<char>, p: int) -> bool {
    &&& 0 <= p <= s.len()
    &&& forall|j: int| 0 <= j < p ==> s[j] != '.'
    &&& p < s.len() ==> s[p] == '.'
}

/// The smallest units that the text of a supply stands for, read leniently:
/// the digits before the first point are whole tokens, up to eighteen digits
/// behind it are decimal places. `None` where there are more places than
/// eighteen or the number does not fit in 256 bits.
pub open spec fn supply_value(s: Seq<char>) -> Option<nat> {
    let p = choose|p: int| is_first_point(s, p);
    let whole = s.take(p);
    let places = if p < s.len() {
        s.skip(p + 1)
    } else {
        Seq::empty()
    };
    if places.len() > DECIMALS {
        None
    } else {
        let v = extend(
            0,
            whole + places + fixed_digits(0, (DECIMALS - places.len()) as nat),
        );
        if v < uint256_bound() {
            Some(v)
        } else {
            None
        }
    }
}

/// Ten to the power of the decimal places is the number of smallest units
/// in one token.
pub proof fn lemma_pow10_of_decimals()
    ensures
        pow10(DECIMALS as nat) == UNITS_PER_TOKEN,
{
    reveal_with_fuel(pow10, 19);
}

/// The character of a digit is a digit and stands for that digit.
pub proof fn lemma_digit_round_trip(d: nat)
    requires
        d < 10,
    ensures
        digit_value(digit_char(d)) == d,
        is_digit(digit_char(d)),
{
}

/// The decimal text of a number is not empty and holds digits only.
pub proof fn lemma_decimal_text_digits(n: nat)
    ensures
        decimal_text(n).len() >= 1,
        forall|i: int| 0 <= i < decimal_text(n).len() ==> is_digit(#[trigger] decimal_text(n)[i]),
    decreases n,
{
    if n >= 10 {
        lemma_decimal_text_digits(n / 10);
    }
}

/// Writing further digits behind a number never makes it smaller.
pub proof fn lemma_extend_grows(a: nat, s: Seq<char>)
    ensures
        extend(a, s) >= a,
    decreases s.len(),
{
    if s.len() > 0 {
        lemma_extend_grows(a, s.drop_last());
    }
}

/// Writing `s` and then `t` behind a number is writing `s + t` behind it.
pub proof fn lemma_extend_concat(a: nat, s: Seq<char>, t: Seq<char>)
    ensures
        extend(a, s + t) == extend(extend(a, s), t),
    decreases t.len(),
{
    if t.len() == 0 {
        assert(s + t =~= s);
    } else {
        assert((s + t).drop_last() =~= s + t.drop_last());
        lemma_extend_concat(a, s, t.drop_last());
    }
}

/// Reading the decimal text of a number gives the number.
pub proof fn lemma_extend_decimal(n: nat)
    ensures
        extend(0, decimal_text(n)) == n,
    decreases n,
{
    let text = decimal_text(n);
    if n < 10 {
        assert(text.drop_last() =~= Seq::<char>::empty());
        assert(extend(0, text.drop_last()) == 0);
        lemma_digit_round_trip(n);
    } else {
        lemma_extend_decimal(n / 10);
        assert(text.drop_last() =~= decimal_text(n / 10));
        lemma_digit_round_trip(n % 10);
    }
}

/// Fixed digits have their width, are digits, and read back as the number
/// below ten to the width.
pub proof fn lemma_fixed_digits(a: nat, f: nat, width: nat)
    ensures
        fixed_digits(f, width).len() == width,
        forall|i: int| 0 <= i < width ==> is_digit(#[trigger] fixed_digits(f, width)[i]),
        extend(a, fixed_digits(f, width)) == a * pow10(width) + f % pow10(width),
    decreases width,
{
    if width > 0 {
        let shorter = (width - 1) as nat;
        lemma_fixed_digits(a, f / 10, shorter);
        let text = fixed_digits(f, width);
        assert(text.drop_last() =~= fixed_digits(f / 10, shorter));
        lemma_digit_round_trip(f % 10);
        let p = pow10(shorter);
        assert(p > 0) by {
            lemma_pow10_positive(shorter);
        }
        assert(f % (10 * p) == (f / 10 % p) * 10 + f % 10) by {
            lemma_mod_split(f, p);
        }
        let r = (f / 10) % p;
        assert((a * p + r) * 10 == a * (10 * p) + r * 10) by (nonlinear_arith);
        assert(pow10(width) == 10 * p);
        assert(extend(a, text) == extend(a, text.drop_last()) * 10 + digit_value(text.last()));
        assert(extend(a, text.drop_last()) == a * p + r);
        assert(text.last() == digit_char(f % 10));
    } else {
        assert(pow10(width) == 1);
        assert(a * 1 == a) by (nonlinear_arith);
    }
}

/// No power of ten is zero.
pub proof fn lemma_pow10_positive(k: nat)
    ensures
        pow10(k) > 0,
    decreases k,
{
    if k > 0 {
        lemma_pow10_positive((k - 1) as nat);
    }
}

/// The rest of `f` by `10 * p` is the rest of `f / 10` by `p`, with the last
/// digit of `f` behind it.
proof fn lemma_mod_split(f: nat, p: nat)
    requires
        p > 0,
    ensures
        f % (10 * p) == ((f / 10) % p) * 10 + f % 10,
{
    let q = (f / 10) / p;
    let r = (f / 10) % p;
    vstd::arithmetic::div_mod::lemma_fundamental_div_mod((f / 10) as int, p as int);
    assert(f == q * (10 * p) + (r * 10 + f % 10)) by (nonlinear_arith)
        requires
            f / 10 == p * q + r,
            f == (f / 10) * 10 + f % 10,
    ;
    assert(r * 10 + f % 10 < 10 * p) by (nonlinear_arith)
        requires
            r < p,
            f % 10 < 10,
    ;
    vstd::arithmetic::div_mod::lemma_fundamental_div_mod_converse(
        f as int,
        (10 * p) as int,
        q as int,
        (r * 10 + f % 10) as int,
    );
}

/// The decimal places of a number are digits, at most `width` of them, and
/// with the zeros put back they read as the fixed digits do.
pub proof fn lemma_fraction_text(a: nat, f: nat, width: nat)
    ensures
        fraction_text(f, width).len() <= width,
        forall|i: int|
            0 <= i < fraction_text(f, width).len() ==> is_digit(
                #[trigger] fraction_text(f, width)[i],
            ),
        extend(
            a,
            fraction_text(f, width) + fixed_digits(
                0,
                (width - fraction_text(f, width).len()) as nat,
            ),
        ) == extend(a, fixed_digits(f, width)),
    decreases width,
{
    if width == 0 {
        assert(fraction_text(f, width) + fixed_digits(0, 0) =~= fixed_digits(f, width));
    } else if f % 10 == 0 {
        let shorter = (width - 1) as nat;
        lemma_fraction_text(a, f / 10, shorter);
        let places = fraction_text(f, width);
        let fewer = (shorter - places.len()) as nat;
        let more = (width - places.len()) as nat;
        assert(fixed_digits(0, more) == fixed_digits(0, fewer).push('0'));
        assert((places + fixed_digits(0, more)).drop_last() =~= places + fixed_digits(0, fewer));
        assert(fixed_digits(f, width).drop_last() =~= fixed_digits(f / 10, shorter));
    } else {
        lemma_fixed_digits(a, f, width);
        assert(fraction_text(f, width) + fixed_digits(0, 0) =~= fixed_digits(f, width));
    }
}

/// The text of a supply is not empty and holds digits and points only.
pub proof fn lemma_supply_text_numeric(raw: nat)
    ensures
        supply_text(raw).len() >= 1,
        forall|i: int| 0 <= i < supply_text(raw).len() ==> is_numeric(#[trigger] supply_text(raw)[i]),
{
    let whole = raw / (UNITS_PER_TOKEN as nat);
    let rest = raw % (UNITS_PER_TOKEN as nat);
    lemma_decimal_text_digits(whole);
    lemma_fraction_text(0, rest, DECIMALS as nat);
}

/// Reading the text of a supply gives the supply back.
pub proof fn lemma_supply_value_inverts(raw: nat)
    requires
        raw < uint256_bound(),
    ensures
        supply_value(supply_text(raw)) == Some(raw),
{
    let whole = raw / (UNITS_PER_TOKEN as nat);
    let rest = raw % (UNITS_PER_TOKEN as nat);
    let text = supply_text(raw);
    let head = decimal_text(whole);
    lemma_decimal_text_digits(whole);
    lemma_extend_decimal(whole);
    lemma_pow10_of_decimals();
    let p = choose|p: int| is_first_point(text, p);
    if rest == 0 {
        assert(is_first_point(text, text.len() as int));
        assert(p == text.len());
        let pad = fixed_digits(0, DECIMALS as nat);
        assert(text.take(p) =~= head);
        assert(head + Seq::<char>::empty() =~= head);
        lemma_extend_concat(0, head, pad);
        lemma_fixed_digits(whole, 0, DECIMALS as nat);
        assert(whole * (UNITS_PER_TOKEN as nat) == raw) by (nonlinear_arith)
            requires
                whole == raw / (UNITS_PER_TOKEN as nat),
                0 == raw % (UNITS_PER_TOKEN as nat),
        ;
    } else {
        let places = fraction_text(rest, DECIMALS as nat);
        lemma_fraction_text(whole, rest, DECIMALS as nat);
        let at = head.len() as int;
        assert(text[at] == '.');
        assert(is_first_point(text, at));
        assert(p == at);
        assert(text.take(p) =~= head);
        assert(text.skip(p + 1) =~= places);
        let pad = fixed_digits(0, (DECIMALS - places.len()) as nat);
        assert(head + places + pad =~= head + (places + pad));
        lemma_extend_concat(0, head, places + pad);
        lemma_fixed_digits(whole, rest, DECIMALS as nat);
        assert(whole * (UNITS_PER_TOKEN as nat) + rest == raw) by (nonlinear_arith)
            requires
                whole == raw / (UNITS_PER_TOKEN as nat),
                rest == raw % (UNITS_PER_TOKEN as nat),
        ;
        assert(rest % (UNITS_PER_TOKEN as nat) == rest);
    }
}

/// Ten to a smaller power is not greater.
pub proof fn lemma_pow10_monotone(i: nat, j: nat)
    requires
        i <= j,
    ensures
        pow10(i) <= pow10(j),
    decreases j,
{
    if i < j {
        lemma_pow10_monotone(i, (j - 1) as nat);
    }
}

/// The digits of `digits`, last one first.
spec fn reversed_digits(digits: Seq<u8>) -> Seq<char> {
    Seq::new(digits.len(), |i: int| digit_char(digits[digits.len() - 1 - i] as nat))
}

/// The decimal text of `n`, but nothing for zero.
spec fn leading_text(n: nat) -> Seq<char> {
    if n == 0 {
        Seq::empty()
    } else {
        decimal_text(n)
    }
}

/// Splits a supply in smallest units into whole tokens and the rest.
pub fn convert_wei(wei: &Uint256) -> (parts: (Uint256, u64))
    ensures
        parts.0@ == wei@ / (UNITS_PER_TOKEN as nat),
        parts.1 == wei@ % (UNITS_PER_TOKEN as nat),
        parts.0@ * UNITS_PER_TOKEN + parts.1 == wei@,
{
    wei.div_rem(UNITS_PER_TOKEN)
}

/// Appends the characters of `digits` to `out`, last digit first.
fn append_reversed(out: &mut String, digits: &Vec<u8>)
    requires
        forall|k: int| 0 <= k < digits.len() ==> digits@[k] < 10,
    ensures
        final(out)@ == old(out)@ + reversed_digits(digits@),
{
    let mut i: usize = digits.len();
    let ghost all = reversed_digits(digits@);
    assert(out@ =~= old(out)@ + all.take(0));
    while i > 0
        invariant
            i <= digits.len(),
            all == reversed_digits(digits@),
            forall|k: int| 0 <= k < digits.len() ==> digits@[k] < 10,
            out@ == old(out)@ + all.take(digits.len() - i),
        decreases i,
    {
        i = i - 1;
        out.append(digit_str(digits[i]));
        proof {
            let done = digits.len() - i;
            assert(all.take(done) =~= all.take(done - 1) + seq![digit_char(digits@[i as int] as nat)]);
            assert(out@ =~= old(out)@ + all.take(done));
        }
    }
    assert(all.take(digits.len() as int) =~= all);
}

/// Appends the decimal text of `n` to `out`.
pub fn append_decimal(out: &mut String, n: &Uint256)
    ensures
        final(out)@ == old(out)@ + decimal_text(n@),
{
    let mut digits: Vec<u8> = Vec::new();
    let (first_q, first_r) = n.div_rem(10);
    digits.push(first_r as u8);
    let mut cur = first_q;
    assert(decimal_text(n@) =~= leading_text(cur@) + reversed_digits(digits@));
    while !cur.is_zero()
        invariant
            forall|k: int| 0 <= k < digits.len() ==> digits@[k] < 10,
            decimal_text(n@) == leading_text(cur@) + reversed_digits(digits@),
        decreases cur@,
    {
        let (q, r) = cur.div_rem(10);
        let ghost before = digits@;
        digits.push(r as u8);
        proof {
            assert(decimal_text(cur@) =~= leading_text(q@) + seq![digit_char(r as nat)]);
            assert(reversed_digits(digits@) =~= seq![digit_char(r as nat)] + reversed_digits(
                before,
            ));
            assert(decimal_text(n@) =~= leading_text(q@) + reversed_digits(digits@));
        }
        cur = q;
    }
    assert(leading_text(cur@) + reversed_digits(digits@) =~= reversed_digits(digits@));
    append_reversed(out, &digits);
}

/// Appends the decimal places of `rest` to `out`: its last eighteen digits
/// without the zeros at their end.
pub fn append_fraction(out: &mut String, rest: u64)
    ensures
        final(out)@ == old(out)@ + fraction_text(rest as nat, DECIMALS as nat),
{
    let mut cur: u64 = rest;
    let mut width: usize = DECIMALS;
    while width > 0 && cur % 10 == 0
        invariant
            width <= DECIMALS,
            fraction_text(rest as nat, DECIMALS as nat) == fraction_text(cur as nat, width as nat),
        decreases width,
    {
        cur = cur / 10;
        width = width - 1;
    }
    let ghost kept = cur;
    let mut digits: Vec<u8> = Vec::new();
    let mut k: usize = 0;
    assert(fixed_digits(kept as nat, width as nat) =~= fixed_digits(cur as nat, (width - k) as nat)
        + reversed_digits(digits@));
    while k < width
        invariant
            k <= width,
            forall|j: int| 0 <= j < digits.len() ==> digits@[j] < 10,
            fixed_digits(kept as nat, width as nat) == fixed_digits(
                cur as nat,
                (width - k) as nat,
            ) + reversed_digits(digits@),
        decreases width - k,
    {
        let ghost before = digits@;
        let ghost was = cur;
        digits.push((cur % 10) as u8);
        cur = cur / 10;
        k = k + 1;
        proof {
            assert(reversed_digits(digits@) =~= seq![digit_char(was as nat % 10)]
                + reversed_digits(before));
            assert(fixed_digits(was as nat, (width - k + 1) as nat) =~= fixed_digits(
                cur as nat,
                (width - k) as nat,
            ) + seq![digit_char(was as nat % 10)]);
            assert(fixed_digits(kept as nat, width as nat) =~= fixed_digits(
                cur as nat,
                (width - k) as nat,
            ) + reversed_digits(digits@));
        }
    }
    assert(fixed_digits(cur as nat, 0) + reversed_digits(digits@) =~= reversed_digits(digits@));
    append_reversed(out, &digits);
}

/// Appends the text of a supply of `raw` smallest units to `out`.
pub fn append_supply(out: &mut String, raw: &Uint256)
    ensures
        final(out)@ == old(out)@ + supply_text(raw@),
{
    let (whole, rest) = convert_wei(raw);
    append_decimal(out, &whole);
    if rest != 0 {
        let ghost head = out@;
        out.append(".");
        proof {
            reveal_strlit(".");
            assert(out@ =~= head + seq!['.']);
        }
        append_fraction(out, rest);
        assert(out@ =~= old(out)@ + supply_text(raw@));
    }
}

/// Ten to the power `k`, for a `k` of at most eighteen.
fn pow10_u64(k: usize) -> (p: u64)
    requires
        k <= DECIMALS,
    ensures
        p == pow10(k as nat),
{
    let mut p: u64 = 1;
    let mut i: usize = 0;
    while i < k
        invariant
            i <= k <= DECIMALS,
            p == pow10(i as nat),
        decreases k - i,
    {
        proof {
            lemma_pow10_monotone((i + 1) as nat, DECIMALS as nat);
            lemma_pow10_of_decimals();
        }
        p = p * 10;
        i = i + 1;
    }
    p
}

/// Writes the digits of `chars` from `from` up to `to` behind `start`.
fn accumulate(start: Uint256, chars: &Vec<char>, from: usize, to: usize) -> (r: Option<Uint256>)
    requires
        from <= to <= chars.len(),
    ensures
        r is Some <==> extend(start@, chars@.subrange(from as int, to as int)) < uint256_bound(),
        r is Some ==> r->0@ == extend(start@, chars@.subrange(from as int, to as int)),
{
    let ghost s = chars@.subrange(from as int, to as int);
    let mut acc = start;
    let mut i: usize = from;
    assert(s.take(0) =~= Seq::<char>::empty());
    while i < to
        invariant
            from <= i <= to <= chars.len(),
            s == chars@.subrange(from as int, to as int),
            acc@ == extend(start@, s.take(i - from)),
        decreases to - i,
    {
        let d: u8 = digit_of(chars[i]);
        let ghost longer = s.take(i + 1 - from);
        proof {
            assert(longer.drop_last() =~= s.take(i - from));
            assert(longer.last() == chars@[i as int]);
        }
        match acc.mul_add(10, d as u64) {
            Some(next) => {
                acc = next;
            },
            None => {
                proof {
                    assert(longer + s.skip(i + 1 - from) =~= s);
                    lemma_extend_concat(start@, longer, s.skip(i + 1 - from));
                    lemma_extend_grows(extend(start@, longer), s.skip(i + 1 - from));
                }
                return None;
            },
        }
        i = i + 1;
    }
    proof {
        assert(s.take(to - from) =~= s);
        acc.lemma_bounded();
    }
    Some(acc)
}

/// Reads the characters of `chars` from `from` up to `to` as the text of a
/// supply.
pub fn decode_supply(chars: &Vec<char>, from: usize, to: usize) -> (r: Option<Uint256>)
    requires
        from <= to <= chars.len(),
    ensures
        match r {
            Some(raw) => supply_value(chars@.subrange(from as int, to as int)) == Some(raw@),
            None => supply_value(chars@.subrange(from as int, to as int)) is None,
        },
{
    let ghost s = chars@.subrange(from as int, to as int);
    let mut at: usize = from;
    while at < to && chars[at] != '.'
        invariant
            from <= at <= to <= chars.len(),
            forall|j: int| from <= j < at ==> chars@[j] != '.',
        decreases to - at,
    {
        at = at + 1;
    }
    let ghost p = (at - from) as int;
    let ghost whole_text = s.take(p);
    let ghost places = if p < s.len() {
        s.skip(p + 1)
    } else {
        Seq::<char>::empty()
    };
    proof {
        assert(is_first_point(s, p));
        let chosen = choose|q: int| is_first_point(s, q);
        assert(chosen == p);
    }
    let count: usize = if at < to {
        to - at - 1
    } else {
        0
    };
    assert(count == places.len());
    if count > DECIMALS {
        return None;
    }
    let ghost pad = fixed_digits(0, (DECIMALS - count) as nat);
    proof {
        assert(chars@.subrange(from as int, at as int) =~= whole_text);
        assert(whole_text + places + pad =~= whole_text + (places + pad));
        lemma_extend_concat(0, whole_text, places + pad);
        lemma_extend_concat(extend(0, whole_text), places, pad);
        lemma_extend_grows(extend(0, whole_text), places + pad);
        lemma_extend_grows(extend(extend(0, whole_text), places), pad);
        lemma_fixed_digits(extend(extend(0, whole_text), places), 0, (DECIMALS - count) as nat);
    }
    let whole = match accumulate(Uint256::from_u128(0), chars, from, at) {
        Some(w) => w,
        None => {
            return None;
        },
    };
    let both = if at < to {
        assert(chars@.subrange(at + 1, to as int) =~= places);
        match accumulate(whole, chars, at + 1, to) {
            Some(b) => b,
            None => {
                return None;
            },
        }
    } else {
        whole
    };
    let scale: u64 = pow10_u64(DECIMALS - count);
    proof {
        lemma_pow10_positive((DECIMALS - count) as nat);
        assert(both@ == extend(extend(0, whole_text), places));
        assert(extend(both@, pad) == both@ * scale + 0);
        assert(extend(0, whole_text + places + pad) == both@ * scale + 0);
    }
    both.mul_add(scale, 0)
}

} // verus!
