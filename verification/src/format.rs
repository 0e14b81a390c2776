//! Numbers written for people, the Brazilian way: `212.200,00` for money,
//! `0,5` for a quantity, `75,0` for a percentage.
//!
//! Rounding a float to cents and printing it with a fixed number of decimal
//! places happens before these functions are called; what they receive is the
//! resulting integer, or the fixed-point text, and what they do is all the
//! rest of the formatting.

use vstd::prelude::*;
use crate::text::{
    all_digits, chars_of, decimal, digit_char, digit_to_char, digits_value, first_index,
    is_digit, lemma_decimal_all_digits, lemma_decimal_value, lemma_digit_char,
    lemma_digits_value_concat, lemma_first_index, lemma_trim_end_concat, lemma_trim_end_prefix,
    lemma_trim_end_shape, lemma_trim_start_suffix, lemma_without_absent_char,
    lemma_without_char_concat, lemma_without_char_single, parse_u128, parse_unsigned, pow10,
    push_char, push_decimal, trim_end, trim_start, without_char,
};

verus! {

/// The three digits of `m`, below one thousand, zero-padded.
pub open spec fn three_digits(m: nat) -> Seq<char> {
    seq![digit_char(m / 100), digit_char(m / 10 % 10), digit_char(m % 10)]
}

/// The two digits of `m`, below one hundred, zero-padded.
pub open spec fn two_digits(m: nat) -> Seq<char> {
    seq![digit_char(m / 10), digit_char(m % 10)]
}

/// `n` in decimal with a `'.'` between each group of three digits, counting
/// from the right: `212200` is `212.200`.
pub open spec fn grouped(n: nat) -> Seq<char>
    decreases n,
{
    if n < 1000 {
        decimal(n)
    } else {
        grouped(n / 1000) + seq!['.'] + three_digits(n % 1000)
    }
}

/// Money text of an amount of cents: the reais grouped by thousands, a
/// comma, always two digits of cents, and a leading `'-'` when negative.
pub open spec fn money_text(cents: nat, negative: bool) -> Seq<char> {
    let body = grouped(cents / 100) + seq![','] + two_digits(cents % 100);
    if negative {
        seq!['-'] + body
    } else {
        body
    }
}

/// Appends three zero-padded digits of `m`.
fn push_three_digits(out: &mut String, m: u128)
    requires
        m < 1000,
    ensures
        final(out)@ == old(out)@ + three_digits(m as nat),
{
    push_char(out, digit_to_char((m / 100) as u8));
    push_char(out, digit_to_char((m / 10 % 10) as u8));
    push_char(out, digit_to_char((m % 10) as u8));
    assert(out@ =~= old(out)@ + three_digits(m as nat));
}

/// Appends `n` grouped by thousands.
fn push_grouped(out: &mut String, n: u128)
    ensures
        final(out)@ == old(out)@ + grouped(n as nat),
    decreases n,
{
    if n < 1000 {
        push_decimal(out, n);
    } else {
        let ghost start = out@;
        push_grouped(out, n / 1000);
        push_char(out, '.');
        push_three_digits(out, n % 1000);
        assert(out@ =~= start + grouped(n as nat));
    }
}

/// Inserts the thousands separator: `212200` becomes `212.200`.
pub fn group_thousands(value: u128) -> (grouped_text: String)
    ensures
        grouped_text@ == grouped(value as nat),
{
    let mut out = String::new();
    push_grouped(&mut out, value);
    assert(out@ =~= grouped(value as nat));
    out
}

/// Formats an amount of money given in cents: `21220000` becomes
/// `212.200,00`, and with `negative` set, `-212.200,00`.
pub fn brl_from_cents(cents: u128, negative: bool) -> (text: String)
    ensures
        text@ == money_text(cents as nat, negative),
{
    let mut out = String::new();
    if negative {
        push_char(&mut out, '-');
    }
    let ghost start = out@;
    push_grouped(&mut out, cents / 100);
    push_char(&mut out, ',');
    let rest = cents % 100;
    push_char(&mut out, digit_to_char((rest / 10) as u8));
    push_char(&mut out, digit_to_char((rest % 10) as u8));
    assert(out@ =~= money_text(cents as nat, negative));
    out
}


/// Quantity text of a number printed with a fixed number of decimal places
/// (`fixed`): trailing zeros of the fraction and then a bare point dropped,
/// the integer part (leading `'-'` removed, `0` when it does not read as a
/// `u128`) grouped by thousands, the fraction after a comma, and a leading
/// `'-'` when `negative`.
pub open spec fn quantity_text(fixed: Seq<char>, negative: bool) -> Seq<char> {
    let t = trim_end(trim_end(fixed, '0'), '.');
    let p = first_index(t, '.');
    let integer = match parse_unsigned(trim_start(t.take(p), '-')) {
        Some(v) => v,
        None => 0,
    };
    let body = if p < t.len() {
        grouped(integer) + seq![','] + t.skip(p + 1)
    } else {
        grouped(integer)
    };
    if negative {
        seq!['-'] + body
    } else {
        body
    }
}

/// Formats an asset quantity from its fixed-point text (eight decimal
/// places): `"0.50000000"` becomes `0,5` and `"3.00000000"` becomes `3`;
/// `negative` tells whether the quantity is below zero.
pub fn quantity_from_fixed(fixed: &str, negative: bool) -> (text: String)
    ensures
        text@ == quantity_text(fixed@, negative),
{
    let chars = chars_of(fixed);
    let ghost s = chars@;
    let len = chars.len();
    // Drop the trailing zeros.
    let mut e = len;
    while e > 0 && chars[e - 1] == '0'
        invariant
            e <= len == s.len(),
            s == chars@,
            forall|j: int| e <= j < len ==> s[j] == '0',
        decreases e,
    {
        e = e - 1;
    }
    proof {
        lemma_trim_end_prefix(s, '0', e as int);
        if e > 0 {
            assert(trim_end(s.take(e as int), '0') == s.take(e as int));
        }
    }
    let ghost t1 = s.take(e as int);
    assert(t1 == trim_end(s, '0'));
    // Then the trailing points.
    let mut f = e;
    while f > 0 && chars[f - 1] == '.'
        invariant
            f <= e <= len == s.len(),
            s == chars@,
            t1 == s.take(e as int),
            forall|j: int| f <= j < e ==> t1[j] == '.',
        decreases f,
    {
        f = f - 1;
    }
    proof {
        lemma_trim_end_prefix(t1, '.', f as int);
        if f > 0 {
            assert(trim_end(t1.take(f as int), '.') == t1.take(f as int));
        }
    }
    let ghost t = s.take(f as int);
    assert(t =~= t1.take(f as int));
    assert(t == trim_end(trim_end(fixed@, '0'), '.'));
    // Where the integer part ends.
    let mut p: usize = 0;
    while p < f && chars[p] != '.'
        invariant
            p <= f <= len == s.len(),
            s == chars@,
            t == s.take(f as int),
            forall|j: int| 0 <= j < p ==> t[j] != '.',
        decreases f - p,
    {
        p = p + 1;
    }
    proof {
        lemma_first_index(t, '.', p as int);
    }
    // Where the integer digits start.
    let mut b: usize = 0;
    while b < p && chars[b] == '-'
        invariant
            b <= p <= f <= len == s.len(),
            s == chars@,
            forall|j: int| 0 <= j < b ==> s[j] == '-',
        decreases p - b,
    {
        b = b + 1;
    }
    let ghost ip = t.take(p as int);
    proof {
        lemma_trim_start_suffix(ip, '-', b as int);
        if b < p {
            assert(ip.skip(b as int)[0] == s[b as int]);
        }
        assert(trim_start(ip.skip(b as int), '-') == ip.skip(b as int));
        assert(ip.skip(b as int) =~= s.subrange(b as int, p as int));
    }
    let integer = match parse_u128(&chars, b, p) {
        Some(v) => v,
        None => 0,
    };
    let mut out = String::new();
    if negative {
        push_char(&mut out, '-');
    }
    let ghost head = out@;
    push_grouped(&mut out, integer);
    if p < f {
        push_char(&mut out, ',');
        let ghost before = out@;
        let mut k = p + 1;
        while k < f
            invariant
                p + 1 <= k <= f <= len == s.len(),
                s == chars@,
                out@ == before + s.subrange(p + 1, k as int),
            decreases f - k,
        {
            push_char(&mut out, chars[k]);
            assert(out@ =~= before + s.subrange(p + 1, k + 1));
            k = k + 1;
        }
        assert(s.subrange(p + 1, f as int) =~= t.skip(p + 1));
    }
    assert(out@ =~= quantity_text(fixed@, negative));
    out
}

/// Percentage text from its fixed-point text (one decimal place): every
/// `'.'` becomes a `','`, so `"75.0"` becomes `75,0`.
pub fn percent_from_fixed(fixed: &str) -> (text: String)
    ensures
        text@ == fixed@.map_values(|c: char| if c == '.' { ',' } else { c }),
{
    let chars = chars_of(fixed);
    let mut out = String::new();
    let mut i: usize = 0;
    while i < chars.len()
        invariant
            i <= chars.len(),
            chars@ == fixed@,
            out@ == fixed@.take(i as int).map_values(|c: char| if c == '.' { ',' } else { c }),
        decreases chars.len() - i,
    {
        let c = chars[i];
        if c == '.' {
            push_char(&mut out, ',');
        } else {
            push_char(&mut out, c);
        }
        assert(out@ =~= fixed@.take(i + 1).map_values(|c: char| if c == '.' { ',' } else { c }));
        i = i + 1;
    }
    assert(fixed@.take(i as int) =~= fixed@);
    out
}


/// Four digits and more split into the leading part and the last three.
proof fn lemma_decimal_split(n: nat)
    requires
        n >= 1000,
    ensures
        decimal(n) == decimal(n / 1000) + three_digits(n % 1000),
{
    let q = n / 1000;
    let r = n % 1000;
    assert(n / 10 / 10 == n / 100);
    assert(n / 100 / 10 == q);
    assert(r / 100 == n / 100 % 10);
    assert(r / 10 % 10 == n / 10 % 10);
    assert(r % 10 == n % 10);
    assert(decimal(n) == decimal(n / 10).push(digit_char(n % 10)));
    assert(decimal(n / 10) == decimal(n / 100).push(digit_char(n / 10 % 10)));
    assert(decimal(n / 100) == decimal(q).push(digit_char(n / 100 % 10)));
    assert(decimal(n) =~= decimal(q) + three_digits(r));
}

/// The thousands separators are all that grouping adds: without its points,
/// the grouped text of `n` is the decimal notation of `n`.
pub proof fn lemma_grouped_digits(n: nat)
    ensures
        without_char(grouped(n), '.') == decimal(n),
    decreases n,
{
    lemma_decimal_all_digits(n);
    if n < 1000 {
        assert(!decimal(n).contains('.'));
        lemma_without_absent_char(decimal(n), '.');
    } else {
        let r = n % 1000;
        lemma_grouped_digits(n / 1000);
        lemma_digit_char(r / 100);
        lemma_digit_char(r / 10 % 10);
        lemma_digit_char(r % 10);
        assert(!three_digits(r).contains('.'));
        lemma_without_absent_char(three_digits(r), '.');
        lemma_without_char_concat(grouped(n / 1000), seq!['.'], '.');
        lemma_without_char_concat(grouped(n / 1000) + seq!['.'], three_digits(r), '.');
        lemma_without_char_single('.', '.');
        lemma_decimal_split(n);
        assert(decimal(n / 1000) + Seq::<char>::empty() =~= decimal(n / 1000));
    }
}

/// Money text keeps the exact amount: with its thousands points and its
/// comma removed, it reads back as the number of cents.
pub proof fn lemma_money_text_cents(cents: nat)
    ensures
        without_char(without_char(money_text(cents, false), '.'), ',') == decimal(cents / 100)
            + two_digits(cents % 100),
        digits_value(without_char(without_char(money_text(cents, false), '.'), ',')) == cents,
{
    let q = cents / 100;
    let r = cents % 100;
    let comma = seq![','];
    let two = two_digits(r);
    lemma_digit_char(r / 10);
    lemma_digit_char(r % 10);
    lemma_decimal_all_digits(q);
    assert(!two.contains('.') && !two.contains(','));
    assert(!comma.contains('.'));
    assert(!decimal(q).contains(','));
    lemma_grouped_digits(q);
    lemma_without_char_concat(grouped(q), comma, '.');
    lemma_without_char_concat(grouped(q) + comma, two, '.');
    lemma_without_absent_char(comma, '.');
    lemma_without_absent_char(two, '.');
    lemma_without_absent_char(two, ',');
    lemma_without_absent_char(decimal(q), ',');
    lemma_without_char_concat(decimal(q), comma, ',');
    lemma_without_char_concat(decimal(q) + comma, two, ',');
    lemma_without_char_single(',', ',');
    assert(decimal(q) + Seq::<char>::empty() =~= decimal(q));
    lemma_digits_value_concat(decimal(q), two);
    lemma_decimal_value(q);
    assert(pow10(2) == 100) by {
        reveal_with_fuel(pow10, 3);
    }
    let one = seq![digit_char(r / 10)];
    assert(two.drop_last() =~= one);
    assert(two.last() == digit_char(r % 10));
    assert(one.drop_last() =~= Seq::<char>::empty());
    assert(one.last() == digit_char(r / 10));
    assert(digits_value(Seq::<char>::empty()) == 0);
    assert(digits_value(one) == r / 10);
    assert(digits_value(two) == (r / 10) * 10 + r % 10);
    assert(digits_value(two) == r);
}

/// A quantity printed with fixed decimals keeps its integer part, grouped by
/// thousands, and only the fraction digits up to the last non-zero one:
/// no trailing zeros, and no comma at all for a whole number.
pub proof fn lemma_quantity_of_fixed_point(
    sign: Seq<char>,
    int_digits: Seq<char>,
    frac: Seq<char>,
    negative: bool,
)
    requires
        sign == seq!['-'] || sign.len() == 0,
        int_digits.len() > 0,
        all_digits(int_digits),
        digits_value(int_digits) <= u128::MAX,
        all_digits(frac),
    ensures
        ({
            let kept = trim_end(frac, '0');
            &&& kept == frac.take(kept.len() as int)
            &&& kept.len() > 0 ==> kept.last() != '0'
            &&& quantity_text(sign + int_digits + seq!['.'] + frac, negative) == (if negative {
                seq!['-']
            } else {
                Seq::<char>::empty()
            }) + grouped(digits_value(int_digits)) + (if kept.len() > 0 {
                seq![','] + kept
            } else {
                Seq::<char>::empty()
            })
        }),
{
    let kept = trim_end(frac, '0');
    lemma_trim_end_shape(frac, '0');
    let x = sign + int_digits;
    let xp = x + seq!['.'];
    let fixed = xp + frac;
    assert(sign + int_digits + seq!['.'] + frac == fixed);
    lemma_trim_end_concat(xp, frac, '0');
    assert(forall|j: int| 0 <= j < x.len() ==> x[j] != '.') by {
        assert forall|j: int| 0 <= j < x.len() implies x[j] != '.' by {
            if j >= sign.len() {
                assert(x[j] == int_digits[j - sign.len()]);
                assert(is_digit(int_digits[j - sign.len()]));
            }
        }
    }
    assert(x.last() == int_digits.last());
    assert(is_digit(int_digits[int_digits.len() - 1]));
    let t = trim_end(trim_end(fixed, '0'), '.');
    if kept.len() > 0 {
        assert(trim_end(fixed, '0') == xp + kept);
        assert(is_digit(kept.last())) by {
            assert(kept.last() == frac[kept.len() - 1]);
        }
        assert((xp + kept).last() == kept.last());
        assert(t == xp + kept);
    } else {
        assert(xp.last() == '.');
        assert(trim_end(xp, '0') == xp);
        assert(xp.drop_last() =~= x);
        assert(trim_end(xp, '.') == trim_end(x, '.'));
        assert(t == x);
    }
    let p = x.len() as int;
    assert(t.take(p) =~= x);
    assert forall|j: int| 0 <= j < p implies t[j] != '.' by {
        assert(t[j] == x[j]);
    }
    lemma_first_index(t, '.', p);
    assert(trim_start(x, '-') == int_digits) by {
        assert(is_digit(int_digits[0]));
        assert(trim_start(int_digits, '-') == int_digits);
        if sign.len() > 0 {
            assert(x[0] == '-');
            assert(x.drop_first() =~= int_digits);
        } else {
            assert(x =~= int_digits);
        }
    }
    assert(is_digit(int_digits[0]));
    assert(parse_unsigned(int_digits) == Some(digits_value(int_digits)));
    if kept.len() > 0 {
        assert(t.skip(p + 1) =~= kept);
    }
    let body = grouped(digits_value(int_digits)) + (if kept.len() > 0 {
        seq![','] + kept
    } else {
        Seq::<char>::empty()
    });
    if negative {
        assert(quantity_text(fixed, negative) =~= seq!['-'] + body);
    } else {
        assert(quantity_text(fixed, negative) =~= Seq::<char>::empty() + body);
    }
}


/// The sign of a money text depends on the `negative` flag alone: a negative
/// amount is written as the same amount with a `'-'` in front, and a
/// non-negative one starts with a digit.
pub proof fn lemma_money_sign(cents: nat)
    ensures
        money_text(cents, true) == seq!['-'] + money_text(cents, false),
        money_text(cents, false).len() > 0,
        is_digit(money_text(cents, false)[0]),
{
    lemma_grouped_shape(cents / 100);
    lemma_grouped_digits(cents / 100);
    let g = grouped(cents / 100);
    assert(g.len() % 4 != 0);
    assert(g[0] != '.');
    assert(money_text(cents, false)[0] == g[0]);
    lemma_decimal_all_digits(cents / 100);
    lemma_grouped_first(cents / 100);
}

/// The first character of a grouped number is its first digit.
proof fn lemma_grouped_first(n: nat)
    ensures
        grouped(n).len() > 0,
        grouped(n)[0] == decimal(n)[0],
    decreases n,
{
    lemma_decimal_all_digits(n);
    if n >= 1000 {
        lemma_grouped_first(n / 1000);
        lemma_decimal_split(n);
        assert(grouped(n)[0] == grouped(n / 1000)[0]);
        lemma_decimal_all_digits(n / 1000);
        assert(decimal(n)[0] == decimal(n / 1000)[0]);
    }
}

/// Up to three digits for a number below one thousand.
proof fn lemma_decimal_len_small(n: nat)
    requires
        n < 1000,
    ensures
        1 <= decimal(n).len() <= 3,
{
    if n >= 10 {
        assert(decimal(n).len() == decimal(n / 10).len() + 1);
        if n / 10 >= 10 {
            assert(decimal(n / 10).len() == decimal(n / 100).len() + 1);
            assert(n / 100 < 10);
        }
    }
}

/// Where the thousands points stand: counting from the end of the grouped
/// text, every fourth character is a point and every other is a digit, and
/// the text never starts with a point (its length is not a multiple of
/// four).
pub proof fn lemma_grouped_shape(n: nat)
    ensures
        grouped(n).len() % 4 != 0,
        forall|i: int|
            0 <= i < grouped(n).len() ==> (#[trigger] grouped(n)[i] == '.' <==> (grouped(n).len()
                - i) % 4 == 0),
        forall|i: int|
            0 <= i < grouped(n).len() && (grouped(n).len() - i) % 4 != 0 ==> is_digit(
                #[trigger] grouped(n)[i],
            ),
    decreases n,
{
    lemma_decimal_all_digits(n);
    if n < 1000 {
        lemma_decimal_len_small(n);
        let d = decimal(n);
        assert forall|i: int| 0 <= i < d.len() implies (#[trigger] d[i] == '.' <==> (d.len() - i)
            % 4 == 0) by {
            assert(is_digit(d[i]));
        }
    } else {
        let r = n % 1000;
        lemma_grouped_shape(n / 1000);
        lemma_digit_char(r / 100);
        lemma_digit_char(r / 10 % 10);
        lemma_digit_char(r % 10);
        let g = grouped(n / 1000);
        let t = three_digits(r);
        let s = grouped(n);
        assert(s == g + seq!['.'] + t);
        assert(s.len() == g.len() + 4);
        assert forall|i: int| 0 <= i < s.len() implies (#[trigger] s[i] == '.' <==> (s.len() - i)
            % 4 == 0) && ((s.len() - i) % 4 != 0 ==> is_digit(s[i])) by {
            if i < g.len() {
                assert(s[i] == g[i]);
                assert((s.len() - i) % 4 == (g.len() - i) % 4);
            } else if i == g.len() {
                assert(s[i] == '.');
            } else {
                assert(s[i] == t[i - g.len() - 1]);
                assert(is_digit(t[i - g.len() - 1]));
            }
        }
    }
}

} // verus!
