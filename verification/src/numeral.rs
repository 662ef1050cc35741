//! Decimal numerals: page numbers, and the fixed-point numbers in which lengths
//! and angles are held.

use crate::text::to_chars;
use vstd::prelude::*;

verus! {

/// Lengths are held as whole numbers of 10^-12 mm and angles as whole numbers of
/// 10^-12 degrees; this is one millimetre, or one degree.
pub const UNIT: i64 = 1_000_000_000_000;

pub open spec fn is_digit(c: char) -> bool {
    '0' <= c && c <= '9'
}

/// The value of a decimal digit.
pub open spec fn digit_value(c: char) -> nat {
    (c as nat - '0' as nat) as nat
}

/// The digit with value `d`.
pub open spec fn digit_char(d: nat) -> char {
    ('0' as nat + d) as char
}

/// The decimal numeral of `n`, without leading zeros.
pub open spec fn decimal(n: nat) -> Seq<char>
    decreases n,
{
    if n < 10 {
        seq![digit_char(n)]
    } else {
        decimal(n / 10).push(digit_char(n % 10))
    }
}

/// The number that a sequence of digits stands for.
pub open spec fn digits_value(s: Seq<char>) -> nat
    decreases s.len(),
{
    if s.len() == 0 {
        0
    } else {
        digits_value(s.drop_last()) * 10 + digit_value(s.last())
    }
}

pub open spec fn all_digits(s: Seq<char>) -> bool {
    forall|i: int| 0 <= i < s.len() ==> is_digit(#[trigger] s[i])
}

/// `s` read as an unsigned 32-bit number: an optional plus sign, then one or more
/// digits whose value fits.
pub open spec fn u32_of(s: Seq<char>) -> Option<u32> {
    let digits = if s.len() > 0 && s[0] == '+' {
        s.skip(1)
    } else {
        s
    };
    if digits.len() > 0 && all_digits(digits) && digits_value(digits) <= u32::MAX {
        Some(digits_value(digits) as u32)
    } else {
        None
    }
}

proof fn lemma_digits_value_prefix(s: Seq<char>, k: int)
    requires
        0 <= k <= s.len(),
    ensures
        digits_value(s.take(k)) <= digits_value(s),
    decreases s.len() - k,
{
    if k == s.len() {
        assert(s.take(k) =~= s);
    } else {
        lemma_digits_value_prefix(s, k + 1);
        assert(s.take(k + 1).drop_last() =~= s.take(k));
    }
}

/// Read a numeral as an unsigned 32-bit number.
pub fn parse_u32(s: &str) -> (n: Option<u32>)
    ensures
        n == u32_of(s@),
{
    let chars = to_chars(s);
    let start: usize = if chars.len() > 0 && chars[0] == '+' {
        1
    } else {
        0
    };
    let ghost digits = if s@.len() > 0 && s@[0] == '+' {
        s@.skip(1)
    } else {
        s@
    };
    if start == chars.len() {
        return None;
    }
    let mut value: u64 = 0;
    let mut i: usize = start;
    assert(digits.take(0).len() == 0);
    while i < chars.len()
        invariant
            start <= i <= chars@.len(),
            start <= 1,
            chars@ == s@,
            digits.len() == chars@.len() - start,
            digits.len() > 0,
            forall|k: int| 0 <= k < digits.len() ==> digits[k] == chars@[start + k],
            digits == (if s@.len() > 0 && s@[0] == '+' {
                s@.skip(1)
            } else {
                s@
            }),
            forall|k: int| 0 <= k < i - start ==> is_digit(digits[k]),
            value == digits_value(digits.take(i - start)),
            value <= u32::MAX,
        decreases chars@.len() - i,
    {
        let c = chars[i];
        assert(digits[i - start] == c);
        if c < '0' || c > '9' {
            assert(!is_digit(digits[i - start]));
            return None;
        }
        let ghost shorter = digits.take(i - start);
        let ghost longer = digits.take(i - start + 1);
        assert(longer.drop_last() =~= shorter);
        value = value * 10 + (c as u64 - '0' as u64);
        assert(value == digits_value(longer));
        if value > 4294967295 {
            proof {
                lemma_digits_value_prefix(digits, i - start + 1);
            }
            return None;
        }
        i += 1;
    }
    assert(digits.take(digits.len() as int) =~= digits);
    Some(value as u32)
}

/// The decimal numeral of a number.
pub fn to_decimal(n: u128) -> (s: String)
    ensures
        s@ == decimal(n as nat),
    decreases n,
{
    if n < 10 {
        let mut s = String::new();
        s.push((48u8 + n as u8) as char);
        assert(s@ =~= decimal(n as nat));
        s
    } else {
        let mut s = to_decimal(n / 10);
        s.push((48u8 + (n % 10) as u8) as char);
        s
    }
}

proof fn lemma_decimal_digits(n: nat)
    ensures
        decimal(n).len() > 0,
        all_digits(decimal(n)),
        digits_value(decimal(n)) == n,
    decreases n,
{
    if n < 10 {
        let s = decimal(n);
        assert(s.drop_last() =~= Seq::<char>::empty());
        assert(digits_value(Seq::<char>::empty()) == 0);
        assert(s.last() == digit_char(n));
    } else {
        lemma_decimal_digits(n / 10);
        let s = decimal(n);
        assert(s.drop_last() =~= decimal(n / 10));
        assert(s.last() == digit_char(n % 10));
        assert forall|i: int| 0 <= i < s.len() implies is_digit(#[trigger] s[i]) by {
            if i < s.len() - 1 {
                assert(s[i] == decimal(n / 10)[i]);
            }
        }
    }
}

/// Reading back the numeral of a page number gives that page number.
pub proof fn law_page_numeral_reads_back(n: u32)
    ensures
        u32_of(decimal(n as nat)) == Some(n),
{
    lemma_decimal_digits(n as nat);
    assert(is_digit(decimal(n as nat)[0]));
}

/// Two numbers with the same numeral are the same number.
pub proof fn law_decimal_injective(a: nat, b: nat)
    requires
        decimal(a) == decimal(b),
    ensures
        a == b,
{
    lemma_decimal_digits(a);
    lemma_decimal_digits(b);
}

/// Ten to the power of `k`.
pub open spec fn pow10(k: nat) -> nat
    decreases k,
{
    if k == 0 {
        1
    } else {
        10 * pow10((k - 1) as nat)
    }
}

/// The digits of the fraction `f / 10^places` behind the decimal point, as many
/// as it takes to write it exactly.
pub open spec fn fraction_digits(f: nat, places: nat) -> Seq<char>
    decreases places,
{
    if f == 0 || places == 0 {
        seq![]
    } else {
        let unit = pow10((places - 1) as nat);
        seq![digit_char(f / unit)] + fraction_digits(f % unit, (places - 1) as nat)
    }
}

/// A fixed-point number written in decimal, without trailing zeros.
pub open spec fn fixed_text(v: int) -> Seq<char> {
    let size = if v < 0 {
        -v
    } else {
        v
    };
    let whole = decimal((size / UNIT as int) as nat);
    let fraction = fraction_digits((size % UNIT as int) as nat, 12);
    let sign = if v < 0 {
        seq!['-']
    } else {
        seq![]
    };
    if fraction.len() == 0 {
        sign + whole
    } else {
        sign + whole + seq!['.'] + fraction
    }
}

/// Write a fixed-point number in decimal, without trailing zeros.
pub fn format_fixed(v: i128) -> (s: String)
    ensures
        s@ == fixed_text(v as int),
{
    let negative = v < 0;
    let size: u128 = if negative {
        (-(v + 1)) as u128 + 1
    } else {
        v as u128
    };
    let unit: u128 = 1_000_000_000_000;
    let whole = to_decimal(size / unit);
    let mut s = String::new();
    if negative {
        s.push('-');
    }
    let ghost sign = s@;
    assert(sign =~= (if v < 0 {
        seq!['-']
    } else {
        seq![]
    }));
    s.append(whole.as_str());
    let fraction: u128 = size % unit;
    if fraction == 0 {
        return s;
    }
    s.push('.');
    let ghost lead = s@;
    let mut rest: u128 = fraction;
    let mut place: u128 = 1_000_000_000_000;
    let ghost mut places: nat = 12;
    proof {
        reveal_with_fuel(pow10, 13);
        assert(fraction_digits(fraction as nat, 12).len() > 0);
        assert(lead + fraction_digits(fraction as nat, 12) =~= s@ + fraction_digits(
            rest as nat,
            places,
        ));
    }
    while rest != 0
        invariant
            place == pow10(places),
            rest < place,
            s@ + fraction_digits(rest as nat, places) == lead + fraction_digits(
                fraction as nat,
                12,
            ),
        decreases places,
    {
        assert(places > 0) by {
            if places == 0 {
                assert(pow10(0) == 1);
            }
        }
        assert(pow10(places) == 10 * pow10((places - 1) as nat));
        place = place / 10;
        let digit: u8 = (rest / place) as u8;
        assert(rest / place < 10 && place > 0) by (nonlinear_arith)
            requires
                rest < 10 * place,
                place > 0,
        ;
        let ghost before = s@;
        let ghost tail = fraction_digits((rest % place) as nat, (places - 1) as nat);
        s.push((48u8 + digit) as char);
        assert(s@ + tail =~= before + (seq![digit_char((rest / place) as nat)] + tail));
        rest = rest % place;
        proof {
            places = (places - 1) as nat;
        }
    }
    assert(fraction_digits(0, places) =~= seq![]);
    assert(s@ + fraction_digits(0, places) =~= s@);
    s
}

/// A numeral with one more digit behind it stands for ten times as much and the
/// digit; one without digits stands for nothing.
pub proof fn law_each_digit_counts(s: Seq<char>, c: char)
    requires
        is_digit(c),
    ensures
        digits_value(seq![]) == 0,
        digits_value(s.push(c)) == 10 * digits_value(s) + (c as int - '0' as int),
{
    assert(s.push(c).drop_last() =~= s);
}

/// The numeral of a number has digits and nothing else, stands for the number, and
/// begins with a zero only where it is that digit alone.
pub proof fn law_decimal_stands_for_the_number(n: nat)
    ensures
        decimal(n).len() > 0,
        all_digits(decimal(n)),
        digits_value(decimal(n)) == n,
        decimal(n)[0] == '0' ==> n == 0 && decimal(n).len() == 1,
    decreases n,
{
    lemma_decimal_digits(n);
    if n >= 10 {
        law_decimal_stands_for_the_number(n / 10);
        assert(decimal(n)[0] == decimal(n / 10)[0]);
    } else {
        assert(decimal(n)[0] == digit_char(n));
    }
}

proof fn lemma_pow10_adds(a: nat, b: nat)
    ensures
        pow10(a) * pow10(b) == pow10(a + b),
        pow10(a) > 0,
    decreases a,
{
    if a > 0 {
        let c = (a - 1) as nat;
        lemma_pow10_adds(c, b);
        assert(10 * pow10(c) * pow10(b) == 10 * (pow10(c) * pow10(b))) by (nonlinear_arith);
    } else {
        assert(pow10(0) == 1);
    }
}

proof fn lemma_leading_digit(d: char, s: Seq<char>)
    ensures
        digits_value(seq![d] + s) == digit_value(d) * pow10(s.len()) + digits_value(s),
    decreases s.len(),
{
    let all = seq![d] + s;
    if s.len() == 0 {
        assert(all.drop_last() =~= Seq::<char>::empty());
        assert(digits_value(Seq::<char>::empty()) == 0);
        assert(pow10(0) == 1);
    } else {
        let shorter = s.drop_last();
        lemma_leading_digit(d, shorter);
        assert(all.drop_last() =~= seq![d] + shorter);
        assert(all.last() == s.last());
        let a = digit_value(d);
        let p = pow10(shorter.len());
        assert((a * p) * 10 == a * (10 * p)) by (nonlinear_arith);
        assert(pow10(s.len()) == 10 * p);
    }
}

proof fn lemma_fraction_digits(f: nat, places: nat)
    requires
        f < pow10(places),
    ensures
        ({
            let s = fraction_digits(f, places);
            &&& s.len() <= places
            &&& all_digits(s)
            &&& digits_value(s) * pow10((places - s.len()) as nat) == f
            &&& s.len() > 0 ==> s.last() != '0'
            &&& s.len() == 0 <==> f == 0
        }),
    decreases places,
{
    let s = fraction_digits(f, places);
    if f == 0 || places == 0 {
        assert(pow10(0) == 1);
        assert(digits_value(s) == 0);
        assert(0 * pow10((places - s.len()) as nat) == 0) by (nonlinear_arith);
    } else {
        let p = (places - 1) as nat;
        let unit = pow10(p);
        lemma_pow10_adds(p, 0);
        let d = f / unit;
        let r = f % unit;
        assert(d < 10 && r < unit && f == d * unit + r) by (nonlinear_arith)
            requires
                d == f / unit,
                r == f % unit,
                f < 10 * unit,
                unit > 0,
        ;
        let rest = fraction_digits(r, p);
        lemma_fraction_digits(r, p);
        let c = digit_char(d);
        lemma_leading_digit(c, rest);
        assert(digit_value(c) == d);
        assert(s == seq![c] + rest);
        assert forall|i: int| 0 <= i < s.len() implies is_digit(#[trigger] s[i]) by {
            if i > 0 {
                assert(s[i] == rest[i - 1]);
            }
        }
        if rest.len() > 0 {
            assert(s.last() == rest.last());
        } else {
            assert(s.last() == c);
            assert(r == 0);
            if d == 0 {
                assert(d * unit == 0) by (nonlinear_arith)
                    requires
                        d == 0,
                ;
            }
        }
        let tail = pow10((p - rest.len()) as nat);
        lemma_pow10_adds(rest.len(), (p - rest.len()) as nat);
        let v = digits_value(rest);
        let lead = pow10(rest.len());
        assert((d * lead + v) * tail == d * (lead * tail) + v * tail) by (nonlinear_arith);
    }
}

/// The text is a sign, where the number is negative, a whole part, and, behind a
/// point, a fraction of no more than twelve digits that does not end in a zero;
/// and the two parts together stand for the size of the number.
pub open spec fn is_fixed_numeral(
    text: Seq<char>,
    v: int,
    whole: Seq<char>,
    fraction: Seq<char>,
) -> bool {
    &&& text == (if v < 0 {
        seq!['-']
    } else {
        seq![]
    }) + whole + (if fraction.len() == 0 {
        seq![]
    } else {
        seq!['.'] + fraction
    })
    &&& whole.len() > 0 && all_digits(whole)
    &&& whole[0] == '0' ==> whole.len() == 1
    &&& fraction.len() <= 12 && all_digits(fraction)
    &&& fraction.len() > 0 ==> fraction.last() != '0'
    &&& (if v < 0 {
        -v
    } else {
        v
    }) == digits_value(whole) * 1_000_000_000_000 + digits_value(fraction) * pow10(
        (12 - fraction.len()) as nat,
    )
}

/// A number is written exactly: the text of a length or an angle stands for it to
/// the last of its twelve decimal places.
pub proof fn law_fixed_text_stands_for_the_number(v: int)
    ensures
        exists|whole: Seq<char>, fraction: Seq<char>|
            is_fixed_numeral(fixed_text(v), v, whole, fraction),
{
    let size = if v < 0 {
        -v
    } else {
        v
    };
    let n = (size / UNIT as int) as nat;
    let f = (size % UNIT as int) as nat;
    let whole = decimal(n);
    let fraction = fraction_digits(f, 12);
    assert(pow10(12) == 1_000_000_000_000) by {
        reveal_with_fuel(pow10, 13);
    }
    law_decimal_stands_for_the_number(n);
    lemma_fraction_digits(f, 12);
    let sign: Seq<char> = if v < 0 {
        seq!['-']
    } else {
        seq![]
    };
    if fraction.len() == 0 {
        assert(fixed_text(v) =~= sign + whole + Seq::<char>::empty());
    } else {
        assert(fixed_text(v) =~= sign + whole + (seq!['.'] + fraction));
    }
    assert(is_fixed_numeral(fixed_text(v), v, whole, fraction));
}

/// A text of digits, with or without one plus sign before it, is read as the
/// number it stands for where that fits into 32 bits; any other text is no number.
pub proof fn law_number_is_read(s: Seq<char>)
    ensures
        s.len() > 0 && all_digits(s) && digits_value(s) <= 0xffff_ffff ==> u32_of(s) is Some
            && u32_of(s)->0 == digits_value(s) && u32_of(seq!['+'] + s) == u32_of(s),
        all_digits(s) && (s.len() == 0 || digits_value(s) > 0xffff_ffff) ==> u32_of(s) is None
            && u32_of(seq!['+'] + s) is None,
        !all_digits(s) ==> u32_of(seq!['+'] + s) is None && (s[0] != '+' ==> u32_of(s) is None),
{
    assert((seq!['+'] + s).skip(1) =~= s);
    if s.len() > 0 && all_digits(s) {
        assert(is_digit(s[0]));
    }
}

} // verus!
