//! Numbers and bytes as text.
use vstd::prelude::*;

verus! {

/// The character of the digit `d`, for a base of at most 16.
pub open spec fn digit(d: nat) -> char {
    if d < 10 {
        (48 + d) as char
    } else {
        (87 + d) as char
    }
}

/// `n` in decimal, without leading zeros.
pub open spec fn decimal(n: nat) -> Seq<char>
    decreases n,
{
    if n < 10 {
        seq![digit(n)]
    } else {
        decimal(n / 10).push(digit(n % 10))
    }
}

/// Each byte as two lower-case hexadecimal digits, the high one first.
pub open spec fn hex_text(bytes: Seq<u8>) -> Seq<char> {
    Seq::new(
        2 * bytes.len(),
        |i: int|
            if i % 2 == 0 {
                digit((bytes[i / 2] / 16) as nat)
            } else {
                digit((bytes[i / 2] % 16) as nat)
            },
    )
}

fn digit_text(d: u64) -> (text: &'static str)
    requires
        d < 10,
    ensures
        text@ == seq![digit(d as nat)],
{
    proof {
        reveal_strlit("0");
        reveal_strlit("1");
        reveal_strlit("2");
        reveal_strlit("3");
        reveal_strlit("4");
        reveal_strlit("5");
        reveal_strlit("6");
        reveal_strlit("7");
        reveal_strlit("8");
        reveal_strlit("9");
    }
    let text = match d {
        0 => "0",
        1 => "1",
        2 => "2",
        3 => "3",
        4 => "4",
        5 => "5",
        6 => "6",
        7 => "7",
        8 => "8",
        _ => "9",
    };
    assert(text@ =~= seq![digit(d as nat)]);
    text
}

/// Writes `n` in decimal.
pub fn decimal_text(n: u64) -> (text: String)
    ensures
        text@ == decimal(n as nat),
    decreases n,
{
    let mut text = if n < 10 {
        String::new()
    } else {
        decimal_text(n / 10)
    };
    text.append(digit_text(n % 10));
    assert(text@ =~= decimal(n as nat));
    text
}

/// Writes `prefix` and then `rest`.
pub fn prefixed(prefix: &str, rest: &str) -> (text: String)
    ensures
        text@ == prefix@ + rest@,
{
    let mut text = prefix.to_owned();
    text.append(rest);
    text
}

/// The value of a hexadecimal digit of either case; 16 for another character.
pub open spec fn hex_digit_value(c: char) -> nat {
    if '0' <= c <= '9' {
        (c as nat - 48) as nat
    } else if 'a' <= c <= 'f' {
        (c as nat - 87) as nat
    } else if 'A' <= c <= 'F' {
        (c as nat - 55) as nat
    } else {
        16
    }
}

/// The number that the hexadecimal digits `digits` stand for.
pub open spec fn hex_value(digits: Seq<char>) -> nat
    decreases digits.len(),
{
    if digits.len() == 0 {
        0
    } else {
        16 * hex_value(digits.drop_last()) + hex_digit_value(digits.last())
    }
}

/// `text` without the `0x` prefixes that it begins with, however many.
pub open spec fn without_0x(text: Seq<char>) -> Seq<char>
    decreases text.len(),
{
    if text.len() >= 2 && text[0] == '0' && text[1] == 'x' {
        without_0x(text.skip(2))
    } else {
        text
    }
}

/// `text` without one leading plus sign.
pub open spec fn without_plus(text: Seq<char>) -> Seq<char> {
    if text.len() >= 1 && text[0] == '+' {
        text.skip(1)
    } else {
        text
    }
}

/// The number below 2^64 that `text` stands for: an optional plus sign, then
/// hexadecimal digits, at least one.
pub open spec fn parsed_hex(text: Seq<char>) -> Option<u64> {
    let digits = without_plus(text);
    if digits.len() > 0 && (forall|i: int|
        0 <= i < digits.len() ==> hex_digit_value(#[trigger] digits[i]) < 16) && hex_value(digits)
        <= u64::MAX {
        Some(hex_value(digits) as u64)
    } else {
        None
    }
}

/// The number that a quantity reported by the chain stands for; 0 where it
/// stands for none.
pub open spec fn quantity(text: Seq<char>) -> u64 {
    match parsed_hex(without_0x(text)) {
        Some(value) => value,
        None => 0,
    }
}

fn hex_digit(c: char) -> (value: u64)
    ensures
        value == hex_digit_value(c),
{
    if '0' <= c && c <= '9' {
        (c as u64) - 48
    } else if 'a' <= c && c <= 'f' {
        (c as u64) - 87
    } else if 'A' <= c && c <= 'F' {
        (c as u64) - 55
    } else {
        16
    }
}

/// More digits make no smaller number.
proof fn lemma_hex_value_grows(digits: Seq<char>, n: int)
    requires
        0 <= n <= digits.len(),
    ensures
        hex_value(digits.take(n)) <= hex_value(digits),
    decreases digits.len() - n,
{
    if n < digits.len() {
        lemma_hex_value_grows(digits, n + 1);
        assert(digits.take(n + 1).drop_last() =~= digits.take(n));
    } else {
        assert(digits.take(n) =~= digits);
    }
}

/// The characters of `text`, one by one.
fn characters(text: &str) -> (chars: Vec<char>)
    ensures
        chars@ == text@,
{
    let mut chars: Vec<char> = Vec::new();
    for c in it: text.chars()
        invariant
            chars@ == it.seq().take(it.index()),
            it.seq() == text@,
    {
        chars.push(c);
    }
    chars
}

/// Reads the hexadecimal digits `chars[start..]`.
fn parse_hex_digits(chars: &Vec<char>, start: usize) -> (value: Option<u64>)
    requires
        start <= chars@.len(),
    ensures
        ({
            let digits = chars@.skip(start as int);
            value == if digits.len() > 0 && (forall|i: int|
                0 <= i < digits.len() ==> hex_digit_value(#[trigger] digits[i]) < 16) && hex_value(
                digits,
            ) <= u64::MAX {
                Some(hex_value(digits) as u64)
            } else {
                None
            }
        }),
{
    let ghost digits = chars@.skip(start as int);
    if start == chars.len() {
        return None;
    }
    let mut value: u64 = 0;
    let mut i: usize = start;
    while i < chars.len()
        invariant
            start <= i <= chars@.len(),
            digits == chars@.skip(start as int),
            forall|j: int| 0 <= j < i - start ==> hex_digit_value(#[trigger] digits[j]) < 16,
            value == hex_value(digits.take(i - start)),
        decreases chars@.len() - i,
    {
        let d: u64 = hex_digit(chars[i]);
        assert(digits[i - start] == chars@[i as int]);
        if d == 16 {
            return None;
        }
        proof {
            assert(digits.take(i - start + 1).drop_last() =~= digits.take(i - start));
            lemma_hex_value_grows(digits, i - start + 1);
        }
        if value > (u64::MAX - d) / 16 {
            return None;
        }
        value = 16 * value + d;
        i += 1;
    }
    assert(digits.take(i - start) =~= digits);
    Some(value)
}

/// Reads a quantity reported by the chain, such as `0x5208`: the `0x` prefixes
/// are dropped and the rest is read as a hexadecimal number. What is no such
/// number below 2^64 reads as 0.
pub fn parse_quantity(text: &str) -> (value: u64)
    ensures
        value == quantity(text@),
{
    let chars = characters(text);
    let mut start: usize = 0;
    assert(chars@.skip(0) =~= chars@);
    while chars.len() - start >= 2 && chars[start] == '0' && chars[start + 1] == 'x'
        invariant
            start <= chars@.len(),
            without_0x(chars@.skip(start as int)) == without_0x(chars@),
        decreases chars@.len() - start,
    {
        assert(chars@.skip(start as int).skip(2) =~= chars@.skip(start + 2));
        start += 2;
    }
    let ghost trimmed = chars@.skip(start as int);
    if start < chars.len() && chars[start] == '+' {
        assert(trimmed.skip(1) =~= chars@.skip(start + 1));
        start += 1;
    }
    match parse_hex_digits(&chars, start) {
        Some(value) => value,
        None => 0,
    }
}

/// Different bytes are written differently.
pub proof fn lemma_hex_text_is_injective(a: Seq<u8>, b: Seq<u8>)
    requires
        hex_text(a) == hex_text(b),
    ensures
        a == b,
{
    assert(hex_text(a).len() == 2 * a.len());
    assert(hex_text(b).len() == 2 * b.len());
    assert forall|i: int| 0 <= i < a.len() implies a[i] == b[i] by {
        assert(hex_text(a)[2 * i] == digit((a[i] / 16) as nat));
        assert(hex_text(b)[2 * i] == digit((b[i] / 16) as nat));
        assert(hex_text(a)[2 * i + 1] == digit((a[i] % 16) as nat));
        assert(hex_text(b)[2 * i + 1] == digit((b[i] % 16) as nat));
    }
    assert(a =~= b);
}

/// The number that decimal digits stand for.
pub open spec fn decimal_value(digits: Seq<char>) -> nat
    decreases digits.len(),
{
    if digits.len() == 0 {
        0
    } else {
        10 * decimal_value(digits.drop_last()) + (digits.last() as nat - '0' as nat) as nat
    }
}

/// Decimal text holds digits only, begins with a zero only where it is zero,
/// and reads back as the number.
pub proof fn law_decimal_reads_back(n: nat)
    ensures
        decimal(n).len() > 0,
        forall|i: int| 0 <= i < decimal(n).len() ==> '0' <= #[trigger] decimal(n)[i] <= '9',
        decimal(n)[0] == '0' ==> n == 0,
        decimal_value(decimal(n)) == n,
    decreases n,
{
    let text = decimal(n);
    if n < 10 {
        assert(text.drop_last() =~= Seq::empty());
        assert(decimal_value(text.drop_last()) == 0);
        assert(text.last() == text[0]);
    } else {
        law_decimal_reads_back(n / 10);
        assert(text.drop_last() =~= decimal(n / 10));
        assert(text[0] == decimal(n / 10)[0]);
        assert forall|i: int| 0 <= i < text.len() implies '0' <= #[trigger] text[i] <= '9' by {
            if i < text.len() - 1 {
                assert(text[i] == decimal(n / 10)[i]);
            }
        }
    }
}

/// Ten times a number and a digit is written as the number and then the digit.
pub proof fn law_decimal_appends_digit(n: nat, d: nat)
    requires
        n > 0,
        d < 10,
    ensures
        decimal(10 * n + d) == decimal(n).push(('0' as nat + d) as char),
        decimal(d) == seq![('0' as nat + d) as char],
{
    assert((10 * n + d) / 10 == n);
    assert((10 * n + d) % 10 == d);
}

/// Which characters are hexadecimal digits, and what each is worth.
pub proof fn law_hex_digit_values(c: char)
    ensures
        hex_digit_value(c) < 16 <==> ('0' <= c <= '9' || 'a' <= c <= 'f' || 'A' <= c <= 'F'),
        '0' <= c <= '9' ==> hex_digit_value(c) == c as int - '0' as int,
        'a' <= c <= 'f' ==> hex_digit_value(c) == c as int - 'a' as int + 10,
        'A' <= c <= 'F' ==> hex_digit_value(c) == c as int - 'A' as int + 10,
{
}

/// Each byte is written as two lower-case digits that read back as the byte,
/// the high digit first.
pub proof fn law_hex_text_reads_back(bytes: Seq<u8>, i: int)
    requires
        0 <= i < bytes.len(),
    ensures
        hex_text(bytes).len() == 2 * bytes.len(),
        '0' <= hex_text(bytes)[2 * i] <= '9' || 'a' <= hex_text(bytes)[2 * i] <= 'f',
        '0' <= hex_text(bytes)[2 * i + 1] <= '9' || 'a' <= hex_text(bytes)[2 * i + 1] <= 'f',
        16 * hex_digit_value(hex_text(bytes)[2 * i]) + hex_digit_value(hex_text(bytes)[2 * i + 1])
            == bytes[i],
{
    assert((2 * i) / 2 == i && (2 * i) % 2 == 0);
    assert((2 * i + 1) / 2 == i && (2 * i + 1) % 2 == 1);
}

/// All characters are hexadecimal digits, and there is at least one.
pub open spec fn is_hex_number(text: Seq<char>) -> bool {
    text.len() > 0 && forall|i: int| 0 <= i < text.len() ==> hex_digit_value(#[trigger] text[i]) < 16
}

/// Nothing is dropped from text that is all digits.
proof fn lemma_quantity_of_digits(digits: Seq<char>)
    requires
        is_hex_number(digits),
    ensures
        hex_value(digits) <= u64::MAX ==> quantity(digits) == hex_value(digits),
        hex_value(digits) > u64::MAX ==> quantity(digits) == 0,
{
    assert(hex_digit_value(digits[0]) < 16);
    if digits.len() >= 2 {
        assert(hex_digit_value(digits[1]) < 16);
    }
    assert(without_0x(digits) == digits);
    assert(without_plus(digits) == digits);
}

/// A `0x` prefix does not count.
pub proof fn law_quantity_ignores_0x(text: Seq<char>)
    ensures
        quantity("0x"@ + text) == quantity(text),
{
    reveal_strlit("0x");
    assert(("0x"@ + text).skip(2) =~= text);
}

/// A plus sign before digits does not count.
pub proof fn law_quantity_ignores_plus(digits: Seq<char>)
    requires
        is_hex_number(digits),
    ensures
        quantity(seq!['+'] + digits) == quantity(digits),
{
    let text = seq!['+'] + digits;
    lemma_quantity_of_digits(digits);
    assert(text[0] == '+');
    assert(without_0x(text) == text);
    assert(text.skip(1) =~= digits);
}

/// A single digit stands for its value.
pub proof fn law_quantity_of_digit(c: char)
    requires
        hex_digit_value(c) < 16,
    ensures
        quantity(seq![c]) == hex_digit_value(c),
{
    let text = seq![c];
    lemma_quantity_of_digits(text);
    assert(text.drop_last() =~= Seq::empty());
    assert(hex_value(text.drop_last()) == 0);
}

/// A digit appended to a number multiplies it by sixteen and adds the digit;
/// where the result is too large it reads as 0.
pub proof fn law_quantity_appends_digit(digits: Seq<char>, c: char)
    requires
        is_hex_number(digits),
        quantity(digits) > 0,
        hex_digit_value(c) < 16,
    ensures
        16 * quantity(digits) + hex_digit_value(c) <= u64::MAX ==> quantity(digits.push(c)) == 16
            * quantity(digits) + hex_digit_value(c),
        16 * quantity(digits) + hex_digit_value(c) > u64::MAX ==> quantity(digits.push(c)) == 0,
{
    let longer = digits.push(c);
    assert(longer.drop_last() =~= digits);
    lemma_quantity_of_digits(digits);
    assert forall|i: int| 0 <= i < longer.len() implies hex_digit_value(#[trigger] longer[i])
        < 16 by {
        if i < digits.len() {
            assert(longer[i] == digits[i]);
        }
    }
    lemma_quantity_of_digits(longer);
}

proof fn lemma_hex_value_of_leading_zero(digits: Seq<char>)
    ensures
        hex_value(seq!['0'] + digits) == hex_value(digits),
    decreases digits.len(),
{
    let longer = seq!['0'] + digits;
    if digits.len() == 0 {
        assert(longer.drop_last() =~= Seq::empty());
        assert(hex_value(longer.drop_last()) == 0);
    } else {
        assert(longer.drop_last() =~= seq!['0'] + digits.drop_last());
        lemma_hex_value_of_leading_zero(digits.drop_last());
    }
}

/// Leading zeros do not count.
pub proof fn law_quantity_ignores_leading_zeros(digits: Seq<char>)
    requires
        is_hex_number(digits),
    ensures
        quantity(seq!['0'] + digits) == quantity(digits),
{
    let longer = seq!['0'] + digits;
    assert forall|i: int| 0 <= i < longer.len() implies hex_digit_value(#[trigger] longer[i])
        < 16 by {
        if i > 0 {
            assert(longer[i] == digits[i - 1]);
        }
    }
    lemma_quantity_of_digits(digits);
    lemma_quantity_of_digits(longer);
    lemma_hex_value_of_leading_zero(digits);
}

proof fn lemma_hex_value_is_large(digits: Seq<char>)
    requires
        digits.len() > 0,
        hex_digit_value(digits[0]) > 0,
    ensures
        hex_value(digits) >= vstd::arithmetic::power::pow(16, (digits.len() - 1) as nat),
    decreases digits.len(),
{
    reveal(vstd::arithmetic::power::pow);
    let shorter = digits.drop_last();
    if digits.len() == 1 {
        assert(hex_value(shorter) == 0);
    } else {
        assert(shorter[0] == digits[0]);
        lemma_hex_value_is_large(shorter);
    }
}

/// A number of more than sixteen digits, the first not zero, is too large.
pub proof fn law_quantity_of_too_many_digits(digits: Seq<char>)
    requires
        is_hex_number(digits),
        digits.len() > 16,
        digits[0] != '0',
    ensures
        quantity(digits) == 0,
{
    let first = digits.take(17);
    assert(first[0] == digits[0]);
    assert(hex_digit_value(digits[0]) > 0);
    lemma_hex_value_is_large(first);
    lemma_hex_value_grows(digits, 17);
    assert(vstd::arithmetic::power::pow(16, 16) == 0x1_0000_0000_0000_0000) by {
        reveal_with_fuel(vstd::arithmetic::power::pow, 17);
    }
    lemma_quantity_of_digits(digits);
}

/// Text that is no number once a plus sign is dropped reads as 0.
pub proof fn law_quantity_of_other_text(text: Seq<char>)
    requires
        !(text.len() >= 2 && text[0] == '0' && text[1] == 'x'),
        text.len() > 0 && text[0] == '+' ==> !is_hex_number(text.skip(1)),
        text.len() > 0 && text[0] != '+' ==> !is_hex_number(text),
    ensures
        quantity(text) == 0,
{
    assert(without_0x(text) == text);
}

} // verus!
