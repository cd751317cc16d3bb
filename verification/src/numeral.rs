//! Numbers as text: decimal and hexadecimal.

use vstd::prelude::*;

verus! {

/// The decimal digit `d`.
pub open spec fn digit_char(d: int) -> char {
    ('0' as int + d) as char
}

pub open spec fn is_digit(c: char) -> bool {
    '0' <= c <= '9'
}

/// The decimal numeral of `n`, without leading zeros.
pub open spec fn decimal(n: nat) -> Seq<char>
    decreases n,
{
    if n < 10 {
        seq![digit_char(n as int)]
    } else {
        decimal(n / 10).push(digit_char((n % 10) as int))
    }
}

/// The decimal numeral of `x`, with a minus sign if it is negative.
pub open spec fn int_text(x: int) -> Seq<char> {
    if x < 0 {
        seq!['-'] + decimal((-x) as nat)
    } else {
        decimal(x as nat)
    }
}

pub open spec fn all_digits(text: Seq<char>) -> bool {
    forall|i: int| 0 <= i < text.len() ==> is_digit(#[trigger] text[i])
}

/// The number that a row of digits means.
pub open spec fn decimal_value(digits: Seq<char>) -> nat
    decreases digits.len(),
{
    if digits.len() == 0 {
        0
    } else {
        (decimal_value(digits.drop_last()) * 10 + (digits.last() as int - '0' as int)) as nat
    }
}

/// The number that a text of digits and minus signs means: at most one sign, in front, and at least
/// one digit; the number has to fit into 64 bits with a sign.
pub open spec fn int_of_text(text: Seq<char>) -> Option<int> {
    let negative = text.len() > 0 && text[0] == '-';
    let digits = if negative {
        text.drop_first()
    } else {
        text
    };
    let value = if negative {
        -(decimal_value(digits) as int)
    } else {
        decimal_value(digits) as int
    };
    if digits.len() > 0 && all_digits(digits) && i64::MIN <= value <= i64::MAX {
        Some(value)
    } else {
        None
    }
}

/// The hexadecimal digit `d`, in upper case.
pub open spec fn upper_hex(d: int) -> char {
    if d < 10 {
        ('0' as int + d) as char
    } else {
        ('A' as int + d - 10) as char
    }
}

/// The hexadecimal digit `d`, in lower case.
pub open spec fn lower_hex(d: int) -> char {
    if d < 10 {
        ('0' as int + d) as char
    } else {
        ('a' as int + d - 10) as char
    }
}

/// The four upper-case hexadecimal digits of a 16-bit number.
pub open spec fn hex4(x: u16) -> Seq<char> {
    seq![
        upper_hex(x as int / 0x1000),
        upper_hex(x as int / 0x100 % 0x10),
        upper_hex(x as int / 0x10 % 0x10),
        upper_hex(x as int % 0x10),
    ]
}

/// The lower-case hexadecimal digits of the bytes, two for each.
pub open spec fn hex_bytes(bytes: Seq<u8>) -> Seq<char> {
    Seq::new(
        2 * bytes.len(),
        |i: int|
            if i % 2 == 0 {
                lower_hex(bytes[i / 2] as int / 0x10)
            } else {
                lower_hex(bytes[i / 2] as int % 0x10)
            },
    )
}

fn upper_hex_char(d: u16) -> (r: char)
    requires
        d < 16,
    ensures
        r == upper_hex(d as int),
{
    if d < 10 {
        ('0' as u8 + d as u8) as char
    } else {
        ('A' as u8 + (d as u8 - 10)) as char
    }
}

fn lower_hex_char(d: u8) -> (r: char)
    requires
        d < 16,
    ensures
        r == lower_hex(d as int),
{
    if d < 10 {
        ('0' as u8 + d) as char
    } else {
        ('a' as u8 + (d - 10)) as char
    }
}

/// Adds the four upper-case hexadecimal digits of `x`.
pub fn push_hex4(text: &mut String, x: u16)
    ensures
        final(text)@ == old(text)@ + hex4(x),
{
    text.push(upper_hex_char(x / 0x1000));
    text.push(upper_hex_char(x / 0x100 % 0x10));
    text.push(upper_hex_char(x / 0x10 % 0x10));
    text.push(upper_hex_char(x % 0x10));
}

/// The lower-case hexadecimal digits of the bytes.
pub fn hex_text(bytes: &Vec<u8>) -> (r: String)
    ensures
        r@ == hex_bytes(bytes@),
{
    let mut text = String::new();
    let mut i: usize = 0;
    while i < bytes.len()
        invariant
            i <= bytes@.len(),
            text@ == hex_bytes(bytes@).take(2 * i),
        decreases bytes@.len() - i,
    {
        text.push(lower_hex_char(bytes[i] / 0x10));
        text.push(lower_hex_char(bytes[i] % 0x10));
        proof {
            let whole = hex_bytes(bytes@);
            assert(whole[2 * i] == lower_hex(bytes@[i as int] as int / 0x10));
            assert(whole[2 * i + 1] == lower_hex(bytes@[i as int] as int % 0x10));
            assert(text@ =~= whole.take(2 * (i + 1)));
        }
        i += 1;
    }
    assert(hex_bytes(bytes@).take(2 * bytes@.len() as int) =~= hex_bytes(bytes@));
    text
}

fn push_decimal(text: &mut String, n: u64)
    ensures
        final(text)@ == old(text)@ + decimal(n as nat),
    decreases n,
{
    if n < 10 {
        text.push(('0' as u8 + n as u8) as char);
    } else {
        let ghost start = text@;
        push_decimal(text, n / 10);
        text.push(('0' as u8 + (n % 10) as u8) as char);
        assert(text@ =~= start + decimal(n as nat));
    }
}

/// The decimal numeral of `x`.
pub fn int_to_text(x: i64) -> (r: String)
    ensures
        r@ == int_text(x as int),
{
    let mut text = String::new();
    if x < 0 {
        text.push('-');
        let magnitude: u64 = (-(x as i128)) as u64;
        push_decimal(&mut text, magnitude);
    } else {
        push_decimal(&mut text, x as u64);
    }
    assert(text@ =~= int_text(x as int));
    text
}

/// The number that a text of digits and minus signs means.
pub fn parse_int(chars: &Vec<char>, from: usize, to: usize) -> (r: Option<i64>)
    requires
        from <= to <= chars@.len(),
    ensures
        match int_of_text(chars@.subrange(from as int, to as int)) {
            Some(value) => r == Some(value as i64),
            None => r is None,
        },
{
    let ghost text = chars@.subrange(from as int, to as int);
    let negative = from < to && chars[from] == '-';
    let start: usize = if negative {
        from + 1
    } else {
        from
    };
    let ghost digits = chars@.subrange(start as int, to as int);
    proof {
        if negative {
            assert(digits =~= text.drop_first());
        } else {
            assert(digits =~= text);
        }
    }
    if start == to {
        return None;
    }
    let limit: u128 = 0x8000_0000_0000_0000;
    let mut value: u128 = 0;
    let mut over = false;
    let mut i: usize = start;
    while i < to
        invariant
            start <= i <= to <= chars@.len(),
            text == chars@.subrange(from as int, to as int),
            negative == (text.len() > 0 && text[0] == '-'),
            digits == if negative {
                text.drop_first()
            } else {
                text
            },
            digits == chars@.subrange(start as int, to as int),
            limit == 0x8000_0000_0000_0000,
            all_digits(digits.take(i - start)),
            !over ==> value == decimal_value(digits.take(i - start)) && value <= limit,
            over ==> decimal_value(digits.take(i - start)) > limit,
        decreases to - i,
    {
        let c = chars[i];
        if c < '0' || c > '9' {
            assert(digits[i - start] == c);
            return None;
        }
        let d: u128 = (c as u32 - '0' as u32) as u128;
        proof {
            let before = digits.take(i - start);
            let after = digits.take(i - start + 1);
            assert(after.drop_last() =~= before);
            assert(after.last() == c);
            assert forall|k: int| 0 <= k < after.len() implies is_digit(#[trigger] after[k]) by {
                if k < before.len() {
                    assert(after[k] == before[k]);
                }
            }
        }
        if !over {
            value = value * 10 + d;
            if value > limit {
                over = true;
            }
        }
        i += 1;
    }
    assert(digits.take(to - start) =~= digits);
    if over {
        return None;
    }
    if negative {
        if value == limit {
            Some(i64::MIN)
        } else {
            Some(-(value as i64))
        }
    } else if value == limit {
        None
    } else {
        Some(value as i64)
    }
}

proof fn lemma_decimal_value(n: nat)
    ensures
        decimal(n).len() > 0,
        all_digits(decimal(n)),
        decimal_value(decimal(n)) == n,
    decreases n,
{
    let text = decimal(n);
    if n < 10 {
        reveal_with_fuel(decimal_value, 2);
        assert(text.drop_last() =~= Seq::<char>::empty());
    } else {
        lemma_decimal_value(n / 10);
        assert(text.drop_last() =~= decimal(n / 10));
    }
}

/// Reading a numeral gives back the number that it was written for.
pub proof fn numerals_read_back(x: i64)
    ensures
        int_of_text(int_text(x as int)) == Some(x as int),
{
    let text = int_text(x as int);
    if x < 0 {
        lemma_decimal_value((-x) as nat);
        assert(text.drop_first() =~= decimal((-x) as nat));
    } else {
        lemma_decimal_value(x as nat);
        assert(is_digit(text[0]));
    }
}

proof fn lemma_upper_hex(d: int, e: int)
    requires
        0 <= d < 16,
        0 <= e < 16,
        upper_hex(d) == upper_hex(e),
    ensures
        d == e,
{
}

proof fn lemma_four_digits(x: u16)
    ensures
        x == 0x1000 * (x as int / 0x1000) + 0x100 * (x as int / 0x100 % 0x10) + 0x10 * (x as int / 0x10
            % 0x10) + x as int % 0x10,
        0 <= x as int / 0x1000 < 16,
{
    assert(x == 0x1000 * (x / 0x1000) + 0x100 * (x / 0x100 % 0x10) + 0x10 * (x / 0x10 % 0x10) + x
        % 0x10) by (bit_vector);
    assert(x / 0x1000 < 16) by (bit_vector);
}

/// Different 16-bit numbers have different digits.
pub proof fn lemma_hex4_distinct(a: u16, b: u16)
    requires
        hex4(a) == hex4(b),
    ensures
        a == b,
{
    lemma_four_digits(a);
    lemma_four_digits(b);
    assert(hex4(a)[0] == hex4(b)[0]);
    assert(hex4(a)[1] == hex4(b)[1]);
    assert(hex4(a)[2] == hex4(b)[2]);
    assert(hex4(a)[3] == hex4(b)[3]);
    lemma_upper_hex(a as int / 0x1000, b as int / 0x1000);
    lemma_upper_hex(a as int / 0x100 % 0x10, b as int / 0x100 % 0x10);
    lemma_upper_hex(a as int / 0x10 % 0x10, b as int / 0x10 % 0x10);
    lemma_upper_hex(a as int % 0x10, b as int % 0x10);
}

proof fn lemma_lower_hex(d: int, e: int)
    requires
        0 <= d < 16,
        0 <= e < 16,
        lower_hex(d) == lower_hex(e),
    ensures
        d == e,
{
}

proof fn lemma_hex_byte(bytes: Seq<u8>, i: int)
    requires
        0 <= i < bytes.len(),
    ensures
        hex_bytes(bytes)[2 * i] == lower_hex(bytes[i] as int / 0x10),
        hex_bytes(bytes)[2 * i + 1] == lower_hex(bytes[i] as int % 0x10),
{
    assert((2 * i) % 2 == 0 && (2 * i) / 2 == i);
    assert((2 * i + 1) % 2 == 1 && (2 * i + 1) / 2 == i);
}

/// Different bytes have different digits.
pub proof fn lemma_hex_bytes_distinct(a: Seq<u8>, b: Seq<u8>)
    requires
        hex_bytes(a) == hex_bytes(b),
    ensures
        a == b,
{
    assert(hex_bytes(a).len() == 2 * a.len());
    assert(hex_bytes(b).len() == 2 * b.len());
    assert forall|i: int| 0 <= i < a.len() implies a[i] == b[i] by {
        lemma_hex_byte(a, i);
        lemma_hex_byte(b, i);
        lemma_lower_hex(a[i] as int / 0x10, b[i] as int / 0x10);
        lemma_lower_hex(a[i] as int % 0x10, b[i] as int % 0x10);
    }
    assert(a =~= b);
}

/// A numeral has a digit for each decimal place, the last of them behind the others, and a sign only
/// where the number is negative.
pub proof fn numerals_are_decimal(high: nat, low: int)
    requires
        0 <= low < 10,
    ensures
        int_text(low) == seq!["0123456789"@[low]],
        high > 0 ==> int_text(10 * high + low) == int_text(high as int).push("0123456789"@[low]),
        high > 0 ==> int_text(-(high as int)) == seq!['-'] + int_text(high as int),
{
    reveal_strlit("0123456789");
    if high > 0 {
        let n = (10 * high + low) as nat;
        assert(n / 10 == high && n % 10 == low);
        assert(decimal(n) == decimal(high).push(digit_char(low)));
    }
}

/// What is read from digits: each further digit is worth its value, and the others ten times what they
/// were; a sign in front makes the number negative; nothing else is a number, and neither is what does
/// not fit into 64 bits.
pub proof fn digits_are_read_by_place(text: Seq<char>, value: int, low: int, c: char, i: int)
    requires
        0 <= low < 10,
    ensures
        int_of_text(seq!["0123456789"@[low]]) == Some(low),
        text.len() > 0 && text[0] != '-' && int_of_text(text) == Some(value) && 10 * value + low
            <= i64::MAX ==> int_of_text(text.push("0123456789"@[low])) == Some(10 * value + low),
        text.len() > 0 && text[0] != '-' && int_of_text(text) == Some(value) && 10 * value + low
            > i64::MAX ==> int_of_text(text.push("0123456789"@[low])) is None,
        text.len() > 0 && text[0] != '-' && int_of_text(text) == Some(value) ==> int_of_text(
            seq!['-'] + text,
        ) == Some(-value),
        text.len() > 0 && !("0123456789"@.contains(c)) ==> int_of_text(text.push(c)) is None,
        0 <= i < text.len() && !("0123456789"@.contains(text[i])) && !(i == 0 && text[0] == '-')
            ==> int_of_text(text) is None,
        int_of_text(Seq::empty()) is None,
        int_of_text(seq!['-']) is None,
{
    reveal_strlit("0123456789");
    reveal_with_fuel(decimal_value, 2);
    let one = seq!["0123456789"@[low]];
    assert(one.drop_last() =~= Seq::<char>::empty());
    assert(decimal_value(one) == low);
    if text.len() > 0 && text[0] != '-' && int_of_text(text) == Some(value) {
        let longer = text.push("0123456789"@[low]);
        assert(longer.drop_last() =~= text);
        assert(longer[0] == text[0]);
        assert(decimal_value(longer) == 10 * value + low);
        assert forall|i: int| 0 <= i < longer.len() implies is_digit(#[trigger] longer[i]) by {
            if i < text.len() {
                assert(longer[i] == text[i]);
            }
        }
        let signed = seq!['-'] + text;
        assert(signed.drop_first() =~= text);
    }
    if text.len() > 0 && !("0123456789"@.contains(c)) {
        let longer = text.push(c);
        if is_digit(c) {
            let d = c as int - '0' as int;
            assert("0123456789"@[d] == c);
        }
        let digits = if longer[0] == '-' {
            longer.drop_first()
        } else {
            longer
        };
        assert(digits.last() == c);
        assert(!is_digit(digits[digits.len() - 1]));
    }
    assert(seq!['-'].drop_first() =~= Seq::<char>::empty());
    if 0 <= i < text.len() && !("0123456789"@.contains(text[i])) && !(i == 0 && text[0] == '-') {
        if is_digit(text[i]) {
            assert("0123456789"@[text[i] as int - '0' as int] == text[i]);
        }
        if text[0] == '-' {
            assert(text.drop_first()[i - 1] == text[i]);
        }
    }
}

/// A 16-bit number is written with four digits in upper case, the most significant first.
pub proof fn numbers_have_four_hexadecimal_digits(x: u16, a: int, b: int, c: int, d: int)
    requires
        0 <= a < 16,
        0 <= b < 16,
        0 <= c < 16,
        0 <= d < 16,
        x == 0x1000 * a + 0x100 * b + 0x10 * c + d,
    ensures
        hex4(x) == seq![
            "0123456789ABCDEF"@[a],
            "0123456789ABCDEF"@[b],
            "0123456789ABCDEF"@[c],
            "0123456789ABCDEF"@[d],
        ],
{
    lemma_places(x as int, a, b, c, d);
    lemma_upper_digit(a);
    lemma_upper_digit(b);
    lemma_upper_digit(c);
    lemma_upper_digit(d);
}

proof fn lemma_places(n: int, a: int, b: int, c: int, d: int)
    requires
        0 <= a < 16,
        0 <= b < 16,
        0 <= c < 16,
        0 <= d < 16,
        n == 0x1000 * a + 0x100 * b + 0x10 * c + d,
    ensures
        n / 0x1000 == a,
        n / 0x100 % 0x10 == b,
        n / 0x10 % 0x10 == c,
        n % 0x10 == d,
{
    let one = 0x100 * a + 0x10 * b + c;
    let two = 0x10 * a + b;
    assert(n == 0x10 * one + d && n / 0x10 == one && n % 0x10 == d);
    assert(one == 0x10 * two + c && one % 0x10 == c);
    assert(n == 0x100 * two + (0x10 * c + d) && n / 0x100 == two);
    assert(two % 0x10 == b);
}

proof fn lemma_upper_digit(d: int)
    requires
        0 <= d < 16,
    ensures
        upper_hex(d) == "0123456789ABCDEF"@[d],
{
    reveal_strlit("0123456789ABCDEF");
}

/// Bytes are written with two digits in lower case each, in order and with the more significant first.
pub proof fn bytes_have_two_hexadecimal_digits(bytes: Seq<u8>, i: int)
    requires
        0 <= i < bytes.len(),
    ensures
        hex_bytes(bytes).len() == 2 * bytes.len(),
        hex_bytes(bytes)[2 * i] == "0123456789abcdef"@[bytes[i] as int / 16],
        hex_bytes(bytes)[2 * i + 1] == "0123456789abcdef"@[bytes[i] as int % 16],
{
    reveal_strlit("0123456789abcdef");
    lemma_hex_byte(bytes, i);
}

} // verus!
