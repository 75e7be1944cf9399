//! Text that error messages and identities are rendered with.

use vstd::prelude::*;

verus! {

/// The lower-case character of the hexadecimal digit `d`.
pub open spec fn digit_char(d: int) -> char {
    if d == 0 { '0' }
    else if d == 1 { '1' }
    else if d == 2 { '2' }
    else if d == 3 { '3' }
    else if d == 4 { '4' }
    else if d == 5 { '5' }
    else if d == 6 { '6' }
    else if d == 7 { '7' }
    else if d == 8 { '8' }
    else if d == 9 { '9' }
    else if d == 10 { 'a' }
    else if d == 11 { 'b' }
    else if d == 12 { 'c' }
    else if d == 13 { 'd' }
    else if d == 14 { 'e' }
    else { 'f' }
}

/// `n` in decimal, without leading zeros.
pub open spec fn decimal(n: nat) -> Seq<char>
    decreases n,
{
    if n < 10 {
        seq![digit_char(n as int)]
    } else {
        decimal(n / 10).push(digit_char((n % 10) as int))
    }
}

/// Two lower-case hexadecimal digits for each byte, in order.
pub open spec fn hex(bytes: Seq<u8>) -> Seq<char> {
    Seq::new(
        2 * bytes.len(),
        |i: int|
            if i % 2 == 0 {
                digit_char(bytes[i / 2] as int / 16)
            } else {
                digit_char(bytes[i / 2] as int % 16)
            },
    )
}

fn push_digit(out: &mut String, d: u8)
    requires
        d < 16,
    ensures
        final(out)@ == old(out)@.push(digit_char(d as int)),
{
    let digit: &str = match d {
        0 => "0",
        1 => "1",
        2 => "2",
        3 => "3",
        4 => "4",
        5 => "5",
        6 => "6",
        7 => "7",
        8 => "8",
        9 => "9",
        10 => "a",
        11 => "b",
        12 => "c",
        13 => "d",
        14 => "e",
        _ => "f",
    };
    proof {
        reveal_strlit("0");
        reveal_strlit("1");
        reveal_strlit("2");
        reveal_strlit("3");
        reveal_strlit("4");
        reveal_strlit("5");
        reveal_strlit("6");
        reveal_strlit("7");
        reveal_strlit("8");
        reveal_strlit("9");
        reveal_strlit("a");
        reveal_strlit("b");
        reveal_strlit("c");
        reveal_strlit("d");
        reveal_strlit("e");
        reveal_strlit("f");
        assert(digit@ =~= seq![digit_char(d as int)]);
    }
    out.append(digit);
    assert(out@ =~= old(out)@.push(digit_char(d as int)));
}

/// Append `n` in decimal.
pub fn push_decimal(out: &mut String, n: u64)
    ensures
        final(out)@ == old(out)@ + decimal(n as nat),
    decreases n,
{
    if n >= 10 {
        push_decimal(out, n / 10);
    }
    let ghost head = out@;
    push_digit(out, (n % 10) as u8);
    assert(out@ =~= old(out)@ + decimal(n as nat));
}

/// Append two hexadecimal digits for each of `bytes`.
pub fn push_hex(out: &mut String, bytes: &[u8])
    ensures
        final(out)@ == old(out)@ + hex(bytes@),
{
    for i in 0..bytes.len()
        invariant
            out@ == old(out)@ + hex(bytes@.take(i as int)),
    {
        let ghost before = out@;
        push_digit(out, bytes[i] / 16);
        push_digit(out, bytes[i] % 16);
        assert(out@ =~= old(out)@ + hex(bytes@.take(i + 1)));
    }
    assert(bytes@.take(bytes@.len() as int) =~= bytes@);
}

// What the text says.

/// Whether a character is a decimal digit.
pub open spec fn is_decimal_digit(c: char) -> bool {
    '0' <= c <= '9'
}

/// Whether a character is a hexadecimal digit in lower case.
pub open spec fn is_hex_digit(c: char) -> bool {
    '0' <= c <= '9' || 'a' <= c <= 'f'
}

/// What a digit counts.
pub open spec fn digit_value(c: char) -> int {
    if '0' <= c <= '9' {
        c as int - '0' as int
    } else {
        c as int - 'a' as int + 10
    }
}

/// The number that decimal digits are read as.
pub open spec fn number_read(digits: Seq<char>) -> int
    decreases digits.len(),
{
    if digits.len() == 0 {
        0
    } else {
        number_read(digits.drop_last()) * 10 + digit_value(digits[digits.len() - 1])
    }
}

/// A number in decimal is read as that number. It has at least one digit, and does not start with a
/// zero if it has more.
pub proof fn decimal_is_read_back(n: nat)
    ensures
        number_read(decimal(n)) == n,
        decimal(n).len() > 0,
        decimal(n).len() > 1 ==> decimal(n)[0] != '0',
        forall|i: int| 0 <= i < decimal(n).len() ==> is_decimal_digit(#[trigger] decimal(n)[i]),
    decreases n,
{
    let all = decimal(n);
    if n < 10 {
        assert(all.drop_last() =~= Seq::empty());
        reveal_with_fuel(number_read, 2);
    } else {
        let before = decimal(n / 10);
        decimal_is_read_back(n / 10);
        assert(all.drop_last() =~= before);
        assert(all[0] == before[0]);
        if before.len() == 1 {
            assert(before.drop_last() =~= Seq::empty());
            reveal_with_fuel(number_read, 2);
        }
        assert forall|i: int| 0 <= i < all.len() implies is_decimal_digit(#[trigger] all[i]) by {
            if i < before.len() {
                assert(all[i] == before[i]);
            }
        }
    }
}

proof fn digits_count(d: int)
    requires
        0 <= d < 16,
    ensures
        is_hex_digit(digit_char(d)),
        digit_value(digit_char(d)) == d,
{
}

/// Bytes in hexadecimal are two digits each, in lower case, which are read as that byte.
pub proof fn hex_is_read_back(bytes: Seq<u8>)
    ensures
        hex(bytes).len() == 2 * bytes.len(),
        forall|i: int| 0 <= i < hex(bytes).len() ==> is_hex_digit(#[trigger] hex(bytes)[i]),
        forall|i: int|
            0 <= i < bytes.len() ==> digit_value(hex(bytes)[2 * i]) * 16 + digit_value(
                hex(bytes)[2 * i + 1],
            ) == #[trigger] bytes[i],
{
    let all = hex(bytes);
    assert forall|i: int| 0 <= i < all.len() implies is_hex_digit(#[trigger] all[i]) by {
        digits_count(bytes[i / 2] as int / 16);
        digits_count(bytes[i / 2] as int % 16);
    }
    assert forall|i: int| 0 <= i < bytes.len() implies digit_value(all[2 * i]) * 16 + digit_value(
        all[2 * i + 1],
    ) == #[trigger] bytes[i] by {
        let byte = bytes[i] as int;
        assert(2 * i / 2 == i && (2 * i + 1) / 2 == i);
        assert(2 * i % 2 == 0 && (2 * i + 1) % 2 == 1);
        assert(all[2 * i] == digit_char(byte / 16));
        assert(all[2 * i + 1] == digit_char(byte % 16));
        digits_count(byte / 16);
        digits_count(byte % 16);
    }
}

} // verus!
