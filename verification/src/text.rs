//! Text building blocks: the two `std` operations strings are made with,
//! hexadecimal digits and decimal numbers.

use vstd::prelude::*;
use vstd::string::*;

verus! {

/// `String::push` appends exactly the given character to the end of the
/// string.
pub assume_specification[ String::push ](s: &mut String, c: char)
    ensures
        final(s)@ == old(s)@.push(c),
;

/// The Unicode scalar values: every code point up to `0x10FFFF` that is not
/// a surrogate.
pub open spec fn is_scalar(i: u32) -> bool {
    i <= 0xD7FF || 0xE000 <= i <= 0x10FFFF
}

/// `char::from_u32` gives the character whose code point is `i`, and `None`
/// exactly when `i` is not a Unicode scalar value.
pub assume_specification[ char::from_u32 ](i: u32) -> (r: Option<char>)
    ensures
        r == if is_scalar(i) {
            Some(i as char)
        } else {
            None
        },
;

/// The hexadecimal digit for `n` in `0..16`.
pub open spec fn hex_digit(n: int, upper: bool) -> char {
    if n < 10 {
        ('0' as int + n) as char
    } else if upper {
        ('A' as int + n - 10) as char
    } else {
        ('a' as int + n - 10) as char
    }
}

/// A byte as two hexadecimal digits, most significant first.
pub open spec fn hex_byte(b: u8, upper: bool) -> Seq<char> {
    seq![hex_digit(b as int / 16, upper), hex_digit(b as int % 16, upper)]
}

/// Bytes as hexadecimal digits, two per byte, in order.
pub open spec fn hex_bytes(bytes: Seq<u8>, upper: bool) -> Seq<char>
    decreases bytes.len(),
{
    if bytes.len() == 0 {
        Seq::empty()
    } else {
        hex_bytes(bytes.drop_last(), upper) + hex_byte(bytes.last(), upper)
    }
}

fn push_hex_digit(out: &mut String, n: u8, upper: bool)
    requires
        n < 16,
    ensures
        final(out)@ == old(out)@.push(hex_digit(n as int, upper)),
{
    if n < 10 {
        out.push((0x30u8 + n) as char);
    } else if upper {
        out.push((0x41u8 + (n - 10)) as char);
    } else {
        out.push((0x61u8 + (n - 10)) as char);
    }
}

/// Append `b` as two hexadecimal digits.
pub fn push_hex_byte(out: &mut String, b: u8, upper: bool)
    ensures
        final(out)@ == old(out)@ + hex_byte(b, upper),
{
    push_hex_digit(out, b / 16, upper);
    push_hex_digit(out, b % 16, upper);
    assert(out@ =~= old(out)@ + hex_byte(b, upper));
}

/// Append `bytes` as hexadecimal digits, two per byte.
pub fn push_hex_bytes(out: &mut String, bytes: &[u8], upper: bool)
    ensures
        final(out)@ == old(out)@ + hex_bytes(bytes@, upper),
{
    let mut i: usize = 0;
    assert(out@ =~= old(out)@ + hex_bytes(bytes@.take(0), upper));
    while i < bytes.len()
        invariant
            i <= bytes.len(),
            out@ == old(out)@ + hex_bytes(bytes@.take(i as int), upper),
        decreases bytes.len() - i,
    {
        push_hex_byte(out, bytes[i], upper);
        assert(bytes@.take(i + 1).drop_last() =~= bytes@.take(i as int));
        assert(out@ =~= old(out)@ + hex_bytes(bytes@.take(i + 1), upper));
        i = i + 1;
    }
    assert(bytes@.take(i as int) =~= bytes@);
}

/// The decimal digits of `n`, without leading zeros.
pub open spec fn decimal(n: nat) -> Seq<char>
    decreases n,
{
    if n < 10 {
        seq![('0' as int + n) as char]
    } else {
        decimal(n / 10).push(('0' as int + n % 10) as char)
    }
}

/// Append the decimal digits of `n`.
pub fn push_decimal(out: &mut String, n: u64)
    ensures
        final(out)@ == old(out)@ + decimal(n as nat),
    decreases n,
{
    if n >= 10 {
        push_decimal(out, n / 10);
    }
    out.push((0x30u8 + (n % 10) as u8) as char);
    assert(out@ =~= old(out)@ + decimal(n as nat));
}

/// The decimal digits of `n` as a string.
pub fn decimal_string(n: u64) -> (s: String)
    ensures
        s@ == decimal(n as nat),
{
    let mut s = String::new();
    push_decimal(&mut s, n);
    assert(s@ =~= decimal(n as nat));
    s
}

/// The concatenation of two texts.
pub fn joined(a: &str, b: &str) -> (s: String)
    ensures
        s@ == a@ + b@,
{
    let mut s = a.to_owned();
    s.append(b);
    s
}

/// Hexadecimal digits identify the number they stand for.
pub proof fn hex_digit_is_injective(a: int, b: int, upper: bool)
    requires
        0 <= a < 16,
        0 <= b < 16,
        hex_digit(a, upper) == hex_digit(b, upper),
    ensures
        a == b,
{
}

/// Two hexadecimal digits identify the byte they stand for.
pub proof fn hex_byte_is_injective(a: u8, b: u8, upper: bool)
    requires
        hex_byte(a, upper) == hex_byte(b, upper),
    ensures
        a == b,
{
    assert(hex_byte(a, upper)[0] == hex_byte(b, upper)[0]);
    assert(hex_byte(a, upper)[1] == hex_byte(b, upper)[1]);
    hex_digit_is_injective(a as int / 16, b as int / 16, upper);
    hex_digit_is_injective(a as int % 16, b as int % 16, upper);
}

/// Hexadecimal text is two digits per byte.
pub proof fn hex_bytes_len(bytes: Seq<u8>, upper: bool)
    ensures
        hex_bytes(bytes, upper).len() == 2 * bytes.len(),
    decreases bytes.len(),
{
    if bytes.len() > 0 {
        hex_bytes_len(bytes.drop_last(), upper);
    }
}

/// Hexadecimal text identifies the bytes it stands for.
pub proof fn hex_bytes_is_injective(a: Seq<u8>, b: Seq<u8>, upper: bool)
    requires
        hex_bytes(a, upper) == hex_bytes(b, upper),
    ensures
        a == b,
    decreases a.len(),
{
    hex_bytes_len(a, upper);
    hex_bytes_len(b, upper);
    let t = hex_bytes(a, upper);
    if a.len() > 0 {
        let cut = t.len() - 2;
        hex_bytes_len(a.drop_last(), upper);
        hex_bytes_len(b.drop_last(), upper);
        assert(t.take(cut) =~= hex_bytes(a.drop_last(), upper));
        assert(t.take(cut) =~= hex_bytes(b.drop_last(), upper));
        assert(t.skip(cut) =~= hex_byte(a.last(), upper));
        assert(t.skip(cut) =~= hex_byte(b.last(), upper));
        hex_bytes_is_injective(a.drop_last(), b.drop_last(), upper);
        hex_byte_is_injective(a.last(), b.last(), upper);
        assert(a =~= a.drop_last().push(a.last()));
        assert(b =~= b.drop_last().push(b.last()));
    } else {
        assert(a =~= b);
    }
}

/// Distinct numbers have distinct decimal texts.
pub proof fn decimal_is_injective(a: nat, b: nat)
    requires
        decimal(a) == decimal(b),
    ensures
        a == b,
    decreases a,
{
    decimal_ends_in_last_digit(a / 10);
    decimal_ends_in_last_digit(b / 10);
    decimal_ends_in_last_digit(a);
    decimal_ends_in_last_digit(b);
    if a >= 10 && b >= 10 {
        assert(decimal(a).drop_last() =~= decimal(a / 10));
        assert(decimal(b).drop_last() =~= decimal(b / 10));
        decimal_is_injective(a / 10, b / 10);
    }
}

proof fn decimal_ends_in_last_digit(n: nat)
    ensures
        decimal(n).len() >= 1,
        decimal(n).last() as int == '0' as int + n % 10,
    decreases n,
{
    if n >= 10 {
        decimal_ends_in_last_digit(n / 10);
    }
}

/// The number that decimal digits stand for.
pub open spec fn decimal_value(digits: Seq<char>) -> int
    decreases digits.len(),
{
    if digits.len() == 0 {
        0
    } else {
        10 * decimal_value(digits.drop_last()) + (digits.last() as int - '0' as int)
    }
}

/// A number's decimal text holds digits only, has no leading zero, and stands
/// for the number.
pub proof fn decimal_stands_for_the_number(n: nat)
    ensures
        decimal(n).len() > 0,
        forall|i: int| 0 <= i < decimal(n).len() ==> '0' <= #[trigger] decimal(n)[i] <= '9',
        decimal(n)[0] == '0' ==> n == 0 && decimal(n).len() == 1,
        decimal_value(decimal(n)) == n,
    decreases n,
{
    reveal_with_fuel(decimal_value, 2);
    if n < 10 {
        assert(decimal(n).drop_last() =~= Seq::empty());
    } else {
        decimal_stands_for_the_number(n / 10);
        assert(decimal(n).drop_last() =~= decimal(n / 10));
        assert(decimal(n)[0] == decimal(n / 10)[0]);
    }
}

/// The string of a number holds digits only, has no leading zero, and stands
/// for the number.
pub proof fn decimal_string_stands_for_the_number(n: u64, s: String)
    requires
        call_ensures(decimal_string, (n,), s),
    ensures
        s@.len() > 0,
        forall|i: int| 0 <= i < s@.len() ==> '0' <= #[trigger] s@[i] <= '9',
        s@[0] == '0' ==> n == 0 && s@.len() == 1,
        decimal_value(s@) == n,
{
    decimal_stands_for_the_number(n as nat);
}

proof fn lemma_hex_digit_is_spelled(n: int, upper: bool)
    requires
        0 <= n < 16,
    ensures
        "0123456789ABCDEF"@.len() == 16,
        "0123456789abcdef"@.len() == 16,
        hex_digit(n, upper) == if upper {
            "0123456789ABCDEF"@[n]
        } else {
            "0123456789abcdef"@[n]
        },
{
    reveal_strlit("0123456789ABCDEF");
    reveal_strlit("0123456789abcdef");
    assert(n == 0 || n == 1 || n == 2 || n == 3 || n == 4 || n == 5 || n == 6 || n == 7 || n == 8
        || n == 9 || n == 10 || n == 11 || n == 12 || n == 13 || n == 14 || n == 15);
}

/// A byte is spelled by two digits, the more significant first.
pub proof fn hex_byte_spells_the_byte(b: u8, upper: bool)
    ensures
        ({
            let digits = if upper {
                "0123456789ABCDEF"@
            } else {
                "0123456789abcdef"@
            };
            hex_byte(b, upper) == seq![digits[b as int / 16], digits[b as int % 16]]
        }),
{
    lemma_hex_digit_is_spelled(b as int / 16, upper);
    lemma_hex_digit_is_spelled(b as int % 16, upper);
}

/// Byte `i` is spelled by digits `2 * i` and `2 * i + 1`.
pub proof fn hex_bytes_spell_each_byte(bytes: Seq<u8>, upper: bool, i: int)
    requires
        0 <= i < bytes.len(),
    ensures
        ({
            let digits = if upper {
                "0123456789ABCDEF"@
            } else {
                "0123456789abcdef"@
            };
            &&& hex_bytes(bytes, upper).len() == 2 * bytes.len()
            &&& hex_bytes(bytes, upper)[2 * i] == digits[bytes[i] as int / 16]
            &&& hex_bytes(bytes, upper)[2 * i + 1] == digits[bytes[i] as int % 16]
        }),
    decreases bytes.len(),
{
    hex_bytes_len(bytes, upper);
    hex_bytes_len(bytes.drop_last(), upper);
    if i == bytes.len() - 1 {
        hex_byte_spells_the_byte(bytes[i], upper);
    } else {
        hex_bytes_spell_each_byte(bytes.drop_last(), upper, i);
    }
}

/// Joining keeps both texts: the first in front, the second behind it.
pub proof fn joined_texts_keep_their_characters(a: &str, b: &str, s: String, i: int)
    requires
        call_ensures(joined, (a, b), s),
        0 <= i < s@.len(),
    ensures
        s@.len() == a@.len() + b@.len(),
        s@[i] == if i < a@.len() {
            a@[i]
        } else {
            b@[i - a@.len()]
        },
{
}

} // verus!
