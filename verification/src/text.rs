//! Text as it stands in frames and messages.

use vstd::prelude::*;

verus! {

/// What `String::from_utf8_lossy` makes of bytes that are not UTF-8.
pub uninterp spec fn repaired_utf8(bytes: Seq<u8>) -> Seq<char>;

/// The text of `bytes`: what they encode where they are UTF-8, and that text
/// with the malformed parts replaced where they are not.
pub open spec fn text_of(bytes: Seq<u8>) -> Seq<char> {
    if vstd::utf8::valid_utf8(bytes) {
        vstd::utf8::decode_utf8(bytes)
    } else {
        repaired_utf8(bytes)
    }
}

/// `String::from_utf8_lossy`, the result owned: the text that `bytes` encode
/// where they are UTF-8, and elsewhere a text that the bytes alone decide.
#[verifier::external_body]
pub(crate) fn from_utf8_lossy(bytes: &[u8]) -> (text: String)
    ensures
        text@ == (if vstd::utf8::valid_utf8(bytes@) {
            vstd::utf8::decode_utf8(bytes@)
        } else {
            repaired_utf8(bytes@)
        }),
{
    String::from_utf8_lossy(bytes).into_owned()
}

/// The digit of `value`, lower case where it is a letter.
pub open spec fn digit_of(value: int) -> char {
    if value < 10 {
        (0x30 + value) as char
    } else {
        (0x57 + value) as char
    }
}

/// `value` in decimal, without leading zeros.
pub open spec fn decimal_of(value: nat) -> Seq<char>
    decreases value,
{
    if value < 10 {
        seq![digit_of(value as int)]
    } else {
        decimal_of(value / 10).push(digit_of((value % 10) as int))
    }
}

/// `value` as two hexadecimal digits.
pub open spec fn hex2_of(value: u8) -> Seq<char> {
    seq![digit_of((value / 0x10) as int), digit_of((value % 0x10) as int)]
}

/// `value` as four hexadecimal digits.
pub open spec fn hex4_of(value: u16) -> Seq<char> {
    hex2_of((value / 0x100) as u8) + hex2_of((value % 0x100) as u8)
}

/// The digit of `value`, lower case where it is a letter.
pub(crate) fn digit(value: u8) -> (digit: &'static str)
    requires
        value < 16,
    ensures
        digit@ == seq![digit_of(value as int)],
{
    proof {
        reveal_strlit("0");
        reveal_strlit("1");
        reveal_strlit("2");
        reveal_strlit("3");
        reveal_strlit("4");
        reveal_strlit("5");
        reveal_strlit("6");
        reveal_strlit("7");
        reveal_strlit("8");
        reveal_strlit("9");
        reveal_strlit("a");
        reveal_strlit("b");
        reveal_strlit("c");
        reveal_strlit("d");
        reveal_strlit("e");
        reveal_strlit("f");
    }
    let digit = match value {
        0 => "0",
        1 => "1",
        2 => "2",
        3 => "3",
        4 => "4",
        5 => "5",
        6 => "6",
        7 => "7",
        8 => "8",
        9 => "9",
        10 => "a",
        11 => "b",
        12 => "c",
        13 => "d",
        14 => "e",
        _ => "f",
    };
    assert(digit@ =~= seq![digit_of(value as int)]);
    digit
}

/// Append `value` in decimal.
pub(crate) fn push_decimal(out: &mut String, value: usize)
    ensures
        final(out)@ == old(out)@ + decimal_of(value as nat),
    decreases value,
{
    if value >= 10 {
        push_decimal(out, value / 10);
    }
    out.append(digit((value % 10) as u8));
    assert(out@ =~= old(out)@ + decimal_of(value as nat));
}

/// Append `value` as two hexadecimal digits.
pub(crate) fn push_hex2(out: &mut String, value: u8)
    ensures
        final(out)@ == old(out)@ + hex2_of(value),
{
    out.append(digit(value / 0x10));
    out.append(digit(value % 0x10));
    assert(out@ =~= old(out)@ + hex2_of(value));
}

/// Append `value` as four hexadecimal digits.
pub(crate) fn push_hex4(out: &mut String, value: u16)
    ensures
        final(out)@ == old(out)@ + hex4_of(value),
{
    push_hex2(out, (value / 0x100) as u8);
    push_hex2(out, (value % 0x100) as u8);
    assert(out@ =~= old(out)@ + hex4_of(value));
}

} // verus!
