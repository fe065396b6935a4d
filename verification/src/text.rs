//! Character-level helpers shared by the modules that build text:
//! strings to characters and back, and numbers spelled in decimal
//! or hexadecimal.

use vstd::prelude::*;

verus! {

/// Append one character to a string (std's `String::push`).
#[verifier::external_body]
pub(crate) fn push_char(text: &mut String, ch: char)
    ensures
        final(text)@ == old(text)@.push(ch),
{
    text.push(ch);
}

/// Whether a value is a Unicode scalar value: at most 0x10FFFF and
/// outside the surrogate block.
pub open spec fn is_scalar(value: u32) -> bool {
    value <= 0x10FFFF && !(0xD800 <= value <= 0xDFFF)
}

/// The character with a value (std's `char::from_u32`): as std
/// documents it, the character where the value is a Unicode scalar
/// value, and nothing otherwise.
#[verifier::external_body]
pub(crate) fn char_from(value: u32) -> (found: Option<char>)
    ensures
        found == if is_scalar(value) {
            Some(value as char)
        } else {
            None::<char>
        },
{
    char::from_u32(value)
}

/// The characters of a string slice, in order.
pub fn chars_of(text: &str) -> (chars: Vec<char>)
    ensures
        chars@ == text@,
{
    let mut chars: Vec<char> = Vec::new();
    for ch in it: text.chars()
        invariant
            chars@ == it.seq().take(it.index() as int),
    {
        chars.push(ch);
    }
    chars
}

/// A string holding exactly the given characters.
pub fn string_of(chars: &[char]) -> (text: String)
    ensures
        text@ == chars@,
{
    let mut text = String::new();
    let mut index: usize = 0;
    while index < chars.len()
        invariant
            index <= chars.len(),
            text@ == chars@.take(index as int),
        decreases chars.len() - index,
    {
        push_char(&mut text, chars[index]);
        index += 1;
        proof {
            assert(chars@.take(index as int) == chars@.take(index - 1).push(chars@[index - 1]));
        }
    }
    proof {
        assert(chars@.take(chars.len() as int) == chars@);
    }
    text
}

/// The digit characters, lowest value first.
pub open spec fn digit_char(value: nat) -> char {
    if value < 10 {
        (('0' as nat) + value) as char
    } else {
        (('a' as nat) + value - 10) as char
    }
}

/// A number's digits in a base, most significant first, with no
/// leading zeros (zero itself is the one digit "0").
pub open spec fn digits(value: nat, base: nat) -> Seq<char>
    recommends
        2 <= base <= 16,
    decreases value,
{
    if value < base || base < 2 {
        seq![digit_char(value % 16)]
    } else {
        proof {
            assert(value / base < value) by (nonlinear_arith)
                requires
                    base >= 2,
                    value >= base,
            ;
        }
        digits(value / base, base).push(digit_char(value % base))
    }
}

/// Lower-case hexadecimal, no prefix.
pub open spec fn hex(value: nat) -> Seq<char> {
    digits(value, 16)
}

/// Decimal, no sign.
pub open spec fn decimal(value: nat) -> Seq<char> {
    digits(value, 10)
}

/// A signed decimal, with a leading minus for negatives.
pub open spec fn signed_decimal(value: int) -> Seq<char> {
    if value < 0 {
        seq!['-'] + decimal((-value) as nat)
    } else {
        decimal(value as nat)
    }
}

fn digit_of(value: u64) -> (ch: char)
    requires
        value < 16,
    ensures
        ch == digit_char(value as nat),
{
    if value < 10 {
        ((value as u8) + 48) as char
    } else {
        ((value as u8) + 87) as char
    }
}

fn push_digits(text: &mut String, value: u64, base: u64)
    requires
        2 <= base <= 16,
    ensures
        final(text)@ == old(text)@ + digits(value as nat, base as nat),
    decreases value,
{
    if value < base {
        push_char(text, digit_of(value));
        assert(value % 16 == value);
    } else {
        assert(value / base < value) by (nonlinear_arith)
            requires
                base >= 2,
                value >= base,
        ;
        push_digits(text, value / base, base);
        push_char(text, digit_of(value % base));
    }
}

/// Spell a number in lower-case hexadecimal.
pub fn hex_of(value: u64) -> (text: String)
    ensures
        text@ == hex(value as nat),
{
    let mut text = String::new();
    push_digits(&mut text, value, 16);
    text
}

/// Spell a number in decimal.
pub fn decimal_of(value: u64) -> (text: String)
    ensures
        text@ == decimal(value as nat),
{
    let mut text = String::new();
    push_digits(&mut text, value, 10);
    text
}

/// Append a number in decimal.
pub fn push_decimal(text: &mut String, value: u64)
    ensures
        final(text)@ == old(text)@ + decimal(value as nat),
{
    push_digits(text, value, 10);
}

/// Append a number in hexadecimal.
pub fn push_hex(text: &mut String, value: u64)
    ensures
        final(text)@ == old(text)@ + hex(value as nat),
{
    push_digits(text, value, 16);
}

/// Append a signed number in decimal.
pub fn push_signed(text: &mut String, value: i64)
    ensures
        final(text)@ == old(text)@ + signed_decimal(value as int),
{
    if value < 0 {
        push_char(text, '-');
        let magnitude: u64 = if value == i64::MIN {
            9223372036854775808u64
        } else {
            (-value) as u64
        };
        push_digits(text, magnitude, 10);
        assert(seq!['-'] + decimal(magnitude as nat) == seq!['-'].add(decimal(magnitude as nat)));
        assert(old(text)@.push('-') + decimal(magnitude as nat) == old(text)@ + (seq!['-'] + decimal(magnitude as nat)));
    } else {
        push_digits(text, value as u64, 10);
    }
}


/// Whether two strings hold the same characters.
pub fn same_text(text: &str, other: &str) -> (same: bool)
    ensures
        same == (text@ == other@),
{
    let left = chars_of(text);
    let right = chars_of(other);
    if left.len() != right.len() {
        return false;
    }
    let mut index: usize = 0;
    while index < left.len()
        invariant
            left@ == text@,
            right@ == other@,
            left@.len() == right@.len(),
            index <= left@.len(),
            forall|j: int| 0 <= j < index ==> left@[j] == right@[j],
        decreases left.len() - index,
    {
        if left[index] != right[index] {
            return false;
        }
        index += 1;
    }
    proof {
        assert(left@ =~= right@);
    }
    true
}

} // verus!
