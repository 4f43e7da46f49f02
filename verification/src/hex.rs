//! Textual digits of bytes and offsets: uppercase hexadecimal pairs, the
//! prefixed hexadecimal, octal and binary forms of a single byte, and the
//! zero-padded offset label of a row.

use vstd::prelude::*;

verus! {

/// `String::push` appends one character to the end of the string.
pub assume_specification[ std::string::String::push ](s: &mut std::string::String, ch: char)
    ensures
        final(s)@ == old(s)@.push(ch),
;

/// The character that stands for the digit `d` in bases up to sixteen,
/// letters in upper case.
pub open spec fn digit_char(d: int) -> char
    recommends
        0 <= d < 16,
{
    if d < 10 {
        ((48 + d) as u8) as char
    } else {
        ((55 + d) as u8) as char
    }
}

/// Executable form of [`digit_char`].
pub fn digit_to_char(d: u8) -> (c: char)
    requires
        d < 16,
    ensures
        c == digit_char(d as int),
{
    if d < 10 {
        (48u8 + d) as char
    } else {
        (55u8 + d) as char
    }
}

/// The two uppercase hexadecimal digits of a byte, high nibble first.
pub open spec fn hex_pair(b: u8) -> Seq<char> {
    seq![digit_char(b as int / 16), digit_char(b as int % 16)]
}

/// Uppercase hexadecimal text of a byte sequence: two digits per byte and
/// nothing between them.
pub open spec fn encode_hex_spec(bytes: Seq<u8>) -> Seq<char> {
    Seq::new(
        2 * bytes.len(),
        |i: int|
            if i % 2 == 0 {
                digit_char(bytes[i / 2] as int / 16)
            } else {
                digit_char(bytes[i / 2] as int % 16)
            },
    )
}

/// Uppercase hexadecimal text of a byte sequence with one space between
/// neighbouring bytes.
pub open spec fn encode_hex_spaced_spec(bytes: Seq<u8>) -> Seq<char> {
    Seq::new(
        if bytes.len() == 0 {
            0
        } else {
            (3 * bytes.len() - 1) as nat
        },
        |i: int|
            if i % 3 == 0 {
                digit_char(bytes[i / 3] as int / 16)
            } else if i % 3 == 1 {
                digit_char(bytes[i / 3] as int % 16)
            } else {
                ' '
            },
    )
}

/// Appends the two uppercase hexadecimal digits of `b` to `out`.
pub fn push_hex_pair(out: &mut String, b: u8)
    ensures
        final(out)@ == old(out)@ + hex_pair(b),
{
    let hi = digit_to_char(b / 16);
    let lo = digit_to_char(b % 16);
    out.push(hi);
    out.push(lo);
    assert(out@ =~= old(out)@ + hex_pair(b));
}

/// Encodes bytes as uppercase two-digit hexadecimal pairs without separators.
pub fn encode_hex(bytes: &[u8]) -> (text: String)
    ensures
        text@ == encode_hex_spec(bytes@),
{
    let mut text = String::new();
    let mut i: usize = 0;
    while i < bytes.len()
        invariant
            i <= bytes.len(),
            text@ == encode_hex_spec(bytes@.take(i as int)),
        decreases bytes.len() - i,
    {
        push_hex_pair(&mut text, bytes[i]);
        assert(text@ =~= encode_hex_spec(bytes@.take(i + 1)));
        i += 1;
    }
    assert(bytes@.take(i as int) =~= bytes@);
    text
}

/// Encodes bytes as uppercase two-digit hexadecimal pairs, one space between
/// neighbouring pairs.
pub fn encode_hex_spaced(bytes: &[u8]) -> (text: String)
    ensures
        text@ == encode_hex_spaced_spec(bytes@),
{
    let mut text = String::new();
    let mut i: usize = 0;
    while i < bytes.len()
        invariant
            i <= bytes.len(),
            text@ == encode_hex_spaced_spec(bytes@.take(i as int)),
        decreases bytes.len() - i,
    {
        if i > 0 {
            text.push(' ');
        }
        push_hex_pair(&mut text, bytes[i]);
        assert(text@ =~= encode_hex_spaced_spec(bytes@.take(i + 1)));
        i += 1;
    }
    assert(bytes@.take(i as int) =~= bytes@);
    text
}

/// The form `0x` and two uppercase hexadecimal digits of a byte.
pub open spec fn hex_label_spec(b: u8) -> Seq<char> {
    seq!['0', 'x'] + hex_pair(b)
}

/// The form `0o` and three octal digits of a byte.
pub open spec fn octal_label_spec(b: u8) -> Seq<char> {
    seq![
        '0',
        'o',
        digit_char(b as int / 64),
        digit_char(b as int / 8 % 8),
        digit_char(b as int % 8),
    ]
}

/// The form `0b` and eight binary digits of a byte, highest bit first.
pub open spec fn binary_label_spec(b: u8) -> Seq<char> {
    seq![
        '0',
        'b',
        digit_char(b as int / 128 % 2),
        digit_char(b as int / 64 % 2),
        digit_char(b as int / 32 % 2),
        digit_char(b as int / 16 % 2),
        digit_char(b as int / 8 % 2),
        digit_char(b as int / 4 % 2),
        digit_char(b as int / 2 % 2),
        digit_char(b as int % 2),
    ]
}

/// Formats a byte as `0x` followed by two uppercase hexadecimal digits.
pub fn hex_label(b: u8) -> (text: String)
    ensures
        text@ == hex_label_spec(b),
{
    let mut text = String::new();
    text.push('0');
    text.push('x');
    push_hex_pair(&mut text, b);
    assert(text@ =~= hex_label_spec(b));
    text
}

/// Formats a byte as `0o` followed by three octal digits.
pub fn octal_label(b: u8) -> (text: String)
    ensures
        text@ == octal_label_spec(b),
{
    let mut text = String::new();
    text.push('0');
    text.push('o');
    text.push(digit_to_char(b / 64));
    text.push(digit_to_char(b / 8 % 8));
    text.push(digit_to_char(b % 8));
    assert(text@ =~= octal_label_spec(b));
    text
}

/// Formats a byte as `0b` followed by eight binary digits.
pub fn binary_label(b: u8) -> (text: String)
    ensures
        text@ == binary_label_spec(b),
{
    let mut text = String::new();
    text.push('0');
    text.push('b');
    text.push(digit_to_char(b / 128 % 2));
    text.push(digit_to_char(b / 64 % 2));
    text.push(digit_to_char(b / 32 % 2));
    text.push(digit_to_char(b / 16 % 2));
    text.push(digit_to_char(b / 8 % 2));
    text.push(digit_to_char(b / 4 % 2));
    text.push(digit_to_char(b / 2 % 2));
    text.push(digit_to_char(b % 2));
    assert(text@ =~= binary_label_spec(b));
    text
}

/// The uppercase hexadecimal digits of `n` without leading zeros; none at
/// all for zero.
pub open spec fn hex_digits(n: nat) -> Seq<char>
    decreases n,
{
    if n == 0 {
        Seq::empty()
    } else {
        hex_digits(n / 16).push(digit_char((n % 16) as int))
    }
}

/// A run of `count` zero digits.
pub open spec fn zero_digits(count: int) -> Seq<char> {
    Seq::new(
        if count < 0 {
            0
        } else {
            count as nat
        },
        |i: int| '0',
    )
}

/// Label of the row that starts at `offset`: its uppercase hexadecimal
/// digits, padded on the left with zeros to at least eight, then a colon.
pub open spec fn offset_label_spec(offset: nat) -> Seq<char> {
    (zero_digits(8 - hex_digits(offset).len()) + hex_digits(offset)).push(':')
}

/// Formats the label of the row that starts at `offset`.
pub fn offset_label(offset: usize) -> (text: String)
    ensures
        text@ == offset_label_spec(offset as nat),
{
    let mut low_first: Vec<char> = Vec::new();
    let mut rest: usize = offset;
    while rest > 0
        invariant
            hex_digits(offset as nat) == hex_digits(rest as nat) + low_first@.reverse(),
        decreases rest,
    {
        let ghost before = low_first@;
        low_first.push(digit_to_char((rest % 16) as u8));
        assert(low_first@.reverse() =~= seq![digit_char((rest % 16) as int)] + before.reverse());
        assert(hex_digits(rest as nat) + before.reverse() =~= hex_digits((rest / 16) as nat)
            + low_first@.reverse());
        rest = rest / 16;
    }
    assert(hex_digits(offset as nat) =~= low_first@.reverse());
    let mut text = String::new();
    let mut width: usize = low_first.len();
    while width < 8
        invariant
            low_first.len() <= width,
            width <= 8 || width == low_first.len(),
            text@ == zero_digits(width - low_first.len()),
        decreases 8 - width,
    {
        text.push('0');
        width += 1;
        assert(text@ =~= zero_digits(width - low_first.len()));
    }
    assert(text@ =~= zero_digits(8 - low_first.len()));
    let ghost zeros = text@;
    let mut left: usize = low_first.len();
    while left > 0
        invariant
            left <= low_first.len(),
            text@ == zeros + low_first@.reverse().take(low_first.len() - left),
        decreases left,
    {
        left -= 1;
        text.push(low_first[left]);
        assert(text@ =~= zeros + low_first@.reverse().take(low_first.len() - left));
    }
    text.push(':');
    assert(low_first@.reverse().take(low_first.len() as int) =~= low_first@.reverse());
    text
}

} // verus!
