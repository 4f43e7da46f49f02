//! Text to bytes: hexadecimal, binary and octal notation with a lenient
//! grammar of prefixes and separators, and the import dialog that feeds it.

use vstd::prelude::*;
use vstd::string::StrSliceExecFns;
use vstd::string::StringExecFns;
use vstd::utf8::encode_utf8;
use crate::hex::{digit_char, encode_hex_spaced_spec, encode_hex_spec, hex_pair};
use crate::text::{chars_of, is_whitespace, text_of, unicode_whitespace};

verus! {

/// The notation of a text that is to be imported.
#[derive(Clone, Copy, Debug, PartialEq, Eq, Structural)]
pub enum ImportType {
    /// Pairs of hexadecimal digits.
    Hex,
    /// The text itself, byte for byte.
    String,
    /// Binary digits.
    Binary,
    /// Octal numbers, one per byte.
    Octal,
}

/// Why a text could not be decoded.
#[derive(Debug, PartialEq, Eq)]
pub enum DecodeError {
    /// The hexadecimal digits do not pair up.
    OddLength,
    /// A character that the notation has no place for.
    InvalidChar(char),
    /// A token that is no octal number of one byte.
    InvalidNumber(String),
}

/// A `DecodeError` as a mathematical value.
pub enum DecodeErrorView {
    OddLength,
    InvalidChar(char),
    InvalidNumber(Seq<char>),
}

impl View for DecodeError {
    type V = DecodeErrorView;

    open spec fn view(&self) -> DecodeErrorView {
        match self {
            DecodeError::OddLength => DecodeErrorView::OddLength,
            DecodeError::InvalidChar(c) => DecodeErrorView::InvalidChar(*c),
            DecodeError::InvalidNumber(token) => DecodeErrorView::InvalidNumber(token@),
        }
    }
}

/// Separators of the hexadecimal and the binary notation: blank, tab, line
/// feed, carriage return, colon, hyphen and comma.
pub open spec fn is_separator(c: char) -> bool {
    c == ' ' || c == '\t' || c == '\n' || c == '\r' || c == ':' || c == '-' || c == ','
}

/// Tells whether `c` separates digits.
pub fn separator(c: char) -> (r: bool)
    ensures
        r == is_separator(c),
{
    c == ' ' || c == '\t' || c == '\n' || c == '\r' || c == ':' || c == '-' || c == ','
}

/// A hexadecimal digit in either case.
pub open spec fn is_hex_digit(c: char) -> bool {
    ('0' <= c && c <= '9') || ('a' <= c && c <= 'f') || ('A' <= c && c <= 'F')
}

/// The value of a hexadecimal digit.
pub open spec fn hex_value(c: char) -> int
    recommends
        is_hex_digit(c),
{
    if '0' <= c && c <= '9' {
        c as int - '0' as int
    } else if 'a' <= c && c <= 'f' {
        c as int - 'a' as int + 10
    } else {
        c as int - 'A' as int + 10
    }
}

/// The value of a hexadecimal digit, if `c` is one.
pub fn hex_digit_value(c: char) -> (value: Option<u8>)
    ensures
        value is Some <==> is_hex_digit(c),
        value is Some ==> value->Some_0 == hex_value(c) && value->Some_0 < 16,
{
    if '0' <= c && c <= '9' {
        Some((c as u32 - '0' as u32) as u8)
    } else if 'a' <= c && c <= 'f' {
        Some((c as u32 - 'a' as u32 + 10) as u8)
    } else if 'A' <= c && c <= 'F' {
        Some((c as u32 - 'A' as u32 + 10) as u8)
    } else {
        None
    }
}

/// `ahead` in front of what a scan gave, unless the scan failed.
pub open spec fn join<T, E>(ahead: Seq<T>, scanned: Result<Seq<T>, E>) -> Result<Seq<T>, E> {
    match scanned {
        Ok(rest) => Ok(ahead + rest),
        Err(e) => Err(e),
    }
}

/// `c` is the given letter in lower or upper case.
pub open spec fn is_letter(c: char, lower: char, upper: char) -> bool {
    c == lower || c == upper
}

/// The hexadecimal digits of `s` from position `at` on, or the first
/// character that has no place.
///
/// Separators are dropped. A zero with an `x` behind it is a prefix and is
/// dropped with the `x`; so is a backslash with an `x` behind it. A
/// backslash with anything else behind it has no place.
pub open spec fn hex_scan_from(s: Seq<char>, at: int) -> Result<Seq<char>, char>
    decreases s.len() - at,
{
    if at < 0 || at >= s.len() {
        Ok(Seq::empty())
    } else if is_separator(s[at]) {
        hex_scan_from(s, at + 1)
    } else if s[at] == '0' || s[at] == '\\' {
        if at + 1 < s.len() && is_letter(s[at + 1], 'x', 'X') {
            hex_scan_from(s, at + 2)
        } else if s[at] == '0' {
            join(seq!['0'], hex_scan_from(s, at + 1))
        } else {
            Err('\\')
        }
    } else if is_hex_digit(s[at]) {
        join(seq![s[at]], hex_scan_from(s, at + 1))
    } else {
        Err(s[at])
    }
}

/// The bytes that pairs of hexadecimal digits stand for, the first digit of
/// a pair being the high nibble.
pub open spec fn hex_pairs(digits: Seq<char>) -> Seq<u8> {
    Seq::new(
        digits.len() / 2,
        |i: int| (hex_value(digits[2 * i]) * 16 + hex_value(digits[2 * i + 1])) as u8,
    )
}

/// What a text in hexadecimal notation decodes to.
pub open spec fn decode_hex_spec(s: Seq<char>) -> Result<Seq<u8>, DecodeErrorView> {
    match hex_scan_from(s, 0) {
        Err(c) => Err(DecodeErrorView::InvalidChar(c)),
        Ok(digits) => if digits.len() % 2 != 0 {
            Err(DecodeErrorView::OddLength)
        } else {
            Ok(hex_pairs(digits))
        },
    }
}

/// The result of a decoder agrees with what the text decodes to.
pub open spec fn agrees(
    result: Result<Vec<u8>, DecodeError>,
    expected: Result<Seq<u8>, DecodeErrorView>,
) -> bool {
    match result {
        Ok(bytes) => expected == Ok::<Seq<u8>, DecodeErrorView>(bytes@),
        Err(e) => expected == Err::<Seq<u8>, DecodeErrorView>(e@),
    }
}

/// Parse a hex string.
///
/// Accepts digits in either case, with blanks, tabs, line breaks, colons,
/// hyphens and commas between them and with `0x` and `\x` prefixes.
pub fn parse_hex_string(input: &str) -> (result: Result<Vec<u8>, DecodeError>)
    ensures
        agrees(result, decode_hex_spec(input@)),
{
    let chars = chars_of(input);
    let mut nibbles: Vec<u8> = Vec::new();
    let ghost mut digits: Seq<char> = Seq::empty();
    let mut at: usize = 0;
    while at < chars.len()
        invariant
            at <= chars.len(),
            chars@ == input@,
            hex_scan_from(input@, 0) == join(digits, hex_scan_from(input@, at as int)),
            nibbles.len() == digits.len(),
            forall|i: int| 0 <= i < digits.len() ==> nibbles[i] == hex_value(#[trigger] digits[i]),
            forall|i: int| 0 <= i < nibbles.len() ==> #[trigger] nibbles[i] < 16,
        decreases chars.len() - at,
    {
        let c = chars[at];
        let prefixed = at + 1 < chars.len() && (chars[at + 1] == 'x' || chars[at + 1] == 'X');
        if separator(c) {
            at += 1;
        } else if (c == '0' || c == '\\') && prefixed {
            at += 2;
        } else if c == '\\' {
            return Err(DecodeError::InvalidChar('\\'));
        } else {
            match hex_digit_value(c) {
                Some(value) => {
                    proof {
                        let rest = hex_scan_from(input@, at + 1);
                        assert(join(digits, join(seq![c], rest)) == join(digits.push(c), rest)) by {
                            if let Ok(r) = rest {
                                assert(digits + (seq![c] + r) =~= digits.push(c) + r);
                            }
                        }
                        digits = digits.push(c);
                    }
                    nibbles.push(value);
                    at += 1;
                },
                None => {
                    return Err(DecodeError::InvalidChar(c));
                },
            }
        }
    }
    assert(hex_scan_from(input@, 0) == Ok::<Seq<char>, char>(digits)) by {
        assert(digits + Seq::<char>::empty() =~= digits);
    }
    if nibbles.len() % 2 != 0 {
        return Err(DecodeError::OddLength);
    }
    let mut bytes: Vec<u8> = Vec::new();
    let mut pair: usize = 0;
    while pair < nibbles.len() / 2
        invariant
            pair <= nibbles.len() / 2,
            nibbles.len() == digits.len(),
            nibbles.len() % 2 == 0,
            forall|i: int| 0 <= i < digits.len() ==> nibbles[i] == hex_value(#[trigger] digits[i]),
            forall|i: int| 0 <= i < nibbles.len() ==> #[trigger] nibbles[i] < 16,
            bytes@ == hex_pairs(digits).take(pair as int),
        decreases nibbles.len() / 2 - pair,
    {
        let high = nibbles[2 * pair];
        let low = nibbles[2 * pair + 1];
        bytes.push(high * 16 + low);
        assert(bytes@ =~= hex_pairs(digits).take(pair + 1));
        pair += 1;
    }
    assert(bytes@ =~= hex_pairs(digits));
    Ok(bytes)
}

/// The binary digits of `s` from position `at` on, or the first character
/// that has no place.
///
/// Separators are dropped. A zero with a `b` behind it is a prefix and is
/// dropped with the `b`; any other zero is a digit.
pub open spec fn binary_scan_from(s: Seq<char>, at: int) -> Result<Seq<bool>, char>
    decreases s.len() - at,
{
    if at < 0 || at >= s.len() {
        Ok(Seq::empty())
    } else if is_separator(s[at]) {
        binary_scan_from(s, at + 1)
    } else if s[at] == '0' {
        if at + 1 < s.len() && is_letter(s[at + 1], 'b', 'B') {
            binary_scan_from(s, at + 2)
        } else {
            join(seq![false], binary_scan_from(s, at + 1))
        }
    } else if s[at] == '1' {
        join(seq![true], binary_scan_from(s, at + 1))
    } else {
        Err(s[at])
    }
}

/// Number of zero bits that fill `len` bits up to whole bytes.
pub open spec fn padding(len: nat) -> nat {
    ((8 - len % 8) % 8) as nat
}

/// Bit `i` of the digits after they were filled up on the left.
pub open spec fn padded_bit(bits: Seq<bool>, i: int) -> int {
    if i >= padding(bits.len()) && bits[i - padding(bits.len())] {
        1
    } else {
        0
    }
}

/// The byte that the eight padded bits from `at` on stand for, the first
/// being the highest.
pub open spec fn byte_of_bits(bits: Seq<bool>, at: int) -> u8 {
    (padded_bit(bits, at) * 128 + padded_bit(bits, at + 1) * 64 + padded_bit(bits, at + 2) * 32
        + padded_bit(bits, at + 3) * 16 + padded_bit(bits, at + 4) * 8 + padded_bit(bits, at + 5)
        * 4 + padded_bit(bits, at + 6) * 2 + padded_bit(bits, at + 7)) as u8
}

/// The bytes that binary digits stand for: the digits are filled up on the
/// left with zeros to whole bytes and grouped by eight.
pub open spec fn bits_to_bytes(bits: Seq<bool>) -> Seq<u8> {
    Seq::new((bits.len() + padding(bits.len())) / 8, |i: int| byte_of_bits(bits, 8 * i))
}

/// What a text in binary notation decodes to.
pub open spec fn decode_binary_spec(s: Seq<char>) -> Result<Seq<u8>, DecodeErrorView> {
    match binary_scan_from(s, 0) {
        Err(c) => Err(DecodeErrorView::InvalidChar(c)),
        Ok(bits) => Ok(bits_to_bytes(bits)),
    }
}

/// The number that the `count` padded bits from `at` on stand for, the first
/// being the highest.
spec fn bits_value(bits: Seq<bool>, at: int, count: nat) -> int
    decreases count,
{
    if count == 0 {
        0
    } else {
        2 * bits_value(bits, at, (count - 1) as nat) + padded_bit(bits, at + count - 1)
    }
}

/// Two to the power of `k`, for the widths up to a byte.
spec fn width_limit(k: int) -> int {
    if k <= 0 {
        1
    } else if k == 1 {
        2
    } else if k == 2 {
        4
    } else if k == 3 {
        8
    } else if k == 4 {
        16
    } else if k == 5 {
        32
    } else if k == 6 {
        64
    } else if k == 7 {
        128
    } else {
        256
    }
}

/// A byte is the number that its eight bits stand for.
proof fn lemma_byte_is_value(bits: Seq<bool>, at: int)
    ensures
        byte_of_bits(bits, at) == bits_value(bits, at, 8),
{
    reveal_with_fuel(bits_value, 9);
}

/// The zeros that fill up the first byte stand for zero.
proof fn lemma_padding_is_zero(bits: Seq<bool>, count: nat)
    requires
        count <= padding(bits.len()),
    ensures
        bits_value(bits, 0, count) == 0,
    decreases count,
{
    if count > 0 {
        lemma_padding_is_zero(bits, (count - 1) as nat);
    }
}

/// The number that binary digits stand for, the first being the highest.
pub open spec fn bits_number(bits: Seq<bool>) -> nat
    decreases bits.len(),
{
    if bits.len() == 0 {
        0
    } else {
        2 * bits_number(bits.drop_last()) + if bits.last() {
            1nat
        } else {
            0nat
        }
    }
}

/// The number that bytes stand for, the first being the highest.
pub open spec fn bytes_number(bytes: Seq<u8>) -> nat
    decreases bytes.len(),
{
    if bytes.len() == 0 {
        0
    } else {
        256 * bytes_number(bytes.drop_last()) + bytes.last() as nat
    }
}

/// The padded bits up to the first `count` digits stand for the number of
/// those digits.
proof fn lemma_padded_value(bits: Seq<bool>, count: nat)
    requires
        count <= bits.len(),
    ensures
        bits_value(bits, 0, padding(bits.len()) + count) == bits_number(bits.take(count as int)),
    decreases count,
{
    if count == 0 {
        lemma_padding_is_zero(bits, padding(bits.len()));
        assert(bits.take(0) =~= Seq::<bool>::empty());
    } else {
        lemma_padded_value(bits, (count - 1) as nat);
        assert(bits.take(count as int).drop_last() =~= bits.take(count - 1));
        assert(bits.take(count as int).last() == bits[count - 1]);
    }
}

/// Eight more bits are one more byte.
proof fn lemma_eight_more(bits: Seq<bool>, seen: nat)
    ensures
        bits_value(bits, 0, seen + 8) == 256 * bits_value(bits, 0, seen) + bits_value(
            bits,
            seen as int,
            8,
        ),
{
    reveal_with_fuel(bits_value, 9);
}

/// The first `count` bytes stand for the number of the padded bits that
/// they are made of.
proof fn lemma_bytes_value(bits: Seq<bool>, count: nat)
    requires
        count <= bits_to_bytes(bits).len(),
    ensures
        bytes_number(bits_to_bytes(bits).take(count as int)) == bits_value(bits, 0, 8 * count),
    decreases count,
{
    let bytes = bits_to_bytes(bits);
    if count == 0 {
        assert(bytes.take(0) =~= Seq::<u8>::empty());
    } else {
        lemma_bytes_value(bits, (count - 1) as nat);
        assert(bytes.take(count as int).drop_last() =~= bytes.take(count - 1));
        assert(bytes.take(count as int).last() == byte_of_bits(bits, 8 * (count - 1)));
        lemma_byte_is_value(bits, 8 * (count - 1));
        lemma_eight_more(bits, (8 * (count - 1)) as nat);
    }
}

/// The bytes that binary digits decode to stand for the same number as the
/// digits.
pub proof fn lemma_binary_number(bits: Seq<bool>)
    ensures
        bytes_number(bits_to_bytes(bits)) == bits_number(bits),
{
    let bytes = bits_to_bytes(bits);
    lemma_bytes_value(bits, bytes.len());
    lemma_padded_value(bits, bits.len());
    assert(bytes.take(bytes.len() as int) =~= bytes);
    assert(bits.take(bits.len() as int) =~= bits);
    assert(8 * bytes.len() == padding(bits.len()) + bits.len());
}

/// Parse a binary string like "0b00000001 0b00000010" into Vec<u8>
///
/// Accepts the digits `0` and `1`, with blanks, tabs, line breaks, colons,
/// hyphens and commas between them and with `0b` prefixes. Digits that do
/// not fill whole bytes are filled up on the left with zeros.
pub fn parse_binary_string(input: &str) -> (result: Result<Vec<u8>, DecodeError>)
    ensures
        agrees(result, decode_binary_spec(input@)),
{
    let chars = chars_of(input);
    let mut bits: Vec<bool> = Vec::new();
    let mut at: usize = 0;
    while at < chars.len()
        invariant
            at <= chars.len(),
            chars@ == input@,
            binary_scan_from(input@, 0) == join(bits@, binary_scan_from(input@, at as int)),
        decreases chars.len() - at,
    {
        let c = chars[at];
        if separator(c) {
            at += 1;
        } else if c == '0' && at + 1 < chars.len() && (chars[at + 1] == 'b' || chars[at + 1]
            == 'B') {
            at += 2;
        } else if c == '0' || c == '1' {
            proof {
                let rest = binary_scan_from(input@, at + 1);
                let bit = c == '1';
                assert(join(bits@, join(seq![bit], rest)) == join(bits@.push(bit), rest)) by {
                    if let Ok(r) = rest {
                        assert(bits@ + (seq![bit] + r) =~= bits@.push(bit) + r);
                    }
                }
            }
            bits.push(c == '1');
            at += 1;
        } else {
            return Err(DecodeError::InvalidChar(c));
        }
    }
    assert(binary_scan_from(input@, 0) == Ok::<Seq<bool>, char>(bits@)) by {
        assert(bits@ + Seq::<bool>::empty() =~= bits@);
    }
    let pad: usize = (8 - bits.len() % 8) % 8;
    let mut bytes: Vec<u8> = Vec::new();
    let mut filled: usize = pad;
    let mut value: u8 = 0;
    let mut next: usize = 0;
    proof {
        lemma_padding_is_zero(bits@, pad as nat);
    }
    while next < bits.len()
        invariant
            next <= bits.len(),
            pad == padding(bits@.len()),
            filled < 8,
            filled == (next + pad) % 8,
            bytes.len() == (next + pad) / 8,
            value == bits_value(bits@, 8 * bytes.len(), filled as nat),
            value < width_limit(filled as int),
            forall|i: int|
                0 <= i < bytes.len() ==> #[trigger] bytes[i] == byte_of_bits(bits@, 8 * i),
        decreases bits.len() - next,
    {
        let ghost first = 8 * bytes.len();
        assert(first + filled == next + pad);
        assert(padded_bit(bits@, first + filled) == if bits[next as int] { 1int } else { 0int });
        value = value * 2 + (if bits[next] {
            1
        } else {
            0
        });
        filled += 1;
        next += 1;
        if filled == 8 {
            proof {
                lemma_byte_is_value(bits@, first);
            }
            bytes.push(value);
            value = 0;
            filled = 0;
        }
    }
    assert(filled == 0);
    assert(bytes@ =~= bits_to_bytes(bits@));
    Ok(bytes)
}

/// Separators of the octal notation: white space, colon, hyphen and comma.
pub open spec fn is_octal_separator(c: char) -> bool {
    unicode_whitespace(c) || c == ':' || c == '-' || c == ','
}

/// Tells whether `c` separates octal numbers.
pub fn octal_separator(c: char) -> (r: bool)
    ensures
        r == is_octal_separator(c),
{
    is_whitespace(c) || c == ':' || c == '-' || c == ','
}

/// The token that ends before `at`, if one has begun at `start`.
pub open spec fn pending_token(s: Seq<char>, start: int, at: int) -> Seq<Seq<char>> {
    if start < at {
        seq![s.subrange(start, at)]
    } else {
        Seq::empty()
    }
}

/// The tokens of `s` from position `at` on, the current token having begun
/// at `start`: the longest runs of characters that are no separators.
pub open spec fn tokens_from(s: Seq<char>, at: int, start: int) -> Seq<Seq<char>>
    decreases s.len() - at,
{
    if at < 0 || at >= s.len() {
        pending_token(s, start, s.len() as int)
    } else if is_octal_separator(s[at]) {
        pending_token(s, start, at) + tokens_from(s, at + 1, at + 1)
    } else {
        tokens_from(s, at + 1, start)
    }
}

/// The token without one leading `0o` or `0O`.
pub open spec fn without_prefix(token: Seq<char>) -> Seq<char> {
    if token.len() >= 2 && token[0] == '0' && is_letter(token[1], 'o', 'O') {
        token.skip(2)
    } else {
        token
    }
}

/// The token without one leading plus sign.
pub open spec fn without_sign(token: Seq<char>) -> Seq<char> {
    if token.len() >= 1 && token[0] == '+' {
        token.skip(1)
    } else {
        token
    }
}

/// An octal digit.
pub open spec fn is_octal_digit(c: char) -> bool {
    '0' <= c && c <= '7'
}

/// The value of an octal digit; zero for any other character.
pub open spec fn octal_digit_value(c: char) -> int {
    if is_octal_digit(c) {
        c as int - '0' as int
    } else {
        0
    }
}

/// All characters are octal digits.
pub open spec fn all_octal(digits: Seq<char>) -> bool {
    forall|i: int| 0 <= i < digits.len() ==> is_octal_digit(#[trigger] digits[i])
}

/// The number that octal digits stand for.
pub open spec fn octal_number(digits: Seq<char>) -> int
    decreases digits.len(),
{
    if digits.len() == 0 {
        0
    } else {
        8 * octal_number(digits.drop_last()) + octal_digit_value(digits.last())
    }
}

/// The byte that a token without its prefix stands for: an optional plus
/// sign, then at least one octal digit, the number being at most 255.
pub open spec fn octal_token_value(token: Seq<char>) -> Option<u8> {
    let digits = without_sign(token);
    if digits.len() > 0 && all_octal(digits) && octal_number(digits) <= 255 {
        Some(octal_number(digits) as u8)
    } else {
        None
    }
}

/// The bytes that the tokens stand for, or the first token, without its
/// prefix, that stands for none.
pub open spec fn decode_tokens(tokens: Seq<Seq<char>>) -> Result<Seq<u8>, Seq<char>>
    decreases tokens.len(),
{
    if tokens.len() == 0 {
        Ok(Seq::empty())
    } else {
        match octal_token_value(without_prefix(tokens.first())) {
            Some(value) => join(seq![value], decode_tokens(tokens.drop_first())),
            None => Err(without_prefix(tokens.first())),
        }
    }
}

/// What a text in octal notation decodes to.
pub open spec fn decode_octal_spec(s: Seq<char>) -> Result<Seq<u8>, DecodeErrorView> {
    match decode_tokens(tokens_from(s, 0, 0)) {
        Ok(bytes) => Ok(bytes),
        Err(token) => Err(DecodeErrorView::InvalidNumber(token)),
    }
}

/// A number does not get smaller by further digits.
proof fn lemma_octal_number_grows(digits: Seq<char>, k: int)
    requires
        0 <= k <= digits.len(),
    ensures
        0 <= octal_number(digits.take(k)) <= octal_number(digits),
    decreases digits.len() - k,
{
    if k == digits.len() {
        assert(digits.take(k) =~= digits);
        lemma_octal_number_nonnegative(digits);
    } else {
        lemma_octal_number_grows(digits, k + 1);
        assert(digits.take(k + 1).drop_last() =~= digits.take(k));
        lemma_octal_number_nonnegative(digits.take(k));
    }
}

/// No digits stand for a negative number.
proof fn lemma_octal_number_nonnegative(digits: Seq<char>)
    ensures
        0 <= octal_number(digits),
    decreases digits.len(),
{
    if digits.len() > 0 {
        lemma_octal_number_nonnegative(digits.drop_last());
    }
}

/// Reads the token `chars[start..end]` as the octal number of one byte.
fn parse_octal_token(chars: &Vec<char>, start: usize, end: usize) -> (result: Result<u8, String>)
    requires
        start < end <= chars.len(),
    ensures
        match result {
            Ok(value) => octal_token_value(
                without_prefix(chars@.subrange(start as int, end as int)),
            ) == Some(value),
            Err(token) => octal_token_value(
                without_prefix(chars@.subrange(start as int, end as int)),
            ) is None && token@ == without_prefix(chars@.subrange(start as int, end as int)),
        },
{
    let ghost token = chars@.subrange(start as int, end as int);
    let from = if end - start >= 2 && chars[start] == '0' && (chars[start + 1] == 'o'
        || chars[start + 1] == 'O') {
        start + 2
    } else {
        start
    };
    assert(without_prefix(token) =~= chars@.subrange(from as int, end as int));
    let first = if from < end && chars[from] == '+' {
        from + 1
    } else {
        from
    };
    let ghost digits = chars@.subrange(first as int, end as int);
    assert(without_sign(without_prefix(token)) =~= digits);
    if first >= end {
        return Err(text_of(chars, from, end));
    }
    let mut value: u8 = 0;
    let mut at: usize = first;
    while at < end
        invariant
            start <= from <= first <= at <= end <= chars.len(),
            token == chars@.subrange(start as int, end as int),
            without_prefix(token) == chars@.subrange(from as int, end as int),
            without_sign(without_prefix(token)) == digits,
            digits == chars@.subrange(first as int, end as int),
            all_octal(digits.take(at - first)),
            value == octal_number(digits.take(at - first)),
        decreases end - at,
    {
        let c = chars[at];
        if !('0' <= c && c <= '7') {
            assert(!is_octal_digit(digits[at - first]));
            return Err(text_of(chars, from, end));
        }
        let digit = (c as u32 - '0' as u32) as u8;
        proof {
            assert(digits.take(at - first + 1).drop_last() =~= digits.take(at - first));
            lemma_octal_number_grows(digits, at - first + 1);
        }
        if value > 31 {
            return Err(text_of(chars, from, end));
        }
        value = value * 8 + digit;
        at += 1;
    }
    assert(digits.take(at - first) =~= digits);
    Ok(value)
}

/// Parse an octal string like "0o44 0o77" into Vec<u8>
///
/// The text is cut into tokens at white space, colons, hyphens and commas.
/// Each token, after one optional `0o` prefix, is the octal number of one
/// byte.
pub fn parse_octal_string(input: &str) -> (result: Result<Vec<u8>, DecodeError>)
    ensures
        agrees(result, decode_octal_spec(input@)),
{
    let chars = chars_of(input);
    let mut bytes: Vec<u8> = Vec::new();
    let mut start: usize = 0;
    let mut at: usize = 0;
    while at < chars.len()
        invariant
            start <= at <= chars.len(),
            chars@ == input@,
            decode_tokens(tokens_from(input@, 0, 0)) == join(
                bytes@,
                decode_tokens(tokens_from(input@, at as int, start as int)),
            ),
        decreases chars.len() - at,
    {
        if octal_separator(chars[at]) {
            if start < at {
                let ghost rest = tokens_from(input@, at + 1, at + 1);
                let ghost token = input@.subrange(start as int, at as int);
                assert((seq![token] + rest).drop_first() =~= rest);
                match parse_octal_token(&chars, start, at) {
                    Ok(value) => {
                        proof {
                            let tail = decode_tokens(rest);
                            assert(join(bytes@, join(seq![value], tail)) == join(
                                bytes@.push(value),
                                tail,
                            )) by {
                                if let Ok(r) = tail {
                                    assert(bytes@ + (seq![value] + r) =~= bytes@.push(value) + r);
                                }
                            }
                        }
                        bytes.push(value);
                    },
                    Err(token) => {
                        return Err(DecodeError::InvalidNumber(token));
                    },
                }
            } else {
                assert(Seq::<Seq<char>>::empty() + tokens_from(input@, at + 1, at + 1)
                    =~= tokens_from(input@, at + 1, at + 1));
            }
            start = at + 1;
        }
        at += 1;
    }
    if start < at {
        let ghost token = input@.subrange(start as int, at as int);
        assert(tokens_from(input@, at as int, start as int) == seq![token]);
        assert(seq![token].drop_first() =~= Seq::<Seq<char>>::empty());
        assert(decode_tokens(seq![token].drop_first()) == Ok::<Seq<u8>, Seq<char>>(Seq::empty()));
        match parse_octal_token(&chars, start, at) {
            Ok(value) => {
                assert(bytes@ + (seq![value] + Seq::<u8>::empty()) =~= bytes@.push(value));
                bytes.push(value);
            },
            Err(token) => {
                return Err(DecodeError::InvalidNumber(token));
            },
        }
    } else {
        assert(tokens_from(input@, at as int, start as int) == Seq::<Seq<char>>::empty());
        assert(bytes@ + Seq::<u8>::empty() =~= bytes@);
    }
    Ok(bytes)
}

/// What a text in the given notation decodes to. A text that is imported
/// as it stands gives its UTF-8 bytes.
pub open spec fn decode_spec(s: Seq<char>, notation: ImportType) -> Result<
    Seq<u8>,
    DecodeErrorView,
> {
    match notation {
        ImportType::String => Ok(encode_utf8(s)),
        ImportType::Hex => decode_hex_spec(s),
        ImportType::Binary => decode_binary_spec(s),
        ImportType::Octal => decode_octal_spec(s),
    }
}

/// An uppercase hexadecimal digit.
pub open spec fn is_upper_hex_digit(c: char) -> bool {
    ('0' <= c && c <= '9') || ('A' <= c && c <= 'F')
}

/// The digit characters are uppercase hexadecimal digits with their value.
pub proof fn lemma_digit_char_value(d: int)
    requires
        0 <= d < 16,
    ensures
        is_upper_hex_digit(digit_char(d)),
        hex_value(digit_char(d)) == d,
{
}

/// A text of uppercase hexadecimal digits alone is its own digits.
pub proof fn lemma_scan_of_digits(s: Seq<char>, at: int)
    requires
        0 <= at <= s.len(),
        forall|i: int| 0 <= i < s.len() ==> is_upper_hex_digit(#[trigger] s[i]),
    ensures
        hex_scan_from(s, at) == Ok::<Seq<char>, char>(s.skip(at)),
    decreases s.len() - at,
{
    if at == s.len() {
        assert(s.skip(at) =~= Seq::<char>::empty());
    } else {
        lemma_scan_of_digits(s, at + 1);
        assert(is_upper_hex_digit(s[at]));
        if at + 1 < s.len() {
            assert(is_upper_hex_digit(s[at + 1]));
        }
        assert(seq![s[at]] + s.skip(at + 1) =~= s.skip(at));
    }
}

/// Decoding the hexadecimal text of any bytes gives the bytes back.
pub proof fn lemma_hex_round_trip(bytes: Seq<u8>)
    ensures
        decode_spec(encode_hex_spec(bytes), ImportType::Hex) == Ok::<Seq<u8>, DecodeErrorView>(
            bytes,
        ),
{
    let text = encode_hex_spec(bytes);
    lemma_scan_of_digits_of(bytes);
    assert forall|i: int| 0 <= i < bytes.len() implies #[trigger] hex_pairs(text)[i]
        == bytes[i] by {
        lemma_digit_char_value(bytes[i] as int / 16);
        lemma_digit_char_value(bytes[i] as int % 16);
        assert((2 * i) / 2 == i && (2 * i) % 2 == 0);
        assert((2 * i + 1) / 2 == i && (2 * i + 1) % 2 == 1);
    }
    assert(hex_pairs(text) =~= bytes);
}

/// The hexadecimal text of bytes starts with the pair of the first byte.
proof fn lemma_encode_hex_unfold(bytes: Seq<u8>)
    requires
        bytes.len() > 0,
    ensures
        encode_hex_spec(bytes) == hex_pair(bytes[0]) + encode_hex_spec(bytes.skip(1)),
{
    let whole = encode_hex_spec(bytes);
    let parts = hex_pair(bytes[0]) + encode_hex_spec(bytes.skip(1));
    assert forall|i: int| 0 <= i < whole.len() implies whole[i] == parts[i] by {
        if i >= 2 {
            assert((i - 2) / 2 == i / 2 - 1 && (i - 2) % 2 == i % 2);
            assert(bytes.skip(1)[(i - 2) / 2] == bytes[i / 2]);
        }
    }
    assert(whole =~= parts);
}

/// The digits of the spaced hexadecimal text of `bytes` from position `at`
/// on.
spec fn spaced_digits_from(bytes: Seq<u8>, at: int) -> Seq<char> {
    if at % 3 == 0 {
        encode_hex_spec(bytes.skip(at / 3))
    } else if at % 3 == 1 {
        seq![digit_char(bytes[at / 3] as int % 16)] + encode_hex_spec(bytes.skip(at / 3 + 1))
    } else {
        encode_hex_spec(bytes.skip(at / 3 + 1))
    }
}

/// Scanning the spaced hexadecimal text of bytes gives its digits.
proof fn lemma_scan_of_spaced(bytes: Seq<u8>, at: int)
    requires
        0 <= at <= encode_hex_spaced_spec(bytes).len(),
    ensures
        hex_scan_from(encode_hex_spaced_spec(bytes), at) == Ok::<Seq<char>, char>(
            spaced_digits_from(bytes, at),
        ),
    decreases encode_hex_spaced_spec(bytes).len() - at,
{
    let text = encode_hex_spaced_spec(bytes);
    let k = at / 3;
    if at == text.len() {
        if bytes.len() == 0 {
            assert(bytes.skip(0) =~= bytes);
        } else {
            assert(at % 3 == 2 && k + 1 == bytes.len());
        }
        assert(spaced_digits_from(bytes, at) =~= Seq::<char>::empty());
    } else {
        lemma_scan_of_spaced(bytes, at + 1);
        assert(0 <= k < bytes.len());
        let rest = spaced_digits_from(bytes, at + 1);
        lemma_digit_char_value(bytes[k] as int / 16);
        lemma_digit_char_value(bytes[k] as int % 16);
        if at % 3 == 2 {
            assert((at + 1) % 3 == 0 && (at + 1) / 3 == k + 1);
        } else if at % 3 == 1 {
            assert((at + 1) % 3 == 2 && (at + 1) / 3 == k);
            if at + 1 < text.len() {
                assert(text[at + 1] == ' ');
            }
        } else {
            assert((at + 1) % 3 == 1 && (at + 1) / 3 == k);
            assert(text[at + 1] == digit_char(bytes[k] as int % 16));
            lemma_encode_hex_unfold(bytes.skip(k));
            assert(bytes.skip(k).skip(1) =~= bytes.skip(k + 1));
            assert(seq![text[at]] + rest =~= hex_pair(bytes[k]) + encode_hex_spec(
                bytes.skip(k + 1),
            ));
        }
    }
}

/// Decoding the spaced hexadecimal text of any bytes gives the bytes back.
pub proof fn lemma_hex_spaced_round_trip(bytes: Seq<u8>)
    ensures
        decode_spec(encode_hex_spaced_spec(bytes), ImportType::Hex) == Ok::<
            Seq<u8>,
            DecodeErrorView,
        >(bytes),
{
    lemma_scan_of_spaced(bytes, 0);
    assert(bytes.skip(0) =~= bytes);
    lemma_hex_round_trip(bytes);
    lemma_scan_of_digits_of(bytes);
}

/// Scanning the hexadecimal text of bytes gives the text itself.
proof fn lemma_scan_of_digits_of(bytes: Seq<u8>)
    ensures
        hex_scan_from(encode_hex_spec(bytes), 0) == Ok::<Seq<char>, char>(encode_hex_spec(bytes)),
{
    let text = encode_hex_spec(bytes);
    assert forall|i: int| 0 <= i < text.len() implies is_upper_hex_digit(#[trigger] text[i]) by {
        lemma_digit_char_value(bytes[i / 2] as int / 16);
        lemma_digit_char_value(bytes[i / 2] as int % 16);
    }
    lemma_scan_of_digits(text, 0);
    assert(text.skip(0) =~= text);
}

impl DecodeError {
    /// The error in words.
    pub open spec fn message_spec(self) -> Seq<char> {
        match self {
            DecodeError::OddLength => "hex string has odd number of digits"@,
            DecodeError::InvalidChar(c) => "invalid character in input: "@.push(c),
            DecodeError::InvalidNumber(token) => "invalid octal number: "@ + token@,
        }
    }

    /// Describes the error in words.
    pub fn message(&self) -> (text: String)
        ensures
            text@ == self.message_spec(),
    {
        match self {
            DecodeError::OddLength => String::from_str("hex string has odd number of digits"),
            DecodeError::InvalidChar(c) => {
                let mut text = String::from_str("invalid character in input: ");
                text.push(*c);
                text
            },
            DecodeError::InvalidNumber(token) => {
                let mut text = String::from_str("invalid octal number: ");
                text.append(token.as_str());
                text
            },
        }
    }
}

/// The view of an optional error.
pub open spec fn error_view(error: Option<DecodeError>) -> Option<DecodeErrorView> {
    match error {
        Some(e) => Some(e@),
        None => None,
    }
}

/// The import dialog: the text that was entered, its notation and the error
/// of the last attempt.
#[derive(Debug)]
pub struct Importer {
    /// Whether the dialog is shown.
    pub is_open: bool,
    /// The text that was entered.
    pub value: String,
    /// The notation of the text.
    pub value_type: ImportType,
    /// Why the last attempt failed, until the text or the notation changes.
    pub import_error: Option<DecodeError>,
}

/// What the user did to the open dialog in one frame.
#[derive(Debug)]
pub struct ImporterEvent {
    /// Whether the dialog was left open.
    pub still_open: bool,
    /// The notation that is selected now.
    pub selected: ImportType,
    /// Whether the import was asked for.
    pub import_clicked: bool,
    /// The new text, if the text was edited.
    pub edited: Option<String>,
}

impl ImporterEvent {
    /// The text after the event.
    pub open spec fn text_after(self, before: Seq<char>) -> Seq<char> {
        match self.edited {
            Some(text) => text@,
            None => before,
        }
    }
}

impl Importer {
    /// A closed dialog without text, set to import the text as it stands.
    pub fn new() -> (importer: Self)
        ensures
            !importer.is_open,
            importer.value@ == Seq::<char>::empty(),
            importer.value_type == ImportType::String,
            importer.import_error is None,
    {
        Importer {
            is_open: false,
            value: String::new(),
            value_type: ImportType::String,
            import_error: None,
        }
    }

    /// The dialog is `before` without its text and its error.
    pub open spec fn is_reset_of(self, before: Importer) -> bool {
        &&& self.is_open == before.is_open
        &&& self.value_type == before.value_type
        &&& self.value@ == Seq::<char>::empty()
        &&& self.import_error is None
    }

    /// The dialog is `before` after `event`, and `imported` is what the
    /// event imported.
    ///
    /// A closed dialog ignores the event. An open one takes over whether it
    /// stays open, the notation and the edited text. An import that was
    /// asked for decodes the text as it was before the edit in the notation
    /// selected now; if that fails, its error is kept. Else the earlier
    /// error stays unless notation or text changed.
    pub open spec fn follows(
        self,
        before: Importer,
        event: ImporterEvent,
        imported: Option<Seq<u8>>,
    ) -> bool {
        if !before.is_open {
            &&& imported is None
            &&& self == before
        } else {
            let attempt = decode_spec(before.value@, event.selected);
            let kept = if event.selected != before.value_type || event.edited is Some {
                None
            } else {
                error_view(before.import_error)
            };
            &&& self.is_open == event.still_open
            &&& self.value_type == event.selected
            &&& self.value@ == event.text_after(before.value@)
            &&& if event.import_clicked {
                match attempt {
                    Ok(bytes) => imported == Some(bytes) && error_view(self.import_error) == kept,
                    Err(e) => imported is None && error_view(self.import_error) == Some(e),
                }
            } else {
                imported is None && error_view(self.import_error) == kept
            }
        }
    }

    /// Forgets the text and the error of the last attempt.
    pub fn reset(&mut self)
        ensures
            final(self).is_reset_of(*old(self)),
    {
        self.value = String::new();
        self.import_error = None;
    }

    /// Import
    ///
    /// Decodes `value` in the notation `value_type`.
    pub fn import(value: &str, value_type: &ImportType) -> (result: Result<Vec<u8>, DecodeError>)
        ensures
            agrees(result, decode_spec(value@, *value_type)),
    {
        match value_type {
            ImportType::String => Ok(value.as_bytes_vec()),
            ImportType::Hex => parse_hex_string(value),
            ImportType::Binary => parse_binary_string(value),
            ImportType::Octal => parse_octal_string(value),
        }
    }

    /// Applies what the user did in one frame and gives the imported bytes,
    /// if an import was asked for and the text decodes.
    ///
    /// A closed dialog ignores the event. The import decodes the text as it
    /// was before this frame's edit, in the notation selected now. A change
    /// of notation or text clears the error; a failed import sets it.
    pub fn handle(&mut self, event: ImporterEvent) -> (imported: Option<Vec<u8>>)
        ensures
            final(self).follows(
                *old(self),
                event,
                match imported {
                    Some(bytes) => Some(bytes@),
                    None => None,
                },
            ),
    {
        if !self.is_open {
            return None;
        }
        if event.selected != self.value_type {
            self.import_error = None;
            self.value_type = event.selected;
        }
        let attempt = if event.import_clicked {
            Some(Importer::import(self.value.as_str(), &self.value_type))
        } else {
            None
        };
        if let Some(text) = event.edited {
            self.value = text;
            self.import_error = None;
        }
        self.is_open = event.still_open;
        match attempt {
            Some(Ok(bytes)) => Some(bytes),
            Some(Err(e)) => {
                self.import_error = Some(e);
                None
            },
            None => None,
        }
    }
}

} // verus!
