//! Virtualized rendering: which fixed-width rows of a buffer fall into the
//! visible part of a scroll region, and what each such row shows.

use vstd::prelude::*;
use vstd::string::StringExecFns;
use crate::hex::{
    binary_label,
    binary_label_spec,
    hex_label,
    hex_label_spec,
    hex_pair,
    octal_label,
    octal_label_spec,
    offset_label,
    offset_label_spec,
    push_hex_pair,
};

verus! {

/// Smallest accepted number of bytes per row.
pub const MIN_BYTES_PER_LINE: usize = 1;

/// Largest accepted number of bytes per row.
pub const MAX_BYTES_PER_LINE: usize = 64;

/// First byte value that is shown as itself in the text column by default.
pub const DEFAULT_START_PRINTABLE: u8 = 0x21;

/// Last byte value that is shown as itself in the text column.
pub const LAST_PRINTABLE: u8 = 0x7E;

/// The visible interval of the scroll region and the height of one row, all
/// in the same integer unit.
#[derive(Clone, Copy, Debug, PartialEq, Eq, Structural)]
pub struct ViewportGeometry {
    /// Where the visible interval starts.
    pub top: i64,
    /// Where the visible interval ends.
    pub bottom: i64,
    /// Height of one row.
    pub row_height: u64,
}

/// Rows to render: `first_line` inclusive, `last_line` exclusive.
#[derive(Clone, Copy, Debug, PartialEq, Eq, Structural)]
pub struct LineRange {
    /// The first row to render.
    pub first_line: usize,
    /// The row behind the last one to render.
    pub last_line: usize,
}

/// `a / h` rounded towards negative infinity, for a positive `h`.
pub open spec fn floor_div(a: int, h: int) -> int
    recommends
        h > 0,
{
    a / h
}

/// `a / h` rounded towards positive infinity, for a positive `h`.
pub open spec fn ceil_div(a: int, h: int) -> int
    recommends
        h > 0,
{
    (a + h - 1) / h
}

/// Number of rows that `len` bytes fill at `per_line` bytes a row: the
/// quotient rounded up.
pub open spec fn total_lines_spec(len: nat, per_line: nat) -> nat
    recommends
        per_line > 0,
{
    ceil_div(len as int, per_line as int) as nat
}

/// `x` limited to the rows `0..=total`.
pub open spec fn clamp_line(x: int, total: nat) -> nat {
    if x < 0 {
        0
    } else if x > total {
        total
    } else {
        x as nat
    }
}

/// The first row to render among `total` rows: the row that holds the top
/// of the visible interval.
pub open spec fn first_line_spec(geometry: ViewportGeometry, total: nat) -> nat {
    clamp_line(floor_div(geometry.top as int, geometry.row_height as int), total)
}

/// The row behind the last one to render among `total` rows: the first row
/// that starts at or behind the bottom of the visible interval.
pub open spec fn last_line_spec(geometry: ViewportGeometry, total: nat) -> nat {
    clamp_line(ceil_div(geometry.bottom as int, geometry.row_height as int), total)
}

/// `floor_div` is the largest and `ceil_div` the smallest integer on its
/// side of the exact quotient.
pub proof fn lemma_floor_ceil(a: int, h: int)
    requires
        h > 0,
    ensures
        floor_div(a, h) * h <= a < (floor_div(a, h) + 1) * h,
        (ceil_div(a, h) - 1) * h < a <= ceil_div(a, h) * h,
        floor_div(a, h) <= ceil_div(a, h),
{
    vstd::arithmetic::div_mod::lemma_fundamental_div_mod(a, h);
    vstd::arithmetic::div_mod::lemma_fundamental_div_mod(a + h - 1, h);
    let f = a / h;
    let c = (a + h - 1) / h;
    assert(0 <= a % h < h);
    assert(0 <= (a + h - 1) % h < h);
    assert(f * h <= a && a < (f + 1) * h && (c - 1) * h < a && a <= c * h && f <= c)
        by (nonlinear_arith)
        requires
            h > 0,
            a == h * f + a % h,
            a + h - 1 == h * c + (a + h - 1) % h,
            0 <= a % h < h,
            0 <= (a + h - 1) % h < h,
    ;
}

/// Both roundings grow with the numerator.
pub proof fn lemma_rounding_monotonic(a: int, b: int, h: int)
    requires
        h > 0,
        a <= b,
    ensures
        floor_div(a, h) <= floor_div(b, h),
        ceil_div(a, h) <= ceil_div(b, h),
        floor_div(a, h) <= ceil_div(b, h),
{
    vstd::arithmetic::div_mod::lemma_div_is_ordered(a, b, h);
    vstd::arithmetic::div_mod::lemma_div_is_ordered(a + h - 1, b + h - 1, h);
    lemma_floor_ceil(b, h);
}

/// Number of rows that `len` bytes fill at `per_line` bytes a row.
pub fn total_lines(len: usize, per_line: usize) -> (lines: usize)
    requires
        per_line > 0,
    ensures
        lines == total_lines_spec(len as nat, per_line as nat),
        lines <= len,
        lines * per_line >= len,
        len > 0 ==> (lines - 1) * per_line < len,
{
    let whole = len / per_line;
    let part = len % per_line;
    proof {
        let n = len as int;
        let g = per_line as int;
        vstd::arithmetic::div_mod::lemma_fundamental_div_mod(n, g);
        vstd::arithmetic::div_mod::lemma_fundamental_div_mod(n + g - 1, g);
        let c = (n + g - 1) / g;
        let w = n / g;
        assert(0 <= (n + g - 1) % g < g);
        assert(0 <= n % g < g);
        assert(c == if n % g == 0 { w } else { w + 1 }) by (nonlinear_arith)
            requires
                g > 0,
                n == g * w + n % g,
                n + g - 1 == g * c + (n + g - 1) % g,
                0 <= n % g < g,
                0 <= (n + g - 1) % g < g,
        ;
        assert(w <= n && (n % g != 0 ==> w < n) && w * g <= n && (w + 1) * g > n
            && w * g == n - n % g && (w - 1) * g == w * g - g) by (nonlinear_arith)
            requires
                g > 0,
                n >= 0,
                w >= 0,
                n == g * w + n % g,
                0 <= n % g < g,
        ;
    }
    if part == 0 {
        whole
    } else {
        whole + 1
    }
}

/// Height of the whole scroll region: one row height per row.
pub fn total_height(lines: usize, row_height: u64) -> (height: u128)
    ensures
        height == lines * row_height,
{
    assert(lines * row_height <= 0xffff_ffff_ffff_ffff * 0xffff_ffff_ffff_ffff)
        by (nonlinear_arith)
        requires
            0 <= lines <= 0xffff_ffff_ffff_ffff,
            0 <= row_height <= 0xffff_ffff_ffff_ffff,
    ;
    (lines as u128) * (row_height as u128)
}

/// Maps the visible interval onto rows of a buffer of `len` bytes shown at
/// `per_line` bytes a row.
///
/// The first row is the one that holds `top`, the last row is the first one
/// that starts at or after `bottom`; both are limited to the rows that exist.
pub fn compute_visible_lines(len: usize, per_line: usize, geometry: ViewportGeometry) -> (range:
    LineRange)
    requires
        per_line > 0,
        geometry.row_height > 0,
    ensures
        range.first_line == first_line_spec(
            geometry,
            total_lines_spec(len as nat, per_line as nat),
        ),
        range.last_line == last_line_spec(geometry, total_lines_spec(len as nat, per_line as nat)),
        range.first_line <= total_lines_spec(len as nat, per_line as nat),
        range.last_line <= total_lines_spec(len as nat, per_line as nat),
        geometry.top <= geometry.bottom ==> range.first_line <= range.last_line,
{
    let total = total_lines(len, per_line);
    let height = geometry.row_height;
    let first_line = if geometry.top <= 0 {
        proof {
            lemma_floor_ceil(geometry.top as int, height as int);
            assert(floor_div(geometry.top as int, height as int) <= 0) by (nonlinear_arith)
                requires
                    height > 0,
                    geometry.top <= 0,
                    floor_div(geometry.top as int, height as int) * height <= geometry.top,
                    geometry.top < (floor_div(geometry.top as int, height as int) + 1) * height,
            ;
        }
        0
    } else {
        let rows = (geometry.top as u64) / height;
        if rows > total as u64 {
            total
        } else {
            rows as usize
        }
    };
    let last_line = if geometry.bottom <= 0 {
        proof {
            lemma_floor_ceil(geometry.bottom as int, height as int);
            assert(ceil_div(geometry.bottom as int, height as int) <= 0) by (nonlinear_arith)
                requires
                    height > 0,
                    geometry.bottom <= 0,
                    (ceil_div(geometry.bottom as int, height as int) - 1) * height
                        < geometry.bottom,
            ;
        }
        0
    } else {
        let rows = (geometry.bottom as u64 - 1) / height + 1;
        proof {
            vstd::arithmetic::div_mod::lemma_div_plus_one(geometry.bottom - 1, height as int);
        }
        if rows > total as u64 {
            total
        } else {
            rows as usize
        }
    };
    proof {
        if geometry.top <= geometry.bottom {
            lemma_rounding_monotonic(geometry.top as int, geometry.bottom as int, height as int);
        }
    }
    LineRange { first_line, last_line }
}

/// Wherever a visible interval lies whose top is not behind its bottom, the
/// rows to render are rows of the document, and the first of them is not
/// behind the last.
pub proof fn lemma_visible_lines_ordered(len: nat, per_line: nat, geometry: ViewportGeometry)
    requires
        MIN_BYTES_PER_LINE <= per_line <= MAX_BYTES_PER_LINE,
        geometry.row_height > 0,
        geometry.top <= geometry.bottom,
    ensures
        0 <= first_line_spec(geometry, total_lines_spec(len, per_line)) <= last_line_spec(
            geometry,
            total_lines_spec(len, per_line),
        ) <= total_lines_spec(len, per_line),
        total_lines_spec(len, per_line) == ceil_div(len as int, per_line as int),
{
    lemma_rounding_monotonic(
        geometry.top as int,
        geometry.bottom as int,
        geometry.row_height as int,
    );
    lemma_floor_ceil(len as int, per_line as int);
    assert(ceil_div(len as int, per_line as int) >= 0) by (nonlinear_arith)
        requires
            len >= 0,
            per_line > 0,
            len <= ceil_div(len as int, per_line as int) * per_line,
    ;
}

/// How the rows are drawn: bytes per row, whether each byte is shown with
/// its bits in reverse order, and where the printable range starts.
#[derive(Clone, Copy, Debug, PartialEq, Eq, Structural)]
pub struct DisplaySettings {
    /// Bytes per row.
    pub bytes_per_line: usize,
    /// Whether each byte is shown with its bits in reverse order.
    pub display_lsb: bool,
    /// First byte value that is shown as itself in the text column.
    pub start_ascii_printable: u8,
}

impl DisplaySettings {
    /// The row width lies within its bounds.
    pub open spec fn wf(self) -> bool {
        MIN_BYTES_PER_LINE <= self.bytes_per_line <= MAX_BYTES_PER_LINE
    }

    /// Thirty-two bytes per row, bits in their usual order, printable from `!`.
    pub fn new() -> (settings: Self)
        ensures
            settings.wf(),
            settings.bytes_per_line == 32,
            !settings.display_lsb,
            settings.start_ascii_printable == DEFAULT_START_PRINTABLE,
    {
        DisplaySettings {
            bytes_per_line: 32,
            display_lsb: false,
            start_ascii_printable: DEFAULT_START_PRINTABLE,
        }
    }

    /// Sets the row width, limited to its bounds as a slider would.
    pub fn set_bytes_per_line(&mut self, per_line: usize)
        ensures
            final(self).wf(),
            final(self).bytes_per_line == if per_line < MIN_BYTES_PER_LINE {
                MIN_BYTES_PER_LINE
            } else if per_line > MAX_BYTES_PER_LINE {
                MAX_BYTES_PER_LINE
            } else {
                per_line
            },
            final(self).display_lsb == old(self).display_lsb,
            final(self).start_ascii_printable == old(self).start_ascii_printable,
    {
        self.bytes_per_line = if per_line < MIN_BYTES_PER_LINE {
            MIN_BYTES_PER_LINE
        } else if per_line > MAX_BYTES_PER_LINE {
            MAX_BYTES_PER_LINE
        } else {
            per_line
        };
    }
}

/// The byte whose bit `7 - i` is bit `i` of `b`.
pub open spec fn reverse_byte_spec(b: u8) -> u8 {
    ((b as int % 2) * 128 + (b as int / 2 % 2) * 64 + (b as int / 4 % 2) * 32 + (b as int / 8 % 2)
        * 16 + (b as int / 16 % 2) * 8 + (b as int / 32 % 2) * 4 + (b as int / 64 % 2) * 2 + (
    b as int / 128 % 2)) as u8
}

/// Bit `i` of the reversed byte is bit `7 - i` of the byte.
pub proof fn lemma_reverse_byte_bits(b: u8, i: u8)
    requires
        i < 8,
    ensures
        (reverse_byte_spec(b) >> i) & 1 == (b >> ((7 - i) as u8)) & 1,
{
    let r = reverse_byte_spec(b);
    assert((r >> i) & 1 == (b >> ((7 - i) as u8)) & 1) by (bit_vector)
        requires
            i < 8,
            r == ((b % 2) * 128 + (b / 2 % 2) * 64 + (b / 4 % 2) * 32 + (b / 8 % 2) * 16 + (b / 16
                % 2) * 8 + (b / 32 % 2) * 4 + (b / 64 % 2) * 2 + (b / 128 % 2)) as u8,
    ;
}

/// Reverses the order of the bits of a byte.
pub fn reverse_byte(b: u8) -> (r: u8)
    ensures
        r == reverse_byte_spec(b),
{
    (b % 2) * 128 + (b / 2 % 2) * 64 + (b / 4 % 2) * 32 + (b / 8 % 2) * 16 + (b / 16 % 2) * 8 + (b
        / 32 % 2) * 4 + (b / 64 % 2) * 2 + (b / 128 % 2)
}

/// The byte as it is shown: itself, or bit-reversed when `lsb` is set.
pub open spec fn display_byte_spec(b: u8, lsb: bool) -> u8 {
    if lsb {
        reverse_byte_spec(b)
    } else {
        b
    }
}

/// Gives the byte as it is shown.
pub fn display_byte(b: u8, lsb: bool) -> (r: u8)
    ensures
        r == display_byte_spec(b, lsb),
{
    if lsb {
        reverse_byte(b)
    } else {
        b
    }
}

/// One cell of the hexadecimal column: two digits and a space.
pub open spec fn hex_cell_spec(b: u8) -> Seq<char> {
    hex_pair(b).push(' ')
}

/// Formats one cell of the hexadecimal column.
pub fn hex_cell(b: u8) -> (text: String)
    ensures
        text@ == hex_cell_spec(b),
{
    let mut text = String::new();
    push_hex_pair(&mut text, b);
    text.push(' ');
    assert(text@ =~= hex_cell_spec(b));
    text
}

/// One cell of the text column: the byte as a character when it lies in
/// `start..=LAST_PRINTABLE`, a dot otherwise.
pub open spec fn ascii_cell_spec(b: u8, start: u8) -> char {
    if start <= b <= LAST_PRINTABLE {
        b as char
    } else {
        '.'
    }
}

/// Gives one cell of the text column.
pub fn ascii_cell(b: u8, start: u8) -> (c: char)
    ensures
        c == ascii_cell_spec(b, start),
{
    if start <= b && b <= LAST_PRINTABLE {
        b as char
    } else {
        '.'
    }
}

/// Whether `offset` lies in the inclusive range `selection`.
pub open spec fn is_selected_spec(selection: Option<(usize, usize)>, offset: usize) -> bool {
    match selection {
        Some((start, end)) => start <= offset <= end,
        None => false,
    }
}

/// Tells whether `offset` lies in the selection.
pub fn is_selected(selection: Option<(usize, usize)>, offset: usize) -> (r: bool)
    ensures
        r == is_selected_spec(selection, offset),
{
    match selection {
        Some((start, end)) => start <= offset && offset <= end,
        None => false,
    }
}

/// Offset of the first byte of row `line`.
pub open spec fn line_start_spec(per_line: nat, line: nat) -> nat {
    line * per_line
}

/// Offset just past the last byte of row `line`.
pub open spec fn line_end_spec(len: nat, per_line: nat, line: nat) -> nat {
    if line * per_line + per_line < len {
        line * per_line + per_line
    } else {
        len
    }
}

/// The part of the buffer that row `line` shows, as a half-open pair of
/// offsets.
pub fn line_bounds(len: usize, per_line: usize, line: usize) -> (bounds: (usize, usize))
    requires
        per_line > 0,
        line < total_lines_spec(len as nat, per_line as nat),
    ensures
        bounds.0 == line_start_spec(per_line as nat, line as nat),
        bounds.1 == line_end_spec(len as nat, per_line as nat, line as nat),
        bounds.0 < bounds.1 <= len,
        bounds.1 - bounds.0 <= per_line,
{
    let total = total_lines(len, per_line);
    assert(line * per_line <= (total - 1) * per_line) by (nonlinear_arith)
        requires
            0 <= line <= total - 1,
            per_line > 0,
    ;
    let start = line * per_line;
    let end = if len - start <= per_line {
        len
    } else {
        start + per_line
    };
    (start, end)
}

/// What one row shows.
#[derive(Debug)]
pub struct Row {
    /// Offset of the first byte of the row.
    pub offset: usize,
    /// The offset as a label.
    pub label: String,
    /// One hexadecimal cell per byte.
    pub hex: Vec<String>,
    /// One text cell per byte.
    pub ascii: Vec<char>,
    /// For each byte, whether it lies in the selection.
    pub selected: Vec<bool>,
}

impl Row {
    /// The row is row `line` of `bytes` drawn with `settings` under `selection`.
    pub open spec fn shows(
        self,
        bytes: Seq<u8>,
        settings: DisplaySettings,
        selection: Option<(usize, usize)>,
        line: nat,
    ) -> bool {
        let start = line_start_spec(settings.bytes_per_line as nat, line);
        let end = line_end_spec(bytes.len(), settings.bytes_per_line as nat, line);
        &&& self.offset == start
        &&& self.label@ == offset_label_spec(start)
        &&& self.hex.len() == end - start
        &&& self.ascii.len() == end - start
        &&& self.selected.len() == end - start
        &&& forall|i: int|
            0 <= i < end - start ==> (#[trigger] self.hex[i])@ == hex_cell_spec(
                display_byte_spec(bytes[start + i], settings.display_lsb),
            )
        &&& forall|i: int|
            0 <= i < end - start ==> #[trigger] self.ascii[i] == ascii_cell_spec(
                display_byte_spec(bytes[start + i], settings.display_lsb),
                settings.start_ascii_printable,
            )
        &&& forall|i: int|
            0 <= i < end - start ==> #[trigger] self.selected[i] == is_selected_spec(
                selection,
                (start + i) as usize,
            )
    }
}

/// Builds row `line` of `bytes`: its label and, for each of its bytes, the
/// hexadecimal cell, the text cell and whether the byte is selected.
pub fn build_row(
    bytes: &[u8],
    settings: DisplaySettings,
    selection: Option<(usize, usize)>,
    line: usize,
) -> (row: Row)
    requires
        settings.bytes_per_line > 0,
        line < total_lines_spec(bytes@.len(), settings.bytes_per_line as nat),
    ensures
        row.shows(bytes@, settings, selection, line as nat),
{
    let (start, end) = line_bounds(bytes.len(), settings.bytes_per_line, line);
    let mut hex: Vec<String> = Vec::new();
    let mut ascii: Vec<char> = Vec::new();
    let mut selected: Vec<bool> = Vec::new();
    let mut at: usize = start;
    while at < end
        invariant
            start <= at <= end <= bytes.len(),
            hex.len() == at - start,
            ascii.len() == at - start,
            selected.len() == at - start,
            forall|i: int|
                0 <= i < at - start ==> (#[trigger] hex[i])@ == hex_cell_spec(
                    display_byte_spec(bytes[start + i], settings.display_lsb),
                ),
            forall|i: int|
                0 <= i < at - start ==> #[trigger] ascii[i] == ascii_cell_spec(
                    display_byte_spec(bytes[start + i], settings.display_lsb),
                    settings.start_ascii_printable,
                ),
            forall|i: int|
                0 <= i < at - start ==> #[trigger] selected[i] == is_selected_spec(
                    selection,
                    (start + i) as usize,
                ),
        decreases end - at,
    {
        let shown = display_byte(bytes[at], settings.display_lsb);
        hex.push(hex_cell(shown));
        ascii.push(ascii_cell(shown, settings.start_ascii_printable));
        selected.push(is_selected(selection, at));
        at += 1;
    }
    Row { offset: start, label: offset_label(start), hex, ascii, selected }
}

/// A byte in the notations of the byte table.
#[derive(Debug)]
pub struct ByteTable {
    /// `0x` and two hexadecimal digits.
    pub hex: String,
    /// `0o` and three octal digits.
    pub octal: String,
    /// `0b` and eight binary digits.
    pub bin: String,
    /// The byte as a character, or the word `unprintable`.
    pub ascii: String,
}

/// The text entry of the byte table: the byte as a character when it lies
/// in `start..=LAST_PRINTABLE`, the word `unprintable` otherwise.
pub open spec fn ascii_label_spec(b: u8, start: u8) -> Seq<char> {
    if start <= b <= LAST_PRINTABLE {
        seq![b as char]
    } else {
        "unprintable"@
    }
}

/// Formats the text entry of the byte table.
pub fn ascii_label(b: u8, start: u8) -> (text: String)
    ensures
        text@ == ascii_label_spec(b, start),
{
    if start <= b && b <= LAST_PRINTABLE {
        let mut text = String::new();
        text.push(b as char);
        assert(text@ =~= seq![b as char]);
        text
    } else {
        String::from_str("unprintable")
    }
}

/// Writes a byte in the notations of the byte table.
pub fn byte_table(b: u8, start: u8) -> (table: ByteTable)
    ensures
        table.hex@ == hex_label_spec(b),
        table.octal@ == octal_label_spec(b),
        table.bin@ == binary_label_spec(b),
        table.ascii@ == ascii_label_spec(b, start),
{
    ByteTable {
        hex: hex_label(b),
        octal: octal_label(b),
        bin: binary_label(b),
        ascii: ascii_label(b, start),
    }
}

} // verus!
