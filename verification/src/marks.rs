//! Colour marks of workbook cells: red rows are not imported, green and blue
//! question cells mark added and modified questions.
use vstd::prelude::*;
use vstd::utf8::{encode_utf8, is_char_boundary};

use crate::text::{
    append_chars, char_is_alpha, char_is_digit, chars_of, chars_starts_with, is_alpha, is_digit,
    starts_with, string_of, subrange_chars, trim, trim_chars,
};

verus! {

/// The marked cells of one sheet, as (Excel row, zero-based column).
#[derive(Debug, Clone, PartialEq, Eq)]
pub struct SheetMarks {
    pub red: Vec<(usize, usize)>,
    pub blue: Vec<(usize, usize)>,
    pub green: Vec<(usize, usize)>,
}

impl SheetMarks {
    pub fn empty() -> (r: Self)
        ensures
            r.red@.len() == 0,
            r.blue@.len() == 0,
            r.green@.len() == 0,
    {
        SheetMarks { red: Vec::new(), blue: Vec::new(), green: Vec::new() }
    }
}

/// Whether `cell` is in `cells`.
pub fn has_cell(cells: &Vec<(usize, usize)>, cell: (usize, usize)) -> (r: bool)
    ensures
        r == cells@.contains(cell),
{
    let n = cells.len();
    let mut i: usize = 0;
    while i < n
        invariant
            i <= n == cells@.len(),
            forall|k: int| 0 <= k < i ==> cells@[k] != cell,
        decreases n - i,
    {
        let c = cells[i];
        if c.0 == cell.0 && c.1 == cell.1 {
            assert(cells@[i as int] == cell);
            return true;
        }
        i = i + 1;
    }
    false
}

/// Which change colours a cell style carries.
#[derive(Debug, Clone, Copy, PartialEq, Eq, Structural, Default)]
pub struct StyleMark {
    pub red: bool,
    pub blue: bool,
    pub green: bool,
}

/// The colours of either style.
pub fn merge_mark(left: StyleMark, right: StyleMark) -> (r: StyleMark)
    ensures
        r == (StyleMark {
            red: left.red || right.red,
            blue: left.blue || right.blue,
            green: left.green || right.green,
        }),
{
    StyleMark {
        red: left.red || right.red,
        blue: left.blue || right.blue,
        green: left.green || right.green,
    }
}

// ---------------------------------------------------------------------------
// Colours
// ---------------------------------------------------------------------------

/// `s` without its leading `#` characters.
pub open spec fn strip_hashes(s: Seq<char>) -> Seq<char>
    decreases s.len(),
{
    if s.len() > 0 && s[0] == '#' {
        strip_hashes(s.drop_first())
    } else {
        s
    }
}

/// The colour text of an `rgb` attribute: trimmed, without `#`.
pub open spec fn rgb_text(v: Seq<char>) -> Seq<char> {
    strip_hashes(trim(v))
}

/// The bytes read as the colour: the last six, or all when fewer.
pub open spec fn rgb_bytes(v: Seq<char>) -> Seq<u8> {
    let b = encode_utf8(rgb_text(v));
    if b.len() >= 6 {
        b.subrange(b.len() - 6, b.len() as int)
    } else {
        b
    }
}

/// Whether the last six bytes of the colour text start a character, so the
/// text can be cut there.
pub open spec fn rgb_cut_ok(v: Seq<char>) -> bool {
    let b = encode_utf8(rgb_text(v));
    b.len() < 6 || is_char_boundary(b, b.len() - 6)
}

pub open spec fn hex_byte_value(b: u8) -> int {
    if 48 <= b <= 57 {
        b - 48
    } else if 65 <= b <= 70 {
        b - 55
    } else if 97 <= b <= 102 {
        b - 87
    } else {
        -1
    }
}

/// The value of hexadecimal digit bytes; `None` when one is not a digit.
pub open spec fn hex_digits_value(b: Seq<u8>) -> Option<nat>
    decreases b.len(),
{
    if b.len() == 0 {
        Some(0)
    } else {
        match hex_digits_value(b.drop_last()) {
            Some(v) => if hex_byte_value(b.last()) >= 0 {
                Some(v * 16 + hex_byte_value(b.last()) as nat)
            } else {
                None
            },
            None => None,
        }
    }
}

/// What `u32::from_str_radix(_, 16)` reads from these bytes: an optional
/// `+` and at least one hexadecimal digit.
pub open spec fn hex_value(b: Seq<u8>) -> Option<nat> {
    let digits = if b.len() > 0 && b[0] == 43 {
        b.drop_first()
    } else {
        b
    };
    if digits.len() == 0 {
        None
    } else {
        hex_digits_value(digits)
    }
}

pub open spec fn mark_of_number(n: nat) -> StyleMark {
    let red = (n / 65536) % 256;
    let green = (n / 256) % 256;
    let blue = n % 256;
    StyleMark {
        red: red >= 180 && green <= 120 && blue <= 120,
        blue: blue >= 180 && red <= 170 && green <= 230,
        green: green >= 150 && red <= 210 && blue <= 180,
    }
}

/// The change colours of an `rgb` attribute value ("FFFF0000" is red).
pub open spec fn rgb_mark_spec(v: Seq<char>) -> StyleMark {
    match hex_value(rgb_bytes(v)) {
        Some(n) => mark_of_number(n),
        None => StyleMark { red: false, blue: false, green: false },
    }
}

pub(crate) fn strip_hashes_chars(s: &Vec<char>) -> (r: Vec<char>)
    ensures
        r@ == strip_hashes(s@),
{
    let n = s.len();
    let mut i: usize = 0;
    assert(s@.subrange(0, n as int) =~= s@);
    while i < n && s[i] == '#'
        invariant
            i <= n == s@.len(),
            strip_hashes(s@) == strip_hashes(s@.subrange(i as int, n as int)),
        decreases n - i,
    {
        assert(s@.subrange(i as int, n as int).drop_first() =~= s@.subrange(i + 1, n as int));
        i = i + 1;
    }
    subrange_chars(s, i, n)
}

fn hex_byte(b: u8) -> (r: i64)
    ensures
        r == hex_byte_value(b),
{
    if 48 <= b && b <= 57 {
        (b - 48) as i64
    } else if 65 <= b && b <= 70 {
        (b - 55) as i64
    } else if 97 <= b && b <= 102 {
        (b - 87) as i64
    } else {
        -1
    }
}

fn hex_parse(b: &[u8], from: usize) -> (r: Option<u32>)
    requires
        from <= b@.len(),
        b@.len() - from <= 7,
    ensures
        r matches Some(v) ==> hex_value(b@.subrange(from as int, b@.len() as int)) == Some(v as nat),
        r is None ==> hex_value(b@.subrange(from as int, b@.len() as int)) is None,
{
    let ghost whole = b@.subrange(from as int, b@.len() as int);
    let mut start = from;
    if start < b.len() && b[start] == 43 {
        start = start + 1;
        assert(whole.drop_first() =~= b@.subrange(start as int, b@.len() as int));
    } else {
        assert(whole =~= b@.subrange(start as int, b@.len() as int));
    }
    if start == b.len() {
        return None;
    }
    let n = b.len();
    let mut acc: u32 = 0;
    let mut i: usize = start;
    assert(hex_value(whole) == hex_digits_value(b@.subrange(start as int, n as int)));
    while i < n
        invariant
            hex_value(b@.subrange(from as int, b@.len() as int)) == hex_digits_value(
                b@.subrange(start as int, n as int),
            ),
            from <= start < n == b@.len(),
            n - start <= 7,
            start <= i <= n,
            hex_digits_value(b@.subrange(start as int, i as int)) == Some(acc as nat),
            acc < pow16(i - start),
        decreases n - i,
    {
        let d = hex_byte(b[i]);
        assert(b@.subrange(start as int, i + 1).drop_last() =~= b@.subrange(start as int, i as int));
        assert(b@.subrange(start as int, i + 1).last() == b@[i as int]);
        if d < 0 {
            proof {
                hex_none_extends(b@, start as int, i as int + 1);
            }
            return None;
        }
        proof {
            pow16_bound(i - start);
        }
        acc = acc * 16 + d as u32;
        i = i + 1;
    }
    Some(acc)
}

pub open spec fn pow16(k: int) -> int
    decreases k,
{
    if k <= 0 {
        1
    } else {
        16 * pow16(k - 1)
    }
}

proof fn pow16_bound(k: int)
    requires
        0 <= k < 7,
    ensures
        pow16(k) * 16 <= 268435456,
        pow16(k + 1) == pow16(k) * 16,
{
    reveal_with_fuel(pow16, 8);
    if k == 0 {
    } else if k == 1 {
    } else if k == 2 {
    } else if k == 3 {
    } else if k == 4 {
    } else if k == 5 {
    } else {
    }
}

/// Once a non-digit is read, no longer prefix has a value.
proof fn hex_none_extends(b: Seq<u8>, start: int, j: int)
    requires
        0 <= start < j <= b.len(),
        hex_digits_value(b.subrange(start, j)) is None,
    ensures
        hex_digits_value(b.subrange(start, b.len() as int)) is None,
    decreases b.len() - j,
{
    if j < b.len() {
        assert(b.subrange(start, j + 1).drop_last() =~= b.subrange(start, j));
        hex_none_extends(b, start, j + 1);
    } else {
        assert(b.subrange(start, j) =~= b.subrange(start, b.len() as int));
    }
}

/// The change colours of an `rgb` attribute value of a style.
pub fn rgb_mark(value: &str) -> (r: StyleMark)
    requires
        rgb_cut_ok(value@),
    ensures
        r == rgb_mark_spec(value@),
{
    let t = strip_hashes_chars(&trim_chars(&chars_of(value)));
    let s = string_of(&t);
    let b = s.as_str().as_bytes();
    let from: usize = if b.len() >= 6 { b.len() - 6 } else { 0 };
    proof {
        if b@.len() < 6 {
            assert(b@.subrange(0, b@.len() as int) =~= b@);
        }
    }
    match hex_parse(b, from) {
        Some(number) => {
            let red = (number >> 16) & 0xff;
            let green = (number >> 8) & 0xff;
            let blue = number & 0xff;
            assert(((number >> 16u32) & 0xffu32) == (number / 65536) % 256) by (bit_vector);
            assert(((number >> 8u32) & 0xffu32) == (number / 256) % 256) by (bit_vector);
            assert((number & 0xffu32) == number % 256) by (bit_vector);
            StyleMark {
                red: red >= 180 && green <= 120 && blue <= 120,
                blue: blue >= 180 && red <= 170 && green <= 230,
                green: green >= 150 && red <= 210 && blue <= 180,
            }
        },
        None => StyleMark { red: false, blue: false, green: false },
    }
}

// ---------------------------------------------------------------------------
// Cell references and part paths
// ---------------------------------------------------------------------------

pub open spec fn letter_index(c: char) -> nat {
    if 'a' <= c <= 'z' {
        ((c as u32) - 96) as nat
    } else {
        ((c as u32) - 64) as nat
    }
}

/// The column number (1-based) of the letters of a reference and its digits.
pub open spec fn reference_parts(s: Seq<char>) -> (nat, Seq<char>)
    decreases s.len(),
{
    if s.len() == 0 {
        (0, Seq::empty())
    } else {
        let (col, row) = reference_parts(s.drop_last());
        let c = s.last();
        if is_alpha(c) {
            (col * 26 + letter_index(c), row)
        } else if is_digit(c) {
            (col, row.push(c))
        } else {
            (col, row)
        }
    }
}

/// The (row, zero-based column) of a cell reference such as "C12"; `None`
/// without letters or digits, or when the row number does not fit.
pub open spec fn cell_position_spec(s: Seq<char>) -> Option<(usize, usize)> {
    let (col, row) = reference_parts(s);
    if col == 0 || row.len() == 0 {
        None
    } else if crate::importer::digits_value(row) > usize::MAX {
        None
    } else {
        Some((crate::importer::digits_value(row) as usize, (col - 1) as usize))
    }
}

proof fn reference_col_grows(s: Seq<char>, k: int)
    requires
        0 <= k <= s.len(),
    ensures
        reference_parts(s.subrange(0, k)).0 <= reference_parts(s).0,
    decreases s.len() - k,
{
    if k < s.len() {
        reference_col_grows(s, k + 1);
        assert(s.subrange(0, k + 1).drop_last() =~= s.subrange(0, k));
    } else {
        assert(s.subrange(0, k) =~= s);
    }
}

proof fn digits_grow(w: Seq<char>, k: int)
    requires
        0 <= k <= w.len(),
    ensures
        crate::importer::digits_value(w.subrange(0, k)) <= crate::importer::digits_value(w),
    decreases w.len() - k,
{
    if k < w.len() {
        digits_grow(w, k + 1);
        assert(w.subrange(0, k + 1).drop_last() =~= w.subrange(0, k));
    } else {
        assert(w.subrange(0, k) =~= w);
    }
}

pub fn cell_reference_to_position(reference: &str) -> (r: Option<(usize, usize)>)
    requires
        reference_parts(reference@).0 <= usize::MAX,
    ensures
        r == cell_position_spec(reference@),
{
    let s = chars_of(reference);
    let n = s.len();
    let mut column: usize = 0;
    let mut row: Vec<char> = Vec::new();
    let mut i: usize = 0;
    while i < n
        invariant
            i <= n == s@.len(),
            s@ == reference@,
            reference_parts(reference@).0 <= usize::MAX,
            (column as nat, row@) == reference_parts(s@.subrange(0, i as int)),
            forall|j: int| 0 <= j < row@.len() ==> is_digit(#[trigger] row@[j]),
        decreases n - i,
    {
        assert(s@.subrange(0, i + 1).drop_last() =~= s@.subrange(0, i as int));
        proof {
            reference_col_grows(s@, i + 1);
        }
        let c = s[i];
        if char_is_alpha(c) {
            let upper: u32 = if 'a' <= c && c <= 'z' { c as u32 - 32 } else { c as u32 };
            column = column * 26 + ((upper - 64) as usize);
        } else if char_is_digit(c) {
            row.push(c);
        }
        i = i + 1;
    }
    assert(s@.subrange(0, n as int) =~= s@);
    if column == 0 || row.len() == 0 {
        return None;
    }
    let mut value: usize = 0;
    let m = row.len();
    let mut k: usize = 0;
    while k < m
        invariant
            k <= m == row@.len(),
            (column as nat, row@) == reference_parts(reference@),
            column != 0,
            forall|j: int| 0 <= j < row@.len() ==> is_digit(#[trigger] row@[j]),
            value == crate::importer::digits_value(row@.subrange(0, k as int)),
        decreases m - k,
    {
        assert(row@.subrange(0, k + 1).drop_last() =~= row@.subrange(0, k as int));
        assert(row@.subrange(0, k + 1).last() == row@[k as int]);
        let d = (row[k] as u32 - 48) as usize;
        if value > (usize::MAX - d) / 10 {
            proof {
                digits_grow(row@, k + 1);
            }
            return None;
        }
        value = value * 10 + d;
        k = k + 1;
    }
    assert(row@.subrange(0, m as int) =~= row@);
    Some((value, column - 1))
}

/// Whether the column letters of a cell reference give a column number that
/// fits in `usize` (the condition under which the reference can be read).
pub fn reference_column_fits(reference: &str) -> (r: bool)
    ensures
        r == (reference_parts(reference@).0 <= usize::MAX),
{
    let s = chars_of(reference);
    let n = s.len();
    let mut column: usize = 0;
    let mut i: usize = 0;
    while i < n
        invariant
            i <= n == s@.len(),
            s@ == reference@,
            column as nat == reference_parts(s@.subrange(0, i as int)).0,
        decreases n - i,
    {
        assert(s@.subrange(0, i + 1).drop_last() =~= s@.subrange(0, i as int));
        let c = s[i];
        if char_is_alpha(c) {
            let upper: u32 = if 'a' <= c && c <= 'z' { c as u32 - 32 } else { c as u32 };
            let letter: usize = (upper - 64) as usize;
            match column.checked_mul(26) {
                Some(m) => match m.checked_add(letter) {
                    Some(v) => {
                        column = v;
                    },
                    None => {
                        proof {
                            reference_col_grows(s@, i + 1);
                        }
                        return false;
                    },
                },
                None => {
                    proof {
                        reference_col_grows(s@, i + 1);
                    }
                    return false;
                },
            }
        }
        i = i + 1;
    }
    assert(s@.subrange(0, n as int) =~= s@);
    true
}

pub open spec fn part_path_spec(target: Seq<char>) -> Seq<char> {
    let t = strip_slashes(target);
    if starts_with(t, "xl/"@) {
        t
    } else {
        "xl/"@ + t
    }
}

/// `s` without its leading `/` characters.
pub open spec fn strip_slashes(s: Seq<char>) -> Seq<char>
    decreases s.len(),
{
    if s.len() > 0 && s[0] == '/' {
        strip_slashes(s.drop_first())
    } else {
        s
    }
}

/// The archive path of a workbook part named by a relationship target.
pub fn normalize_xlsx_part_path(target: &str) -> (r: String)
    ensures
        r@ == part_path_spec(target@),
{
    let s = chars_of(target);
    let n = s.len();
    let mut i: usize = 0;
    assert(s@.subrange(0, n as int) =~= s@);
    while i < n && s[i] == '/'
        invariant
            i <= n == s@.len(),
            strip_slashes(s@) == strip_slashes(s@.subrange(i as int, n as int)),
        decreases n - i,
    {
        assert(s@.subrange(i as int, n as int).drop_first() =~= s@.subrange(i + 1, n as int));
        i = i + 1;
    }
    let t = subrange_chars(&s, i, n);
    if chars_starts_with(&t, &chars_of("xl/")) {
        string_of(&t)
    } else {
        let mut r = chars_of("xl/");
        append_chars(&mut r, &t);
        string_of(&r)
    }
}

} // verus!
