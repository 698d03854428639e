//! The colour marks of an XLSX workbook, read from the tags of its XML
//! parts: the fills and fonts of the cell styles, the style of each cell,
//! and where each sheet's part is.
use vstd::prelude::*;

use crate::importer::digits_value;
use crate::marks::{
    cell_position_spec, cell_reference_to_position, has_cell, merge_mark, normalize_xlsx_part_path,
    part_path_spec, reference_parts, rgb_cut_ok, rgb_mark, rgb_mark_spec, strip_hashes, SheetMarks,
    StyleMark,
};
use crate::text::{chars_of, str_eq, string_of, trim, trim_chars};

verus! {

// ---------------------------------------------------------------------------
// Tags
// ---------------------------------------------------------------------------

/// The kind of an XML tag: opening, self-closing or closing.
#[derive(Debug, Clone, Copy, PartialEq, Eq, Structural)]
pub enum TagKind {
    Start,
    Empty,
    End,
}

/// An XML tag as read: its kind, its local name, and its attributes (key
/// and value as written) in order.
#[derive(Debug, Clone)]
pub struct XmlTag {
    pub kind: TagKind,
    pub name: String,
    pub attributes: Vec<(String, String)>,
}

/// The value of the first attribute named `key`.
pub open spec fn attr_spec(a: Seq<(String, String)>, key: Seq<char>) -> Option<Seq<char>>
    decreases a.len(),
{
    if a.len() == 0 {
        None
    } else if a[0].0@ == key {
        Some(a[0].1@)
    } else {
        attr_spec(a.drop_first(), key)
    }
}

pub open spec fn ends_with(s: Seq<char>, p: Seq<char>) -> bool {
    p.len() <= s.len() && s.subrange(s.len() - p.len(), s.len() as int) == p
}

/// The value of the first attribute whose key is `local` or ends with it
/// (a namespaced key such as "r:id").
pub open spec fn ns_attr_spec(a: Seq<(String, String)>, local: Seq<char>) -> Option<Seq<char>>
    decreases a.len(),
{
    if a.len() == 0 {
        None
    } else if a[0].0@ == local || ends_with(a[0].0@, local) {
        Some(a[0].1@)
    } else {
        ns_attr_spec(a.drop_first(), local)
    }
}

pub fn attr_value(tag: &XmlTag, key: &str) -> (r: Option<String>)
    ensures
        (match r {
            Some(v) => Some(v@),
            None => None,
        }) == attr_spec(tag.attributes@, key@),
{
    let a = &tag.attributes;
    let n = a.len();
    let mut i: usize = 0;
    assert(a@.skip(0) =~= a@);
    while i < n
        invariant
            i <= n == a@.len(),
            a@ == tag.attributes@,
            attr_spec(a@, key@) == attr_spec(a@.skip(i as int), key@),
        decreases n - i,
    {
        assert(a@.skip(i as int)[0] == a@[i as int]);
        if str_eq(a[i].0.as_str(), key) {
            assert(a@.skip(i as int).len() > 0);
            assert(attr_spec(a@.skip(i as int), key@) == Some(a@[i as int].1@));
            return Some(crate::text::lit(a[i].1.as_str()));
        }
        assert(a@.skip(i as int).drop_first() =~= a@.skip(i + 1));
        i = i + 1;
    }
    None
}

fn key_ends_with(k: &str, local: &str) -> (r: bool)
    ensures
        r == ends_with(k@, local@),
{
    let s = chars_of(k);
    let p = chars_of(local);
    if p.len() > s.len() {
        return false;
    }
    let tail = crate::text::subrange_chars(&s, s.len() - p.len(), s.len());
    crate::text::chars_eq(&tail, &p)
}

pub fn namespaced_attr_value(tag: &XmlTag, local: &str) -> (r: Option<String>)
    ensures
        (match r {
            Some(v) => Some(v@),
            None => None,
        }) == ns_attr_spec(tag.attributes@, local@),
{
    let a = &tag.attributes;
    let n = a.len();
    let mut i: usize = 0;
    assert(a@.skip(0) =~= a@);
    while i < n
        invariant
            i <= n == a@.len(),
            a@ == tag.attributes@,
            ns_attr_spec(a@, local@) == ns_attr_spec(a@.skip(i as int), local@),
        decreases n - i,
    {
        assert(a@.skip(i as int)[0] == a@[i as int]);
        if str_eq(a[i].0.as_str(), local) || key_ends_with(a[i].0.as_str(), local) {
            assert(a@.skip(i as int).len() > 0);
            assert(ns_attr_spec(a@.skip(i as int), local@) == Some(a@[i as int].1@));
            return Some(crate::text::lit(a[i].1.as_str()));
        }
        assert(a@.skip(i as int).drop_first() =~= a@.skip(i + 1));
        i = i + 1;
    }
    None
}

/// `str::parse::<usize>`: an optional '+', then decimal digits whose value
/// fits in `usize`.
pub open spec fn usize_text_value(s: Seq<char>) -> Option<usize> {
    let d = if s.len() > 0 && s[0] == '+' { s.drop_first() } else { s };
    if d.len() > 0 && crate::bank::all_digits(d) && digits_value(d) <= usize::MAX {
        Some(digits_value(d) as usize)
    } else {
        None
    }
}

proof fn digits_value_prefix(w: Seq<char>, k: int)
    requires
        0 <= k <= w.len(),
        crate::bank::all_digits(w),
    ensures
        digits_value(w.take(k)) <= digits_value(w),
    decreases w.len(),
{
    if k < w.len() {
        assert(w.drop_last().take(k) =~= w.take(k));
        digits_value_prefix(w.drop_last(), k);
    } else {
        assert(w.take(k) =~= w);
    }
}

pub fn parse_usize(text: &str) -> (r: Option<usize>)
    ensures
        r == usize_text_value(text@),
{
    let s = chars_of(text);
    let start: usize = if s.len() > 0 && s[0] == '+' { 1 } else { 0 };
    let ghost d = s@.subrange(start as int, s@.len() as int);
    assert(d =~= (if s@.len() > 0 && s@[0] == '+' { s@.drop_first() } else { s@ }));
    if start == s.len() {
        return None;
    }
    let mut value: usize = 0;
    let mut i: usize = start;
    while i < s.len()
        invariant
            start <= i <= s@.len(),
            s@ == text@,
            d == s@.subrange(start as int, s@.len() as int),
            d == (if s@.len() > 0 && s@[0] == '+' { s@.drop_first() } else { s@ }),
            value == digits_value(d.take(i - start)),
            crate::bank::all_digits(d.take(i - start)),
        decreases s@.len() - i,
    {
        let c = s[i];
        assert(d.take(i + 1 - start).drop_last() =~= d.take(i - start));
        assert(d.take(i + 1 - start).last() == c);
        if c < '0' || c > '9' {
            assert(d[i - start] == c);
            assert(!crate::bank::all_digits(d));
            return None;
        }
        let digit = ((c as u32) - 48) as usize;
        assert(crate::bank::all_digits(d.take(i + 1 - start))) by {
            assert forall|j: int| 0 <= j < i + 1 - start implies '0' <= #[trigger] d.take(
                i + 1 - start,
            )[j] <= '9' by {
                if j < i - start {
                    assert(d.take(i + 1 - start)[j] == d.take(i - start)[j]);
                }
            }
        }
        if value > (usize::MAX - digit) / 10 {
            proof {
                if crate::bank::all_digits(d) {
                    digits_value_prefix(d, i + 1 - start);
                }
            }
            return None;
        }
        value = value * 10 + digit;
        i = i + 1;
    }
    assert(d.take(i - start) =~= d);
    Some(value)
}

// ---------------------------------------------------------------------------
// Cell styles
// ---------------------------------------------------------------------------

/// The part of the styles XML being read.
#[derive(Debug, Clone, Copy, PartialEq, Eq, Structural)]
pub enum StyleSection {
    Fonts,
    Fills,
    CellXfs,
}

/// Reading the styles part: the section, the font and fill in progress,
/// and the fonts, fills and cell formats (fill, font) read so far.
pub struct StyleScan {
    pub section: Option<StyleSection>,
    pub font: StyleMark,
    pub fill: StyleMark,
    pub fonts: Vec<StyleMark>,
    pub fills: Vec<StyleMark>,
    pub cell_xfs: Vec<(usize, usize)>,
}

pub struct StyleState {
    pub section: Option<StyleSection>,
    pub font: StyleMark,
    pub fill: StyleMark,
    pub fonts: Seq<StyleMark>,
    pub fills: Seq<StyleMark>,
    pub cell_xfs: Seq<(usize, usize)>,
}

pub open spec fn scan_view(s: StyleScan) -> StyleState {
    StyleState {
        section: s.section,
        font: s.font,
        fill: s.fill,
        fonts: s.fonts@,
        fills: s.fills@,
        cell_xfs: s.cell_xfs@,
    }
}

pub open spec fn no_mark() -> StyleMark {
    StyleMark { red: false, blue: false, green: false }
}

pub open spec fn merged(a: StyleMark, b: StyleMark) -> StyleMark {
    StyleMark { red: a.red || b.red, blue: a.blue || b.blue, green: a.green || b.green }
}

/// The colours of a colour tag: those of its `rgb` attribute, none without.
pub open spec fn event_mark(a: Seq<(String, String)>) -> StyleMark {
    match attr_spec(a, "rgb"@) {
        Some(v) => rgb_mark_spec(v),
        None => no_mark(),
    }
}

/// A colour tag whose `rgb` value can be cut as the colour reader does.
pub open spec fn colour_ok(a: Seq<(String, String)>) -> bool {
    match attr_spec(a, "rgb"@) {
        Some(v) => rgb_cut_ok(v),
        None => true,
    }
}

/// The (fill, font) of a cell format; a missing or unreadable id is 0.
pub open spec fn xf_of(a: Seq<(String, String)>) -> (usize, usize) {
    let fill = match attr_spec(a, "fillId"@) {
        Some(v) => match usize_text_value(v) {
            Some(n) => n,
            None => 0,
        },
        None => 0,
    };
    let font = match attr_spec(a, "fontId"@) {
        Some(v) => match usize_text_value(v) {
            Some(n) => n,
            None => 0,
        },
        None => 0,
    };
    (fill, font)
}

/// What a colour or format tag does, opening or self-closing.
pub open spec fn style_leaf(s: StyleState, name: Seq<char>, a: Seq<(String, String)>) -> StyleState {
    if name == "color"@ && s.section == Some(StyleSection::Fonts) {
        StyleState { font: merged(s.font, event_mark(a)), ..s }
    } else if (name == "fgColor"@ || name == "bgColor"@) && s.section == Some(StyleSection::Fills) {
        StyleState { fill: merged(s.fill, event_mark(a)), ..s }
    } else if name == "xf"@ && s.section == Some(StyleSection::CellXfs) {
        StyleState { cell_xfs: s.cell_xfs.push(xf_of(a)), ..s }
    } else {
        s
    }
}

/// One tag of the styles part.
pub open spec fn style_step(s: StyleState, kind: TagKind, name: Seq<char>, a: Seq<(String, String)>) -> StyleState {
    match kind {
        TagKind::Start => if name == "fonts"@ {
            StyleState { section: Some(StyleSection::Fonts), ..s }
        } else if name == "fills"@ {
            StyleState { section: Some(StyleSection::Fills), ..s }
        } else if name == "cellXfs"@ {
            StyleState { section: Some(StyleSection::CellXfs), ..s }
        } else if name == "font"@ && s.section == Some(StyleSection::Fonts) {
            StyleState { font: no_mark(), ..s }
        } else if name == "fill"@ && s.section == Some(StyleSection::Fills) {
            StyleState { fill: no_mark(), ..s }
        } else {
            style_leaf(s, name, a)
        },
        TagKind::Empty => style_leaf(s, name, a),
        TagKind::End => if name == "font"@ && s.section == Some(StyleSection::Fonts) {
            StyleState { fonts: s.fonts.push(s.font), ..s }
        } else if name == "fill"@ && s.section == Some(StyleSection::Fills) {
            StyleState { fills: s.fills.push(s.fill), ..s }
        } else if name == "fonts"@ || name == "fills"@ || name == "cellXfs"@ {
            StyleState { section: None, ..s }
        } else {
            s
        },
    }
}

/// The colours of each cell format: its fill's and its font's (none for a
/// missing one).
pub open spec fn style_marks_spec(s: StyleState) -> Seq<StyleMark> {
    s.cell_xfs.map_values(
        |x: (usize, usize)|
            merged(
                if x.0 < s.fills.len() { s.fills[x.0 as int] } else { no_mark() },
                if x.1 < s.fonts.len() { s.fonts[x.1 as int] } else { no_mark() },
            ),
    )
}

pub open spec fn initial_style() -> StyleState {
    StyleState {
        section: None,
        font: no_mark(),
        fill: no_mark(),
        fonts: Seq::empty(),
        fills: Seq::empty(),
        cell_xfs: Seq::empty(),
    }
}

/// The state after reading the tags of a styles part in order.
pub open spec fn style_fold(tags: Seq<XmlTag>) -> StyleState
    decreases tags.len(),
{
    if tags.len() == 0 {
        initial_style()
    } else {
        let t = tags.last();
        style_step(style_fold(tags.drop_last()), t.kind, t.name@, t.attributes@)
    }
}

/// A tag name that is read as a colour in the given section.
pub open spec fn colour_in(section: Option<StyleSection>, name: Seq<char>) -> bool {
    (name == "color"@ && section == Some(StyleSection::Fonts)) || ((name == "fgColor"@ || name
        == "bgColor"@) && section == Some(StyleSection::Fills))
}

/// Whether a tag is read as a colour in state `s`.
pub open spec fn reads_colour(s: StyleState, t: XmlTag) -> bool {
    (t.kind == TagKind::Start || t.kind == TagKind::Empty) && colour_in(s.section, t.name@)
}

/// Every colour that the styles part is read for can be cut as the colour
/// reader does.
pub open spec fn styles_readable(tags: Seq<XmlTag>) -> bool {
    forall|i: int|
        0 <= i < tags.len() ==> reads_colour(style_fold(#[trigger] tags.take(i)), tags[i])
            ==> colour_ok(tags[i].attributes@)
}

fn same_section(a: Option<StyleSection>, b: StyleSection) -> (r: bool)
    ensures
        r == (a == Some(b)),
{
    match (a, b) {
        (Some(StyleSection::Fonts), StyleSection::Fonts) => true,
        (Some(StyleSection::Fills), StyleSection::Fills) => true,
        (Some(StyleSection::CellXfs), StyleSection::CellXfs) => true,
        _ => false,
    }
}

/// Whether the `rgb` value of a tag can be read as a colour.
pub fn colour_readable(tag: &XmlTag) -> (r: bool)
    ensures
        r == colour_ok(tag.attributes@),
{
    match attr_value(tag, "rgb") {
        Some(v) => {
            let t = crate::marks::strip_hashes_chars(&trim_chars(&chars_of(v.as_str())));
            let s = string_of(&t);
            let n = s.as_str().as_bytes().len();
            if n < 6 {
                true
            } else {
                s.as_str().is_char_boundary(n - 6)
            }
        },
        None => true,
    }
}

fn tag_mark(tag: &XmlTag) -> (r: StyleMark)
    requires
        colour_ok(tag.attributes@),
    ensures
        r == event_mark(tag.attributes@),
{
    match attr_value(tag, "rgb") {
        Some(v) => rgb_mark(v.as_str()),
        None => StyleMark { red: false, blue: false, green: false },
    }
}

fn id_or_zero(v: Option<String>) -> (r: usize)
    ensures
        r == (match v {
            Some(t) => match usize_text_value(t@) {
                Some(n) => n,
                None => 0,
            },
            None => 0,
        }),
{
    match v {
        Some(t) => match parse_usize(t.as_str()) {
            Some(n) => n,
            None => 0,
        },
        None => 0,
    }
}

impl StyleScan {
    pub fn new() -> (r: Self)
        ensures
            scan_view(r) == initial_style(),
    {
        StyleScan {
            section: None,
            font: StyleMark { red: false, blue: false, green: false },
            fill: StyleMark { red: false, blue: false, green: false },
            fonts: Vec::new(),
            fills: Vec::new(),
            cell_xfs: Vec::new(),
        }
    }

    fn leaf(&mut self, tag: &XmlTag)
        requires
            colour_in(old(self).section, tag.name@) ==> colour_ok(tag.attributes@),
        ensures
            scan_view(*final(self)) == style_leaf(scan_view(*old(self)), tag.name@, tag.attributes@),
    {
        let n = tag.name.as_str();
        if str_eq(n, "color") && same_section(self.section, StyleSection::Fonts) {
            self.font = merge_mark(self.font, tag_mark(tag));
        } else if (str_eq(n, "fgColor") || str_eq(n, "bgColor")) && same_section(
            self.section,
            StyleSection::Fills,
        ) {
            self.fill = merge_mark(self.fill, tag_mark(tag));
        } else if str_eq(n, "xf") && same_section(self.section, StyleSection::CellXfs) {
            let fill = id_or_zero(attr_value(tag, "fillId"));
            let font = id_or_zero(attr_value(tag, "fontId"));
            self.cell_xfs.push((fill, font));
        }
    }

    /// One tag of the styles part (see `style_step`).
    pub fn step(&mut self, tag: &XmlTag)
        requires
            reads_colour(scan_view(*old(self)), *tag) ==> colour_ok(tag.attributes@),
        ensures
            scan_view(*final(self)) == style_step(
                scan_view(*old(self)),
                tag.kind,
                tag.name@,
                tag.attributes@,
            ),
    {
        let n = tag.name.as_str();
        match tag.kind {
            TagKind::Start => {
                if str_eq(n, "fonts") {
                    self.section = Some(StyleSection::Fonts);
                } else if str_eq(n, "fills") {
                    self.section = Some(StyleSection::Fills);
                } else if str_eq(n, "cellXfs") {
                    self.section = Some(StyleSection::CellXfs);
                } else if str_eq(n, "font") && same_section(self.section, StyleSection::Fonts) {
                    self.font = StyleMark { red: false, blue: false, green: false };
                } else if str_eq(n, "fill") && same_section(self.section, StyleSection::Fills) {
                    self.fill = StyleMark { red: false, blue: false, green: false };
                } else {
                    self.leaf(tag);
                }
            },
            TagKind::Empty => self.leaf(tag),
            TagKind::End => {
                if str_eq(n, "font") && same_section(self.section, StyleSection::Fonts) {
                    self.fonts.push(self.font);
                } else if str_eq(n, "fill") && same_section(self.section, StyleSection::Fills) {
                    self.fills.push(self.fill);
                } else if str_eq(n, "fonts") || str_eq(n, "fills") || str_eq(n, "cellXfs") {
                    self.section = None;
                }
            },
        }
    }

    /// The colours of each cell format (see `style_marks_spec`).
    pub fn finish(&self) -> (r: Vec<StyleMark>)
        ensures
            r@ == style_marks_spec(scan_view(*self)),
    {
        let mut r: Vec<StyleMark> = Vec::new();
        let n = self.cell_xfs.len();
        let mut i: usize = 0;
        while i < n
            invariant
                i <= n == self.cell_xfs@.len(),
                r@ == style_marks_spec(scan_view(*self)).take(i as int),
            decreases n - i,
        {
            let (fill_id, font_id) = self.cell_xfs[i];
            let fill = if fill_id < self.fills.len() {
                self.fills[fill_id]
            } else {
                StyleMark { red: false, blue: false, green: false }
            };
            let font = if font_id < self.fonts.len() {
                self.fonts[font_id]
            } else {
                StyleMark { red: false, blue: false, green: false }
            };
            r.push(merge_mark(fill, font));
            assert(style_marks_spec(scan_view(*self)).take(i + 1) =~= style_marks_spec(
                scan_view(*self),
            ).take(i as int).push(style_marks_spec(scan_view(*self))[i as int]));
            i = i + 1;
        }
        assert(style_marks_spec(scan_view(*self)).take(n as int) =~= style_marks_spec(
            scan_view(*self),
        ));
        r
    }
}


fn tag_reads_colour(section: Option<StyleSection>, tag: &XmlTag) -> (r: bool)
    ensures
        r == ((tag.kind == TagKind::Start || tag.kind == TagKind::Empty) && colour_in(
            section,
            tag.name@,
        )),
{
    let open = match tag.kind {
        TagKind::Start => true,
        TagKind::Empty => true,
        TagKind::End => false,
    };
    let n = tag.name.as_str();
    open && ((str_eq(n, "color") && same_section(section, StyleSection::Fonts)) || ((str_eq(
        n,
        "fgColor",
    ) || str_eq(n, "bgColor")) && same_section(section, StyleSection::Fills)))
}

/// The colours of each cell format declared by the tags of a styles part.
pub fn parse_style_marks(tags: &Vec<XmlTag>) -> (r: Vec<StyleMark>)
    requires
        styles_readable(tags@),
    ensures
        r@ == style_marks_spec(style_fold(tags@)),
{
    let mut scan = StyleScan::new();
    let n = tags.len();
    let mut i: usize = 0;
    while i < n
        invariant
            i <= n == tags@.len(),
            styles_readable(tags@),
            scan_view(scan) == style_fold(tags@.take(i as int)),
        decreases n - i,
    {
        assert(tags@.take(i + 1).drop_last() =~= tags@.take(i as int));
        assert(reads_colour(style_fold(tags@.take(i as int)), tags@[i as int]) ==> colour_ok(
            tags@[i as int].attributes@,
        ));
        scan.step(&tags[i]);
        i = i + 1;
    }
    assert(tags@.take(n as int) =~= tags@);
    scan.finish()
}

/// Whether the tags of a styles part can be read by `parse_style_marks`.
pub fn styles_readable_check(tags: &Vec<XmlTag>) -> (r: bool)
    ensures
        r == styles_readable(tags@),
{
    let mut scan = StyleScan::new();
    let n = tags.len();
    let mut i: usize = 0;
    while i < n
        invariant
            i <= n == tags@.len(),
            scan_view(scan) == style_fold(tags@.take(i as int)),
            forall|j: int|
                0 <= j < i ==> reads_colour(style_fold(#[trigger] tags@.take(j)), tags@[j])
                    ==> colour_ok(tags@[j].attributes@),
        decreases n - i,
    {
        assert(tags@.take(i + 1).drop_last() =~= tags@.take(i as int));
        if tag_reads_colour(scan.section, &tags[i]) && !colour_readable(&tags[i]) {
            assert(!(reads_colour(style_fold(tags@.take(i as int)), tags@[i as int]) ==> colour_ok(
                tags@[i as int].attributes@,
            )));
            return false;
        }
        scan.step(&tags[i]);
        i = i + 1;
    }
    true
}

// ---------------------------------------------------------------------------
// Marked cells of a worksheet
// ---------------------------------------------------------------------------

/// An opening or self-closing tag with the given name.
pub open spec fn is_open_tag(t: XmlTag, name: Seq<char>) -> bool {
    (t.kind == TagKind::Start || t.kind == TagKind::Empty) && t.name@ == name
}

/// The style index of a cell tag; a missing or unreadable `s` is 0.
pub open spec fn style_index(t: XmlTag) -> usize {
    match attr_spec(t.attributes@, "s"@) {
        Some(v) => match usize_text_value(v) {
            Some(n) => n,
            None => 0,
        },
        None => 0,
    }
}

/// The colours of a cell tag's style (none for an unknown style).
pub open spec fn cell_mark_spec(t: XmlTag, marks: Seq<StyleMark>) -> StyleMark {
    if style_index(t) < marks.len() {
        marks[style_index(t) as int]
    } else {
        no_mark()
    }
}

pub open spec fn any_mark(m: StyleMark) -> bool {
    m.red || m.blue || m.green
}

/// The (row, zero-based column) named by a cell tag's `r` attribute.
pub open spec fn cell_place(t: XmlTag) -> Option<(usize, usize)> {
    match attr_spec(t.attributes@, "r"@) {
        Some(r) => cell_position_spec(r),
        None => None,
    }
}

/// The column of every marked cell's reference fits in `usize`.
pub open spec fn cells_readable(tags: Seq<XmlTag>, marks: Seq<StyleMark>) -> bool {
    forall|i: int|
        0 <= i < tags.len() && is_open_tag(#[trigger] tags[i], "c"@) && any_mark(
            cell_mark_spec(tags[i], marks),
        ) ==> match attr_spec(tags[i].attributes@, "r"@) {
            Some(r) => reference_parts(r).0 <= usize::MAX,
            None => true,
        }
}

/// The red, blue and green cells of a sheet, as sets.
pub struct MarkSets {
    pub red: Set<(usize, usize)>,
    pub blue: Set<(usize, usize)>,
    pub green: Set<(usize, usize)>,
}

pub open spec fn with_mark(s: MarkSets, m: StyleMark, p: (usize, usize)) -> MarkSets {
    MarkSets {
        red: if m.red { s.red.insert(p) } else { s.red },
        blue: if m.blue { s.blue.insert(p) } else { s.blue },
        green: if m.green { s.green.insert(p) } else { s.green },
    }
}

/// The marked cells after reading the tags of a worksheet part in order:
/// each cell tag whose style carries a colour and whose reference can be
/// read adds its position to the sets of those colours.
pub open spec fn marked_fold(tags: Seq<XmlTag>, marks: Seq<StyleMark>) -> MarkSets
    decreases tags.len(),
{
    if tags.len() == 0 {
        MarkSets { red: Set::empty(), blue: Set::empty(), green: Set::empty() }
    } else {
        let prev = marked_fold(tags.drop_last(), marks);
        let t = tags.last();
        let m = cell_mark_spec(t, marks);
        if is_open_tag(t, "c"@) && any_mark(m) {
            match cell_place(t) {
                Some(p) => with_mark(prev, m, p),
                None => prev,
            }
        } else {
            prev
        }
    }
}

pub open spec fn marks_view(m: SheetMarks) -> MarkSets {
    MarkSets { red: m.red@.to_set(), blue: m.blue@.to_set(), green: m.green@.to_set() }
}

pub open spec fn marks_unique(m: SheetMarks) -> bool {
    m.red@.no_duplicates() && m.blue@.no_duplicates() && m.green@.no_duplicates()
}

fn add_cell(cells: &mut Vec<(usize, usize)>, cell: (usize, usize))
    requires
        old(cells)@.no_duplicates(),
    ensures
        final(cells)@.no_duplicates(),
        final(cells)@.to_set() == old(cells)@.to_set().insert(cell),
{
    if has_cell(cells, cell) {
        assert(old(cells)@.to_set().insert(cell) =~= old(cells)@.to_set());
    } else {
        let ghost before = cells@;
        cells.push(cell);
        assert(cells@.to_set() =~= before.to_set().insert(cell)) by {
            assert forall|x: (usize, usize)| cells@.contains(x) <==> (before.contains(x) || x
                == cell) by {
                if cells@.contains(x) {
                    let k = choose|k: int| 0 <= k < cells@.len() && cells@[k] == x;
                    if k < before.len() {
                        assert(before[k] == x);
                    }
                }
                if before.contains(x) {
                    let k = choose|k: int| 0 <= k < before.len() && before[k] == x;
                    assert(cells@[k] == x);
                }
                if x == cell {
                    assert(cells@[before.len() as int] == x);
                }
            }
        }
        assert forall|a: int, b: int| 0 <= a < cells@.len() && 0 <= b < cells@.len() && a != b
            implies cells@[a] != cells@[b] by {
            if a == before.len() {
                assert(cells@[b] == before[b]);
                if cells@[b] == cell {
                    assert(before.contains(cell));
                }
            } else if b == before.len() {
                assert(cells@[a] == before[a]);
                if cells@[a] == cell {
                    assert(before.contains(cell));
                }
            } else {
                assert(before[a] == cells@[a] && before[b] == cells@[b]);
            }
        }
    }
}

/// The red, blue and green cells of a worksheet part, read from its tags
/// with the colours of each cell style.
pub fn parse_marked_cells(tags: &Vec<XmlTag>, style_marks: &Vec<StyleMark>) -> (r: SheetMarks)
    requires
        cells_readable(tags@, style_marks@),
    ensures
        marks_view(r) == marked_fold(tags@, style_marks@),
        marks_unique(r),
{
    let mut r = SheetMarks::empty();
    assert(marks_view(r) == marked_fold(tags@.take(0), style_marks@)) by {
        assert(r.red@.to_set() =~= Set::empty());
        assert(r.blue@.to_set() =~= Set::empty());
        assert(r.green@.to_set() =~= Set::empty());
    }
    let n = tags.len();
    let mut i: usize = 0;
    while i < n
        invariant
            i <= n == tags@.len(),
            cells_readable(tags@, style_marks@),
            marks_view(r) == marked_fold(tags@.take(i as int), style_marks@),
            marks_unique(r),
        decreases n - i,
    {
        assert(tags@.take(i + 1).drop_last() =~= tags@.take(i as int));
        assert(tags@.take(i + 1).last() == tags@[i as int]);
        let tag = &tags[i];
        let open = match tag.kind {
            TagKind::Start => true,
            TagKind::Empty => true,
            TagKind::End => false,
        };
        if open && str_eq(tag.name.as_str(), "c") {
            let index = id_or_zero(attr_value(tag, "s"));
            let mark = if index < style_marks.len() {
                style_marks[index]
            } else {
                StyleMark { red: false, blue: false, green: false }
            };
            assert(mark == cell_mark_spec(tags@[i as int], style_marks@));
            if mark.red || mark.blue || mark.green {
                match attr_value(tag, "r") {
                    Some(reference) => {
                        assert(is_open_tag(tags@[i as int], "c"@));
                        match cell_reference_to_position(reference.as_str()) {
                            Some(cell) => {
                                if mark.red {
                                    add_cell(&mut r.red, cell);
                                }
                                if mark.blue {
                                    add_cell(&mut r.blue, cell);
                                }
                                if mark.green {
                                    add_cell(&mut r.green, cell);
                                }
                            },
                            None => {},
                        }
                    },
                    None => {},
                }
            }
        }
        i = i + 1;
    }
    assert(tags@.take(n as int) =~= tags@);
    r
}

/// Whether the cell references of a worksheet part can be read by
/// `parse_marked_cells`.
pub fn cells_readable_check(tags: &Vec<XmlTag>, style_marks: &Vec<StyleMark>) -> (r: bool)
    ensures
        r == cells_readable(tags@, style_marks@),
{
    let n = tags.len();
    let mut i: usize = 0;
    while i < n
        invariant
            i <= n == tags@.len(),
            forall|j: int|
                0 <= j < i && is_open_tag(#[trigger] tags@[j], "c"@) && any_mark(
                    cell_mark_spec(tags@[j], style_marks@),
                ) ==> match attr_spec(tags@[j].attributes@, "r"@) {
                    Some(r) => reference_parts(r).0 <= usize::MAX,
                    None => true,
                },
        decreases n - i,
    {
        let tag = &tags[i];
        let open = match tag.kind {
            TagKind::Start => true,
            TagKind::Empty => true,
            TagKind::End => false,
        };
        if open && str_eq(tag.name.as_str(), "c") {
            let index = id_or_zero(attr_value(tag, "s"));
            let mark = if index < style_marks.len() {
                style_marks[index]
            } else {
                StyleMark { red: false, blue: false, green: false }
            };
            if mark.red || mark.blue || mark.green {
                match attr_value(tag, "r") {
                    Some(reference) => {
                        if !crate::marks::reference_column_fits(reference.as_str()) {
                            assert(is_open_tag(tags@[i as int], "c"@));
                            return false;
                        }
                    },
                    None => {},
                }
            }
        }
        i = i + 1;
    }
    true
}


// ---------------------------------------------------------------------------
// Where each sheet's part is
// ---------------------------------------------------------------------------

pub open spec fn attr_or_empty(a: Seq<(String, String)>, key: Seq<char>) -> Seq<char> {
    match attr_spec(a, key) {
        Some(v) => v,
        None => Seq::empty(),
    }
}

/// The relationship targets of a workbook's rels part, by id: each
/// `Relationship` tag with a non-empty `Id` and `Target` maps the id to the
/// target's part path; a later tag with the same id wins.
pub open spec fn rel_fold(tags: Seq<XmlTag>) -> Map<Seq<char>, Seq<char>>
    decreases tags.len(),
{
    if tags.len() == 0 {
        Map::empty()
    } else {
        let prev = rel_fold(tags.drop_last());
        let t = tags.last();
        let id = attr_or_empty(t.attributes@, "Id"@);
        let target = attr_or_empty(t.attributes@, "Target"@);
        if is_open_tag(t, "Relationship"@) && id.len() > 0 && target.len() > 0 {
            prev.insert(id, part_path_spec(target))
        } else {
            prev
        }
    }
}

/// The part path of each sheet, by name: each `sheet` tag whose
/// relationship id is known maps its name to that relationship's target; a
/// later tag with the same name wins.
pub open spec fn sheet_path_fold(tags: Seq<XmlTag>, rels: Map<Seq<char>, Seq<char>>) -> Map<
    Seq<char>,
    Seq<char>,
>
    decreases tags.len(),
{
    if tags.len() == 0 {
        Map::empty()
    } else {
        let prev = sheet_path_fold(tags.drop_last(), rels);
        let t = tags.last();
        let name = attr_or_empty(t.attributes@, "name"@);
        let id = match ns_attr_spec(t.attributes@, "id"@) {
            Some(v) => v,
            None => Seq::empty(),
        };
        if is_open_tag(t, "sheet"@) && rels.contains_key(id) {
            prev.insert(name, rels[id])
        } else {
            prev
        }
    }
}

/// A list of (key, value) pairs with distinct keys that holds exactly the
/// entries of `m`.
pub open spec fn pairs_match(s: Seq<(String, String)>, m: Map<Seq<char>, Seq<char>>) -> bool {
    &&& forall|i: int, j: int| 0 <= i < j < s.len() ==> #[trigger] s[i].0@ != #[trigger] s[j].0@
    &&& forall|i: int|
        0 <= i < s.len() ==> m.contains_key(#[trigger] s[i].0@) && m[s[i].0@] == s[i].1@
    &&& forall|k: Seq<char>|
        #[trigger] m.contains_key(k) ==> exists|i: int| 0 <= i < s.len() && s[i].0@ == k
}

fn find_pair(pairs: &Vec<(String, String)>, key: &str) -> (r: Option<usize>)
    ensures
        match r {
            Some(i) => i < pairs@.len() && pairs@[i as int].0@ == key@,
            None => forall|i: int| 0 <= i < pairs@.len() ==> pairs@[i].0@ != key@,
        },
{
    let n = pairs.len();
    let mut i: usize = 0;
    while i < n
        invariant
            i <= n == pairs@.len(),
            forall|j: int| 0 <= j < i ==> pairs@[j].0@ != key@,
        decreases n - i,
    {
        if str_eq(pairs[i].0.as_str(), key) {
            return Some(i);
        }
        i = i + 1;
    }
    None
}

fn put_pair(pairs: &mut Vec<(String, String)>, key: String, value: String, Ghost(m): Ghost<
    Map<Seq<char>, Seq<char>>,
>)
    requires
        pairs_match(old(pairs)@, m),
    ensures
        pairs_match(final(pairs)@, m.insert(key@, value@)),
{
    let ghost k = key@;
    let ghost v = value@;
    let ghost before = pairs@;
    match find_pair(pairs, key.as_str()) {
        Some(i) => {
            pairs.set(i, (key, value));
            assert(pairs@ == before.update(i as int, (pairs@[i as int].0, pairs@[i as int].1)));
            assert forall|a: int, b: int| 0 <= a < b < pairs@.len() implies #[trigger] pairs@[a].0@
                != #[trigger] pairs@[b].0@ by {
                if a == i {
                    assert(before[a].0@ == k);
                    assert(before[a].0@ != before[b].0@);
                } else if b == i {
                    assert(before[b].0@ == k);
                    assert(before[a].0@ != before[b].0@);
                } else {
                    assert(before[a].0@ != before[b].0@);
                }
            }
            assert forall|a: int| 0 <= a < pairs@.len() implies m.insert(k, v).contains_key(
                #[trigger] pairs@[a].0@,
            ) && m.insert(k, v)[pairs@[a].0@] == pairs@[a].1@ by {
                if a != i {
                    assert(before[a] == pairs@[a]);
                    assert(m.contains_key(before[a].0@));
                    assert(before[a].0@ != k) by {
                        if a < i {
                            assert(before[a].0@ != before[i as int].0@);
                        } else {
                            assert(before[i as int].0@ != before[a].0@);
                        }
                    }
                }
            }
            assert forall|x: Seq<char>| #[trigger] m.insert(k, v).contains_key(x) implies exists|
                a: int,
            | 0 <= a < pairs@.len() && pairs@[a].0@ == x by {
                if x == k {
                    assert(pairs@[i as int].0@ == x);
                } else {
                    assert(m.contains_key(x));
                    let a = choose|a: int| 0 <= a < before.len() && before[a].0@ == x;
                    assert(a != i);
                    assert(pairs@[a] == before[a]);
                }
            }
        },
        None => {
            pairs.push((key, value));
            assert forall|a: int, b: int| 0 <= a < b < pairs@.len() implies #[trigger] pairs@[a].0@
                != #[trigger] pairs@[b].0@ by {
                if b == before.len() {
                    assert(before[a].0@ != k);
                } else {
                    assert(before[a].0@ != before[b].0@);
                }
            }
            assert forall|a: int| 0 <= a < pairs@.len() implies m.insert(k, v).contains_key(
                #[trigger] pairs@[a].0@,
            ) && m.insert(k, v)[pairs@[a].0@] == pairs@[a].1@ by {
                if a < before.len() {
                    assert(before[a] == pairs@[a]);
                    assert(m.contains_key(before[a].0@));
                    assert(before[a].0@ != k);
                }
            }
            assert forall|x: Seq<char>| #[trigger] m.insert(k, v).contains_key(x) implies exists|
                a: int,
            | 0 <= a < pairs@.len() && pairs@[a].0@ == x by {
                if x == k {
                    assert(pairs@[before.len() as int].0@ == x);
                } else {
                    assert(m.contains_key(x));
                    let a = choose|a: int| 0 <= a < before.len() && before[a].0@ == x;
                    assert(pairs@[a] == before[a]);
                }
            }
        },
    }
}

/// The relationship targets of a rels part (see `rel_fold`), as pairs.
pub fn parse_relationship_targets(tags: &Vec<XmlTag>) -> (r: Vec<(String, String)>)
    ensures
        pairs_match(r@, rel_fold(tags@)),
{
    let mut r: Vec<(String, String)> = Vec::new();
    let n = tags.len();
    let mut i: usize = 0;
    assert(tags@.take(0) =~= Seq::<XmlTag>::empty());
    while i < n
        invariant
            i <= n == tags@.len(),
            pairs_match(r@, rel_fold(tags@.take(i as int))),
        decreases n - i,
    {
        assert(tags@.take(i + 1).drop_last() =~= tags@.take(i as int));
        assert(tags@.take(i + 1).last() == tags@[i as int]);
        let tag = &tags[i];
        let open = match tag.kind {
            TagKind::Start => true,
            TagKind::Empty => true,
            TagKind::End => false,
        };
        if open && str_eq(tag.name.as_str(), "Relationship") {
            let id = match attr_value(tag, "Id") {
                Some(v) => v,
                None => String::new(),
            };
            let target = match attr_value(tag, "Target") {
                Some(v) => v,
                None => String::new(),
            };
            if !id.as_str().is_empty() && !target.as_str().is_empty() {
                let path = normalize_xlsx_part_path(target.as_str());
                put_pair(&mut r, id, path, Ghost(rel_fold(tags@.take(i as int))));
            }
        }
        i = i + 1;
    }
    assert(tags@.take(n as int) =~= tags@);
    r
}

/// The part path of each sheet (see `sheet_path_fold`), as (name, path)
/// pairs, from the tags of the workbook part and of its rels part.
pub fn parse_workbook_sheet_paths(workbook_tags: &Vec<XmlTag>, rel_tags: &Vec<XmlTag>) -> (r: Vec<
    (String, String),
>)
    ensures
        pairs_match(r@, sheet_path_fold(workbook_tags@, rel_fold(rel_tags@))),
{
    let rels = parse_relationship_targets(rel_tags);
    let ghost rm = rel_fold(rel_tags@);
    let tags = workbook_tags;
    let mut r: Vec<(String, String)> = Vec::new();
    let n = tags.len();
    let mut i: usize = 0;
    assert(tags@.take(0) =~= Seq::<XmlTag>::empty());
    while i < n
        invariant
            i <= n == tags@.len(),
            pairs_match(rels@, rm),
            pairs_match(r@, sheet_path_fold(tags@.take(i as int), rm)),
        decreases n - i,
    {
        assert(tags@.take(i + 1).drop_last() =~= tags@.take(i as int));
        assert(tags@.take(i + 1).last() == tags@[i as int]);
        let tag = &tags[i];
        let open = match tag.kind {
            TagKind::Start => true,
            TagKind::Empty => true,
            TagKind::End => false,
        };
        if open && str_eq(tag.name.as_str(), "sheet") {
            let name = match attr_value(tag, "name") {
                Some(v) => v,
                None => String::new(),
            };
            let id = match namespaced_attr_value(tag, "id") {
                Some(v) => v,
                None => String::new(),
            };
            match find_pair(&rels, id.as_str()) {
                Some(k) => {
                    assert(rm.contains_key(id@));
                    let target = crate::text::lit(rels[k].1.as_str());
                    put_pair(&mut r, name, target, Ghost(sheet_path_fold(tags@.take(i as int), rm)));
                },
                None => {
                    assert(!rm.contains_key(id@)) by {
                        if rm.contains_key(id@) {
                            let a = choose|a: int| 0 <= a < rels@.len() && rels@[a].0@ == id@;
                            assert(rels@[a].0@ != id@);
                        }
                    }
                },
            }
        }
        i = i + 1;
    }
    assert(tags@.take(n as int) =~= tags@);
    r
}


/// Cell colours are read from workbooks with the extension "xlsx" or
/// "xlsm", in any case; other workbooks have no marked cells.
pub fn reads_cell_colours(extension: &str) -> (r: bool)
    ensures
        r == (crate::text::eq_ignore_ascii_case(extension@, "xlsx"@)
            || crate::text::eq_ignore_ascii_case(extension@, "xlsm"@)),
{
    let e = chars_of(extension);
    crate::text::chars_eq_ignore_ascii_case(&e, &chars_of("xlsx"))
        || crate::text::chars_eq_ignore_ascii_case(&e, &chars_of("xlsm"))
}


/// The red cells of each sheet, from the marked cells read by sheet.
pub fn xlsx_red_cells_by_sheet(marked: &Vec<(String, SheetMarks)>) -> (r: Vec<(String, Vec<(usize, usize)>)>)
    ensures
        r@.len() == marked@.len(),
        forall|i: int|
            0 <= i < r@.len() ==> (#[trigger] r@[i]).0@ == marked@[i].0@ && r@[i].1@
                == marked@[i].1.red@,
{
    let mut r: Vec<(String, Vec<(usize, usize)>)> = Vec::new();
    let n = marked.len();
    let mut i: usize = 0;
    while i < n
        invariant
            i <= n == marked@.len(),
            r@.len() == i,
            forall|k: int|
                0 <= k < i ==> (#[trigger] r@[k]).0@ == marked@[k].0@ && r@[k].1@
                    == marked@[k].1.red@,
        decreases n - i,
    {
        let cells = &marked[i].1.red;
        let mut red: Vec<(usize, usize)> = Vec::new();
        let m = cells.len();
        let mut j: usize = 0;
        while j < m
            invariant
                j <= m == cells@.len(),
                red@ == cells@.take(j as int),
            decreases m - j,
        {
            red.push(cells[j]);
            assert(cells@.take(j + 1) =~= cells@.take(j as int).push(cells@[j as int]));
            j = j + 1;
        }
        assert(cells@.take(m as int) =~= cells@);
        r.push((crate::text::lit(marked[i].0.as_str()), red));
        i = i + 1;
    }
    r
}


// ---------------------------------------------------------------------------
// Tags seen through their views
// ---------------------------------------------------------------------------

/// The attributes of a tag as texts.
pub open spec fn attrs_view(a: Seq<(String, String)>) -> Seq<(Seq<char>, Seq<char>)> {
    a.map_values(|p: (String, String)| (p.0@, p.1@))
}

/// A tag as its kind, name and attribute texts.
pub open spec fn tag_view(t: XmlTag) -> (TagKind, Seq<char>, Seq<(Seq<char>, Seq<char>)>) {
    (t.kind, t.name@, attrs_view(t.attributes@))
}

pub open spec fn tags_view(s: Seq<XmlTag>) -> Seq<(TagKind, Seq<char>, Seq<(Seq<char>, Seq<char>)>)> {
    s.map_values(|t: XmlTag| tag_view(t))
}

proof fn attrs_same(a: Seq<(String, String)>, b: Seq<(String, String)>, key: Seq<char>)
    requires
        attrs_view(a) == attrs_view(b),
    ensures
        attr_spec(a, key) == attr_spec(b, key),
        ns_attr_spec(a, key) == ns_attr_spec(b, key),
    decreases a.len(),
{
    assert(a.len() == attrs_view(a).len());
    assert(b.len() == attrs_view(b).len());
    if a.len() > 0 {
        assert(attrs_view(a)[0] == attrs_view(b)[0]);
        assert(attrs_view(a.drop_first()) =~= attrs_view(b.drop_first())) by {
            assert forall|i: int| 0 <= i < a.len() - 1 implies attrs_view(a.drop_first())[i]
                == attrs_view(b.drop_first())[i] by {
                assert(attrs_view(a)[i + 1] == attrs_view(b)[i + 1]);
            }
        }
        attrs_same(a.drop_first(), b.drop_first(), key);
    }
}

proof fn tag_same(t: XmlTag, u: XmlTag)
    requires
        tag_view(t) == tag_view(u),
    ensures
        t.kind == u.kind,
        t.name@ == u.name@,
        forall|key: Seq<char>| #[trigger] attr_spec(t.attributes@, key) == attr_spec(u.attributes@, key),
        forall|key: Seq<char>| #[trigger] ns_attr_spec(t.attributes@, key) == ns_attr_spec(u.attributes@, key),
{
    assert forall|key: Seq<char>| #[trigger] attr_spec(t.attributes@, key) == attr_spec(u.attributes@, key) by {
        attrs_same(t.attributes@, u.attributes@, key);
    }
    assert forall|key: Seq<char>| #[trigger] ns_attr_spec(t.attributes@, key) == ns_attr_spec(u.attributes@, key) by {
        attrs_same(t.attributes@, u.attributes@, key);
    }
}

/// Two tag sequences with the same views agree at each place and in each
/// prefix.
proof fn tags_same_at(a: Seq<XmlTag>, b: Seq<XmlTag>, i: int)
    requires
        tags_view(a) == tags_view(b),
        0 <= i <= a.len(),
    ensures
        a.len() == b.len(),
        tags_view(a.take(i)) == tags_view(b.take(i)),
        i < a.len() ==> tag_view(a[i]) == tag_view(b[i]),
{
    assert(a.len() == tags_view(a).len());
    assert(b.len() == tags_view(b).len());
    assert(tags_view(a.take(i)) =~= tags_view(b.take(i))) by {
        assert forall|k: int| 0 <= k < i implies tags_view(a.take(i))[k] == tags_view(b.take(i))[k] by {
            assert(tags_view(a)[k] == tags_view(b)[k]);
        }
    }
    if i < a.len() {
        assert(tags_view(a)[i] == tags_view(b)[i]);
    }
}

/// The styles read from two tag sequences with the same views agree.
pub proof fn style_fold_same(a: Seq<XmlTag>, b: Seq<XmlTag>)
    requires
        tags_view(a) == tags_view(b),
    ensures
        style_fold(a) == style_fold(b),
    decreases a.len(),
{
    tags_same_at(a, b, 0);
    if a.len() > 0 {
        tags_same_at(a, b, a.len() - 1);
        assert(a.take(a.len() - 1) =~= a.drop_last());
        assert(b.take(b.len() - 1) =~= b.drop_last());
        style_fold_same(a.drop_last(), b.drop_last());
        tag_same(a.last(), b.last());
        let t = a.last();
        let u = b.last();
        assert(attr_spec(t.attributes@, "rgb"@) == attr_spec(u.attributes@, "rgb"@));
        assert(attr_spec(t.attributes@, "fillId"@) == attr_spec(u.attributes@, "fillId"@));
        assert(attr_spec(t.attributes@, "fontId"@) == attr_spec(u.attributes@, "fontId"@));
    }
}

/// Readability of the colours agrees for two tag sequences with the same
/// views.
pub proof fn styles_readable_same(a: Seq<XmlTag>, b: Seq<XmlTag>)
    requires
        tags_view(a) == tags_view(b),
    ensures
        styles_readable(a) == styles_readable(b),
{
    tags_same_at(a, b, 0);
    assert forall|i: int| 0 <= i < a.len() implies style_fold(#[trigger] a.take(i)) == style_fold(
        b.take(i),
    ) && reads_colour(style_fold(a.take(i)), a[i]) == reads_colour(style_fold(b.take(i)), b[i])
        && colour_ok(a[i].attributes@) == colour_ok(b[i].attributes@) by {
        tags_same_at(a, b, i);
        style_fold_same(a.take(i), b.take(i));
        tag_same(a[i], b[i]);
        assert(attr_spec(a[i].attributes@, "rgb"@) == attr_spec(b[i].attributes@, "rgb"@));
    }
    if styles_readable(a) {
        assert forall|i: int|
            0 <= i < b.len() && reads_colour(style_fold(#[trigger] b.take(i)), b[i]) implies colour_ok(
            b[i].attributes@,
        ) by {
            assert(style_fold(a.take(i)) == style_fold(b.take(i)));
        }
    }
    if styles_readable(b) {
        assert forall|i: int|
            0 <= i < a.len() && reads_colour(style_fold(#[trigger] a.take(i)), a[i]) implies colour_ok(
            a[i].attributes@,
        ) by {
            assert(reads_colour(style_fold(b.take(i)), b[i]) ==> colour_ok(b[i].attributes@));
        }
    }
}

/// The marked cells read from two tag sequences with the same views agree.
pub proof fn marked_fold_same(a: Seq<XmlTag>, b: Seq<XmlTag>, marks: Seq<StyleMark>)
    requires
        tags_view(a) == tags_view(b),
    ensures
        marked_fold(a, marks) == marked_fold(b, marks),
    decreases a.len(),
{
    tags_same_at(a, b, 0);
    if a.len() > 0 {
        tags_same_at(a, b, a.len() - 1);
        assert(a.take(a.len() - 1) =~= a.drop_last());
        assert(b.take(b.len() - 1) =~= b.drop_last());
        marked_fold_same(a.drop_last(), b.drop_last(), marks);
        tag_same(a.last(), b.last());
        let t = a.last();
        let u = b.last();
        assert(attr_spec(t.attributes@, "s"@) == attr_spec(u.attributes@, "s"@));
        assert(attr_spec(t.attributes@, "r"@) == attr_spec(u.attributes@, "r"@));
    }
}

/// Readability of the cell references agrees for two tag sequences with the
/// same views.
pub proof fn cells_readable_same(a: Seq<XmlTag>, b: Seq<XmlTag>, marks: Seq<StyleMark>)
    requires
        tags_view(a) == tags_view(b),
    ensures
        cells_readable(a, marks) == cells_readable(b, marks),
{
    tags_same_at(a, b, 0);
    assert forall|i: int| 0 <= i < a.len() implies attr_spec(
        (#[trigger] a[i]).attributes@,
        "r"@,
    ) == attr_spec(b[i].attributes@, "r"@) && is_open_tag(a[i], "c"@) == is_open_tag(b[i], "c"@)
        && cell_mark_spec(a[i], marks) == cell_mark_spec(b[i], marks) by {
        tags_same_at(a, b, i);
        tag_same(a[i], b[i]);
        assert(attr_spec(a[i].attributes@, "s"@) == attr_spec(b[i].attributes@, "s"@));
    }
    if cells_readable(a, marks) {
        assert forall|i: int|
            0 <= i < b.len() && is_open_tag(#[trigger] b[i], "c"@) && any_mark(
                cell_mark_spec(b[i], marks),
            ) implies match attr_spec(b[i].attributes@, "r"@) {
            Some(r) => reference_parts(r).0 <= usize::MAX,
            None => true,
        } by {
            assert(is_open_tag(a[i], "c"@));
        }
    }
    if cells_readable(b, marks) {
        assert forall|i: int|
            0 <= i < a.len() && is_open_tag(#[trigger] a[i], "c"@) && any_mark(
                cell_mark_spec(a[i], marks),
            ) implies match attr_spec(a[i].attributes@, "r"@) {
            Some(r) => reference_parts(r).0 <= usize::MAX,
            None => true,
        } by {
            assert(is_open_tag(b[i], "c"@));
        }
    }
}

/// The relationship targets read from two tag sequences with the same
/// views agree.
pub proof fn rel_fold_same(a: Seq<XmlTag>, b: Seq<XmlTag>)
    requires
        tags_view(a) == tags_view(b),
    ensures
        rel_fold(a) == rel_fold(b),
    decreases a.len(),
{
    tags_same_at(a, b, 0);
    if a.len() > 0 {
        tags_same_at(a, b, a.len() - 1);
        assert(a.take(a.len() - 1) =~= a.drop_last());
        assert(b.take(b.len() - 1) =~= b.drop_last());
        rel_fold_same(a.drop_last(), b.drop_last());
        tag_same(a.last(), b.last());
        let t = a.last();
        let u = b.last();
        assert(attr_spec(t.attributes@, "Id"@) == attr_spec(u.attributes@, "Id"@));
        assert(attr_spec(t.attributes@, "Target"@) == attr_spec(u.attributes@, "Target"@));
    }
}

/// The sheet paths read from two tag sequences with the same views agree.
pub proof fn sheet_path_fold_same(a: Seq<XmlTag>, b: Seq<XmlTag>, rels: Map<Seq<char>, Seq<char>>)
    requires
        tags_view(a) == tags_view(b),
    ensures
        sheet_path_fold(a, rels) == sheet_path_fold(b, rels),
    decreases a.len(),
{
    tags_same_at(a, b, 0);
    if a.len() > 0 {
        tags_same_at(a, b, a.len() - 1);
        assert(a.take(a.len() - 1) =~= a.drop_last());
        assert(b.take(b.len() - 1) =~= b.drop_last());
        sheet_path_fold_same(a.drop_last(), b.drop_last(), rels);
        tag_same(a.last(), b.last());
        let t = a.last();
        let u = b.last();
        assert(attr_spec(t.attributes@, "name"@) == attr_spec(u.attributes@, "name"@));
        assert(ns_attr_spec(t.attributes@, "id"@) == ns_attr_spec(u.attributes@, "id"@));
    }
}

} // verus!
