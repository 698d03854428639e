//! Reading the colour marks of an XLSX archive: its parts are read out of
//! the zip archive, tokenised into tags, and read as styles, relationships,
//! sheet paths and marked cells.
use vstd::prelude::*;

use quick_xml::events::{BytesStart, Event};

use crate::marks::{SheetMarks, StyleMark};
use crate::text::{append_chars, chars_of, starts_with, string_of};
use crate::xlsx::{
    cells_readable, cells_readable_check, cells_readable_same, marked_fold, marked_fold_same,
    marks_unique, marks_view, pairs_match, parse_marked_cells, parse_style_marks,
    parse_workbook_sheet_paths, rel_fold, rel_fold_same, sheet_path_fold, sheet_path_fold_same,
    style_fold, style_fold_same, style_marks_spec, styles_readable, styles_readable_check,
    styles_readable_same, tag_view, tags_view, TagKind, XmlTag, attrs_view,
};

verus! {

// ---------------------------------------------------------------------------
// Tokenising XML
// ---------------------------------------------------------------------------

/// The events that the XML reader (with text trimming) gives for a text, up
/// to its end: each start, self-closing and end tag as its kind, local name
/// and the raw text of its attributes (none for an end tag), any other
/// event as `None`; `None` when the reader reports an error first.
pub uninterp spec fn xml_events_of(text: Seq<char>) -> Option<Seq<Option<(TagKind, Seq<char>, Seq<char>)>>>;

/// The attributes (key and value as written) that the XML reader finds in
/// the raw attribute text of a tag, in order, those it cannot read left
/// out.
pub uninterp spec fn xml_attributes_of(raw: Seq<char>) -> Seq<(Seq<char>, Seq<char>)>;

pub open spec fn events_view(s: Seq<Option<(TagKind, String, String)>>) -> Seq<Option<(TagKind, Seq<char>, Seq<char>)>> {
    s.map_values(
        |e: Option<(TagKind, String, String)>|
            match e {
                Some(t) => Some((t.0, t.1@, t.2@)),
                None => None,
            },
    )
}

/// The tags among some events, in order, with their attributes read.
pub open spec fn tag_events(e: Seq<Option<(TagKind, Seq<char>, Seq<char>)>>) -> Seq<
    (TagKind, Seq<char>, Seq<(Seq<char>, Seq<char>)>),
>
    decreases e.len(),
{
    if e.len() == 0 {
        Seq::empty()
    } else {
        match e.last() {
            Some(t) => tag_events(e.drop_last()).push((t.0, t.1, xml_attributes_of(t.2))),
            None => tag_events(e.drop_last()),
        }
    }
}

/// `quick_xml::Reader::from_str` with `trim_text(true)`, read event by
/// event with `read_event` up to `Eof`, each tag as its kind, `local_name`
/// and `attributes_raw`: the events are named by `xml_events_of`; the
/// reader's error message is not stated.
#[verifier::external_body]
fn read_xml_events(text: &str) -> (r: Result<Vec<Option<(TagKind, String, String)>>, String>)
    ensures
        match r {
            Ok(v) => xml_events_of(text@) == Some(events_view(v@)),
            Err(_) => xml_events_of(text@) is None,
        },
{
    let mut reader = quick_xml::Reader::from_str(text);
    reader.config_mut().trim_text(true);
    let mut events = Vec::new();
    loop {
        events.push(match reader.read_event().map_err(|x| x.to_string())? {
            Event::Start(e) => Some((TagKind::Start, e.local_name().as_ref().to_string(), e.attributes_raw().to_string())),
            Event::Empty(e) => Some((TagKind::Empty, e.local_name().as_ref().to_string(), e.attributes_raw().to_string())),
            Event::End(e) => Some((TagKind::End, e.local_name().as_ref().to_string(), String::new())),
            Event::Eof => return Ok(events),
            _ => None,
        });
    }
}

/// `BytesStart::attributes` over a raw attribute text (a tag with no name
/// and these attributes), unreadable attributes left out: the attributes
/// are named by `xml_attributes_of`.
#[verifier::external_body]
fn read_xml_attributes(raw: &str) -> (r: Vec<(String, String)>)
    ensures
        attrs_view(r@) == xml_attributes_of(raw@),
{
    let tag = BytesStart::from_content(raw, 0);
    tag.attributes().flatten().map(|a| (a.key.as_ref().to_string(), a.value.to_string())).collect()
}

/// The start, self-closing and end tags of an XML text, in order, with
/// their attributes; the XML reader's error message when it reports one.
pub fn xml_tags(text: &str) -> (r: Result<Vec<XmlTag>, String>)
    ensures
        match xml_events_of(text@) {
            Some(e) => r matches Ok(t) && tags_view(t@) == tag_events(e),
            None => r is Err,
        },
{
    let events = match read_xml_events(text) {
        Ok(v) => v,
        Err(e) => return Err(e),
    };
    let ghost ev = events_view(events@);
    let mut tags: Vec<XmlTag> = Vec::new();
    let n = events.len();
    let mut i: usize = 0;
    while i < n
        invariant
            i <= n == events@.len(),
            ev == events_view(events@),
            tags_view(tags@) == tag_events(ev.take(i as int)),
        decreases n - i,
    {
        assert(ev.take(i + 1).drop_last() =~= ev.take(i as int));
        assert(ev.take(i + 1).last() == ev[i as int]);
        match &events[i] {
            Some(t) => {
                let ghost before = tags@;
                let attributes = read_xml_attributes(t.2.as_str());
                let tag = XmlTag { kind: t.0, name: t.1.clone(), attributes };
                tags.push(tag);
                assert(tags_view(tags@) =~= tags_view(before).push(tag_view(tag)));
            },
            None => {},
        }
        i = i + 1;
    }
    assert(ev.take(n as int) =~= ev);
    Ok(tags)
}

/// The tags of an XML text, as `xml_tags` reads them.
pub open spec fn tags_of_text(text: Seq<char>, t: Seq<XmlTag>) -> bool {
    match xml_events_of(text) {
        Some(e) => tags_view(t) == tag_events(e),
        None => false,
    }
}

fn joined(prefix: &str, detail: &str) -> (r: String)
    ensures
        r@ == prefix@ + detail@,
        starts_with(r@, prefix@),
{
    let mut c = chars_of(prefix);
    append_chars(&mut c, &chars_of(detail));
    assert((prefix@ + detail@).subrange(0, prefix@.len() as int) =~= prefix@);
    string_of(&c)
}

pub open spec fn unreadable_colour_message() -> Seq<char> {
    "a colour of the styles part cannot be cut at a character boundary"@
}

pub open spec fn unreadable_cell_message() -> Seq<char> {
    "a marked cell's column does not fit in usize"@
}

/// The colours of each cell format of a styles part's XML text (see
/// `parse_style_marks`); an error when the text cannot be read as XML, or
/// when one of its colours cannot be cut at a character boundary.
pub fn style_marks_of(styles_xml: &str) -> (r: Result<Vec<StyleMark>, String>)
    ensures
        xml_events_of(styles_xml@) is None ==> (r matches Err(m) && starts_with(m@, "Invalid XLSX styles XML: "@)),
        xml_events_of(styles_xml@) is Some ==> exists|t: Seq<XmlTag>| tags_of_text(styles_xml@, t),
        forall|t: Seq<XmlTag>|
            #[trigger] tags_of_text(styles_xml@, t) ==> if styles_readable(t) {
                r matches Ok(m) && m@ == style_marks_spec(style_fold(t))
            } else {
                r matches Err(m) && m@ == unreadable_colour_message()
            },
{
    let tags = match xml_tags(styles_xml) {
        Ok(t) => t,
        Err(e) => return Err(joined("Invalid XLSX styles XML: ", e.as_str())),
    };
    assert(tags_of_text(styles_xml@, tags@));
    proof {
        assert forall|t: Seq<XmlTag>| #[trigger] tags_of_text(styles_xml@, t) implies style_fold(t)
            == style_fold(tags@) && styles_readable(t) == styles_readable(tags@) by {
            style_fold_same(t, tags@);
            styles_readable_same(t, tags@);
        }
    }
    if !styles_readable_check(&tags) {
        return Err(string_of(&chars_of("a colour of the styles part cannot be cut at a character boundary")));
    }
    Ok(parse_style_marks(&tags))
}

/// The part path of each sheet, as (name, path) pairs, from the XML texts
/// of the workbook part and of its rels part (see
/// `parse_workbook_sheet_paths`); an error when either cannot be read as
/// XML.
pub fn sheet_paths_of(workbook_xml: &str, rels_xml: &str) -> (r: Result<Vec<(String, String)>, String>)
    ensures
        r is Ok <==> (xml_events_of(workbook_xml@) is Some && xml_events_of(rels_xml@) is Some),
        r is Ok ==> exists|w: Seq<XmlTag>, s: Seq<XmlTag>|
            tags_of_text(workbook_xml@, w) && tags_of_text(rels_xml@, s),
        xml_events_of(workbook_xml@) is None ==> (r matches Err(m) && starts_with(m@, "Invalid XLSX workbook XML: "@)),
        xml_events_of(workbook_xml@) is Some && xml_events_of(rels_xml@) is None ==> (r matches Err(m)
            && starts_with(m@, "Invalid XLSX rels XML: "@)),
        forall|w: Seq<XmlTag>, s: Seq<XmlTag>|
            #[trigger] tags_of_text(workbook_xml@, w) && #[trigger] tags_of_text(rels_xml@, s) ==> (
            r matches Ok(p) && pairs_match(p@, sheet_path_fold(w, rel_fold(s)))),
{
    let workbook = match xml_tags(workbook_xml) {
        Ok(t) => t,
        Err(e) => return Err(joined("Invalid XLSX workbook XML: ", e.as_str())),
    };
    let rels = match xml_tags(rels_xml) {
        Ok(t) => t,
        Err(e) => return Err(joined("Invalid XLSX rels XML: ", e.as_str())),
    };
    let r = parse_workbook_sheet_paths(&workbook, &rels);
    assert(tags_of_text(workbook_xml@, workbook@) && tags_of_text(rels_xml@, rels@));
    proof {
        assert forall|w: Seq<XmlTag>, s: Seq<XmlTag>|
            #[trigger] tags_of_text(workbook_xml@, w) && #[trigger] tags_of_text(rels_xml@, s) implies sheet_path_fold(
            w,
            rel_fold(s),
        ) == sheet_path_fold(workbook@, rel_fold(rels@)) by {
            rel_fold_same(s, rels@);
            sheet_path_fold_same(w, workbook@, rel_fold(rels@));
        }
    }
    Ok(r)
}

/// The red, blue and green cells of a worksheet part's XML text, with the
/// colours of each cell style (see `parse_marked_cells`); an error when the
/// text cannot be read as XML, or when a marked cell's column does not fit
/// in `usize`.
pub fn marked_cells_of(worksheet_xml: &str, style_marks: &Vec<StyleMark>) -> (r: Result<SheetMarks, String>)
    ensures
        xml_events_of(worksheet_xml@) is None ==> (r matches Err(m) && starts_with(m@, "Invalid XLSX worksheet XML: "@)),
        xml_events_of(worksheet_xml@) is Some ==> exists|t: Seq<XmlTag>| tags_of_text(worksheet_xml@, t),
        forall|t: Seq<XmlTag>|
            #[trigger] tags_of_text(worksheet_xml@, t) ==> if cells_readable(t, style_marks@) {
                r matches Ok(m) && marks_view(m) == marked_fold(t, style_marks@) && marks_unique(m)
            } else {
                r matches Err(m) && m@ == unreadable_cell_message()
            },
{
    let tags = match xml_tags(worksheet_xml) {
        Ok(t) => t,
        Err(e) => return Err(joined("Invalid XLSX worksheet XML: ", e.as_str())),
    };
    assert(tags_of_text(worksheet_xml@, tags@));
    proof {
        assert forall|t: Seq<XmlTag>| #[trigger] tags_of_text(worksheet_xml@, t) implies marked_fold(
            t,
            style_marks@,
        ) == marked_fold(tags@, style_marks@) && cells_readable(t, style_marks@) == cells_readable(
            tags@,
            style_marks@,
        ) by {
            marked_fold_same(t, tags@, style_marks@);
            cells_readable_same(t, tags@, style_marks@);
        }
    }
    if !cells_readable_check(&tags, style_marks) {
        return Err(string_of(&chars_of("a marked cell's column does not fit in usize")));
    }
    Ok(parse_marked_cells(&tags, style_marks))
}

// ---------------------------------------------------------------------------
// The archive
// ---------------------------------------------------------------------------

/// Whether the bytes open as a zip archive.
pub uninterp spec fn zip_opens(archive: Seq<u8>) -> bool;

/// The text of the part of a zip archive with the given name; `None` when
/// the archive does not open, has no such part, or the part is not UTF-8.
pub uninterp spec fn zip_part_of(archive: Seq<u8>, name: Seq<char>) -> Option<Seq<char>>;

/// `zip::ZipArchive::new` over the bytes: whether they open as an archive
/// is named by `zip_opens`; the error message is not stated.
#[verifier::external_body]
fn zip_open_check(archive: &Vec<u8>) -> (r: Result<(), String>)
    ensures
        r is Ok <==> zip_opens(archive@),
{
    zip::ZipArchive::new(std::io::Cursor::new(archive.as_slice())).map(|_| ()).map_err(|error| error.to_string())
}

/// `zip::ZipArchive::new` over the bytes, `by_name` and `read_to_string`:
/// the text of the part is named by `zip_part_of`; the error message is not
/// stated.
#[verifier::external_body]
fn zip_part_text(archive: &Vec<u8>, name: &str) -> (r: Result<String, String>)
    ensures
        match r {
            Ok(t) => zip_part_of(archive@, name@) == Some(t@),
            Err(_) => zip_part_of(archive@, name@) is None,
        },
{
    let mut zip = zip::ZipArchive::new(std::io::Cursor::new(archive.as_slice())).map_err(|error| error.to_string())?;
    let mut part = zip.by_name(name).map_err(|error| error.to_string())?;
    let mut text = String::new();
    std::io::Read::read_to_string(&mut part, &mut text).map_err(|error| error.to_string())?;
    Ok(text)
}

pub open spec fn styles_part() -> Seq<char> {
    "xl/styles.xml"@
}

pub open spec fn workbook_part() -> Seq<char> {
    "xl/workbook.xml"@
}

pub open spec fn rels_part() -> Seq<char> {
    "xl/_rels/workbook.xml.rels"@
}

/// The tags of the archive's part with the given name.
pub open spec fn part_tags(a: Seq<u8>, name: Seq<char>, t: Seq<XmlTag>) -> bool {
    match zip_part_of(a, name) {
        Some(x) => tags_of_text(x, t),
        None => false,
    }
}

/// The archive has the named part, and it reads as XML.
pub open spec fn part_xml_ok(a: Seq<u8>, name: Seq<char>) -> bool {
    match zip_part_of(a, name) {
        Some(x) => xml_events_of(x) is Some,
        None => false,
    }
}

/// Every sheet whose part is in the archive reads as XML, and the columns of
/// its marked cells fit in `usize`.
pub open spec fn sheets_read(a: Seq<u8>, paths: Map<Seq<char>, Seq<char>>, marks: Seq<StyleMark>) -> bool {
    forall|n: Seq<char>|
        #[trigger] paths.contains_key(n) && zip_part_of(a, paths[n]) is Some ==> part_xml_ok(
            a,
            paths[n],
        ) && forall|t: Seq<XmlTag>| #[trigger] part_tags(a, paths[n], t) ==> cells_readable(t, marks)
}

/// The marks of an archive can be read: it opens, its styles, workbook and
/// rels parts read as XML, its colours can be cut, and its sheets read.
pub open spec fn archive_reads(a: Seq<u8>) -> bool {
    &&& zip_opens(a)
    &&& part_xml_ok(a, styles_part())
    &&& part_xml_ok(a, workbook_part())
    &&& part_xml_ok(a, rels_part())
    &&& forall|st: Seq<XmlTag>| #[trigger] part_tags(a, styles_part(), st) ==> styles_readable(st)
    &&& forall|st: Seq<XmlTag>, wt: Seq<XmlTag>, rt: Seq<XmlTag>|
        #[trigger] part_tags(a, styles_part(), st) && #[trigger] part_tags(a, workbook_part(), wt)
            && #[trigger] part_tags(a, rels_part(), rt) ==> sheets_read(
            a,
            sheet_path_fold(wt, rel_fold(rt)),
            style_marks_spec(style_fold(st)),
        )
}

/// The error that reading the archive's marks stops at, by its message:
/// the archive does not open, the styles part is missing, is not XML or
/// has a colour that cannot be cut, the workbook or rels part is missing
/// or is not XML, or else a sheet's part is not XML or has a marked cell
/// whose column does not fit; each message but the fixed ones goes on with
/// the reader's own.
pub open spec fn archive_error_message(a: Seq<u8>, m: Seq<char>) -> bool {
    if !zip_opens(a) {
        starts_with(m, "Could not open XLSX archive: "@)
    } else if zip_part_of(a, styles_part()) is None {
        starts_with(m, "Could not read XLSX part xl/styles.xml: "@)
    } else if !part_xml_ok(a, styles_part()) {
        starts_with(m, "Invalid XLSX styles XML: "@)
    } else if !(forall|st: Seq<XmlTag>| #[trigger] part_tags(a, styles_part(), st) ==> styles_readable(st)) {
        m == unreadable_colour_message()
    } else if zip_part_of(a, workbook_part()) is None {
        starts_with(m, "Could not read XLSX part xl/workbook.xml: "@)
    } else if zip_part_of(a, rels_part()) is None {
        starts_with(m, "Could not read XLSX part xl/_rels/workbook.xml.rels: "@)
    } else if !part_xml_ok(a, workbook_part()) {
        starts_with(m, "Invalid XLSX workbook XML: "@)
    } else if !part_xml_ok(a, rels_part()) {
        starts_with(m, "Invalid XLSX rels XML: "@)
    } else {
        starts_with(m, "Invalid XLSX worksheet XML: "@) || m == unreadable_cell_message()
    }
}

/// The sheets listed with their marks: each once, each a sheet whose part is
/// in the archive, with the cells marked in that part; and every such sheet
/// listed.
pub open spec fn sheets_listed(
    a: Seq<u8>,
    v: Seq<(String, SheetMarks)>,
    paths: Map<Seq<char>, Seq<char>>,
    marks: Seq<StyleMark>,
) -> bool {
    &&& forall|k: int, l: int| 0 <= k < l < v.len() ==> #[trigger] v[k].0@ != #[trigger] v[l].0@
    &&& forall|k: int|
        0 <= k < v.len() ==> paths.contains_key((#[trigger] v[k]).0@) && zip_part_of(
            a,
            paths[v[k].0@],
        ) is Some && marks_unique(v[k].1) && forall|t: Seq<XmlTag>|
            #[trigger] part_tags(a, paths[v[k].0@], t) ==> marks_view(v[k].1) == marked_fold(t, marks)
    &&& forall|n: Seq<char>|
        #[trigger] paths.contains_key(n) && zip_part_of(a, paths[n]) is Some ==> exists|k: int|
            0 <= k < v.len() && v[k].0@ == n
}

proof fn pairs_match_unique(s: Seq<(String, String)>, m1: Map<Seq<char>, Seq<char>>, m2: Map<Seq<char>, Seq<char>>)
    requires
        pairs_match(s, m1),
        pairs_match(s, m2),
    ensures
        m1 == m2,
{
    assert forall|k: Seq<char>| m1.contains_key(k) implies m2.contains_key(k) && m1[k] == m2[k] by {
        let i = choose|i: int| 0 <= i < s.len() && s[i].0@ == k;
        assert(m2.contains_key(s[i].0@));
    }
    assert forall|k: Seq<char>| m2.contains_key(k) implies m1.contains_key(k) by {
        let i = choose|i: int| 0 <= i < s.len() && s[i].0@ == k;
        assert(m1.contains_key(s[i].0@));
    }
    assert(m1 =~= m2);
}

/// The red, blue and green cells of each sheet of an XLSX archive, read
/// from its styles part, its workbook and rels parts, and the part of each
/// sheet; a sheet whose part is missing is left out. An error, with the
/// reader's message, when the archive does not open, when one of the
/// styles, workbook or rels parts is missing or is not XML, when a colour
/// cannot be cut, or when a sheet's part is not XML or a marked cell's
/// column does not fit in `usize`.
pub fn xlsx_marked_cells(archive: &Vec<u8>) -> (r: Result<Vec<(String, SheetMarks)>, String>)
    ensures
        r is Ok <==> archive_reads(archive@),
        r matches Err(m) ==> archive_error_message(archive@, m@),
        r matches Ok(v) ==> forall|st: Seq<XmlTag>, wt: Seq<XmlTag>, rt: Seq<XmlTag>|
            #[trigger] part_tags(archive@, styles_part(), st) && #[trigger] part_tags(
                archive@,
                workbook_part(),
                wt,
            ) && #[trigger] part_tags(archive@, rels_part(), rt) ==> sheets_listed(
                archive@,
                v@,
                sheet_path_fold(wt, rel_fold(rt)),
                style_marks_spec(style_fold(st)),
            ),
{
    let ghost a = archive@;
    match zip_open_check(archive) {
        Ok(()) => {},
        Err(e) => return Err(joined("Could not open XLSX archive: ", e.as_str())),
    }
    let styles_text = match zip_part_text(archive, "xl/styles.xml") {
        Ok(t) => t,
        Err(e) => return Err(joined("Could not read XLSX part xl/styles.xml: ", e.as_str())),
    };
    let style_marks = match style_marks_of(styles_text.as_str()) {
        Ok(m) => m,
        Err(e) => {
            proof {
                if xml_events_of(styles_text@) is Some {
                    let st = choose|t: Seq<XmlTag>| tags_of_text(styles_text@, t);
                    assert(part_tags(a, styles_part(), st));
                }
            }
            return Err(e);
        },
    };
    let ghost st = choose|t: Seq<XmlTag>| tags_of_text(styles_text@, t);
    let ghost marks = style_marks_spec(style_fold(st));
    assert(part_tags(a, styles_part(), st));
    let workbook_text = match zip_part_text(archive, "xl/workbook.xml") {
        Ok(t) => t,
        Err(e) => return Err(joined("Could not read XLSX part xl/workbook.xml: ", e.as_str())),
    };
    let rels_text = match zip_part_text(archive, "xl/_rels/workbook.xml.rels") {
        Ok(t) => t,
        Err(e) => return Err(joined("Could not read XLSX part xl/_rels/workbook.xml.rels: ", e.as_str())),
    };
    let paths = match sheet_paths_of(workbook_text.as_str(), rels_text.as_str()) {
        Ok(p) => p,
        Err(e) => return Err(e),
    };
    let ghost (wt, rt) = choose|w: Seq<XmlTag>, s: Seq<XmlTag>|
        tags_of_text(workbook_text@, w) && tags_of_text(rels_text@, s);
    let ghost m = sheet_path_fold(wt, rel_fold(rt));
    assert(part_tags(a, workbook_part(), wt) && part_tags(a, rels_part(), rt));
    assert(pairs_match(paths@, m));
    proof {
        assert forall|st2: Seq<XmlTag>| #[trigger] part_tags(a, styles_part(), st2) implies styles_readable(st2) by {
            assert(tags_of_text(styles_text@, st2));
        }
    }
    assert(part_xml_ok(a, styles_part()) && part_xml_ok(a, workbook_part()) && part_xml_ok(a, rels_part()));
    let mut v: Vec<(String, SheetMarks)> = Vec::new();
    let ghost mut src: Seq<int> = Seq::empty();
    let n = paths.len();
    let mut i: usize = 0;
    while i < n
        invariant
            i <= n == paths@.len(),
            a == archive@,
            pairs_match(paths@, m),
            style_marks@ == marks,
            m == sheet_path_fold(wt, rel_fold(rt)),
            marks == style_marks_spec(style_fold(st)),
            part_tags(a, styles_part(), st),
            part_tags(a, workbook_part(), wt),
            part_tags(a, rels_part(), rt),
            zip_opens(a),
            part_xml_ok(a, styles_part()),
            part_xml_ok(a, workbook_part()),
            part_xml_ok(a, rels_part()),
            forall|st2: Seq<XmlTag>| #[trigger] part_tags(a, styles_part(), st2) ==> styles_readable(st2),
            src.len() == v@.len(),
            forall|k: int, l: int| 0 <= k < l < src.len() ==> src[k] < src[l],
            forall|k: int| 0 <= k < src.len() ==> 0 <= #[trigger] src[k] < i,
            forall|k: int|
                0 <= k < v@.len() ==> (#[trigger] v@[k]).0@ == paths@[src[k]].0@ && zip_part_of(
                    a,
                    m[v@[k].0@],
                ) is Some && marks_unique(v@[k].1) && forall|t: Seq<XmlTag>|
                    #[trigger] part_tags(a, m[v@[k].0@], t) ==> marks_view(v@[k].1) == marked_fold(
                        t,
                        marks,
                    ),
            forall|j: int|
                0 <= j < i && zip_part_of(a, (#[trigger] paths@[j]).1@) is Some ==> (exists|k: int|
                    0 <= k < v@.len() && src[k] == j) && part_xml_ok(a, paths@[j].1@) && forall|
                    t: Seq<XmlTag>,
                | #[trigger] part_tags(a, paths@[j].1@, t) ==> cells_readable(t, marks),
        decreases n - i,
    {
        assert(m.contains_key(paths@[i as int].0@) && m[paths@[i as int].0@] == paths@[i as int].1@);
        let ghost src0 = src;
        match zip_part_text(archive, paths[i].1.as_str()) {
            Err(_) => {},
            Ok(text) => {
                match marked_cells_of(text.as_str(), &style_marks) {
                    Err(e) => {
                        proof {
                            let name = paths@[i as int].0@;
                            if xml_events_of(text@) is Some {
                                let t = choose|t: Seq<XmlTag>| tags_of_text(text@, t);
                                assert(part_tags(a, m[name], t));
                                assert(!cells_readable(t, marks));
                            }
                            assert(!sheets_read(a, m, marks));
                            assert(part_tags(a, styles_part(), st) && part_tags(a, workbook_part(), wt)
                                && part_tags(a, rels_part(), rt));
                        }
                        return Err(e);
                    },
                    Ok(cells) => {
                        let name = paths[i].0.clone();
                        let ghost before = v@;
                        proof {
                            let t = choose|t: Seq<XmlTag>| tags_of_text(text@, t);
                            assert(part_tags(a, paths@[i as int].1@, t));
                        }
                        v.push((name, cells));
                        proof {
                            src = src.push(i as int);
                            assert forall|k: int| 0 <= k < v@.len() implies (#[trigger] v@[k]).0@
                                == paths@[src[k]].0@ by {
                                if k < before.len() {
                                    assert(v@[k] == before[k]);
                                }
                            }
                        }
                    },
                }
            },
        }
        proof {
            assert forall|j: int|
                0 <= j < i + 1 && zip_part_of(a, (#[trigger] paths@[j]).1@) is Some implies (exists|
                k: int,
            | 0 <= k < v@.len() && src[k] == j) by {
                if j == i {
                    assert(src[src.len() - 1] == j);
                } else {
                    let k = choose|k: int| 0 <= k < src0.len() && src0[k] == j;
                    assert(src[k] == src0[k]);
                }
            }
        }
        i = i + 1;
    }
    proof {
        // names are distinct
        assert forall|k: int, l: int| 0 <= k < l < v@.len() implies #[trigger] v@[k].0@
            != #[trigger] v@[l].0@ by {
            assert(src[k] < src[l]);
            assert(paths@[src[k]].0@ != paths@[src[l]].0@);
        }
        assert forall|q: Seq<char>|
            #[trigger] m.contains_key(q) && zip_part_of(a, m[q]) is Some implies exists|k: int|
                0 <= k < v@.len() && v@[k].0@ == q by {
            let j = choose|j: int| 0 <= j < paths@.len() && paths@[j].0@ == q;
            assert(m[paths@[j].0@] == paths@[j].1@);
            let k = choose|k: int| 0 <= k < v@.len() && src[k] == j;
            assert(v@[k].0@ == q);
        }
        assert(sheets_listed(a, v@, m, marks));
        assert forall|q: Seq<char>|
            #[trigger] m.contains_key(q) && zip_part_of(a, m[q]) is Some implies part_xml_ok(
                a,
                m[q],
            ) && forall|t: Seq<XmlTag>| #[trigger] part_tags(a, m[q], t) ==> cells_readable(t, marks) by {
            let j = choose|j: int| 0 <= j < paths@.len() && paths@[j].0@ == q;
            assert(m[paths@[j].0@] == paths@[j].1@);
        }
        assert(sheets_read(a, m, marks));
        assert forall|st2: Seq<XmlTag>, wt2: Seq<XmlTag>, rt2: Seq<XmlTag>|
            #[trigger] part_tags(a, styles_part(), st2) && #[trigger] part_tags(a, workbook_part(), wt2)
                && #[trigger] part_tags(a, rels_part(), rt2) implies sheet_path_fold(wt2, rel_fold(rt2))
            == m && style_marks_spec(style_fold(st2)) == marks by {
            pairs_match_unique(paths@, sheet_path_fold(wt2, rel_fold(rt2)), m);
        }
    }
    Ok(v)
}

} // verus!
