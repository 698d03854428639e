use std::io::{Cursor, Write};

use autoeval_cna::xlsx::TagKind;
use autoeval_cna::xlsx_archive::{marked_cells_of, sheet_paths_of, style_marks_of, xlsx_marked_cells, xml_tags};

const STYLES: &str = r#"<?xml version="1.0" encoding="UTF-8"?>
<styleSheet xmlns="http://schemas.openxmlformats.org/spreadsheetml/2006/main">
  <fonts count="2"><font><sz val="11"/></font><font><color rgb="FF0000FF"/></font></fonts>
  <fills count="2"><fill><patternFill patternType="none"/></fill>
    <fill><patternFill patternType="solid"><fgColor rgb="FFFF0000"/></patternFill></fill></fills>
  <cellXfs count="3"><xf fillId="0" fontId="0"/><xf fillId="1" fontId="0"/><xf fillId="0" fontId="1"/></cellXfs>
</styleSheet>"#;

const WORKBOOK: &str = r#"<workbook xmlns:r="http://schemas.openxmlformats.org/officeDocument/2006/relationships">
  <sheets><sheet name="BASE" sheetId="1" r:id="rId1"/><sheet name="OTRA" sheetId="2" r:id="rId2"/></sheets>
</workbook>"#;

const RELS: &str = r#"<Relationships>
  <Relationship Id="rId1" Target="worksheets/sheet1.xml"/>
  <Relationship Id="rId2" Target="/xl/worksheets/sheet2.xml"/>
</Relationships>"#;

const SHEET: &str = r#"<worksheet><sheetData><row r="1">
  <c r="A1" s="0"><v>1</v></c><c r="B2" s="1"><v>2</v></c><c r="C3" s="2"/></row></sheetData></worksheet>"#;

fn archive(parts: &[(&str, &str)]) -> Vec<u8> {
    let mut writer = zip::ZipWriter::new(Cursor::new(Vec::new()));
    for (name, text) in parts {
        writer.start_file(*name, zip::write::SimpleFileOptions::default()).unwrap();
        writer.write_all(text.as_bytes()).unwrap();
    }
    writer.finish().unwrap().into_inner()
}

#[test]
fn tokenises_tags_in_order() {
    let tags = xml_tags(r#"<a x="1"><b/>text</a>"#).unwrap();
    assert_eq!(tags.len(), 3);
    assert_eq!(tags[0].kind, TagKind::Start);
    assert_eq!(tags[0].name, "a");
    assert_eq!(tags[0].attributes, vec![("x".to_string(), "1".to_string())]);
    assert_eq!(tags[1].kind, TagKind::Empty);
    assert_eq!(tags[1].name, "b");
    assert_eq!(tags[2].kind, TagKind::End);
    assert_eq!(tags[2].name, "a");
}

#[test]
fn malformed_xml_is_refused() {
    assert!(xml_tags("<a></b>").is_err());
    assert!(style_marks_of("<a></b>").unwrap_err().starts_with("Invalid XLSX styles XML: "));
    assert!(marked_cells_of("<c></d>", &vec![]).unwrap_err().starts_with("Invalid XLSX worksheet XML: "));
}

#[test]
fn reads_style_colours_from_xml_text() {
    let marks = style_marks_of(STYLES).unwrap();
    assert_eq!(marks.len(), 3);
    assert!(!marks[0].red && !marks[0].blue && !marks[0].green);
    assert!(marks[1].red && !marks[1].blue);
    assert!(marks[2].blue && !marks[2].red);
}

#[test]
fn reads_sheet_paths_from_xml_text() {
    let mut paths = sheet_paths_of(WORKBOOK, RELS).unwrap();
    paths.sort();
    assert_eq!(
        paths,
        vec![
            ("BASE".to_string(), "xl/worksheets/sheet1.xml".to_string()),
            ("OTRA".to_string(), "xl/worksheets/sheet2.xml".to_string()),
        ]
    );
}

#[test]
fn reads_marked_cells_of_an_archive() {
    let bytes = archive(&[
        ("xl/styles.xml", STYLES),
        ("xl/workbook.xml", WORKBOOK),
        ("xl/_rels/workbook.xml.rels", RELS),
        ("xl/worksheets/sheet1.xml", SHEET),
    ]);
    let marked = xlsx_marked_cells(&bytes).unwrap();
    assert_eq!(marked.len(), 1, "the sheet without a part is left out");
    assert_eq!(marked[0].0, "BASE");
    assert_eq!(marked[0].1.red, vec![(2, 1)]);
    assert_eq!(marked[0].1.blue, vec![(3, 2)]);
    assert!(marked[0].1.green.is_empty());
}

#[test]
fn archive_errors_are_reported() {
    assert!(xlsx_marked_cells(&b"not a zip".to_vec()).unwrap_err().starts_with("Could not open XLSX archive: "));
    let no_styles = archive(&[("xl/workbook.xml", WORKBOOK)]);
    assert!(xlsx_marked_cells(&no_styles).unwrap_err().starts_with("Could not read XLSX part xl/styles.xml: "));
    let bad_sheet = archive(&[
        ("xl/styles.xml", STYLES),
        ("xl/workbook.xml", WORKBOOK),
        ("xl/_rels/workbook.xml.rels", RELS),
        ("xl/worksheets/sheet1.xml", "<worksheet><c></worksheet>"),
    ]);
    assert!(xlsx_marked_cells(&bad_sheet).unwrap_err().starts_with("Invalid XLSX worksheet XML: "));
}
