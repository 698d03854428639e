use autoeval_cna::marks::{
    cell_reference_to_position, has_cell, merge_mark, normalize_xlsx_part_path,
    reference_column_fits, rgb_mark, StyleMark,
};
use autoeval_cna::xlsx::{
    attr_value, cells_readable_check, namespaced_attr_value, parse_marked_cells, parse_usize,
    parse_style_marks, parse_workbook_sheet_paths, reads_cell_colours, styles_readable_check,
    TagKind, XmlTag,
};

fn tag(kind: TagKind, name: &str, attributes: &[(&str, &str)]) -> XmlTag {
    XmlTag {
        kind,
        name: name.to_string(),
        attributes: attributes
            .iter()
            .map(|(k, v)| (k.to_string(), v.to_string()))
            .collect(),
    }
}

#[test]
fn rgb_colours_are_classified() {
    assert_eq!(rgb_mark("FFFF0000"), StyleMark { red: true, blue: false, green: false });
    assert_eq!(rgb_mark(" #0000FF "), StyleMark { red: false, blue: true, green: false });
    assert_eq!(rgb_mark("00B050"), StyleMark { red: false, blue: false, green: true });
    assert_eq!(rgb_mark("FFFFFF"), StyleMark { red: false, blue: false, green: false });
    assert_eq!(rgb_mark("zzzzzz"), StyleMark { red: false, blue: false, green: false });
    assert_eq!(
        merge_mark(
            StyleMark { red: true, blue: false, green: false },
            StyleMark { red: false, blue: false, green: true }
        ),
        StyleMark { red: true, blue: false, green: true }
    );
}

#[test]
fn cell_references_become_positions() {
    assert_eq!(cell_reference_to_position("C12"), Some((12, 2)));
    assert_eq!(cell_reference_to_position("aa3"), Some((3, 26)));
    assert_eq!(cell_reference_to_position("12"), None);
    assert_eq!(cell_reference_to_position("AB"), None);
    assert_eq!(cell_reference_to_position("A99999999999999999999999"), None);
    assert!(reference_column_fits("ZZZ1"));
    assert!(!reference_column_fits("ZZZZZZZZZZZZZZZZZZZZ1"));
    assert!(has_cell(&vec![(1, 2), (3, 4)], (3, 4)));
    assert!(!has_cell(&vec![(1, 2)], (2, 1)));
}

#[test]
fn part_paths_are_under_xl() {
    assert_eq!(normalize_xlsx_part_path("worksheets/sheet1.xml"), "xl/worksheets/sheet1.xml");
    assert_eq!(normalize_xlsx_part_path("/xl/worksheets/sheet2.xml"), "xl/worksheets/sheet2.xml");
    assert!(reads_cell_colours("XLSX"));
    assert!(reads_cell_colours("xlsm"));
    assert!(!reads_cell_colours("xls"));
}

#[test]
fn attributes_are_looked_up_by_key() {
    let t = tag(TagKind::Empty, "sheet", &[("name", "BASE"), ("r:id", "rId1"), ("name", "otro")]);
    assert_eq!(attr_value(&t, "name"), Some("BASE".to_string()));
    assert_eq!(attr_value(&t, "id"), None);
    assert_eq!(namespaced_attr_value(&t, "id"), Some("rId1".to_string()));
    assert_eq!(parse_usize("+42"), Some(42));
    assert_eq!(parse_usize("4x"), None);
    assert_eq!(parse_usize(""), None);
    assert_eq!(parse_usize("99999999999999999999999"), None);
}

fn styles() -> Vec<XmlTag> {
    vec![
        tag(TagKind::Start, "styleSheet", &[]),
        tag(TagKind::Start, "fonts", &[("count", "2")]),
        tag(TagKind::Start, "font", &[]),
        tag(TagKind::Empty, "sz", &[("val", "11")]),
        tag(TagKind::End, "font", &[]),
        tag(TagKind::Start, "font", &[]),
        tag(TagKind::Empty, "color", &[("rgb", "FF0000FF")]),
        tag(TagKind::End, "font", &[]),
        tag(TagKind::End, "fonts", &[]),
        tag(TagKind::Start, "fills", &[]),
        tag(TagKind::Start, "fill", &[]),
        tag(TagKind::Empty, "patternFill", &[("patternType", "none")]),
        tag(TagKind::End, "fill", &[]),
        tag(TagKind::Start, "fill", &[]),
        tag(TagKind::Start, "patternFill", &[]),
        tag(TagKind::Empty, "fgColor", &[("rgb", "FFFF0000")]),
        tag(TagKind::End, "patternFill", &[]),
        tag(TagKind::End, "fill", &[]),
        tag(TagKind::End, "fills", &[]),
        tag(TagKind::Start, "cellXfs", &[]),
        tag(TagKind::Empty, "xf", &[("fillId", "0"), ("fontId", "0")]),
        tag(TagKind::Empty, "xf", &[("fillId", "1"), ("fontId", "0")]),
        tag(TagKind::Empty, "xf", &[("fillId", "0"), ("fontId", "1")]),
        tag(TagKind::Empty, "xf", &[("fillId", "7"), ("fontId", "x")]),
        tag(TagKind::End, "cellXfs", &[]),
    ]
}

#[test]
fn style_marks_come_from_fills_and_fonts() {
    let tags = styles();
    assert!(styles_readable_check(&tags));
    let marks = parse_style_marks(&tags);
    assert_eq!(
        marks,
        vec![
            StyleMark { red: false, blue: false, green: false },
            StyleMark { red: true, blue: false, green: false },
            StyleMark { red: false, blue: true, green: false },
            StyleMark { red: false, blue: false, green: false },
        ]
    );
    let mut unreadable = tags.clone();
    unreadable.insert(6, tag(TagKind::Empty, "color", &[("rgb", "éééa")]));
    assert!(!styles_readable_check(&unreadable));
}

#[test]
fn marked_cells_follow_their_style() {
    let marks = parse_style_marks(&styles());
    let sheet = vec![
        tag(TagKind::Start, "sheetData", &[]),
        tag(TagKind::Start, "c", &[("r", "A2"), ("s", "1")]),
        tag(TagKind::End, "c", &[]),
        tag(TagKind::Empty, "c", &[("r", "K3"), ("s", "2")]),
        tag(TagKind::Empty, "c", &[("r", "B2"), ("s", "0")]),
        tag(TagKind::Empty, "c", &[("r", "A2"), ("s", "1")]),
        tag(TagKind::Empty, "c", &[("s", "1")]),
        tag(TagKind::Empty, "c", &[("r", "C4"), ("s", "9")]),
        tag(TagKind::End, "sheetData", &[]),
    ];
    assert!(cells_readable_check(&sheet, &marks));
    let cells = parse_marked_cells(&sheet, &marks);
    assert_eq!(cells.red, vec![(2, 0)]);
    assert_eq!(cells.blue, vec![(3, 10)]);
    assert!(cells.green.is_empty());
    let wide = vec![tag(TagKind::Empty, "c", &[("r", "ZZZZZZZZZZZZZZZZZZZZ1"), ("s", "1")])];
    assert!(!cells_readable_check(&wide, &marks));
}

#[test]
fn sheet_paths_follow_relationships() {
    let rels = vec![
        tag(TagKind::Start, "Relationships", &[]),
        tag(TagKind::Empty, "Relationship", &[("Id", "rId1"), ("Target", "worksheets/sheet1.xml")]),
        tag(TagKind::Empty, "Relationship", &[("Id", "rId2"), ("Target", "/xl/worksheets/sheet2.xml")]),
        tag(TagKind::Empty, "Relationship", &[("Id", ""), ("Target", "styles.xml")]),
        tag(TagKind::End, "Relationships", &[]),
    ];
    let workbook = vec![
        tag(TagKind::Empty, "sheet", &[("name", "BASE"), ("sheetId", "1"), ("r:id", "rId1")]),
        tag(TagKind::Empty, "sheet", &[("name", "BASEvs2"), ("sheetId", "2"), ("r:id", "rId2")]),
        tag(TagKind::Empty, "sheet", &[("name", "Sin parte"), ("r:id", "rId9")]),
    ];
    let mut paths = parse_workbook_sheet_paths(&workbook, &rels);
    paths.sort();
    assert_eq!(
        paths,
        vec![
            ("BASE".to_string(), "xl/worksheets/sheet1.xml".to_string()),
            ("BASEvs2".to_string(), "xl/worksheets/sheet2.xml".to_string()),
        ]
    );
}
