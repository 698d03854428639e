//! What the exported workbooks hold: the consolidated sheet's rows, the
//! instruments by público, the natural order of question codes, and the
//! names of the files.
use vstd::prelude::*;

use std::cmp::Ordering;

use crate::audience::{
    column_label_spec, display_instrument_column_label, parse_spec, subpublic_spec,
    InstrumentAudience, InstrumentColumn,
};
use crate::bank::{parse_u32, u32_text_value};
use crate::domain::{opt_str, questions_view, strs, ExportKind, ExportWorkbookResult, GuidelineAspect, Question, QuestionDiffKind, QuestionStatus, QuestionView};
use crate::audience::display_public_spec;
use crate::baseline::{count_kind, diff_view, kind_count};
use crate::importer::{insert_sorted_unique, strictly_sorted, strictly_sorted_at};
use crate::audience::display_public_label;
use crate::sort::{stable_sort, Placed, sorted, text_le, text_le_antisym, text_le_exec, text_le_total, text_le_trans, Ordered};
use crate::workbook::same_values_same_views;
use crate::text::{
    append_chars, ascii_lower, char_ascii_lower, chars_of, is_blank, is_blank_chars, join,
    join_words, lit, split_words, string_of, subrange_chars, trim, trim_chars, views, words, Sep,
};

verus! {

// ---------------------------------------------------------------------------
// Labels
// ---------------------------------------------------------------------------

/// The first position of ". " in `s`, from `i` on.
pub open spec fn dot_space_from(s: Seq<char>, i: int) -> Option<int>
    decreases s.len() - i,
{
    if i < 0 || i + 1 >= s.len() {
        None
    } else if s[i] == '.' && s[i + 1] == ' ' {
        Some(i)
    } else {
        dot_space_from(s, i + 1)
    }
}

/// "number. name" taken apart at the first ". ", both parts trimmed; a
/// value without both parts is all name.
pub open spec fn split_spec(v: Seq<char>) -> (Seq<char>, Seq<char>) {
    match dot_space_from(v, 0) {
        Some(i) => {
            let number = v.subrange(0, i);
            let name = v.subrange(i + 2, v.len() as int);
            if is_blank(number) || is_blank(name) {
                (Seq::empty(), v)
            } else {
                (trim(number), trim(name))
            }
        },
        None => (Seq::empty(), v),
    }
}

fn find_dot_space(v: &Vec<char>) -> (r: Option<usize>)
    ensures
        (match r {
            Some(i) => Some(i as int),
            None => None,
        }) == dot_space_from(v@, 0),
        r matches Some(i) ==> i + 2 <= v@.len(),
{
    let n = v.len();
    let mut i: usize = 0;
    while i < n
        invariant
            n == v@.len(),
            dot_space_from(v@, 0) == dot_space_from(v@, i as int),
        decreases n - i,
    {
        if i + 1 >= n {
            return None;
        }
        if v[i] == '.' && v[i + 1] == ' ' {
            return Some(i);
        }
        i = i + 1;
    }
    None
}

pub fn split_number_name(value: &str) -> (r: (String, String))
    ensures
        (r.0@, r.1@) == split_spec(value@),
{
    let v = chars_of(value);
    let n = v.len();
    match find_dot_space(&v) {
        Some(i) => {
            let number = subrange_chars(&v, 0, i);
            let name = subrange_chars(&v, i + 2, n);
            if is_blank_chars(&number) || is_blank_chars(&name) {
                (String::new(), lit(value))
            } else {
                (string_of(&trim_chars(&number)), string_of(&trim_chars(&name)))
            }
        },
        None => (String::new(), lit(value)),
    }
}

proof fn dot_space_at_join(s: Seq<char>, number: Seq<char>, name: Seq<char>, i: int)
    requires
        s == number + ". "@ + name,
        0 <= i <= number.len(),
        dot_space_from(number, i) is None,
    ensures
        dot_space_from(s, i) == Some(number.len() as int),
    decreases number.len() - i,
{
    reveal_strlit(". ");
    if i < number.len() {
        assert(s[i] == number[i]);
        if i + 1 < number.len() {
            assert(s[i + 1] == number[i + 1]);
        } else {
            assert(s[i + 1] == '.');
        }
        dot_space_at_join(s, number, name, i + 1);
    }
}

/// Taking apart a joined "number. name" gives back the number and the
/// name, when both are trimmed and present and the number holds no ". ".
pub proof fn split_undoes_join(number: Seq<char>, name: Seq<char>)
    requires
        trim(number) == number,
        trim(name) == name,
        number.len() > 0,
        name.len() > 0,
        dot_space_from(number, 0) is None,
    ensures
        split_spec(crate::importer::join_number_name_spec(number, name)) == (number, name),
{
    let s = number + ". "@ + name;
    reveal_strlit(". ");
    assert(crate::importer::join_number_name_spec(number, name) == s);
    dot_space_at_join(s, number, name, 0);
    let k = number.len() as int;
    assert(s.subrange(0, k) =~= number);
    assert(s.subrange(k + 2, s.len() as int) =~= name);
}

pub open spec fn status_label(s: QuestionStatus) -> Seq<char> {
    match s {
        QuestionStatus::Keep => "Mantener"@,
        QuestionStatus::Modify => "Modificar"@,
        QuestionStatus::Add => "Agregar"@,
        QuestionStatus::Delete => "Eliminar"@,
    }
}

/// The label written for each status reads back as that status.
pub proof fn status_label_round_trip(s: QuestionStatus)
    ensures
        crate::columns::status_spec(status_label(s)) == s,
{
    reveal_strlit("Mantener");
    reveal_strlit("Modificar");
    reveal_strlit("Agregar");
    reveal_strlit("Eliminar");
    reveal_strlit("mantener");
    reveal_strlit("modificar");
    reveal_strlit("agregar");
    reveal_strlit("eliminar");
    reveal_strlit("modify");
    reveal_strlit("add");
    reveal_strlit("delete");
    let w = status_label(s);
    crate::text::header_key_of_letters(w);
    let l = crate::text::ascii_lower_text(w);
    match s {
        QuestionStatus::Keep => {
            assert(l =~= "mantener"@);
            assert(l[1] != "modificar"@[1] && l[1] != "modify"@[1]);
            assert(l[0] != "agregar"@[0] && l[0] != "add"@[0]);
            assert(l[0] != "eliminar"@[0] && l[0] != "delete"@[0]);
        },
        QuestionStatus::Modify => assert(l =~= "modificar"@),
        QuestionStatus::Add => assert(l =~= "agregar"@),
        QuestionStatus::Delete => assert(l =~= "eliminar"@),
    }
}

/// The status as the consolidated workbook writes it.
pub fn status_excel_label(status: &QuestionStatus) -> (r: &'static str)
    ensures
        r@ == status_label(*status),
{
    match status {
        QuestionStatus::Keep => "Mantener",
        QuestionStatus::Modify => "Modificar",
        QuestionStatus::Add => "Agregar",
        QuestionStatus::Delete => "Eliminar",
    }
}

/// A file-name part: ASCII letters and digits in lower case, runs of other
/// characters as one dash, no dash at either end; "general" if nothing is
/// left.
pub open spec fn slug_spec(v: Seq<char>) -> Seq<char> {
    let w = words(Sep::NonAlnum, v.map_values(|c: char| ascii_lower(c)));
    if w.len() == 0 {
        "general"@
    } else {
        join(w, "-"@)
    }
}

pub fn slugify_file_part(value: &str) -> (r: String)
    ensures
        r@ == slug_spec(value@),
{
    let v = chars_of(value);
    let mut lowered: Vec<char> = Vec::new();
    let n = v.len();
    let mut i: usize = 0;
    while i < n
        invariant
            i <= n == v@.len(),
            v@ == value@,
            lowered@ == v@.take(i as int).map_values(|c: char| ascii_lower(c)),
        decreases n - i,
    {
        lowered.push(char_ascii_lower(v[i]));
        assert(v@.take(i + 1).map_values(|c: char| ascii_lower(c)) =~= v@.take(i as int).map_values(
            |c: char| ascii_lower(c),
        ).push(ascii_lower(v@[i as int])));
        i = i + 1;
    }
    assert(v@.take(n as int) =~= v@);
    let w = split_words(Sep::NonAlnum, &lowered);
    if w.len() == 0 {
        lit("general")
    } else {
        string_of(&join_words(&w, &chars_of("-")))
    }
}

/// The file of one instrument: the prefix, a dash, the público as a file
/// part, ".xlsx".
pub fn instrument_file_name(prefix: &str, public: &str) -> (r: String)
    ensures
        r@ == prefix@ + "-"@ + slug_spec(public@) + ".xlsx"@,
{
    let mut r = chars_of(prefix);
    append_chars(&mut r, &chars_of("-"));
    append_chars(&mut r, &chars_of(slugify_file_part(public).as_str()));
    append_chars(&mut r, &chars_of(".xlsx"));
    string_of(&r)
}

// ---------------------------------------------------------------------------
// Natural order of question codes
// ---------------------------------------------------------------------------

/// A part of a question code: a number, or text in lower case. Numbers
/// come before texts.
pub enum CodePart {
    Number(u32),
    Text(Seq<char>),
}

pub open spec fn code_part(w: Seq<char>) -> CodePart {
    match u32_text_value(w) {
        Some(n) => CodePart::Number(n),
        None => CodePart::Text(w.map_values(|c: char| ascii_lower(c))),
    }
}

/// The parts of a code: its runs of ASCII letters and digits.
pub open spec fn code_parts(v: Seq<char>) -> Seq<CodePart> {
    words(Sep::NonAlnum, v).map_values(|w: Seq<char>| code_part(w))
}

/// -1, 0 or 1 as `a` comes before, with or after `b`.
pub open spec fn text_order(a: Seq<char>, b: Seq<char>) -> int {
    if a == b {
        0
    } else if text_le(a, b) {
        -1
    } else {
        1
    }
}

pub open spec fn part_order(a: CodePart, b: CodePart) -> int {
    match (a, b) {
        (CodePart::Number(x), CodePart::Number(y)) => if x < y {
            -1
        } else if x == y {
            0
        } else {
            1
        },
        (CodePart::Number(_), CodePart::Text(_)) => -1,
        (CodePart::Text(_), CodePart::Number(_)) => 1,
        (CodePart::Text(x), CodePart::Text(y)) => text_order(x, y),
    }
}

/// Lexicographic order of part lists, a shorter prefix first.
pub open spec fn parts_order(a: Seq<CodePart>, b: Seq<CodePart>) -> int
    decreases a.len(),
{
    if a.len() == 0 {
        if b.len() == 0 {
            0
        } else {
            -1
        }
    } else if b.len() == 0 {
        1
    } else if part_order(a[0], b[0]) != 0 {
        part_order(a[0], b[0])
    } else {
        parts_order(a.drop_first(), b.drop_first())
    }
}

/// Question codes in natural order: by their parts, then by their text.
pub open spec fn code_order(a: Seq<char>, b: Seq<char>) -> int {
    let p = parts_order(code_parts(a), code_parts(b));
    if p != 0 {
        p
    } else {
        text_order(a, b)
    }
}

/// The executable form of a part.
enum PartValue {
    Number(u32),
    Text(Vec<char>),
}

spec fn part_value(p: PartValue) -> CodePart {
    match p {
        PartValue::Number(n) => CodePart::Number(n),
        PartValue::Text(t) => CodePart::Text(t@),
    }
}

fn lower_chars(w: &Vec<char>) -> (r: Vec<char>)
    ensures
        r@ == w@.map_values(|c: char| ascii_lower(c)),
{
    let mut r: Vec<char> = Vec::new();
    let n = w.len();
    let mut i: usize = 0;
    while i < n
        invariant
            i <= n == w@.len(),
            r@ == w@.take(i as int).map_values(|c: char| ascii_lower(c)),
        decreases n - i,
    {
        r.push(char_ascii_lower(w[i]));
        assert(w@.take(i + 1).map_values(|c: char| ascii_lower(c)) =~= w@.take(i as int).map_values(
            |c: char| ascii_lower(c),
        ).push(ascii_lower(w@[i as int])));
        i = i + 1;
    }
    assert(w@.take(n as int) =~= w@);
    r
}

fn parts_of(value: &str) -> (r: Vec<PartValue>)
    ensures
        r@.map_values(|p: PartValue| part_value(p)) == code_parts(value@),
{
    let ws = split_words(Sep::NonAlnum, &chars_of(value));
    let ghost target = code_parts(value@);
    let mut r: Vec<PartValue> = Vec::new();
    let n = ws.len();
    let mut i: usize = 0;
    while i < n
        invariant
            i <= n == ws@.len(),
            views(ws@) == words(Sep::NonAlnum, value@),
            target == code_parts(value@),
            r@.map_values(|p: PartValue| part_value(p)) == target.take(i as int),
        decreases n - i,
    {
        let p = match parse_u32(&ws[i]) {
            Some(x) => PartValue::Number(x),
            None => PartValue::Text(lower_chars(&ws[i])),
        };
        assert(views(ws@)[i as int] == ws@[i as int]@);
        assert(part_value(p) == code_part(ws@[i as int]@));
        let ghost before = r@;
        r.push(p);
        assert(r@.map_values(|p: PartValue| part_value(p)) =~= before.map_values(
            |p: PartValue| part_value(p),
        ).push(part_value(p)));
        assert(target.take(i + 1) =~= target.take(i as int).push(target[i as int]));
        i = i + 1;
    }
    assert(target.take(n as int) =~= target);
    r
}

pub fn text_order_exec(a: &Vec<char>, b: &Vec<char>) -> (r: i8)
    ensures
        r == text_order(a@, b@),
{
    if crate::text::chars_eq(a, b) {
        0
    } else if text_le_exec(a, b) {
        -1
    } else {
        1
    }
}

fn part_order_exec(a: &PartValue, b: &PartValue) -> (r: i8)
    ensures
        r == part_order(part_value(*a), part_value(*b)),
{
    match (a, b) {
        (PartValue::Number(x), PartValue::Number(y)) => if *x < *y {
            -1
        } else if *x == *y {
            0
        } else {
            1
        },
        (PartValue::Number(_), PartValue::Text(_)) => -1,
        (PartValue::Text(_), PartValue::Number(_)) => 1,
        (PartValue::Text(x), PartValue::Text(y)) => text_order_exec(x, y),
    }
}

fn parts_order_exec(a: &Vec<PartValue>, b: &Vec<PartValue>) -> (r: i8)
    ensures
        r == parts_order(
            a@.map_values(|p: PartValue| part_value(p)),
            b@.map_values(|p: PartValue| part_value(p)),
        ),
{
    let ghost pa = a@.map_values(|p: PartValue| part_value(p));
    let ghost pb = b@.map_values(|p: PartValue| part_value(p));
    let mut i: usize = 0;
    assert(pa.subrange(0, pa.len() as int) =~= pa);
    assert(pb.subrange(0, pb.len() as int) =~= pb);
    while i < a.len() && i < b.len()
        invariant
            i <= a@.len(),
            i <= b@.len(),
            pa == a@.map_values(|p: PartValue| part_value(p)),
            pb == b@.map_values(|p: PartValue| part_value(p)),
            parts_order(pa, pb) == parts_order(
                pa.subrange(i as int, pa.len() as int),
                pb.subrange(i as int, pb.len() as int),
            ),
        decreases a@.len() - i,
    {
        let c = part_order_exec(&a[i], &b[i]);
        assert(pa.subrange(i as int, pa.len() as int)[0] == part_value(a@[i as int]));
        assert(pb.subrange(i as int, pb.len() as int)[0] == part_value(b@[i as int]));
        if c != 0 {
            return c;
        }
        assert(pa.subrange(i as int, pa.len() as int).drop_first() =~= pa.subrange(
            i + 1,
            pa.len() as int,
        ));
        assert(pb.subrange(i as int, pb.len() as int).drop_first() =~= pb.subrange(
            i + 1,
            pb.len() as int,
        ));
        i = i + 1;
    }
    if i == a.len() {
        if i == b.len() {
            0
        } else {
            -1
        }
    } else {
        1
    }
}

fn code_order_exec(left: &str, right: &str) -> (r: i8)
    ensures
        r == code_order(left@, right@),
{
    let p = parts_order_exec(&parts_of(left), &parts_of(right));
    if p != 0 {
        p
    } else {
        text_order_exec(&chars_of(left), &chars_of(right))
    }
}

/// The natural order of question codes as a comparison (see `code_order`).
pub fn compare_question_codes(left: &str, right: &str) -> (r: Ordering)
    ensures
        (r == Ordering::Less) == (code_order(left@, right@) < 0),
        (r == Ordering::Equal) == (code_order(left@, right@) == 0),
        (r == Ordering::Greater) == (code_order(left@, right@) > 0),
{
    let c = code_order_exec(left, right);
    if c < 0 {
        Ordering::Less
    } else if c == 0 {
        Ordering::Equal
    } else {
        Ordering::Greater
    }
}

// ---------------------------------------------------------------------------
// The consolidated workbook
// ---------------------------------------------------------------------------

/// One row of the consolidated sheet: its fifteen cells and the change
/// colour of the question.
#[derive(Debug)]
pub struct ConsolidatedRow {
    pub values: Vec<String>,
    pub kind: QuestionDiffKind,
}

pub open spec fn text_or_empty(o: Option<Seq<char>>) -> Seq<char> {
    match o {
        Some(t) => t,
        None => Seq::empty(),
    }
}

/// The cells of a question's row for one audience: hierarchy codes and
/// names, scope, status, convention, code, text, público, subpúblico and
/// observations.
pub open spec fn row_values(q: QuestionView, audience: Seq<char>) -> Seq<Seq<char>> {
    let c = q.content;
    let (fc, fname) = split_spec(c.factor);
    let (cc, cname) = split_spec(c.characteristic);
    let (ac, adesc) = split_spec(c.aspect);
    let (public, column) = parse_spec(audience);
    seq![
        fc,
        fname,
        cc,
        cname,
        cname,
        ac,
        adesc,
        c.scope.text(),
        status_label(c.status),
        text_or_empty(c.convention_code),
        c.code,
        c.text,
        public,
        subpublic_spec(public, column),
        text_or_empty(c.justification),
    ]
}

/// A question gives one row per audience, one row if it has none.
pub open spec fn question_rows(q: QuestionView, kind: QuestionDiffKind) -> Seq<(Seq<Seq<char>>, QuestionDiffKind)> {
    let a = q.content.audiences;
    if a.len() == 0 {
        seq![(row_values(q, Seq::empty()), kind)]
    } else {
        a.map_values(|x: Seq<char>| (row_values(q, x), kind))
    }
}

pub open spec fn consolidated_spec(d: Seq<(QuestionView, QuestionDiffKind)>) -> Seq<(Seq<Seq<char>>, QuestionDiffKind)>
    decreases d.len(),
{
    if d.len() == 0 {
        Seq::empty()
    } else {
        consolidated_spec(d.drop_last()) + question_rows(d.last().0, d.last().1)
    }
}

pub open spec fn rows_view(r: Seq<ConsolidatedRow>) -> Seq<(Seq<Seq<char>>, QuestionDiffKind)> {
    r.map_values(|x: ConsolidatedRow| (strs(x.values@), x.kind))
}

fn opt_text(o: &Option<String>) -> (r: String)
    ensures
        r@ == text_or_empty(opt_str(*o)),
{
    match o {
        Some(t) => t.clone(),
        None => String::new(),
    }
}

fn row_of(q: &Question, audience: &str) -> (r: Vec<String>)
    ensures
        strs(r@) == row_values(q@, audience@),
{
    let (fc, fname) = split_number_name(q.factor.as_str());
    let (cc, cname) = split_number_name(q.characteristic.as_str());
    let (ac, adesc) = split_number_name(q.aspect.as_str());
    let parsed = InstrumentAudience::parse(audience);
    let sub = parsed.subpublic();
    let mut r: Vec<String> = Vec::new();
    r.push(fc);
    r.push(fname);
    r.push(cc);
    r.push(cname.clone());
    r.push(cname);
    r.push(ac);
    r.push(adesc);
    r.push(lit(q.scope.as_str()));
    r.push(lit(status_excel_label(&q.status)));
    r.push(opt_text(&q.convention_code));
    r.push(q.code.clone());
    r.push(q.text.clone());
    r.push(parsed.public);
    r.push(sub);
    r.push(opt_text(&q.justification));
    assert(strs(r@) =~= row_values(q@, audience@));
    r
}

/// The rows of the consolidated sheet, question after question (see
/// `consolidated_spec`).
pub fn consolidated_rows(diffed: &Vec<(Question, QuestionDiffKind)>) -> (r: Vec<ConsolidatedRow>)
    ensures
        rows_view(r@) == consolidated_spec(diff_view(diffed@)),
{
    let ghost d = diff_view(diffed@);
    let mut r: Vec<ConsolidatedRow> = Vec::new();
    let n = diffed.len();
    let mut i: usize = 0;
    assert(rows_view(r@) =~= consolidated_spec(d.take(0)));
    while i < n
        invariant
            i <= n == diffed@.len(),
            d == diff_view(diffed@),
            rows_view(r@) == consolidated_spec(d.take(i as int)),
        decreases n - i,
    {
        let q = &diffed[i].0;
        let kind = diffed[i].1;
        assert(d.take(i + 1).drop_last() =~= d.take(i as int));
        assert(d.take(i + 1).last() == (q@, kind));
        let ghost start = rows_view(r@);
        let ghost expected = question_rows(q@, kind);
        if q.audiences.len() == 0 {
            r.push(ConsolidatedRow { values: row_of(q, ""), kind });
            proof {
                reveal_strlit("");
            }
            assert(rows_view(r@) =~= start + expected);
        } else {
            let m = q.audiences.len();
            let mut j: usize = 0;
            while j < m
                invariant
                    j <= m == q.audiences@.len(),
                    m > 0,
                    expected == question_rows(q@, kind),
                    rows_view(r@) == start + expected.take(j as int),
                decreases m - j,
            {
                let ghost before = r@;
                let row = ConsolidatedRow { values: row_of(q, q.audiences[j].as_str()), kind };
                r.push(row);
                assert(rows_view(r@) =~= rows_view(before).push((strs(row.values@), kind)));
                assert(q@.content.audiences[j as int] == q.audiences@[j as int]@);
                assert(expected[j as int] == (row_values(q@, q.audiences@[j as int]@), kind));
                assert(expected.take(j + 1) =~= expected.take(j as int).push(expected[j as int]));
                assert(rows_view(r@) =~= start + expected.take(j + 1));
                j = j + 1;
            }
            assert(expected.take(m as int) =~= expected);
        }
        i = i + 1;
    }
    assert(d.take(n as int) =~= d);
    r
}

/// The cells of a guideline aspect's row in the consolidated sheets.
pub open spec fn lineament_values(a: GuidelineAspect) -> Seq<Seq<char>> {
    seq![
        a.factor_code.text(),
        a.factor_name@,
        a.characteristic_code@,
        a.characteristic_name@,
        a.characteristic_name@,
        a.aspect_code@,
        a.aspect_description@,
        a.scope.text(),
        Seq::empty(),
        Seq::empty(),
        Seq::empty(),
        Seq::empty(),
        Seq::empty(),
        Seq::empty(),
        Seq::empty(),
    ]
}

pub fn lineament_row(aspect: &GuidelineAspect) -> (r: Vec<String>)
    ensures
        strs(r@) == lineament_values(*aspect),
{
    let mut r: Vec<String> = Vec::new();
    r.push(lit(aspect.factor_code.as_str()));
    r.push(aspect.factor_name.clone());
    r.push(aspect.characteristic_code.clone());
    r.push(aspect.characteristic_name.clone());
    r.push(aspect.characteristic_name.clone());
    r.push(aspect.aspect_code.clone());
    r.push(aspect.aspect_description.clone());
    r.push(lit(aspect.scope.as_str()));
    r.push(String::new());
    r.push(String::new());
    r.push(String::new());
    r.push(String::new());
    r.push(String::new());
    r.push(String::new());
    r.push(String::new());
    assert(strs(r@) =~= lineament_values(*aspect));
    r
}

// ---------------------------------------------------------------------------
// Instruments by público
// ---------------------------------------------------------------------------

/// The (público, column) pairs of a question: one per audience, or the
/// general instrument for a question without audience.
pub open spec fn audience_pairs(q: QuestionView) -> Seq<(Seq<char>, Seq<char>)> {
    if q.content.audiences.len() == 0 {
        seq![("General"@, "General"@)]
    } else {
        q.content.audiences.map_values(|a: Seq<char>| parse_spec(a))
    }
}

/// Every (público, column, position of the question) of a comparison, in
/// order.
pub open spec fn entries_of(d: Seq<(QuestionView, QuestionDiffKind)>) -> Seq<(Seq<char>, Seq<char>, int)>
    decreases d.len(),
{
    if d.len() == 0 {
        Seq::empty()
    } else {
        entries_of(d.drop_last()) + audience_pairs(d.last().0).map_values(
            |x: (Seq<char>, Seq<char>)| (x.0, x.1, d.len() - 1),
        )
    }
}

/// The públicos of the entries.
pub open spec fn entry_publics(e: Seq<(Seq<char>, Seq<char>, int)>) -> Set<Seq<char>> {
    Set::new(|p: Seq<char>| exists|i: int| 0 <= i < e.len() && (#[trigger] e[i]).0 == p)
}

/// The columns of público `p`.
pub open spec fn entry_columns(e: Seq<(Seq<char>, Seq<char>, int)>, p: Seq<char>) -> Set<Seq<char>> {
    Set::new(|c: Seq<char>| exists|i: int| 0 <= i < e.len() && (#[trigger] e[i]).0 == p && e[i].1 == c)
}

/// The codes of the questions of público `p`.
pub open spec fn entry_codes(
    d: Seq<(QuestionView, QuestionDiffKind)>,
    e: Seq<(Seq<char>, Seq<char>, int)>,
    p: Seq<char>,
) -> Set<Seq<char>> {
    Set::new(
        |code: Seq<char>|
            exists|i: int|
                0 <= i < e.len() && (#[trigger] e[i]).0 == p && d[e[i].2].0.content.code == code,
    )
}

/// One instrument: its público, its subpúblico columns and its questions.
#[derive(Debug)]
pub struct InstrumentWorkbook {
    pub public: String,
    pub subpublics: Vec<InstrumentColumn>,
    pub questions: Vec<(Question, QuestionDiffKind)>,
}

pub open spec fn column_keys(c: Seq<InstrumentColumn>) -> Seq<Seq<char>> {
    c.map_values(|x: InstrumentColumn| x.key@)
}

pub open spec fn pair_codes(q: Seq<(Question, QuestionDiffKind)>) -> Seq<Seq<char>> {
    q.map_values(|x: (Question, QuestionDiffKind)| x.0.code@)
}

pub open spec fn pair_view(x: (Question, QuestionDiffKind)) -> (QuestionView, QuestionDiffKind) {
    (x.0@, x.1)
}

/// An instrument of público `p` holds, in code order and once per code,
/// questions of the comparison shown under `p`; its columns are those of
/// `p`, in order, with their labels.
pub open spec fn instrument_of(
    d: Seq<(QuestionView, QuestionDiffKind)>,
    w: InstrumentWorkbook,
) -> bool {
    let e = entries_of(d);
    let p = w.public@;
    &&& strictly_sorted(column_keys(w.subpublics@))
    &&& column_keys(w.subpublics@).to_set() == entry_columns(e, p)
    &&& forall|j: int|
        0 <= j < w.subpublics@.len() ==> (#[trigger] w.subpublics@[j]).label@ == column_label_spec(
            p,
            w.subpublics@[j].key@,
        )
    &&& strictly_sorted(pair_codes(w.questions@))
    &&& pair_codes(w.questions@).to_set() == entry_codes(d, e, p)
    &&& forall|m: int|
        0 <= m < w.questions@.len() ==> shown_under(d, p, pair_view(#[trigger] w.questions@[m]))
}

/// `x` is one of the questions of the comparison shown under público `p`.
pub open spec fn shown_under(
    d: Seq<(QuestionView, QuestionDiffKind)>,
    p: Seq<char>,
    x: (QuestionView, QuestionDiffKind),
) -> bool {
    let e = entries_of(d);
    exists|i: int| 0 <= i < e.len() && e[i].0 == p && x == d[e[i].2]
}

pub open spec fn instrument_publics(r: Seq<InstrumentWorkbook>) -> Seq<Seq<char>> {
    r.map_values(|w: InstrumentWorkbook| w.public@)
}

struct Entry {
    public: Vec<char>,
    column: Vec<char>,
    index: usize,
}

spec fn entry_view(e: Entry) -> (Seq<char>, Seq<char>, int) {
    (e.public@, e.column@, e.index as int)
}

spec fn entries_view(e: Seq<Entry>) -> Seq<(Seq<char>, Seq<char>, int)> {
    e.map_values(|x: Entry| entry_view(x))
}

fn entries(diffed: &Vec<(Question, QuestionDiffKind)>) -> (r: Vec<Entry>)
    ensures
        entries_view(r@) == entries_of(diff_view(diffed@)),
        forall|i: int| 0 <= i < r@.len() ==> (#[trigger] r@[i]).index < diffed@.len(),
{
    let ghost d = diff_view(diffed@);
    let mut r: Vec<Entry> = Vec::new();
    let n = diffed.len();
    let mut k: usize = 0;
    assert(entries_view(r@) =~= entries_of(d.take(0)));
    while k < n
        invariant
            k <= n == diffed@.len(),
            d == diff_view(diffed@),
            entries_view(r@) == entries_of(d.take(k as int)),
            forall|i: int| 0 <= i < r@.len() ==> (#[trigger] r@[i]).index < k,
        decreases n - k,
    {
        let q = &diffed[k].0;
        assert(d.take(k + 1).drop_last() =~= d.take(k as int));
        assert(d.take(k + 1).last().0 == q@);
        let ghost pairs = audience_pairs(q@);
        let ghost tail = pairs.map_values(|x: (Seq<char>, Seq<char>)| (x.0, x.1, k as int));
        let ghost start = entries_view(r@);
        if q.audiences.len() == 0 {
            let f = InstrumentAudience::fallback();
            let ghost before = r@;
            r.push(Entry { public: chars_of(f.public.as_str()), column: chars_of(f.column.as_str()), index: k });
            assert(entries_view(r@) =~= entries_view(before).push((f.public@, f.column@, k as int)));
            assert(entries_view(r@) =~= start + tail);
        } else {
            let m = q.audiences.len();
            let mut j: usize = 0;
            while j < m
                invariant
                    j <= m == q.audiences@.len(),
                    m > 0,
                    pairs == audience_pairs(q@),
                    tail == pairs.map_values(|x: (Seq<char>, Seq<char>)| (x.0, x.1, k as int)),
                    entries_view(r@) == start + tail.take(j as int),
                    forall|i: int| 0 <= i < r@.len() ==> (#[trigger] r@[i]).index <= k,
                    k < n,
                decreases m - j,
            {
                let a = InstrumentAudience::parse(q.audiences[j].as_str());
                assert(q@.content.audiences[j as int] == q.audiences@[j as int]@);
                assert(tail[j as int] == (a.public@, a.column@, k as int));
                let ghost before = r@;
                r.push(Entry { public: chars_of(a.public.as_str()), column: chars_of(a.column.as_str()), index: k });
                assert(entries_view(r@) =~= entries_view(before).push(tail[j as int]));
                assert(tail.take(j + 1) =~= tail.take(j as int).push(tail[j as int]));
                j = j + 1;
            }
            assert(tail.take(m as int) =~= tail);
        }
        k = k + 1;
    }
    assert(d.take(n as int) =~= d);
    r
}

fn duplicate_pair(x: &(Question, QuestionDiffKind)) -> (r: (Question, QuestionDiffKind))
    ensures
        pair_view(r) == pair_view(*x),
{
    (x.0.duplicate(), x.1)
}

/// Adds a question to a list sorted by code, unless its code is there.
fn insert_by_code(v: &mut Vec<(Question, QuestionDiffKind)>, item: (Question, QuestionDiffKind))
    requires
        strictly_sorted(pair_codes(old(v)@)),
    ensures
        strictly_sorted(pair_codes(final(v)@)),
        pair_codes(final(v)@).to_set() == pair_codes(old(v)@).to_set().insert(item.0.code@),
        forall|m: int|
            0 <= m < final(v)@.len() ==> pair_view(#[trigger] final(v)@[m]) == pair_view(item)
                || exists|k: int| 0 <= k < old(v)@.len() && pair_view(final(v)@[m]) == pair_view(old(v)@[k]),
{
    let ghost old_v = v@;
    let ghost oc = pair_codes(v@);
    let x = chars_of(item.0.code.as_str());
    let n = v.len();
    let mut pos: usize = 0;
    while pos < n && text_le_exec(&chars_of(v[pos].0.code.as_str()), &x) && !crate::text::chars_eq(
        &chars_of(v[pos].0.code.as_str()),
        &x,
    )
        invariant
            pos <= n == v@.len(),
            v@ == old_v,
            oc == pair_codes(old_v),
            x@ == item.0.code@,
            strictly_sorted(oc),
            forall|k: int| 0 <= k < pos ==> text_le(oc[k], x@) && oc[k] != x@,
        decreases n - pos,
    {
        assert(oc[pos as int] == v@[pos as int].0.code@);
        pos = pos + 1;
    }
    if pos < n {
        assert(oc[pos as int] == v@[pos as int].0.code@);
        if crate::text::chars_eq(&chars_of(v[pos].0.code.as_str()), &x) {
            assert(oc.to_set() =~= oc.to_set().insert(x@)) by {
                assert(oc.contains(x@));
            }
            assert forall|m: int| 0 <= m < v@.len() implies pair_view(#[trigger] v@[m]) == pair_view(item)
                || exists|k: int| 0 <= k < old_v.len() && pair_view(v@[m]) == pair_view(old_v[k]) by {
                assert(pair_view(v@[m]) == pair_view(old_v[m]));
            }
            return;
        }
    }
    proof {
        if pos < n {
            text_le_total(oc[pos as int], x@);
        }
        assert forall|j: int| pos <= j < n implies text_le(x@, oc[j]) && oc[j] != x@ by {
            if j > pos {
                strictly_sorted_at(oc, pos as int, j);
                text_le_trans(x@, oc[pos as int], oc[j]);
            }
        }
    }
    v.insert(pos, item);
    proof {
        let nc = pair_codes(v@);
        assert(nc =~= oc.insert(pos as int, x@));
        assert forall|i: int, j: int|
            #![trigger nc[i], nc[j]]
            0 <= i < j < nc.len() implies text_le(nc[i], nc[j]) && nc[i] != nc[j] by {
            if j < pos {
                strictly_sorted_at(oc, i, j);
            } else if j == pos {
            } else if i < pos {
                assert(text_le(x@, oc[j - 1]) && oc[j - 1] != x@);
                text_le_trans(oc[i], x@, oc[j - 1]);
                if oc[i] == oc[j - 1] {
                    text_le_antisym(oc[i], x@);
                }
            } else if i == pos {
            } else {
                strictly_sorted_at(oc, i - 1, j - 1);
            }
        }
        assert(nc.to_set() =~= oc.to_set().insert(x@)) by {
            assert forall|t: Seq<char>| nc.to_set().contains(t) <==> oc.to_set().insert(x@).contains(t) by {
                if nc.contains(t) {
                    let k = choose|k: int| 0 <= k < nc.len() && nc[k] == t;
                    if k < pos {
                        assert(oc[k] == t);
                    } else if k > pos {
                        assert(oc[k - 1] == t);
                    }
                }
                if oc.contains(t) {
                    let k = choose|k: int| 0 <= k < oc.len() && oc[k] == t;
                    if k < pos {
                        assert(nc[k] == t);
                    } else {
                        assert(nc[k + 1] == t);
                    }
                }
                if t == x@ {
                    assert(nc[pos as int] == t);
                }
            }
        }
        assert forall|m: int| 0 <= m < v@.len() implies pair_view(#[trigger] v@[m]) == pair_view(item)
            || exists|k: int| 0 <= k < old_v.len() && pair_view(v@[m]) == pair_view(old_v[k]) by {
            if m < pos {
                assert(pair_view(v@[m]) == pair_view(old_v[m]));
            } else if m > pos {
                assert(pair_view(v@[m]) == pair_view(old_v[m - 1]));
            }
        }
    }
}

/// The instruments of a comparison, one per público in order, each with
/// its columns and its questions (see `instrument_of`).
pub fn group_instruments_by_public(diffed: &Vec<(Question, QuestionDiffKind)>) -> (r: Vec<InstrumentWorkbook>)
    ensures
        strictly_sorted(instrument_publics(r@)),
        instrument_publics(r@).to_set() == entry_publics(entries_of(diff_view(diffed@))),
        forall|i: int| 0 <= i < r@.len() ==> instrument_of(diff_view(diffed@), #[trigger] r@[i]),
{
    let ghost d = diff_view(diffed@);
    let es = entries(diffed);
    let ghost e = entries_view(es@);
    let ne = es.len();
    let mut publics: Vec<Vec<char>> = Vec::new();
    let mut t: usize = 0;
    assert(views(publics@).to_set() =~= Set::new(
        |p: Seq<char>| exists|i: int| 0 <= i < 0 && (#[trigger] e[i]).0 == p,
    ));
    while t < ne
        invariant
            t <= ne == es@.len(),
            e == entries_view(es@),
            strictly_sorted(views(publics@)),
            views(publics@).to_set() == Set::new(
                |p: Seq<char>| exists|i: int| 0 <= i < t && (#[trigger] e[i]).0 == p,
            ),
        decreases ne - t,
    {
        let ghost before = views(publics@).to_set();
        insert_sorted_unique(&mut publics, es[t].public.clone());
        assert(e[t as int].0 == es@[t as int].public@);
        assert(views(publics@).to_set() =~= Set::new(
            |p: Seq<char>| exists|i: int| 0 <= i < t + 1 && (#[trigger] e[i]).0 == p,
        )) by {
            assert forall|p: Seq<char>|
                (exists|i: int| 0 <= i < t + 1 && (#[trigger] e[i]).0 == p) implies #[trigger] before.insert(
                e[t as int].0,
            ).contains(p) by {
                let i = choose|i: int| 0 <= i < t + 1 && (#[trigger] e[i]).0 == p;
                if i < t {
                    assert(before.contains(p));
                }
            }
        }
        t = t + 1;
    }
    assert(entry_publics(e) =~= Set::new(
        |p: Seq<char>| exists|i: int| 0 <= i < ne && (#[trigger] e[i]).0 == p,
    ));
    let mut r: Vec<InstrumentWorkbook> = Vec::new();
    let np = publics.len();
    let mut i: usize = 0;
    while i < np
        invariant
            i <= np == publics@.len(),
            e == entries_view(es@),
            e == entries_of(d),
            d == diff_view(diffed@),
            ne == es@.len(),
            forall|k: int| 0 <= k < es@.len() ==> (#[trigger] es@[k]).index < diffed@.len(),
            instrument_publics(r@) == views(publics@).take(i as int),
            forall|j: int| 0 <= j < r@.len() ==> instrument_of(d, #[trigger] r@[j]),
        decreases np - i,
    {
        let p = &publics[i];
        let mut cols: Vec<Vec<char>> = Vec::new();
        let mut qs: Vec<(Question, QuestionDiffKind)> = Vec::new();
        let mut t: usize = 0;
        assert(views(cols@).to_set() =~= Set::new(
            |c: Seq<char>| exists|k: int| 0 <= k < 0 && (#[trigger] e[k]).0 == p@ && e[k].1 == c,
        ));
        assert(pair_codes(qs@).to_set() =~= Set::new(
            |code: Seq<char>|
                exists|k: int|
                    0 <= k < 0 && (#[trigger] e[k]).0 == p@ && d[e[k].2].0.content.code == code,
        ));
        while t < ne
            invariant
                t <= ne == es@.len(),
                e == entries_view(es@),
                d == diff_view(diffed@),
                forall|k: int| 0 <= k < es@.len() ==> (#[trigger] es@[k]).index < diffed@.len(),
                strictly_sorted(views(cols@)),
                views(cols@).to_set() == Set::new(
                    |c: Seq<char>| exists|k: int| 0 <= k < t && (#[trigger] e[k]).0 == p@ && e[k].1 == c,
                ),
                strictly_sorted(pair_codes(qs@)),
                pair_codes(qs@).to_set() == Set::new(
                    |code: Seq<char>|
                        exists|k: int|
                            0 <= k < t && (#[trigger] e[k]).0 == p@ && d[e[k].2].0.content.code
                                == code,
                ),
                forall|m: int|
                    0 <= m < qs@.len() ==> exists|k: int|
                        0 <= k < t && e[k].0 == p@ && pair_view(#[trigger] qs@[m]) == d[e[k].2],
            decreases ne - t,
        {
            assert(e[t as int] == entry_view(es@[t as int]));
            if crate::text::chars_eq(&es[t].public, p) {
                let ghost cbefore = views(cols@).to_set();
                let ghost qbefore = qs@;
                let ghost kbefore = pair_codes(qs@).to_set();
                insert_sorted_unique(&mut cols, es[t].column.clone());
                let item = duplicate_pair(&diffed[es[t].index]);
                assert(pair_view(item) == d[e[t as int].2]);
                insert_by_code(&mut qs, item);
                assert(views(cols@).to_set() =~= Set::new(
                    |c: Seq<char>| exists|k: int| 0 <= k < t + 1 && (#[trigger] e[k]).0 == p@ && e[k].1 == c,
                )) by {
                    assert forall|c: Seq<char>|
                        (exists|k: int| 0 <= k < t + 1 && (#[trigger] e[k]).0 == p@ && e[k].1 == c) implies #[trigger] cbefore.insert(
                        e[t as int].1,
                    ).contains(c) by {
                        let k = choose|k: int| 0 <= k < t + 1 && (#[trigger] e[k]).0 == p@ && e[k].1 == c;
                        if k < t {
                            assert(cbefore.contains(c));
                        }
                    }
                }
                assert(pair_codes(qs@).to_set() =~= Set::new(
                    |code: Seq<char>|
                        exists|k: int|
                            0 <= k < t + 1 && (#[trigger] e[k]).0 == p@ && d[e[k].2].0.content.code
                                == code,
                )) by {
                    assert forall|code: Seq<char>|
                        (exists|k: int|
                            0 <= k < t + 1 && (#[trigger] e[k]).0 == p@ && d[e[k].2].0.content.code
                                == code) implies #[trigger] kbefore.insert(item.0.code@).contains(code) by {
                        let k = choose|k: int|
                            0 <= k < t + 1 && (#[trigger] e[k]).0 == p@ && d[e[k].2].0.content.code
                                == code;
                        if k < t {
                            assert(kbefore.contains(code));
                        }
                    }
                }
                assert forall|m: int| 0 <= m < qs@.len() implies exists|k: int|
                    0 <= k < t + 1 && e[k].0 == p@ && pair_view(#[trigger] qs@[m]) == d[e[k].2] by {
                    if pair_view(qs@[m]) != pair_view(item) {
                        let k0 = choose|k0: int| 0 <= k0 < qbefore.len() && pair_view(qs@[m]) == pair_view(qbefore[k0]);
                        let k = choose|k: int| 0 <= k < t && e[k].0 == p@ && pair_view(#[trigger] qbefore[k0]) == d[e[k].2];
                        assert(0 <= k < t + 1 && e[k].0 == p@ && pair_view(qs@[m]) == d[e[k].2]);
                    } else {
                        assert(e[t as int].0 == p@ && pair_view(qs@[m]) == d[e[t as int].2]);
                    }
                }
            } else {
                assert(Set::new(
                    |c: Seq<char>| exists|k: int| 0 <= k < t + 1 && (#[trigger] e[k]).0 == p@ && e[k].1 == c,
                ) =~= Set::new(
                    |c: Seq<char>| exists|k: int| 0 <= k < t && (#[trigger] e[k]).0 == p@ && e[k].1 == c,
                ));
                assert(Set::new(
                    |code: Seq<char>|
                        exists|k: int|
                            0 <= k < t + 1 && (#[trigger] e[k]).0 == p@ && d[e[k].2].0.content.code
                                == code,
                ) =~= Set::new(
                    |code: Seq<char>|
                        exists|k: int|
                            0 <= k < t && (#[trigger] e[k]).0 == p@ && d[e[k].2].0.content.code
                                == code,
                ));
            }
            t = t + 1;
        }
        let public = string_of(p);
        let mut subpublics: Vec<InstrumentColumn> = Vec::new();
        let nc = cols.len();
        let mut j: usize = 0;
        while j < nc
            invariant
                j <= nc == cols@.len(),
                public@ == p@,
                column_keys(subpublics@) == views(cols@).take(j as int),
                forall|k: int|
                    0 <= k < subpublics@.len() ==> (#[trigger] subpublics@[k]).label@ == column_label_spec(
                        p@,
                        subpublics@[k].key@,
                    ),
            decreases nc - j,
        {
            let key = string_of(&cols[j]);
            let label = display_instrument_column_label(public.as_str(), key.as_str());
            let ghost before = subpublics@;
            subpublics.push(InstrumentColumn { key, label });
            assert(column_keys(subpublics@) =~= column_keys(before).push(cols@[j as int]@));
            assert(views(cols@).take(j + 1) =~= views(cols@).take(j as int).push(cols@[j as int]@));
            j = j + 1;
        }
        assert(views(cols@).take(nc as int) =~= views(cols@));
        assert(entry_columns(e, p@) =~= Set::new(
            |c: Seq<char>| exists|k: int| 0 <= k < ne && (#[trigger] e[k]).0 == p@ && e[k].1 == c,
        ));
        assert(entry_codes(d, e, p@) =~= Set::new(
            |code: Seq<char>|
                exists|k: int|
                    0 <= k < ne && (#[trigger] e[k]).0 == p@ && d[e[k].2].0.content.code == code,
        ));
        let w = InstrumentWorkbook { public, subpublics, questions: qs };
        assert(instrument_of(d, w)) by {
            assert(column_keys(w.subpublics@) == views(cols@));
            assert forall|m: int| 0 <= m < w.questions@.len() implies shown_under(d, w.public@, pair_view(#[trigger] w.questions@[m])) by {
                let k = choose|k: int| 0 <= k < ne && e[k].0 == p@ && pair_view(#[trigger] w.questions@[m]) == d[e[k].2];
                assert(0 <= k < e.len() && e[k].0 == w.public@);
            }
        }
        let ghost before = r@;
        r.push(w);
        assert(instrument_publics(r@) =~= instrument_publics(before).push(publics@[i as int]@));
        assert(views(publics@).take(i + 1) =~= views(publics@).take(i as int).push(publics@[i as int]@));
        i = i + 1;
    }
    assert(views(publics@).take(np as int) =~= views(publics@));
    r
}

// ---------------------------------------------------------------------------
// The natural order of codes is a total order
// ---------------------------------------------------------------------------

pub proof fn text_order_laws(a: Seq<char>, b: Seq<char>)
    ensures
        text_order(a, b) == -text_order(b, a),
        text_order(a, b) == 0 <==> a == b,
        -1 <= text_order(a, b) <= 1,
{
    text_le_total(a, b);
    if text_le(a, b) && text_le(b, a) {
        text_le_antisym(a, b);
    }
}

pub proof fn text_order_trans(a: Seq<char>, b: Seq<char>, c: Seq<char>)
    requires
        text_order(a, b) <= 0,
        text_order(b, c) <= 0,
    ensures
        text_order(a, c) <= 0,
{
    text_order_laws(a, b);
    text_order_laws(b, c);
    text_order_laws(a, c);
    if a != b && b != c {
        text_le_trans(a, b, c);
    }
}

proof fn part_order_laws(x: CodePart, y: CodePart)
    ensures
        part_order(x, y) == -part_order(y, x),
        part_order(x, y) == 0 <==> x == y,
        -1 <= part_order(x, y) <= 1,
{
    match (x, y) {
        (CodePart::Text(a), CodePart::Text(b)) => text_order_laws(a, b),
        _ => {},
    }
}

proof fn part_order_trans(x: CodePart, y: CodePart, z: CodePart)
    requires
        part_order(x, y) <= 0,
        part_order(y, z) <= 0,
    ensures
        part_order(x, z) <= 0,
{
    match (x, y, z) {
        (CodePart::Text(a), CodePart::Text(b), CodePart::Text(c)) => text_order_trans(a, b, c),
        _ => {},
    }
}

proof fn parts_order_laws(a: Seq<CodePart>, b: Seq<CodePart>)
    ensures
        parts_order(a, b) == -parts_order(b, a),
        parts_order(a, b) == 0 <==> a == b,
        -1 <= parts_order(a, b) <= 1,
    decreases a.len(),
{
    if a.len() > 0 && b.len() > 0 {
        part_order_laws(a[0], b[0]);
        parts_order_laws(a.drop_first(), b.drop_first());
        if a.drop_first() == b.drop_first() && a[0] == b[0] {
            assert(a =~= seq![a[0]] + a.drop_first());
            assert(b =~= seq![b[0]] + b.drop_first());
        }
    } else if a.len() == 0 && b.len() == 0 {
        assert(a =~= b);
    }
}

proof fn parts_order_trans(a: Seq<CodePart>, b: Seq<CodePart>, c: Seq<CodePart>)
    requires
        parts_order(a, b) <= 0,
        parts_order(b, c) <= 0,
    ensures
        parts_order(a, c) <= 0,
    decreases a.len(),
{
    if a.len() > 0 && b.len() > 0 && c.len() > 0 {
        part_order_laws(a[0], b[0]);
        part_order_laws(b[0], c[0]);
        part_order_laws(a[0], c[0]);
        if part_order(a[0], b[0]) <= 0 && part_order(b[0], c[0]) <= 0 {
            part_order_trans(a[0], b[0], c[0]);
        }
        if part_order(a[0], b[0]) == 0 && part_order(b[0], c[0]) == 0 {
            parts_order_trans(a.drop_first(), b.drop_first(), c.drop_first());
        }
    }
}

/// Comparing two question codes in natural order is antisymmetric, only
/// equal codes compare equal, and the order is transitive: a total order.
pub proof fn code_order_is_total(a: Seq<char>, b: Seq<char>, c: Seq<char>)
    ensures
        code_order(a, b) == -code_order(b, a),
        code_order(a, b) == 0 <==> a == b,
        code_order(a, b) <= 0 && code_order(b, c) <= 0 ==> code_order(a, c) <= 0,
{
    parts_order_laws(code_parts(a), code_parts(b));
    parts_order_laws(code_parts(b), code_parts(c));
    parts_order_laws(code_parts(a), code_parts(c));
    text_order_laws(a, b);
    text_order_laws(b, c);
    text_order_laws(a, c);
    if code_order(a, b) <= 0 && code_order(b, c) <= 0 {
        parts_order_trans(code_parts(a), code_parts(b), code_parts(c));
        if parts_order(code_parts(a), code_parts(c)) == 0 {
            parts_order_laws(code_parts(a), code_parts(b));
            if parts_order(code_parts(a), code_parts(b)) != 0 {
                parts_order_trans(code_parts(c), code_parts(a), code_parts(b));
            }
            if parts_order(code_parts(a), code_parts(b)) == 0 && parts_order(code_parts(b), code_parts(c)) == 0 {
                text_order_trans(a, b, c);
            }
        }
    }
    if a == b {
        parts_order_laws(code_parts(a), code_parts(b));
    }
}

// ---------------------------------------------------------------------------
// The sheets of an instrument
// ---------------------------------------------------------------------------

/// The order of the sheet by guidelines: factor, characteristic and aspect
/// labels as text, then the code in natural order.
pub open spec fn lineament_order(a: QuestionView, b: QuestionView) -> int {
    let f = text_order(a.content.factor, b.content.factor);
    let c = text_order(a.content.characteristic, b.content.characteristic);
    let s = text_order(a.content.aspect, b.content.aspect);
    if f != 0 {
        f
    } else if c != 0 {
        c
    } else if s != 0 {
        s
    } else {
        code_order(a.content.code, b.content.code)
    }
}

proof fn lineament_order_laws(a: QuestionView, b: QuestionView, c: QuestionView)
    ensures
        lineament_order(a, b) <= 0 || lineament_order(b, a) <= 0,
        lineament_order(a, b) <= 0 && lineament_order(b, c) <= 0 ==> lineament_order(a, c) <= 0,
{
    let (x, y, z) = (a.content, b.content, c.content);
    text_order_laws(x.factor, y.factor);
    text_order_laws(y.factor, z.factor);
    text_order_laws(x.factor, z.factor);
    text_order_laws(x.characteristic, y.characteristic);
    text_order_laws(y.characteristic, z.characteristic);
    text_order_laws(x.characteristic, z.characteristic);
    text_order_laws(x.aspect, y.aspect);
    text_order_laws(y.aspect, z.aspect);
    text_order_laws(x.aspect, z.aspect);
    code_order_is_total(x.code, y.code, z.code);
    if text_order(x.factor, y.factor) <= 0 && text_order(y.factor, z.factor) <= 0 {
        text_order_trans(x.factor, y.factor, z.factor);
    }
    if text_order(x.characteristic, y.characteristic) <= 0 && text_order(y.characteristic, z.characteristic) <= 0 {
        text_order_trans(x.characteristic, y.characteristic, z.characteristic);
    }
    if text_order(x.aspect, y.aspect) <= 0 && text_order(y.aspect, z.aspect) <= 0 {
        text_order_trans(x.aspect, y.aspect, z.aspect);
    }
}

/// A question of an instrument, ordered for the sheet by guidelines.
pub struct ByLineament {
    pub item: (Question, QuestionDiffKind),
}

impl Ordered for ByLineament {
    open spec fn le(a: Self, b: Self) -> bool {
        lineament_order(a.item.0@, b.item.0@) <= 0
    }

    proof fn le_total(a: Self, b: Self) {
        lineament_order_laws(a.item.0@, b.item.0@, b.item.0@);
    }

    proof fn le_trans(a: Self, b: Self, c: Self) {
        lineament_order_laws(a.item.0@, b.item.0@, c.item.0@);
    }

    fn le_exec(&self, other: &Self) -> (r: bool) {
        let a = &self.item.0;
        let b = &other.item.0;
        let f = text_order_exec(&chars_of(a.factor.as_str()), &chars_of(b.factor.as_str()));
        let c = text_order_exec(&chars_of(a.characteristic.as_str()), &chars_of(b.characteristic.as_str()));
        let s = text_order_exec(&chars_of(a.aspect.as_str()), &chars_of(b.aspect.as_str()));
        let o = if f != 0 {
            f
        } else if c != 0 {
            c
        } else if s != 0 {
            s
        } else {
            code_order_exec(a.code.as_str(), b.code.as_str())
        };
        o <= 0
    }
}

/// A question of an instrument, ordered by code.
pub struct ByCode {
    pub item: (Question, QuestionDiffKind),
}

impl Ordered for ByCode {
    open spec fn le(a: Self, b: Self) -> bool {
        code_order(a.item.0.code@, b.item.0.code@) <= 0
    }

    proof fn le_total(a: Self, b: Self) {
        code_order_is_total(a.item.0.code@, b.item.0.code@, b.item.0.code@);
    }

    proof fn le_trans(a: Self, b: Self, c: Self) {
        code_order_is_total(a.item.0.code@, b.item.0.code@, c.item.0.code@);
    }

    fn le_exec(&self, other: &Self) -> (r: bool) {
        code_order_exec(self.item.0.code.as_str(), other.item.0.code.as_str()) <= 0
    }
}

/// Whether a question is shown in the column with key `key`.
pub open spec fn shows_in(q: QuestionView, key: Seq<char>) -> bool {
    exists|j: int| 0 <= j < q.content.audiences.len() && (#[trigger] parse_spec(q.content.audiences[j])).1 == key
}

/// A row of an instrument sheet: the question, its change colour, the
/// cells before the columns, and whether it shows in each column.
#[derive(Debug)]
pub struct InstrumentRow {
    pub question: Question,
    pub kind: QuestionDiffKind,
    pub values: Vec<String>,
    pub in_columns: Vec<bool>,
}

/// The cells of the sheet by guidelines before the columns.
pub open spec fn lineament_cells(q: QuestionView) -> Seq<Seq<char>> {
    let c = q.content;
    let (fc, fname) = split_spec(c.factor);
    let (cc, cname) = split_spec(c.characteristic);
    let (ac, adesc) = split_spec(c.aspect);
    seq![fc, fname, cc, cname, ac, adesc, c.code, text_or_empty(c.convention_code)]
}

/// The cells of the sheet by order before the columns: the question's
/// code first, then its factor, characteristic and aspect, then its
/// convention.
pub open spec fn order_cells(q: QuestionView) -> Seq<Seq<char>> {
    let c = q.content;
    let (fc, fname) = split_spec(c.factor);
    let (cc, cname) = split_spec(c.characteristic);
    let (ac, adesc) = split_spec(c.aspect);
    seq![c.code, fc, fname, cc, cname, ac, adesc, text_or_empty(c.convention_code)]
}

/// A row holds its question's cells and marks the columns it shows in.
pub open spec fn row_of_question(r: InstrumentRow, keys: Seq<Seq<char>>, by_lineament: bool) -> bool {
    &&& strs(r.values@) == (if by_lineament {
        lineament_cells(r.question@)
    } else {
        order_cells(r.question@)
    })
    &&& r.in_columns@.len() == keys.len()
    &&& forall|j: int| 0 <= j < keys.len() ==> r.in_columns@[j] == shows_in(r.question@, #[trigger] keys[j])
}

pub open spec fn row_pairs(r: Seq<InstrumentRow>) -> Seq<(QuestionView, QuestionDiffKind)> {
    r.map_values(|x: InstrumentRow| (x.question@, x.kind))
}

pub open spec fn pair_views(q: Seq<(Question, QuestionDiffKind)>) -> Seq<(QuestionView, QuestionDiffKind)> {
    q.map_values(|x: (Question, QuestionDiffKind)| pair_view(x))
}

fn shows_in_exec(q: &Question, key: &str) -> (r: bool)
    ensures
        r == shows_in(q@, key@),
{
    let n = q.audiences.len();
    let mut j: usize = 0;
    while j < n
        invariant
            j <= n == q.audiences@.len(),
            forall|k: int| 0 <= k < j ==> (#[trigger] parse_spec(q@.content.audiences[k])).1 != key@,
        decreases n - j,
    {
        let a = InstrumentAudience::parse(q.audiences[j].as_str());
        assert(q@.content.audiences[j as int] == q.audiences@[j as int]@);
        if crate::text::str_eq(a.column.as_str(), key) {
            return true;
        }
        j = j + 1;
    }
    false
}

fn instrument_row(q: &Question, kind: QuestionDiffKind, columns: &Vec<InstrumentColumn>, by_lineament: bool) -> (r: InstrumentRow)
    ensures
        row_of_question(r, column_keys(columns@), by_lineament),
        r.question@ == q@,
        r.kind == kind,
{
    let mut values: Vec<String> = Vec::new();
    let (fc, fname) = split_number_name(q.factor.as_str());
    let (cc, cname) = split_number_name(q.characteristic.as_str());
    let (ac, adesc) = split_number_name(q.aspect.as_str());
    if !by_lineament {
        values.push(q.code.clone());
    }
    values.push(fc);
    values.push(fname);
    values.push(cc);
    values.push(cname);
    values.push(ac);
    values.push(adesc);
    if by_lineament {
        values.push(q.code.clone());
    }
    values.push(opt_text(&q.convention_code));
    let mut in_columns: Vec<bool> = Vec::new();
    let n = columns.len();
    let mut j: usize = 0;
    while j < n
        invariant
            j <= n == columns@.len(),
            in_columns@.len() == j,
            forall|k: int| 0 <= k < j ==> in_columns@[k] == shows_in(q@, #[trigger] column_keys(columns@)[k]),
        decreases n - j,
    {
        let shown = shows_in_exec(q, columns[j].key.as_str());
        in_columns.push(shown);
        j = j + 1;
    }
    let r = InstrumentRow { question: q.duplicate(), kind, values, in_columns };
    assert(strs(r.values@) =~= (if by_lineament {
        lineament_cells(q@)
    } else {
        order_cells(q@)
    }));
    r
}

/// The order of an instrument's sheet by guidelines (`by_lineament`) or by
/// code.
pub open spec fn sheet_le(a: QuestionView, b: QuestionView, by_lineament: bool) -> bool {
    if by_lineament {
        lineament_order(a, b) <= 0
    } else {
        code_order(a.content.code, b.content.code) <= 0
    }
}

/// Two rows in the order of the sheet by guidelines are ordered by factor
/// label as text; rows of one factor by characteristic label; rows of one
/// characteristic by aspect label; rows of one aspect by code, in natural
/// order.
pub proof fn lineament_order_is_lexicographic(a: QuestionView, b: QuestionView)
    requires
        sheet_le(a, b, true),
    ensures
        text_order(a.content.factor, b.content.factor) <= 0,
        a.content.factor == b.content.factor ==> text_order(
            a.content.characteristic,
            b.content.characteristic,
        ) <= 0,
        a.content.factor == b.content.factor && a.content.characteristic == b.content.characteristic
            ==> text_order(a.content.aspect, b.content.aspect) <= 0,
        a.content.factor == b.content.factor && a.content.characteristic == b.content.characteristic
            && a.content.aspect == b.content.aspect ==> code_order(a.content.code, b.content.code)
            <= 0,
{
    text_order_laws(a.content.factor, b.content.factor);
    text_order_laws(a.content.characteristic, b.content.characteristic);
    text_order_laws(a.content.aspect, b.content.aspect);
}

/// The rows, by the position in the instrument of the question each comes
/// from: every position once, each row its question's, rows that order
/// alike in the instrument's order.
pub open spec fn rows_placed(r: Seq<InstrumentRow>, q: Seq<(Question, QuestionDiffKind)>, by_lineament: bool, idx: Seq<int>) -> bool {
    &&& idx.len() == r.len()
    &&& forall|k: int|
        0 <= k < r.len() ==> 0 <= #[trigger] idx[k] < q.len() && (r[k].question@, r[k].kind) == pair_view(
            q[idx[k]],
        )
    &&& forall|k: int, l: int| 0 <= k < l < r.len() ==> #[trigger] idx[k] != #[trigger] idx[l]
    &&& forall|k: int, l: int|
        0 <= k < l < r.len() && sheet_le(r[l].question@, r[k].question@, by_lineament) ==> #[trigger] idx[k]
            < #[trigger] idx[l]
}

/// The rows of an instrument's sheet by guidelines (`by_lineament`) or by
/// order: every question of the instrument once, in `lineament_order` or
/// in natural code order, questions that order alike in the instrument's
/// order (a stable sort).
pub fn instrument_sheet_rows(w: &InstrumentWorkbook, by_lineament: bool) -> (r: Vec<InstrumentRow>)
    ensures
        row_pairs(r@).to_multiset() == pair_views(w.questions@).to_multiset(),
        forall|i: int, j: int|
            0 <= i < j < r@.len() ==> sheet_le(r@[i].question@, r@[j].question@, by_lineament),
        exists|idx: Seq<int>| rows_placed(r@, w.questions@, by_lineament, idx),
        forall|i: int| 0 <= i < r@.len() ==> row_of_question(#[trigger] r@[i], column_keys(w.subpublics@), by_lineament),
{
    let n = w.questions.len();
    let mut rows: Vec<InstrumentRow> = Vec::new();
    if by_lineament {
        let mut items: Vec<ByLineament> = Vec::new();
        let mut i: usize = 0;
        while i < n
            invariant
                i <= n == w.questions@.len(),
                items@.len() == i,
                forall|k: int| 0 <= k < i ==> pair_view((#[trigger] items@[k]).item) == pair_view(w.questions@[k]),
            decreases n - i,
        {
            items.push(ByLineament { item: duplicate_pair(&w.questions[i]) });
            i = i + 1;
        }
        let ghost unsorted = items@;
        let sorted_items = stable_sort(items);
        let ghost sv = sorted_items@.map_values(|x: Placed<ByLineament>| pair_view(x.item.item));
        proof {
            same_values_same_views(
                sorted_items@.map_values(|x: Placed<ByLineament>| x.item),
                unsorted,
                |x: ByLineament| pair_view(x.item),
            );
            assert(sorted_items@.map_values(|x: Placed<ByLineament>| x.item).map_values(
                |x: ByLineament| pair_view(x.item),
            ) =~= sv);
            assert(unsorted.map_values(|x: ByLineament| pair_view(x.item)) =~= pair_views(w.questions@));
        }
        let m = sorted_items.len();
        let mut k: usize = 0;
        while k < m
            invariant
                k <= m == sorted_items@.len(),
                sv == sorted_items@.map_values(|x: Placed<ByLineament>| pair_view(x.item.item)),
                row_pairs(rows@) == sv.take(k as int),
                forall|i: int| 0 <= i < rows@.len() ==> (#[trigger] rows@[i]).question@ == sorted_items@[i].item.item.0@,
                forall|i: int| 0 <= i < rows@.len() ==> row_of_question(#[trigger] rows@[i], column_keys(w.subpublics@), true),
            decreases m - k,
        {
            let x = &sorted_items[k].item.item;
            let row = instrument_row(&x.0, x.1, &w.subpublics, true);
            let ghost before = rows@;
            rows.push(row);
            assert(row_pairs(rows@) =~= row_pairs(before).push(pair_view(*x)));
            assert(sv.take(k + 1) =~= sv.take(k as int).push(pair_view(*x)));
            k = k + 1;
        }
        assert(sv.take(m as int) =~= sv);
        let ghost idx = sorted_items@.map_values(|x: Placed<ByLineament>| x.index as int);
        assert(rows_placed(rows@, w.questions@, true, idx)) by {
            assert forall|k: int| 0 <= k < rows@.len() implies 0 <= #[trigger] idx[k] < w.questions@.len()
                && (rows@[k].question@, rows@[k].kind) == pair_view(w.questions@[idx[k]]) by {
                assert(row_pairs(rows@)[k] == sv[k]);
                assert(sorted_items@[k].item == unsorted[sorted_items@[k].index as int]);
            }
            assert forall|k: int, l: int| 0 <= k < l < rows@.len() && sheet_le(rows@[l].question@, rows@[k].question@, true)
                implies #[trigger] idx[k] < #[trigger] idx[l] by {
                assert(ByLineament::le(sorted_items@[l].item, sorted_items@[k].item));
            }
        }
        assert forall|i: int, j: int| 0 <= i < j < rows@.len() implies sheet_le(rows@[i].question@, rows@[j].question@, true) by {
            assert(ByLineament::le(sorted_items@[i].item, sorted_items@[j].item));
        }
    } else {
        let mut items: Vec<ByCode> = Vec::new();
        let mut i: usize = 0;
        while i < n
            invariant
                i <= n == w.questions@.len(),
                items@.len() == i,
                forall|k: int| 0 <= k < i ==> pair_view((#[trigger] items@[k]).item) == pair_view(w.questions@[k]),
            decreases n - i,
        {
            items.push(ByCode { item: duplicate_pair(&w.questions[i]) });
            i = i + 1;
        }
        let ghost unsorted = items@;
        let sorted_items = stable_sort(items);
        let ghost sv = sorted_items@.map_values(|x: Placed<ByCode>| pair_view(x.item.item));
        proof {
            same_values_same_views(
                sorted_items@.map_values(|x: Placed<ByCode>| x.item),
                unsorted,
                |x: ByCode| pair_view(x.item),
            );
            assert(sorted_items@.map_values(|x: Placed<ByCode>| x.item).map_values(
                |x: ByCode| pair_view(x.item),
            ) =~= sv);
            assert(unsorted.map_values(|x: ByCode| pair_view(x.item)) =~= pair_views(w.questions@));
        }
        let m = sorted_items.len();
        let mut k: usize = 0;
        while k < m
            invariant
                k <= m == sorted_items@.len(),
                sv == sorted_items@.map_values(|x: Placed<ByCode>| pair_view(x.item.item)),
                row_pairs(rows@) == sv.take(k as int),
                forall|i: int| 0 <= i < rows@.len() ==> (#[trigger] rows@[i]).question@ == sorted_items@[i].item.item.0@,
                forall|i: int| 0 <= i < rows@.len() ==> row_of_question(#[trigger] rows@[i], column_keys(w.subpublics@), false),
            decreases m - k,
        {
            let x = &sorted_items[k].item.item;
            let row = instrument_row(&x.0, x.1, &w.subpublics, false);
            let ghost before = rows@;
            rows.push(row);
            assert(row_pairs(rows@) =~= row_pairs(before).push(pair_view(*x)));
            assert(sv.take(k + 1) =~= sv.take(k as int).push(pair_view(*x)));
            k = k + 1;
        }
        assert(sv.take(m as int) =~= sv);
        let ghost idx = sorted_items@.map_values(|x: Placed<ByCode>| x.index as int);
        assert(rows_placed(rows@, w.questions@, false, idx)) by {
            assert forall|k: int| 0 <= k < rows@.len() implies 0 <= #[trigger] idx[k] < w.questions@.len()
                && (rows@[k].question@, rows@[k].kind) == pair_view(w.questions@[idx[k]]) by {
                assert(row_pairs(rows@)[k] == sv[k]);
                assert(sorted_items@[k].item == unsorted[sorted_items@[k].index as int]);
            }
            assert forall|k: int, l: int| 0 <= k < l < rows@.len() && sheet_le(rows@[l].question@, rows@[k].question@, false)
                implies #[trigger] idx[k] < #[trigger] idx[l] by {
                assert(ByCode::le(sorted_items@[l].item, sorted_items@[k].item));
            }
        }
        assert forall|i: int, j: int| 0 <= i < j < rows@.len() implies sheet_le(rows@[i].question@, rows@[j].question@, false) by {
            assert(ByCode::le(sorted_items@[i].item, sorted_items@[j].item));
        }
    }
    rows
}

// ---------------------------------------------------------------------------
// Export requests
// ---------------------------------------------------------------------------

/// A público that instruments can be exported for.
#[derive(Debug)]
pub struct InstrumentPublicOption {
    pub public: String,
    pub label: String,
    pub subpublics: Vec<String>,
    pub question_count: usize,
}

pub open spec fn option_of(w: InstrumentWorkbook, o: InstrumentPublicOption) -> bool {
    &&& o.public@ == w.public@
    &&& o.label@ == display_public_spec(w.public@)
    &&& strs(o.subpublics@) == w.subpublics@.map_values(|c: InstrumentColumn| c.label@)
    &&& o.question_count == w.questions@.len()
}

/// The públicos of the instruments, in order, with their labels, their
/// columns' labels and their numbers of questions.
pub fn instrument_public_options(instruments: Vec<InstrumentWorkbook>) -> (r: Vec<InstrumentPublicOption>)
    ensures
        r@.len() == instruments@.len(),
        forall|i: int| 0 <= i < r@.len() ==> option_of(instruments@[i], #[trigger] r@[i]),
{
    let mut r: Vec<InstrumentPublicOption> = Vec::new();
    let n = instruments.len();
    let mut i: usize = 0;
    while i < n
        invariant
            i <= n == instruments@.len(),
            r@.len() == i,
            forall|k: int| 0 <= k < i ==> option_of(instruments@[k], #[trigger] r@[k]),
        decreases n - i,
    {
        let w = &instruments[i];
        let mut labels: Vec<String> = Vec::new();
        let m = w.subpublics.len();
        let mut j: usize = 0;
        while j < m
            invariant
                j <= m == w.subpublics@.len(),
                strs(labels@) == w.subpublics@.map_values(|c: InstrumentColumn| c.label@).take(j as int),
            decreases m - j,
        {
            labels.push(w.subpublics[j].label.clone());
            assert(w.subpublics@.map_values(|c: InstrumentColumn| c.label@).take(j + 1) =~= w.subpublics@.map_values(|c: InstrumentColumn| c.label@).take(j as int).push(w.subpublics@[j as int].label@));
            assert(strs(labels@) =~= w.subpublics@.map_values(|c: InstrumentColumn| c.label@).take(j + 1));
            j = j + 1;
        }
        assert(w.subpublics@.map_values(|c: InstrumentColumn| c.label@).take(m as int) =~= w.subpublics@.map_values(|c: InstrumentColumn| c.label@));
        r.push(InstrumentPublicOption {
            public: w.public.clone(),
            label: crate::audience::display_public_label(w.public.as_str()),
            subpublics: labels,
            question_count: w.questions.len(),
        });
        i = i + 1;
    }
    r
}

/// Whether an instrument is of the público asked for (any when none is).
pub open spec fn public_matches(public: Option<Seq<char>>) -> spec_fn(InstrumentWorkbook) -> bool {
    |w: InstrumentWorkbook| match public {
        Some(p) => w.public@ == p,
        None => true,
    }
}

pub open spec fn wanted_of(public: Option<&str>) -> Option<Seq<char>> {
    match public {
        Some(p) => Some(p@),
        None => None,
    }
}

/// The instruments to write: all of them, or those of the público asked
/// for; none is an error.
pub fn select_instruments(instruments: Vec<InstrumentWorkbook>, public: Option<&str>) -> (r: Result<Vec<InstrumentWorkbook>, String>)
    ensures
        ({
            let kept = instruments@.filter(public_matches(wanted_of(public)));
            &&& kept.len() == 0 ==> (r matches Err(m) && m@ == "no questions were found for the selected public"@)
            &&& kept.len() > 0 ==> (r matches Ok(v) && v@ == kept)
        }),
{
    let ghost start = instruments@;
    let mut rest = instruments;
    let mut kept: Vec<InstrumentWorkbook> = Vec::new();
    let ghost mut k: int = 0;
    assert(start.take(0).filter(public_matches(wanted_of(public))) =~= Seq::<InstrumentWorkbook>::empty()) by {
        reveal(Seq::filter);
    }
    assert(rest@ =~= start.skip(0));
    while rest.len() > 0
        invariant
            0 <= k <= start.len(),
            rest@ == start.skip(k),
            kept@ == start.take(k).filter(public_matches(wanted_of(public))),
        decreases rest@.len(),
    {
        let w = rest.remove(0);
        proof {
            crate::collab::filter_step(start, k, public_matches(wanted_of(public)));
        }
        assert(w == start[k]);
        let matches = match public {
            Some(p) => crate::text::str_eq(w.public.as_str(), p),
            None => true,
        };
        assert(matches == public_matches(wanted_of(public))(w));
        if matches {
            kept.push(w);
        }
        proof {
            k = k + 1;
        }
        assert(rest@ =~= start.skip(k));
    }
    assert(start.take(k) =~= start);
    if kept.len() == 0 {
        Err(lit("no questions were found for the selected public"))
    } else {
        Ok(kept)
    }
}

/// Exports compare with the original baseline, which must exist.
pub fn check_export_baseline(snapshot_count: usize) -> (r: Result<(), String>)
    ensures
        snapshot_count == 0 ==> (r matches Err(m) && m@
            == "mark an original baseline before exporting change-colored workbooks"@),
        snapshot_count > 0 ==> r is Ok,
{
    if snapshot_count == 0 {
        Err(lit("mark an original baseline before exporting change-colored workbooks"))
    } else {
        Ok(())
    }
}

/// What an export reports: its path and kind, the questions of the bank,
/// and the comparison's added, modified and removed questions.
pub fn export_result(path: String, kind: ExportKind, exported_questions: usize, diffed: &Vec<(Question, QuestionDiffKind)>) -> (r: ExportWorkbookResult)
    ensures
        r.path@ == path@,
        r.kind == kind,
        r.exported_questions == exported_questions,
        r.added_questions == kind_count(diff_view(diffed@), QuestionDiffKind::Added),
        r.modified_questions == kind_count(diff_view(diffed@), QuestionDiffKind::Modified),
        r.removed_questions == kind_count(diff_view(diffed@), QuestionDiffKind::Removed),
{
    ExportWorkbookResult {
        path,
        kind,
        exported_questions,
        added_questions: count_kind(diffed, QuestionDiffKind::Added),
        modified_questions: count_kind(diffed, QuestionDiffKind::Modified),
        removed_questions: count_kind(diffed, QuestionDiffKind::Removed),
    }
}

/// Without a baseline every question counts as unchanged.
pub fn unchanged_comparison(questions: Vec<Question>) -> (r: Vec<(Question, QuestionDiffKind)>)
    ensures
        diff_view(r@) == questions_view(questions@).map_values(|q: QuestionView| (q, QuestionDiffKind::Unchanged)),
{
    let ghost qv = questions_view(questions@);
    let mut r: Vec<(Question, QuestionDiffKind)> = Vec::new();
    let mut rest = questions;
    let ghost mut k: int = 0;
    let ghost start = rest@;
    while rest.len() > 0
        invariant
            0 <= k <= start.len(),
            qv == questions_view(start),
            rest@ == start.skip(k),
            diff_view(r@) == qv.take(k).map_values(|q: QuestionView| (q, QuestionDiffKind::Unchanged)),
        decreases rest@.len(),
    {
        let q = rest.remove(0);
        let ghost before = r@;
        assert(q == start[k]);
        r.push((q, QuestionDiffKind::Unchanged));
        assert(diff_view(r@) =~= diff_view(before).push((qv[k], QuestionDiffKind::Unchanged)));
        assert(qv.take(k + 1).map_values(|q: QuestionView| (q, QuestionDiffKind::Unchanged)) =~= qv.take(k).map_values(|q: QuestionView| (q, QuestionDiffKind::Unchanged)).push((qv[k], QuestionDiffKind::Unchanged)));
        proof {
            k = k + 1;
        }
        assert(rest@ =~= start.skip(k));
    }
    assert(qv.take(k) =~= qv);
    r
}

} // verus!
