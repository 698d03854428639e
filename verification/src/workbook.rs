//! Importing a consolidated question workbook: the sheets' rows become
//! questions and guideline aspects, merged by code across sheets.
use vstd::prelude::*;
use vstd::utf8::encode_utf8;

use crate::audience::{audience_from_excel, audience_from_excel_spec};
use crate::columns::{cell, cell_text, columns_of, first_header, find_header, get, parse_scope, parse_status, rows_view, scope_spec, status_spec, ColumnMap};
use crate::domain::{
    aspect_code_spec, aspects_view, clone_opt, clone_strings, factor_key, new_questions_view,
    normalize_aspect_code, opt_str, strs, AspectView, CnaFactorCode, NewGuidelineAspect,
    NewQuestion, NewQuestionView, QuestionScope, QuestionStatus,
};
use crate::importer::{
    code_key, format_spec, forward_fill, forward_fill_spec, join_number_name,
    join_number_name_spec, none_if_empty, normalize_key, question_format_from_convention,
    stable_code, stable_code_text,
};
use crate::domain::factor_number;
use crate::importer::{insert_sorted_unique, natural_code_parts, natural_parts, strictly_sorted};
use crate::marks::{has_cell, SheetMarks};
use crate::sort::{
    nums_le, nums_le_exec, nums_le_total, nums_le_trans, stable_order, stable_sort_vec, sorted, text_le, text_le_exec,
    text_le_total, text_le_trans, Ordered,
};
use crate::text::{append_chars, chars_of, is_blank, is_blank_chars, join, join_words, lit, str_eq, string_of, views};

verus! {

// ---------------------------------------------------------------------------
// Merging rules
// ---------------------------------------------------------------------------

/// The length of a text in UTF-8 bytes (`str::len`).
pub open spec fn byte_len(s: Seq<char>) -> nat {
    encode_utf8(s).len()
}

/// `list` with `a` added at the end unless it is already there.
pub open spec fn add_audience(list: Seq<Seq<char>>, a: Seq<char>) -> Seq<Seq<char>> {
    if list.contains(a) {
        list
    } else {
        list.push(a)
    }
}

/// `list` with each of `incoming`, in order, added unless already there.
pub open spec fn add_audiences(list: Seq<Seq<char>>, incoming: Seq<Seq<char>>) -> Seq<Seq<char>>
    decreases incoming.len(),
{
    if incoming.len() == 0 {
        list
    } else {
        add_audience(add_audiences(list, incoming.drop_last()), incoming.last())
    }
}

/// What identifies a guideline aspect when merging: scope, factor,
/// characteristic code and aspect code, the two codes as `code_key`.
pub open spec fn aspect_key(a: AspectView) -> (QuestionScope, Seq<char>, Seq<char>, Seq<char>) {
    (a.scope, a.factor_code, code_key(a.characteristic_code), code_key(a.aspect_code))
}

/// The last position of an aspect with key `k`.
pub open spec fn find_aspect(s: Seq<AspectView>, k: (QuestionScope, Seq<char>, Seq<char>, Seq<char>)) -> Option<int>
    decreases s.len(),
{
    if s.len() == 0 {
        None
    } else if aspect_key(s.last()) == k {
        Some(s.len() - 1)
    } else {
        find_aspect(s.drop_last(), k)
    }
}

/// An aspect seen again: blank names are filled, the longer description
/// (in bytes) wins, and appreciation is required if either asks for it.
pub open spec fn combine_aspect(cur: AspectView, inc: AspectView) -> AspectView {
    AspectView {
        factor_name: if is_blank(cur.factor_name) { inc.factor_name } else { cur.factor_name },
        characteristic_name: if is_blank(cur.characteristic_name) {
            inc.characteristic_name
        } else {
            cur.characteristic_name
        },
        aspect_description: if byte_len(inc.aspect_description) > byte_len(cur.aspect_description) {
            inc.aspect_description
        } else {
            cur.aspect_description
        },
        requires_appreciation: cur.requires_appreciation || inc.requires_appreciation,
        ..cur
    }
}

/// Adds an aspect to a list keyed by `aspect_key`, merging it into the one
/// with the same key.
pub open spec fn merge_aspect_seq(s: Seq<AspectView>, inc: AspectView) -> Seq<AspectView> {
    match find_aspect(s, aspect_key(inc)) {
        Some(i) => s.update(i, combine_aspect(s[i], inc)),
        None => s.push(inc),
    }
}

/// The last position of a question with code `code`.
pub open spec fn find_code(s: Seq<NewQuestionView>, code: Seq<char>) -> Option<int>
    decreases s.len(),
{
    if s.len() == 0 {
        None
    } else if s.last().code == code {
        Some(s.len() - 1)
    } else {
        find_code(s.drop_last(), code)
    }
}

/// A question found in another sheet: the longer text (in bytes) wins, a
/// missing convention, blank hierarchy labels and a blank justification
/// are filled, audiences are added, and a kept question takes the other
/// sheet's change status.
pub open spec fn combine_question(cur: NewQuestionView, inc: NewQuestionView) -> NewQuestionView {
    NewQuestionView {
        text: if byte_len(inc.text) > byte_len(cur.text) { inc.text } else { cur.text },
        convention_code: if cur.convention_code is None {
            inc.convention_code
        } else {
            cur.convention_code
        },
        factor: if is_blank(cur.factor) { inc.factor } else { cur.factor },
        characteristic: if is_blank(cur.characteristic) {
            inc.characteristic
        } else {
            cur.characteristic
        },
        aspect: if is_blank(cur.aspect) { inc.aspect } else { cur.aspect },
        audiences: add_audiences(cur.audiences, inc.audiences),
        status: if cur.status == QuestionStatus::Keep && inc.status != QuestionStatus::Keep {
            inc.status
        } else {
            cur.status
        },
        justification: match cur.justification {
            Some(j) => if is_blank(j) { inc.justification } else { cur.justification },
            None => inc.justification,
        },
        ..cur
    }
}

/// Adds a question to a list keyed by code, merging it into the one with
/// the same code.
pub open spec fn merge_question_seq(s: Seq<NewQuestionView>, inc: NewQuestionView) -> Seq<NewQuestionView> {
    match find_code(s, inc.code) {
        Some(i) => s.update(i, combine_question(s[i], inc)),
        None => s.push(inc),
    }
}

/// A row's question within one sheet: the first row with a code makes the
/// question, later rows with the same code only add their audience.
pub open spec fn group_question(s: Seq<NewQuestionView>, q: NewQuestionView, audience: Seq<char>) -> Seq<NewQuestionView> {
    let with_audience = |x: NewQuestionView|
        if audience.len() > 0 {
            NewQuestionView { audiences: add_audience(x.audiences, audience), ..x }
        } else {
            x
        };
    match find_code(s, q.code) {
        Some(i) => s.update(i, with_audience(s[i])),
        None => s.push(with_audience(q)),
    }
}

// ---------------------------------------------------------------------------
// Executable merging
// ---------------------------------------------------------------------------

/// The key of an aspect, as computed once when it is stored.
struct AspectKey {
    scope: QuestionScope,
    factor: String,
    characteristic: String,
    aspect: String,
}

spec fn key_view(k: AspectKey) -> (QuestionScope, Seq<char>, Seq<char>, Seq<char>) {
    (k.scope, k.factor@, k.characteristic@, k.aspect@)
}

spec fn keys_match(keys: Seq<AspectKey>, s: Seq<AspectView>) -> bool {
    &&& keys.len() == s.len()
    &&& forall|i: int| 0 <= i < keys.len() ==> key_view(#[trigger] keys[i]) == aspect_key(s[i])
}

fn key_of(a: &NewGuidelineAspect) -> (r: AspectKey)
    ensures
        key_view(r) == aspect_key(a@),
{
    AspectKey {
        scope: a.scope,
        factor: crate::text::lit(a.factor_code.as_str()),
        characteristic: normalize_key(a.characteristic_code.as_str()),
        aspect: normalize_key(a.aspect_code.as_str()),
    }
}

fn same_key(a: &AspectKey, b: &AspectKey) -> (r: bool)
    ensures
        r == (key_view(*a) == key_view(*b)),
{
    let scope_same = match (a.scope, b.scope) {
        (QuestionScope::Institutional, QuestionScope::Institutional) => true,
        (QuestionScope::Program, QuestionScope::Program) => true,
        _ => false,
    };
    scope_same && str_eq(a.factor.as_str(), b.factor.as_str()) && str_eq(
        a.characteristic.as_str(),
        b.characteristic.as_str(),
    ) && str_eq(a.aspect.as_str(), b.aspect.as_str())
}

fn find_key(keys: &Vec<AspectKey>, k: &AspectKey, Ghost(s): Ghost<Seq<AspectView>>) -> (r: Option<usize>)
    requires
        keys_match(keys@, s),
    ensures
        r matches Some(i) ==> i < s.len(),
        (match r {
            Some(i) => Some(i as int),
            None => None,
        }) == find_aspect(s, key_view(*k)),
{
    let mut n = keys.len();
    assert(s.take(n as int) =~= s);
    while n > 0
        invariant
            n <= keys@.len() == s.len(),
            keys_match(keys@, s),
            find_aspect(s, key_view(*k)) == find_aspect(s.take(n as int), key_view(*k)),
        decreases n,
    {
        assert(s.take(n as int).drop_last() =~= s.take(n - 1));
        assert(s.take(n as int).last() == s[n - 1]);
        assert(key_view(keys@[n - 1]) == aspect_key(s[n - 1]));
        if same_key(&keys[n - 1], k) {
            return Some(n - 1);
        }
        n = n - 1;
    }
    None
}

fn bytes_longer(a: &String, b: &String) -> (r: bool)
    ensures
        r == (byte_len(a@) > byte_len(b@)),
{
    a.as_str().as_bytes().len() > b.as_str().as_bytes().len()
}

fn combine_aspect_exec(cur: &NewGuidelineAspect, inc: &NewGuidelineAspect) -> (r: NewGuidelineAspect)
    ensures
        r@ == combine_aspect(cur@, inc@),
{
    let mut r = cur.duplicate();
    if is_blank_chars(&chars_of(cur.factor_name.as_str())) {
        r.factor_name = inc.factor_name.clone();
    }
    if is_blank_chars(&chars_of(cur.characteristic_name.as_str())) {
        r.characteristic_name = inc.characteristic_name.clone();
    }
    if bytes_longer(&inc.aspect_description, &cur.aspect_description) {
        r.aspect_description = inc.aspect_description.clone();
    }
    r.requires_appreciation = cur.requires_appreciation || inc.requires_appreciation;
    r
}

/// Adds `inc` to the aspects, keeping the key list beside them.
fn merge_aspect_into(
    aspects: &mut Vec<NewGuidelineAspect>,
    keys: &mut Vec<AspectKey>,
    inc: NewGuidelineAspect,
)
    requires
        keys_match(old(keys)@, aspects_view(old(aspects)@)),
    ensures
        keys_match(final(keys)@, aspects_view(final(aspects)@)),
        aspects_view(final(aspects)@) == merge_aspect_seq(aspects_view(old(aspects)@), inc@),
{
    let ghost s = aspects_view(aspects@);
    let k = key_of(&inc);
    match find_key(keys, &k, Ghost(s)) {
        Some(i) => {
            let merged = combine_aspect_exec(&aspects[i], &inc);
            aspects.set(i, merged);
            assert(aspects_view(aspects@) =~= s.update(i as int, combine_aspect(s[i as int], inc@)));
        },
        None => {
            aspects.push(inc);
            keys.push(k);
            assert(aspects_view(aspects@) =~= s.push(inc@));
        },
    }
}

/// Whether `a` is one of the texts of `list`.
fn has_text(list: &Vec<String>, a: &String) -> (r: bool)
    ensures
        r == strs(list@).contains(a@),
{
    let n = list.len();
    let mut i: usize = 0;
    while i < n
        invariant
            i <= n == list@.len(),
            forall|k: int| 0 <= k < i ==> strs(list@)[k] != a@,
        decreases n - i,
    {
        if str_eq(list[i].as_str(), a.as_str()) {
            assert(strs(list@)[i as int] == a@);
            return true;
        }
        i = i + 1;
    }
    false
}

fn add_audience_into(list: &mut Vec<String>, a: &String)
    ensures
        strs(final(list)@) == add_audience(strs(old(list)@), a@),
{
    if !has_text(list, a) {
        let ghost before = strs(list@);
        list.push(a.clone());
        assert(strs(list@) =~= before.push(a@));
    }
}

fn add_audiences_into(list: &mut Vec<String>, incoming: &Vec<String>)
    ensures
        strs(final(list)@) == add_audiences(strs(old(list)@), strs(incoming@)),
{
    let ghost start = strs(list@);
    let n = incoming.len();
    let mut i: usize = 0;
    while i < n
        invariant
            i <= n == incoming@.len(),
            strs(list@) == add_audiences(start, strs(incoming@).take(i as int)),
        decreases n - i,
    {
        add_audience_into(list, &incoming[i]);
        assert(strs(incoming@).take(i + 1).drop_last() =~= strs(incoming@).take(i as int));
        i = i + 1;
    }
    assert(strs(incoming@).take(n as int) =~= strs(incoming@));
}

fn find_question(qs: &Vec<NewQuestion>, code: &String) -> (r: Option<usize>)
    ensures
        r matches Some(i) ==> i < qs@.len(),
        (match r {
            Some(i) => Some(i as int),
            None => None,
        }) == find_code(new_questions_view(qs@), code@),
{
    let ghost s = new_questions_view(qs@);
    let mut n = qs.len();
    assert(s.take(n as int) =~= s);
    while n > 0
        invariant
            n <= qs@.len() == s.len(),
            s == new_questions_view(qs@),
            find_code(s, code@) == find_code(s.take(n as int), code@),
        decreases n,
    {
        assert(s.take(n as int).drop_last() =~= s.take(n - 1));
        if str_eq(qs[n - 1].code.as_str(), code.as_str()) {
            return Some(n - 1);
        }
        n = n - 1;
    }
    None
}

fn combine_question_exec(cur: &NewQuestion, inc: &NewQuestion) -> (r: NewQuestion)
    ensures
        r@ == combine_question(cur@, inc@),
{
    let mut r = cur.duplicate();
    if bytes_longer(&inc.text, &cur.text) {
        r.text = inc.text.clone();
    }
    if cur.convention_code.is_none() {
        r.convention_code = clone_opt(&inc.convention_code);
    }
    if is_blank_chars(&chars_of(cur.factor.as_str())) {
        r.factor = inc.factor.clone();
    }
    if is_blank_chars(&chars_of(cur.characteristic.as_str())) {
        r.characteristic = inc.characteristic.clone();
    }
    if is_blank_chars(&chars_of(cur.aspect.as_str())) {
        r.aspect = inc.aspect.clone();
    }
    add_audiences_into(&mut r.audiences, &inc.audiences);
    let cur_keep = match cur.status {
        QuestionStatus::Keep => true,
        _ => false,
    };
    let inc_keep = match inc.status {
        QuestionStatus::Keep => true,
        _ => false,
    };
    if cur_keep && !inc_keep {
        r.status = inc.status;
    }
    let blank_justification = match &cur.justification {
        Some(j) => is_blank_chars(&chars_of(j.as_str())),
        None => true,
    };
    if blank_justification {
        r.justification = clone_opt(&inc.justification);
    }
    r
}

/// Adds `inc` to the questions, merging it into the one with its code.
fn merge_question_into(qs: &mut Vec<NewQuestion>, inc: NewQuestion)
    ensures
        new_questions_view(final(qs)@) == merge_question_seq(new_questions_view(old(qs)@), inc@),
{
    let ghost s = new_questions_view(qs@);
    match find_question(qs, &inc.code) {
        Some(i) => {
            let merged = combine_question_exec(&qs[i], &inc);
            qs.set(i, merged);
            assert(new_questions_view(qs@) =~= s.update(i as int, combine_question(s[i as int], inc@)));
        },
        None => {
            qs.push(inc);
            assert(new_questions_view(qs@) =~= s.push(inc@));
        },
    }
}

/// Adds a row's question within a sheet (see `group_question`).
fn group_question_into(qs: &mut Vec<NewQuestion>, q: NewQuestion, audience: &String)
    ensures
        new_questions_view(final(qs)@) == group_question(new_questions_view(old(qs)@), q@, audience@),
{
    let ghost s = new_questions_view(qs@);
    match find_question(qs, &q.code) {
        Some(i) => {
            let mut cur = qs[i].duplicate();
            if !audience.as_str().is_empty() {
                add_audience_into(&mut cur.audiences, audience);
            }
            qs.set(i, cur);
            assert(new_questions_view(qs@) =~= group_question(s, q@, audience@));
        },
        None => {
            let mut cur = q;
            if !audience.as_str().is_empty() {
                add_audience_into(&mut cur.audiences, audience);
            }
            qs.push(cur);
            assert(new_questions_view(qs@) =~= group_question(s, q@, audience@));
        },
    }
}

// ---------------------------------------------------------------------------
// Rows of one sheet
// ---------------------------------------------------------------------------

/// Whether the cell of column `col` in Excel row `row` is among `cells`.
pub open spec fn marked(cells: Seq<(usize, usize)>, col: Option<usize>, row: usize) -> bool {
    match col {
        Some(c) => cells.contains((row, c)),
        None => false,
    }
}

/// A red mark on any hierarchy or question cell keeps the row out.
pub open spec fn red_signal(m: SheetMarks, c: ColumnMap, row: usize) -> bool {
    let red = m.red@;
    marked(red, c.n_factor, row) || marked(red, c.descripcion_factor, row) || marked(
        red,
        c.n_caracteristica,
        row,
    ) || marked(red, c.nombre_caracteristica, row) || marked(red, c.n_aspecto, row) || marked(
        red,
        c.descripcion_aspecto,
        row,
    ) || marked(red, c.estado_pregunta, row) || marked(red, c.n_pregunta, row) || marked(
        red,
        c.pregunta,
        row,
    )
}

pub open spec fn question_cell_marked(cells: Seq<(usize, usize)>, c: ColumnMap, row: usize) -> bool {
    marked(cells, c.estado_pregunta, row) || marked(cells, c.n_pregunta, row) || marked(
        cells,
        c.pregunta,
        row,
    )
}

/// A green question cell marks an added question, a blue one a modified
/// question (green first).
pub open spec fn marked_status(m: SheetMarks, c: ColumnMap, row: usize) -> Option<QuestionStatus> {
    if question_cell_marked(m.green@, c, row) {
        Some(QuestionStatus::Add)
    } else if question_cell_marked(m.blue@, c, row) {
        Some(QuestionStatus::Modify)
    } else {
        None
    }
}

/// The last values seen in the hierarchy columns.
pub struct Fill {
    pub factor_code: Seq<char>,
    pub factor_name: Seq<char>,
    pub characteristic_code: Seq<char>,
    pub characteristic_name: Seq<char>,
    pub aspect_code: Seq<char>,
    pub aspect_description: Seq<char>,
}

pub open spec fn empty_fill() -> Fill {
    Fill {
        factor_code: Seq::empty(),
        factor_name: Seq::empty(),
        characteristic_code: Seq::empty(),
        characteristic_name: Seq::empty(),
        aspect_code: Seq::empty(),
        aspect_description: Seq::empty(),
    }
}

/// The hierarchy of a row, blank cells filled from the rows above.
pub open spec fn row_fill(row: Seq<Seq<char>>, c: ColumnMap, last: Fill) -> Fill {
    Fill {
        factor_code: forward_fill_spec(cell_text(row, c.n_factor), last.factor_code),
        factor_name: forward_fill_spec(cell_text(row, c.descripcion_factor), last.factor_name),
        characteristic_code: forward_fill_spec(
            cell_text(row, c.n_caracteristica),
            last.characteristic_code,
        ),
        characteristic_name: forward_fill_spec(
            cell_text(row, c.nombre_caracteristica),
            last.characteristic_name,
        ),
        aspect_code: forward_fill_spec(cell_text(row, c.n_aspecto), last.aspect_code),
        aspect_description: forward_fill_spec(
            cell_text(row, c.descripcion_aspecto),
            last.aspect_description,
        ),
    }
}

/// What one sheet has given so far.
pub struct SheetState {
    pub fill: Fill,
    pub questions: Seq<NewQuestionView>,
    pub aspects: Seq<AspectView>,
    pub skipped: nat,
}

pub open spec fn empty_sheet_state() -> SheetState {
    SheetState { fill: empty_fill(), questions: Seq::empty(), aspects: Seq::empty(), skipped: 0 }
}

/// The aspect code of a row once normalised (`normalize_aspect_code`).
pub open spec fn row_aspect_code(factor: Seq<char>, f: Fill) -> Seq<char> {
    aspect_code_spec(factor, f.characteristic_code, f.aspect_code, f.aspect_description)
}

/// The guideline aspect that a row describes.
pub open spec fn row_aspect(scope: QuestionScope, factor: Seq<char>, f: Fill) -> AspectView {
    AspectView {
        guideline_title: "Lineamiento CNA importado"@,
        scope,
        factor_code: factor,
        factor_name: f.factor_name,
        characteristic_code: f.characteristic_code,
        characteristic_name: f.characteristic_name,
        aspect_code: row_aspect_code(factor, f),
        aspect_description: f.aspect_description,
        requires_appreciation: true,
    }
}

/// The question that a row describes, before its audience is added. A row
/// without a code gets the generated one.
pub open spec fn row_question(
    row: Seq<Seq<char>>,
    c: ColumnMap,
    f: Fill,
    scope: QuestionScope,
    status: QuestionStatus,
    factor: Seq<char>,
) -> NewQuestionView {
    let text = cell_text(row, c.pregunta);
    let given = cell_text(row, c.n_pregunta);
    let convention = cell_text(row, c.convencion);
    NewQuestionView {
        code: if given.len() == 0 { stable_code_text(text) } else { given },
        text,
        scope,
        format: format_spec(convention, text),
        convention_code: if convention.len() == 0 { None } else { Some(convention) },
        status,
        factor: join_number_name_spec(f.factor_code, f.factor_name),
        characteristic: join_number_name_spec(f.characteristic_code, f.characteristic_name),
        aspect: join_number_name_spec(row_aspect_code(factor, f), f.aspect_description),
        audiences: Seq::empty(),
        justification: None,
    }
}

/// One row of a sheet: rows marked for deletion or in red are skipped; a
/// row with a factor code gives its guideline aspect; a row with a question
/// and a full hierarchy gives its question, grouped by code; other rows are
/// skipped. A factor code that holds no code is an error, the code given.
#[verifier::opaque]
pub open spec fn row_step(
    c: ColumnMap,
    m: SheetMarks,
    row: Seq<Seq<char>>,
    excel_row: usize,
    st: SheetState,
) -> Result<SheetState, Seq<char>> {
    let status0 = status_spec(cell_text(row, c.estado_pregunta));
    if status0 == QuestionStatus::Delete || red_signal(m, c, excel_row) {
        Ok(SheetState { skipped: st.skipped + 1, ..st })
    } else {
        let status = match marked_status(m, c, excel_row) {
            Some(s) => s,
            None => status0,
        };
        let scope = scope_spec(cell_text(row, c.tipo_pregunta));
        let f = row_fill(row, c, st.fill);
        let factor = factor_key(f.factor_code);
        if f.factor_code.len() > 0 && factor.len() == 0 {
            Err(f.factor_code)
        } else {
            let aspects = if f.aspect_description.len() > 0 && f.factor_code.len() > 0 && (
            f.factor_name.len() > 0 || f.characteristic_name.len() > 0) {
                merge_aspect_seq(st.aspects, row_aspect(scope, factor, f))
            } else {
                st.aspects
            };
            let text = cell_text(row, c.pregunta);
            if text.len() == 0 || f.factor_code.len() == 0 || f.characteristic_code.len() == 0
                || f.characteristic_name.len() == 0 || f.aspect_description.len() == 0 {
                Ok(SheetState { fill: f, questions: st.questions, aspects, skipped: st.skipped + 1 })
            } else {
                let audience = audience_from_excel_spec(
                    cell_text(row, c.publico),
                    cell_text(row, c.tipo_de_publico),
                );
                Ok(
                    SheetState {
                        fill: f,
                        questions: group_question(
                            st.questions,
                            row_question(row, c, f, scope, status, factor),
                            audience,
                        ),
                        aspects,
                        skipped: st.skipped,
                    },
                )
            }
        }
    }
}

/// A row that brings a new question into a sheet is neither marked in red
/// nor written as deleted, and its question takes its status from the
/// colours of its question cells (status, code or question): green means
/// added, blue without green modified, and with neither colour the status
/// written in the row.
pub proof fn row_status_from_marks(
    c: ColumnMap,
    m: SheetMarks,
    row: Seq<Seq<char>>,
    excel_row: usize,
    st: SheetState,
)
    requires
        row_step(c, m, row, excel_row, st) matches Ok(st2) && st2.questions.len() > st.questions.len(),
    ensures
        ({
            let q = row_step(c, m, row, excel_row, st)->Ok_0.questions.last();
            let written = status_spec(cell_text(row, c.estado_pregunta));
            let r = excel_row;
            let green = marked(m.green@, c.estado_pregunta, r) || marked(m.green@, c.n_pregunta, r)
                || marked(m.green@, c.pregunta, r);
            let blue = marked(m.blue@, c.estado_pregunta, r) || marked(m.blue@, c.n_pregunta, r)
                || marked(m.blue@, c.pregunta, r);
            &&& !marked(m.red@, c.n_factor, r) && !marked(m.red@, c.descripcion_factor, r)
                && !marked(m.red@, c.n_caracteristica, r) && !marked(m.red@, c.nombre_caracteristica, r)
                && !marked(m.red@, c.n_aspecto, r) && !marked(m.red@, c.descripcion_aspecto, r)
                && !marked(m.red@, c.estado_pregunta, r) && !marked(m.red@, c.n_pregunta, r)
                && !marked(m.red@, c.pregunta, r)
            &&& written != QuestionStatus::Delete
            &&& green ==> q.status == QuestionStatus::Add
            &&& blue && !green ==> q.status == QuestionStatus::Modify
            &&& !green && !blue ==> q.status == written
        }),
{
    reveal(row_step);
    let status0 = status_spec(cell_text(row, c.estado_pregunta));
    if !(status0 == QuestionStatus::Delete || red_signal(m, c, excel_row)) {
        let status = match marked_status(m, c, excel_row) {
            Some(s) => s,
            None => status0,
        };
        let scope = scope_spec(cell_text(row, c.tipo_pregunta));
        let f = row_fill(row, c, st.fill);
        let factor = factor_key(f.factor_code);
        let qq = row_question(row, c, f, scope, status, factor);
        let audience = audience_from_excel_spec(cell_text(row, c.publico), cell_text(row, c.tipo_de_publico));
        let g = group_question(st.questions, qq, audience);
        find_code_found(st.questions, qq.code);
        match find_code(st.questions, qq.code) {
            Some(i) => {
                assert(g.len() == st.questions.len());
            },
            None => {
                assert(g.last().status == status);
            },
        }
    }
}

/// The first `n` data rows of a sheet whose header is row `header`; an
/// error carries the sheet row number (data offset + 2) and the value.
pub open spec fn sheet_fold(
    c: ColumnMap,
    m: SheetMarks,
    rows: Seq<Seq<Seq<char>>>,
    header: int,
    n: int,
) -> Result<SheetState, (int, Seq<char>)>
    decreases n,
{
    if n <= 0 {
        Ok(empty_sheet_state())
    } else {
        match sheet_fold(c, m, rows, header, n - 1) {
            Err(e) => Err(e),
            Ok(st) => match row_step(c, m, rows[header + n], (header + n + 1) as usize, st) {
                Ok(next) => Ok(next),
                Err(v) => Err((n + 1, v)),
            },
        }
    }
}

proof fn row_step_counts(c: ColumnMap, m: SheetMarks, row: Seq<Seq<char>>, excel_row: usize, st: SheetState)
    ensures
        row_step(c, m, row, excel_row, st) matches Ok(next) ==> st.skipped <= next.skipped
            <= st.skipped + 1,
{
    reveal(row_step);
}

/// Once a row fails, the sheet fails with that row.
proof fn sheet_fold_error_stays(c: ColumnMap, m: SheetMarks, rows: Seq<Seq<Seq<char>>>, header: int, n: int, k: int)
    requires
        0 <= n <= k,
        sheet_fold(c, m, rows, header, n) is Err,
    ensures
        sheet_fold(c, m, rows, header, k) == sheet_fold(c, m, rows, header, n),
    decreases k - n,
{
    if k > n {
        sheet_fold_error_stays(c, m, rows, header, n, k - 1);
    }
}

// ---------------------------------------------------------------------------
// Executable rows
// ---------------------------------------------------------------------------

struct FillText {
    factor_code: String,
    factor_name: String,
    characteristic_code: String,
    characteristic_name: String,
    aspect_code: String,
    aspect_description: String,
}

spec fn fill_view(f: FillText) -> Fill {
    Fill {
        factor_code: f.factor_code@,
        factor_name: f.factor_name@,
        characteristic_code: f.characteristic_code@,
        characteristic_name: f.characteristic_name@,
        aspect_code: f.aspect_code@,
        aspect_description: f.aspect_description@,
    }
}

struct SheetRows {
    fill: FillText,
    questions: Vec<NewQuestion>,
    aspects: Vec<NewGuidelineAspect>,
    keys: Vec<AspectKey>,
    skipped: usize,
}

spec fn sheet_view(s: SheetRows) -> SheetState {
    SheetState {
        fill: fill_view(s.fill),
        questions: new_questions_view(s.questions@),
        aspects: aspects_view(s.aspects@),
        skipped: s.skipped as nat,
    }
}

fn is_marked(cells: &Vec<(usize, usize)>, col: Option<usize>, row: usize) -> (r: bool)
    ensures
        r == marked(cells@, col, row),
{
    match col {
        Some(c) => has_cell(cells, (row, c)),
        None => false,
    }
}

fn red_signal_exec(m: &SheetMarks, c: &ColumnMap, row: usize) -> (r: bool)
    ensures
        r == red_signal(*m, *c, row),
{
    is_marked(&m.red, c.n_factor, row) || is_marked(&m.red, c.descripcion_factor, row)
        || is_marked(&m.red, c.n_caracteristica, row) || is_marked(
        &m.red,
        c.nombre_caracteristica,
        row,
    ) || is_marked(&m.red, c.n_aspecto, row) || is_marked(&m.red, c.descripcion_aspecto, row)
        || is_marked(&m.red, c.estado_pregunta, row) || is_marked(&m.red, c.n_pregunta, row)
        || is_marked(&m.red, c.pregunta, row)
}

fn question_cell_marked_exec(cells: &Vec<(usize, usize)>, c: &ColumnMap, row: usize) -> (r: bool)
    ensures
        r == question_cell_marked(cells@, *c, row),
{
    is_marked(cells, c.estado_pregunta, row) || is_marked(cells, c.n_pregunta, row) || is_marked(
        cells,
        c.pregunta,
        row,
    )
}

fn marked_status_exec(m: &SheetMarks, c: &ColumnMap, row: usize) -> (r: Option<QuestionStatus>)
    ensures
        r == marked_status(*m, *c, row),
{
    if question_cell_marked_exec(&m.green, c, row) {
        Some(QuestionStatus::Add)
    } else if question_cell_marked_exec(&m.blue, c, row) {
        Some(QuestionStatus::Modify)
    } else {
        None
    }
}

/// One row (see `row_step`); an error hands back the factor code.
fn process_row(acc: &mut SheetRows, row: &Vec<String>, c: &ColumnMap, m: &SheetMarks, excel_row: usize) -> (r: Result<(), String>)
    requires
        old(acc).skipped < usize::MAX,
        keys_match(old(acc).keys@, aspects_view(old(acc).aspects@)),
    ensures
        keys_match(final(acc).keys@, aspects_view(final(acc).aspects@)),
        match row_step(*c, *m, strs(row@), excel_row, sheet_view(*old(acc))) {
            Ok(next) => r is Ok && sheet_view(*final(acc)) == next,
            Err(v) => r matches Err(s) && s@ == v,
        },
{
    reveal(row_step);
    let ghost st = sheet_view(*acc);
    let ghost rv = strs(row@);
    let status0 = parse_status(cell(row, c.estado_pregunta).as_str());
    let deleted = match status0 {
        QuestionStatus::Delete => true,
        _ => false,
    };
    if deleted || red_signal_exec(m, c, excel_row) {
        acc.skipped = acc.skipped + 1;
        return Ok(());
    }
    let status = match marked_status_exec(m, c, excel_row) {
        Some(s) => s,
        None => status0,
    };
    let scope = parse_scope(cell(row, c.tipo_pregunta).as_str());
    let factor_code = forward_fill(cell(row, c.n_factor), &mut acc.fill.factor_code);
    let factor_name = forward_fill(cell(row, c.descripcion_factor), &mut acc.fill.factor_name);
    let characteristic_code = forward_fill(
        cell(row, c.n_caracteristica),
        &mut acc.fill.characteristic_code,
    );
    let characteristic_name = forward_fill(
        cell(row, c.nombre_caracteristica),
        &mut acc.fill.characteristic_name,
    );
    let aspect_code = forward_fill(cell(row, c.n_aspecto), &mut acc.fill.aspect_code);
    let aspect_description = forward_fill(
        cell(row, c.descripcion_aspecto),
        &mut acc.fill.aspect_description,
    );
    let ghost f = row_fill(rv, *c, st.fill);
    assert(fill_view(acc.fill) == f);
    if factor_code.as_str().is_empty() {
        acc.skipped = acc.skipped + 1;
        return Ok(());
    }
    let typed = match CnaFactorCode::from_str(factor_code.as_str()) {
        Some(t) => t,
        None => {
            return Err(factor_code);
        },
    };
    let normalized = normalize_aspect_code(
        &typed,
        characteristic_code.as_str(),
        aspect_code.as_str(),
        aspect_description.as_str(),
    );
    if !aspect_description.as_str().is_empty() && (!factor_name.as_str().is_empty()
        || !characteristic_name.as_str().is_empty()) {
        let aspect = NewGuidelineAspect {
            guideline_title: lit("Lineamiento CNA importado"),
            scope,
            factor_code: typed.duplicate(),
            factor_name: factor_name.clone(),
            characteristic_code: characteristic_code.clone(),
            characteristic_name: characteristic_name.clone(),
            aspect_code: normalized.clone(),
            aspect_description: aspect_description.clone(),
            requires_appreciation: true,
        };
        assert(aspect@ == row_aspect(scope, factor_key(f.factor_code), f));
        merge_aspect_into(&mut acc.aspects, &mut acc.keys, aspect);
    }
    let text = cell(row, c.pregunta);
    if text.as_str().is_empty() || characteristic_code.as_str().is_empty()
        || characteristic_name.as_str().is_empty() || aspect_description.as_str().is_empty() {
        acc.skipped = acc.skipped + 1;
        return Ok(());
    }
    let given = cell(row, c.n_pregunta);
    let code = if given.as_str().is_empty() {
        stable_code(text.as_str())
    } else {
        given
    };
    let audience = audience_from_excel(cell(row, c.publico), cell(row, c.tipo_de_publico));
    let convention_code = none_if_empty(cell(row, c.convencion));
    let format = match &convention_code {
        Some(v) => question_format_from_convention(Some(v.as_str()), text.as_str()),
        None => question_format_from_convention(None, text.as_str()),
    };
    let question = NewQuestion {
        code,
        text,
        scope,
        format,
        convention_code,
        status,
        factor: join_number_name(factor_code, factor_name),
        characteristic: join_number_name(characteristic_code, characteristic_name),
        aspect: join_number_name(normalized, aspect_description),
        audiences: Vec::new(),
        justification: None,
    };
    assert(question@ == row_question(rv, *c, f, scope, status, factor_key(f.factor_code))) by {
        assert(strs(question.audiences@) =~= Seq::<Seq<char>>::empty());
    }
    group_question_into(&mut acc.questions, question, &audience);
    Ok(())
}

/// The data rows of a sheet whose header is row `header` (see `sheet_fold`).
fn parse_sheet(rows: &Vec<Vec<String>>, header: usize, c: &ColumnMap, m: &SheetMarks) -> (r: Result<SheetRows, (usize, String)>)
    requires
        header < rows@.len(),
        rows@.len() < usize::MAX,
    ensures
        match sheet_fold(*c, *m, rows_view(rows@), header as int, rows@.len() - header - 1) {
            Ok(st) => r matches Ok(acc) && sheet_view(acc) == st && keys_match(
                acc.keys@,
                aspects_view(acc.aspects@),
            ) && acc.skipped <= rows@.len(),
            Err(e) => r matches Err(x) && x.0 == e.0 && x.1@ == e.1,
        },
{
    let mut acc = SheetRows {
        fill: FillText {
            factor_code: String::new(),
            factor_name: String::new(),
            characteristic_code: String::new(),
            characteristic_name: String::new(),
            aspect_code: String::new(),
            aspect_description: String::new(),
        },
        questions: Vec::new(),
        aspects: Vec::new(),
        keys: Vec::new(),
        skipped: 0,
    };
    assert(sheet_view(acc) == empty_sheet_state()) by {
        assert(new_questions_view(acc.questions@) =~= Seq::<NewQuestionView>::empty());
        assert(aspects_view(acc.aspects@) =~= Seq::<AspectView>::empty());
    }
    let count = rows.len() - header - 1;
    let mut i: usize = 0;
    while i < count
        invariant
            header < rows@.len() < usize::MAX,
            count == rows@.len() - header - 1,
            i <= count,
            acc.skipped <= i,
            keys_match(acc.keys@, aspects_view(acc.aspects@)),
            sheet_fold(*c, *m, rows_view(rows@), header as int, i as int) == Ok::<SheetState, (int, Seq<char>)>(sheet_view(acc)),
        decreases count - i,
    {
        let index = header + 1 + i;
        assert(rows_view(rows@)[index as int] == strs(rows@[index as int]@));
        proof {
            row_step_counts(*c, *m, strs(rows@[index as int]@), (header + i + 2) as usize, sheet_view(acc));
        }
        match process_row(&mut acc, &rows[index], c, m, header + i + 2) {
            Ok(()) => {},
            Err(v) => {
                proof {
                    sheet_fold_error_stays(*c, *m, rows_view(rows@), header as int, i + 1, count as int);
                }
                return Err((i + 2, v));
            },
        }
        i = i + 1;
    }
    Ok(acc)
}

// ---------------------------------------------------------------------------
// Numbers as text
// ---------------------------------------------------------------------------

pub open spec fn digit_char(d: nat) -> char {
    if d == 0 {
        '0'
    } else if d == 1 {
        '1'
    } else if d == 2 {
        '2'
    } else if d == 3 {
        '3'
    } else if d == 4 {
        '4'
    } else if d == 5 {
        '5'
    } else if d == 6 {
        '6'
    } else if d == 7 {
        '7'
    } else if d == 8 {
        '8'
    } else {
        '9'
    }
}

/// The decimal digits of `n`.
pub open spec fn decimal(n: nat) -> Seq<char>
    decreases n,
{
    if n < 10 {
        seq![digit_char(n)]
    } else {
        decimal(n / 10).push(digit_char(n % 10))
    }
}

pub(crate) fn digit(d: usize) -> (r: char)
    requires
        d < 10,
    ensures
        r == digit_char(d as nat),
{
    if d == 0 {
        '0'
    } else if d == 1 {
        '1'
    } else if d == 2 {
        '2'
    } else if d == 3 {
        '3'
    } else if d == 4 {
        '4'
    } else if d == 5 {
        '5'
    } else if d == 6 {
        '6'
    } else if d == 7 {
        '7'
    } else if d == 8 {
        '8'
    } else {
        '9'
    }
}

/// The decimal text of `n`.
pub fn decimal_chars(n: usize) -> (r: Vec<char>)
    ensures
        r@ == decimal(n as nat),
    decreases n,
{
    if n < 10 {
        let mut r = Vec::new();
        r.push(digit(n));
        assert(r@ =~= seq![digit_char(n as nat)]);
        r
    } else {
        let mut r = decimal_chars(n / 10);
        r.push(digit(n % 10));
        r
    }
}

// ---------------------------------------------------------------------------
// The workbook
// ---------------------------------------------------------------------------

/// One sheet of a workbook as read: its name, its cells as text row by row,
/// and its coloured cells.
#[derive(Debug)]
pub struct SheetInput {
    pub name: String,
    pub rows: Vec<Vec<String>>,
    pub marks: SheetMarks,
}

/// What the sheets read so far have given.
pub struct BookState {
    pub names: Seq<Seq<char>>,
    pub questions: Seq<NewQuestionView>,
    pub aspects: Seq<AspectView>,
    pub skipped: nat,
    pub columns: Set<Seq<char>>,
}

/// A row whose factor cell holds no factor code.
pub struct ImportFailure {
    pub value: Seq<char>,
    pub sheet: Seq<char>,
    pub row: int,
}

pub open spec fn empty_book() -> BookState {
    BookState {
        names: Seq::empty(),
        questions: Seq::empty(),
        aspects: Seq::empty(),
        skipped: 0,
        columns: Set::empty(),
    }
}

pub open spec fn merge_all_questions(s: Seq<NewQuestionView>, inc: Seq<NewQuestionView>) -> Seq<NewQuestionView>
    decreases inc.len(),
{
    if inc.len() == 0 {
        s
    } else {
        merge_question_seq(merge_all_questions(s, inc.drop_last()), inc.last())
    }
}

pub open spec fn merge_all_aspects(s: Seq<AspectView>, inc: Seq<AspectView>) -> Seq<AspectView>
    decreases inc.len(),
{
    if inc.len() == 0 {
        s
    } else {
        merge_aspect_seq(merge_all_aspects(s, inc.drop_last()), inc.last())
    }
}

/// A parsed sheet joins the workbook: its name, skipped rows and columns
/// are added, its aspects and questions merged by key and by code.
pub open spec fn absorb(b: BookState, name: Seq<char>, st: SheetState, columns: Seq<Seq<char>>) -> BookState {
    BookState {
        names: b.names.push(name),
        questions: merge_all_questions(b.questions, st.questions),
        aspects: merge_all_aspects(b.aspects, st.aspects),
        skipped: b.skipped + st.skipped,
        columns: b.columns + columns.to_set(),
    }
}

/// The first `n` sheets: a sheet without a consolidated header is passed
/// over; the first invalid factor code stops the import.
pub open spec fn book_fold(sheets: Seq<SheetInput>, n: int) -> Result<BookState, ImportFailure>
    decreases n,
{
    if n <= 0 {
        Ok(empty_book())
    } else {
        match book_fold(sheets, n - 1) {
            Err(e) => Err(e),
            Ok(b) => {
                let s = sheets[n - 1];
                let rows = rows_view(s.rows@);
                match first_header(rows, 0) {
                    None => Ok(b),
                    Some(h) => {
                        let c = columns_of(rows[h as int]);
                        match sheet_fold(c, s.marks, rows, h as int, rows.len() - h - 1) {
                            Err(e) => Err(ImportFailure { value: e.1, sheet: s.name@, row: e.0 }),
                            Ok(st) => Ok(absorb(b, s.name@, st, c.names())),
                        }
                    },
                }
            },
        }
    }
}

/// One sheet read on its own: `None` without a consolidated header, else
/// its parsed state or its first invalid factor code.
pub open spec fn sheet_parse(s: SheetInput) -> Option<Result<SheetState, ImportFailure>> {
    let rows = rows_view(s.rows@);
    match first_header(rows, 0) {
        None => None,
        Some(h) => {
            let c = columns_of(rows[h as int]);
            match sheet_fold(c, s.marks, rows, h as int, rows.len() - h - 1) {
                Err(e) => Some(Err(ImportFailure { value: e.1, sheet: s.name@, row: e.0 })),
                Ok(st) => Some(Ok(st)),
            }
        },
    }
}

/// The names of the first `n` sheets that were read, in order.
pub open spec fn parsed_names(sheets: Seq<SheetInput>, n: int) -> Seq<Seq<char>>
    decreases n,
{
    if n <= 0 {
        Seq::empty()
    } else {
        match sheet_parse(sheets[n - 1]) {
            Some(Ok(_)) => parsed_names(sheets, n - 1).push(sheets[n - 1].name@),
            _ => parsed_names(sheets, n - 1),
        }
    }
}

/// The rows skipped in the first `n` sheets that were read.
pub open spec fn parsed_skipped(sheets: Seq<SheetInput>, n: int) -> nat
    decreases n,
{
    if n <= 0 {
        0
    } else {
        match sheet_parse(sheets[n - 1]) {
            Some(Ok(st)) => parsed_skipped(sheets, n - 1) + st.skipped,
            _ => parsed_skipped(sheets, n - 1),
        }
    }
}

/// The question codes of the first `n` sheets that were read.
pub open spec fn parsed_codes(sheets: Seq<SheetInput>, n: int) -> Set<Seq<char>>
    decreases n,
{
    if n <= 0 {
        Set::empty()
    } else {
        match sheet_parse(sheets[n - 1]) {
            Some(Ok(st)) => parsed_codes(sheets, n - 1) + question_codes(st.questions).to_set(),
            _ => parsed_codes(sheets, n - 1),
        }
    }
}

/// The columns detected in a sheet with a consolidated header.
pub open spec fn sheet_columns(s: SheetInput) -> Seq<Seq<char>> {
    let rows = rows_view(s.rows@);
    match first_header(rows, 0) {
        None => Seq::empty(),
        Some(h) => columns_of(rows[h as int]).names(),
    }
}

/// The columns detected in the first `n` sheets that were read.
pub open spec fn parsed_columns(sheets: Seq<SheetInput>, n: int) -> Set<Seq<char>>
    decreases n,
{
    if n <= 0 {
        Set::empty()
    } else {
        match sheet_parse(sheets[n - 1]) {
            Some(Ok(_)) => parsed_columns(sheets, n - 1) + sheet_columns(sheets[n - 1]).to_set(),
            _ => parsed_columns(sheets, n - 1),
        }
    }
}

/// Merging questions by code keeps every code of both lists, and no other.
pub proof fn merged_codes(s: Seq<NewQuestionView>, inc: Seq<NewQuestionView>)
    ensures
        question_codes(merge_all_questions(s, inc)).to_set() == question_codes(s).to_set()
            + question_codes(inc).to_set(),
    decreases inc.len(),
{
    if inc.len() == 0 {
        assert(question_codes(inc).to_set() =~= Set::<Seq<char>>::empty());
        assert(question_codes(s).to_set() + Set::<Seq<char>>::empty() =~= question_codes(s).to_set());
    } else {
        merged_codes(s, inc.drop_last());
        let m = merge_all_questions(s, inc.drop_last());
        let q = inc.last();
        assert(question_codes(inc) =~= question_codes(inc.drop_last()).push(q.code));
        find_code_found(m, q.code);
        let after = merge_question_seq(m, q);
        match find_code(m, q.code) {
            Some(i) => {
                assert(question_codes(after) =~= question_codes(m).update(i, q.code));
                assert(question_codes(m)[i] == q.code);
                assert(question_codes(after) =~= question_codes(m));
                assert(question_codes(m).contains(q.code));
            },
            None => {
                assert(question_codes(after) =~= question_codes(m).push(q.code));
            },
        }
        let ca = question_codes(after);
        let cm = question_codes(m);
        let ci = question_codes(inc);
        let cd = question_codes(inc.drop_last());
        assert forall|c: Seq<char>| ca.contains(c) == (cm.contains(c) || c == q.code) by {
            if ca.contains(c) && c != q.code {
                let k = choose|k: int| 0 <= k < ca.len() && ca[k] == c;
                assert(cm[k] == c);
            }
            if cm.contains(c) {
                let k = choose|k: int| 0 <= k < cm.len() && cm[k] == c;
                assert(ca[k] == c);
            }
            if c == q.code {
                match find_code(m, q.code) {
                    Some(i) => assert(ca[i] == c),
                    None => assert(ca[ca.len() - 1] == c),
                }
            }
        }
        assert forall|c: Seq<char>| ci.contains(c) == (cd.contains(c) || c == q.code) by {
            if ci.contains(c) && c != q.code {
                let k = choose|k: int| 0 <= k < ci.len() && ci[k] == c;
                assert(cd[k] == c);
            }
            if cd.contains(c) {
                let k = choose|k: int| 0 <= k < cd.len() && cd[k] == c;
                assert(ci[k] == c);
            }
            if c == q.code {
                assert(ci[ci.len() - 1] == c);
            }
        }
        assert forall|c: Seq<char>| cm.to_set().contains(c) == (question_codes(s).to_set().contains(c)
            || cd.to_set().contains(c)) by {}
        let cs = question_codes(s);
        assert forall|c: Seq<char>| ca.to_set().contains(c) == (cs.to_set() + ci.to_set()).contains(c) by {
            assert(ca.to_set().contains(c) == ca.contains(c));
            assert(cm.to_set().contains(c) == cm.contains(c));
            assert(cs.to_set().contains(c) == cs.contains(c));
            assert(ci.to_set().contains(c) == ci.contains(c));
            assert(cd.to_set().contains(c) == cd.contains(c));
        }
        assert(ca.to_set() =~= cs.to_set() + ci.to_set());
    }
}

/// Reading a workbook's sheets in order keeps, of the sheets that were
/// read, their names in order, the sum of their skipped rows and the union
/// of their question codes.
pub proof fn book_fold_accumulates(sheets: Seq<SheetInput>, n: int)
    requires
        n <= sheets.len(),
    ensures
        book_fold(sheets, n) matches Ok(b) ==> b.names == parsed_names(sheets, n) && b.skipped
            == parsed_skipped(sheets, n) && question_codes(b.questions).to_set() == parsed_codes(
            sheets,
            n,
        ) && b.columns == parsed_columns(sheets, n),
    decreases n,
{
    if n <= 0 {
        assert(question_codes(Seq::<NewQuestionView>::empty()).to_set() =~= Set::<Seq<char>>::empty());
    } else {
        book_fold_accumulates(sheets, n - 1);
        if let Ok(b) = book_fold(sheets, n - 1) {
            match sheet_parse(sheets[n - 1]) {
                Some(Ok(st)) => {
                    merged_codes(b.questions, st.questions);
                },
                _ => {},
            }
        }
    }
}

/// The rows of the first `n` sheets.
pub open spec fn rows_before(sheets: Seq<SheetInput>, n: int) -> nat
    decreases n,
{
    if n <= 0 {
        0
    } else {
        rows_before(sheets, n - 1) + sheets[n - 1].rows@.len()
    }
}

proof fn rows_before_grows(sheets: Seq<SheetInput>, i: int, j: int)
    requires
        0 <= i <= j,
    ensures
        rows_before(sheets, i) <= rows_before(sheets, j),
    decreases j - i,
{
    if j > i {
        rows_before_grows(sheets, i, j - 1);
    }
}

proof fn first_header_in_range(rows: Seq<Seq<Seq<char>>>, i: int)
    ensures
        first_header(rows, i) matches Some(h) ==> h < rows.len(),
    decreases 20 - i,
{
    if 0 <= i < 20 && i < rows.len() {
        first_header_in_range(rows, i + 1);
    }
}

proof fn book_fold_error_stays(sheets: Seq<SheetInput>, n: int, k: int)
    requires
        0 <= n <= k,
        book_fold(sheets, n) is Err,
    ensures
        book_fold(sheets, k) == book_fold(sheets, n),
    decreases k - n,
{
    if k > n {
        book_fold_error_stays(sheets, n, k - 1);
    }
}

/// A workbook read into questions and guideline aspects.
#[derive(Debug)]
pub struct ParsedWorkbook {
    pub sheet_name: String,
    pub questions: Vec<NewQuestion>,
    pub guideline_aspects: Vec<NewGuidelineAspect>,
    pub skipped_rows: usize,
    pub detected_columns: Vec<String>,
}

/// Why a workbook could not be imported.
#[derive(Debug)]
pub enum ImportError {
    /// A factor cell that holds no factor code, with its sheet and the row
    /// number counted from the first data row as 2.
    InvalidFactorCode { value: String, sheet: String, row: usize },
    /// No sheet has a consolidated question header.
    NoQuestionSheet,
}

impl ImportError {
    pub open spec fn message_text(&self) -> Seq<char> {
        match self {
            ImportError::InvalidFactorCode { value, sheet, row } => "Invalid CNA factor code '"@
                + value@ + "' in sheet '"@ + sheet@ + "', row "@ + decimal(*row as nat)
                + ". Expected a non-empty factor code."@,
            ImportError::NoQuestionSheet => "No sheet with question consolidated headers was found in the workbook"@,
        }
    }

    /// The error as shown to the user.
    pub fn message(&self) -> (r: String)
        ensures
            r@ == self.message_text(),
    {
        match self {
            ImportError::InvalidFactorCode { value, sheet, row } => {
                let mut r = chars_of("Invalid CNA factor code '");
                append_chars(&mut r, &chars_of(value.as_str()));
                append_chars(&mut r, &chars_of("' in sheet '"));
                append_chars(&mut r, &chars_of(sheet.as_str()));
                append_chars(&mut r, &chars_of("', row "));
                append_chars(&mut r, &decimal_chars(*row));
                append_chars(&mut r, &chars_of(". Expected a non-empty factor code."));
                string_of(&r)
            },
            ImportError::NoQuestionSheet => lit(
                "No sheet with question consolidated headers was found in the workbook",
            ),
        }
    }
}

// ---------------------------------------------------------------------------
// Orders of the result
// ---------------------------------------------------------------------------

/// Questions in the natural order of their codes (the numbers in them).
impl Ordered for NewQuestion {
    open spec fn le(a: Self, b: Self) -> bool {
        nums_le(natural_parts(a.code@), natural_parts(b.code@))
    }

    proof fn le_total(a: Self, b: Self) {
        nums_le_total(natural_parts(a.code@), natural_parts(b.code@));
    }

    proof fn le_trans(a: Self, b: Self, c: Self) {
        nums_le_trans(natural_parts(a.code@), natural_parts(b.code@), natural_parts(c.code@));
    }

    fn le_exec(&self, other: &Self) -> (r: bool) {
        nums_le_exec(&natural_code_parts(self.code.as_str()), &natural_code_parts(other.code.as_str()))
    }
}

/// The place of a factor in the order of the factor enum: the twelve known
/// factors in order, then custom factors.
pub open spec fn factor_rank(f: CnaFactorCode) -> int {
    match f {
        CnaFactorCode::Custom(_) => 13,
        _ => factor_number(f),
    }
}

/// The order of factors: by rank, custom factors by their text.
pub open spec fn factor_le(a: CnaFactorCode, b: CnaFactorCode) -> bool {
    if factor_rank(a) != factor_rank(b) {
        factor_rank(a) < factor_rank(b)
    } else {
        match (a, b) {
            (CnaFactorCode::Custom(x), CnaFactorCode::Custom(y)) => text_le(x@, y@),
            _ => true,
        }
    }
}

proof fn factor_le_total(a: CnaFactorCode, b: CnaFactorCode)
    ensures
        factor_le(a, b) || factor_le(b, a),
{
    match (a, b) {
        (CnaFactorCode::Custom(x), CnaFactorCode::Custom(y)) => text_le_total(x@, y@),
        _ => {},
    }
}

proof fn factor_le_trans(a: CnaFactorCode, b: CnaFactorCode, c: CnaFactorCode)
    requires
        factor_le(a, b),
        factor_le(b, c),
    ensures
        factor_le(a, c),
{
    match (a, b, c) {
        (CnaFactorCode::Custom(x), CnaFactorCode::Custom(y), CnaFactorCode::Custom(z)) => {
            text_le_trans(x@, y@, z@)
        },
        _ => {},
    }
}

fn factor_rank_exec(f: &CnaFactorCode) -> (r: u8)
    ensures
        r == factor_rank(*f),
{
    match f {
        CnaFactorCode::Factor1 => 1,
        CnaFactorCode::Factor2 => 2,
        CnaFactorCode::Factor3 => 3,
        CnaFactorCode::Factor4 => 4,
        CnaFactorCode::Factor5 => 5,
        CnaFactorCode::Factor6 => 6,
        CnaFactorCode::Factor7 => 7,
        CnaFactorCode::Factor8 => 8,
        CnaFactorCode::Factor9 => 9,
        CnaFactorCode::Factor10 => 10,
        CnaFactorCode::Factor11 => 11,
        CnaFactorCode::Factor12 => 12,
        CnaFactorCode::Custom(_) => 13,
    }
}

fn factor_le_exec(a: &CnaFactorCode, b: &CnaFactorCode) -> (r: bool)
    ensures
        r == factor_le(*a, *b),
{
    let ra = factor_rank_exec(a);
    let rb = factor_rank_exec(b);
    if ra != rb {
        ra < rb
    } else {
        match (a, b) {
            (CnaFactorCode::Custom(x), CnaFactorCode::Custom(y)) => text_le_exec(
                &chars_of(x.as_str()),
                &chars_of(y.as_str()),
            ),
            _ => true,
        }
    }
}

/// Lexicographic combination of three preorders given by their two
/// directions.
pub open spec fn lex3(f_ab: bool, f_ba: bool, c_ab: bool, c_ba: bool, a_ab: bool) -> bool {
    f_ab && (f_ba ==> (c_ab && (c_ba ==> a_ab)))
}

/// Guideline aspects by factor, then by the natural order of the
/// characteristic code, then of the aspect code.
impl Ordered for NewGuidelineAspect {
    open spec fn le(a: Self, b: Self) -> bool {
        lex3(
            factor_le(a.factor_code, b.factor_code),
            factor_le(b.factor_code, a.factor_code),
            nums_le(natural_parts(a.characteristic_code@), natural_parts(b.characteristic_code@)),
            nums_le(natural_parts(b.characteristic_code@), natural_parts(a.characteristic_code@)),
            nums_le(natural_parts(a.aspect_code@), natural_parts(b.aspect_code@)),
        )
    }

    proof fn le_total(a: Self, b: Self) {
        factor_le_total(a.factor_code, b.factor_code);
        nums_le_total(natural_parts(a.characteristic_code@), natural_parts(b.characteristic_code@));
        nums_le_total(natural_parts(a.aspect_code@), natural_parts(b.aspect_code@));
    }

    proof fn le_trans(a: Self, b: Self, c: Self) {
        let (fa, fb, fc) = (a.factor_code, b.factor_code, c.factor_code);
        let (ca, cb, cc) = (
            natural_parts(a.characteristic_code@),
            natural_parts(b.characteristic_code@),
            natural_parts(c.characteristic_code@),
        );
        let (xa, xb, xc) = (
            natural_parts(a.aspect_code@),
            natural_parts(b.aspect_code@),
            natural_parts(c.aspect_code@),
        );
        factor_le_trans(fa, fb, fc);
        if factor_le(fc, fa) {
            factor_le_trans(fb, fc, fa);
            factor_le_trans(fc, fa, fb);
            nums_le_trans(ca, cb, cc);
            if nums_le(cc, ca) {
                nums_le_trans(cb, cc, ca);
                nums_le_trans(cc, ca, cb);
                nums_le_trans(xa, xb, xc);
            }
        }
    }

    fn le_exec(&self, other: &Self) -> (r: bool) {
        let f_ab = factor_le_exec(&self.factor_code, &other.factor_code);
        let f_ba = factor_le_exec(&other.factor_code, &self.factor_code);
        let ca = natural_code_parts(self.characteristic_code.as_str());
        let cb = natural_code_parts(other.characteristic_code.as_str());
        let c_ab = nums_le_exec(&ca, &cb);
        let c_ba = nums_le_exec(&cb, &ca);
        let a_ab = nums_le_exec(
            &natural_code_parts(self.aspect_code.as_str()),
            &natural_code_parts(other.aspect_code.as_str()),
        );
        f_ab && (!f_ba || (c_ab && (!c_ba || a_ab)))
    }
}

/// Two lists that hold the same values hold the same views.
pub proof fn same_values_same_views<A, B>(a: Seq<A>, b: Seq<A>, f: spec_fn(A) -> B)
    requires
        a.to_multiset() == b.to_multiset(),
    ensures
        a.map_values(f).to_multiset() == b.map_values(f).to_multiset(),
    decreases a.len(),
{
    broadcast use vstd::seq_lib::group_to_multiset_ensures;

    if a.len() == 0 {
        assert(b.to_multiset().len() == 0);
        assert(b.len() == 0);
        assert(a.map_values(f) =~= b.map_values(f));
    } else {
        let x = a.last();
        let a1 = a.drop_last();
        assert(a =~= a1.push(x));
        assert(a.to_multiset().count(x) > 0);
        assert(b.contains(x));
        let i = choose|i: int| 0 <= i < b.len() && b[i] == x;
        let b1 = b.remove(i);
        assert(a1.to_multiset() =~= b1.to_multiset());
        same_values_same_views(a1, b1, f);
        assert(a.map_values(f) =~= a1.map_values(f).push(f(x)));
        assert(b.map_values(f) =~= b1.map_values(f).insert(i, f(x)));
    }
}

// ---------------------------------------------------------------------------
// What every import keeps: one question per code, no deleted question, one
// aspect per key
// ---------------------------------------------------------------------------

pub open spec fn question_codes(s: Seq<NewQuestionView>) -> Seq<Seq<char>> {
    s.map_values(|q: NewQuestionView| q.code)
}

pub open spec fn aspect_keys(s: Seq<AspectView>) -> Seq<(QuestionScope, Seq<char>, Seq<char>, Seq<char>)> {
    s.map_values(|a: AspectView| aspect_key(a))
}

/// Each code once and no question marked for deletion.
pub open spec fn questions_ok(s: Seq<NewQuestionView>) -> bool {
    &&& question_codes(s).no_duplicates()
    &&& forall|i: int| 0 <= i < s.len() ==> (#[trigger] s[i]).status != QuestionStatus::Delete
}

proof fn find_code_found(s: Seq<NewQuestionView>, code: Seq<char>)
    ensures
        match find_code(s, code) {
            Some(i) => 0 <= i < s.len() && s[i].code == code,
            None => forall|i: int| 0 <= i < s.len() ==> s[i].code != code,
        },
    decreases s.len(),
{
    if s.len() > 0 && s.last().code != code {
        find_code_found(s.drop_last(), code);
        assert forall|i: int| 0 <= i < s.len() - 1 implies s[i] == s.drop_last()[i] by {}
    }
}

proof fn find_aspect_found(s: Seq<AspectView>, k: (QuestionScope, Seq<char>, Seq<char>, Seq<char>))
    ensures
        match find_aspect(s, k) {
            Some(i) => 0 <= i < s.len() && aspect_key(s[i]) == k,
            None => forall|i: int| 0 <= i < s.len() ==> aspect_key(s[i]) != k,
        },
    decreases s.len(),
{
    if s.len() > 0 && aspect_key(s.last()) != k {
        find_aspect_found(s.drop_last(), k);
        assert forall|i: int| 0 <= i < s.len() - 1 implies s[i] == s.drop_last()[i] by {}
    }
}

/// Replacing a question by one with the same code, or adding one with a
/// new code, keeps the codes distinct.
proof fn questions_ok_change(s: Seq<NewQuestionView>, t: Seq<NewQuestionView>, q: NewQuestionView)
    requires
        questions_ok(s),
        q.status != QuestionStatus::Delete,
        (match find_code(s, q.code) {
            Some(i) => t == s.update(i, q) && s[i].code == q.code,
            None => t == s.push(q),
        }),
    ensures
        questions_ok(t),
{
    find_code_found(s, q.code);
    let cs = question_codes(s);
    let ct = question_codes(t);
    assert forall|i: int, j: int| 0 <= i < ct.len() && 0 <= j < ct.len() && i != j implies ct[i]
        != ct[j] by {
        if i < s.len() && j < s.len() {
            assert(cs[i] != cs[j]);
        }
    }
    assert forall|i: int| 0 <= i < t.len() implies (#[trigger] t[i]).status != QuestionStatus::Delete by {
        if i < s.len() && t[i] != q {
            assert(t[i] == s[i]);
        }
    }
}

proof fn group_question_ok(s: Seq<NewQuestionView>, q: NewQuestionView, audience: Seq<char>)
    requires
        questions_ok(s),
        q.status != QuestionStatus::Delete,
    ensures
        questions_ok(group_question(s, q, audience)),
{
    find_code_found(s, q.code);
    match find_code(s, q.code) {
        Some(i) => {
            let x = s[i];
            let y = if audience.len() > 0 {
                NewQuestionView { audiences: add_audience(x.audiences, audience), ..x }
            } else {
                x
            };
            assert(group_question(s, q, audience) == s.update(i, y));
            questions_ok_change(s, group_question(s, q, audience), y);
        },
        None => {
            let y = if audience.len() > 0 {
                NewQuestionView { audiences: add_audience(q.audiences, audience), ..q }
            } else {
                q
            };
            assert(group_question(s, q, audience) == s.push(y));
            questions_ok_change(s, group_question(s, q, audience), y);
        },
    }
}

proof fn merge_all_questions_ok(s: Seq<NewQuestionView>, inc: Seq<NewQuestionView>)
    requires
        questions_ok(s),
        questions_ok(inc),
    ensures
        questions_ok(merge_all_questions(s, inc)),
    decreases inc.len(),
{
    if inc.len() > 0 {
        let front = inc.drop_last();
        assert(questions_ok(front)) by {
            assert(question_codes(front) =~= question_codes(inc).drop_last());
            assert forall|i: int| 0 <= i < front.len() implies (#[trigger] front[i]).status
                != QuestionStatus::Delete by {
                assert(front[i] == inc[i]);
            }
        }
        merge_all_questions_ok(s, front);
        let m = merge_all_questions(s, front);
        let x = inc.last();
        assert(x == inc[inc.len() - 1]);
        find_code_found(m, x.code);
        match find_code(m, x.code) {
            Some(i) => questions_ok_change(m, merge_question_seq(m, x), combine_question(m[i], x)),
            None => questions_ok_change(m, merge_question_seq(m, x), x),
        }
    }
}

proof fn aspects_ok_change(s: Seq<AspectView>, t: Seq<AspectView>, a: AspectView)
    requires
        aspect_keys(s).no_duplicates(),
        (match find_aspect(s, aspect_key(a)) {
            Some(i) => t == s.update(i, a) && aspect_key(s[i]) == aspect_key(a),
            None => t == s.push(a),
        }),
    ensures
        aspect_keys(t).no_duplicates(),
{
    find_aspect_found(s, aspect_key(a));
    let ks = aspect_keys(s);
    let kt = aspect_keys(t);
    assert forall|i: int, j: int| 0 <= i < kt.len() && 0 <= j < kt.len() && i != j implies kt[i]
        != kt[j] by {
        if i < s.len() && j < s.len() {
            assert(ks[i] != ks[j]);
        }
    }
}

proof fn merge_aspect_ok(s: Seq<AspectView>, a: AspectView)
    requires
        aspect_keys(s).no_duplicates(),
    ensures
        aspect_keys(merge_aspect_seq(s, a)).no_duplicates(),
{
    find_aspect_found(s, aspect_key(a));
    match find_aspect(s, aspect_key(a)) {
        Some(i) => {
            let c = combine_aspect(s[i], a);
            assert(aspect_key(c) == aspect_key(s[i]));
            aspects_ok_change(s, merge_aspect_seq(s, a), c);
        },
        None => aspects_ok_change(s, merge_aspect_seq(s, a), a),
    }
}

proof fn merge_all_aspects_ok(s: Seq<AspectView>, inc: Seq<AspectView>)
    requires
        aspect_keys(s).no_duplicates(),
    ensures
        aspect_keys(merge_all_aspects(s, inc)).no_duplicates(),
    decreases inc.len(),
{
    if inc.len() > 0 {
        merge_all_aspects_ok(s, inc.drop_last());
        merge_aspect_ok(merge_all_aspects(s, inc.drop_last()), inc.last());
    }
}

proof fn row_step_ok(c: ColumnMap, m: SheetMarks, row: Seq<Seq<char>>, excel_row: usize, st: SheetState)
    requires
        questions_ok(st.questions),
        aspect_keys(st.aspects).no_duplicates(),
    ensures
        row_step(c, m, row, excel_row, st) matches Ok(next) ==> questions_ok(next.questions)
            && aspect_keys(next.aspects).no_duplicates(),
{
    reveal(row_step);
    let status0 = status_spec(cell_text(row, c.estado_pregunta));
    if !(status0 == QuestionStatus::Delete || red_signal(m, c, excel_row)) {
        let status = match marked_status(m, c, excel_row) {
            Some(s) => s,
            None => status0,
        };
        let scope = scope_spec(cell_text(row, c.tipo_pregunta));
        let f = row_fill(row, c, st.fill);
        let factor = factor_key(f.factor_code);
        merge_aspect_ok(st.aspects, row_aspect(scope, factor, f));
        let audience = audience_from_excel_spec(
            cell_text(row, c.publico),
            cell_text(row, c.tipo_de_publico),
        );
        group_question_ok(st.questions, row_question(row, c, f, scope, status, factor), audience);
    }
}

/// Every state of a sheet keeps one question per code, no question marked
/// for deletion and one guideline aspect per key.
pub proof fn sheet_fold_ok(c: ColumnMap, m: SheetMarks, rows: Seq<Seq<Seq<char>>>, header: int, n: int)
    ensures
        sheet_fold(c, m, rows, header, n) matches Ok(st) ==> questions_ok(st.questions)
            && aspect_keys(st.aspects).no_duplicates(),
    decreases n,
{
    if n <= 0 {
        assert(question_codes(Seq::<NewQuestionView>::empty()) =~= Seq::<Seq<char>>::empty());
        assert(aspect_keys(Seq::<AspectView>::empty()) =~= Seq::empty());
    } else {
        sheet_fold_ok(c, m, rows, header, n - 1);
        if let Ok(st) = sheet_fold(c, m, rows, header, n - 1) {
            row_step_ok(c, m, rows[header + n], (header + n + 1) as usize, st);
        }
    }
}

/// Every state of the workbook keeps one question per code, no question
/// marked for deletion and one guideline aspect per key.
pub proof fn book_fold_ok(sheets: Seq<SheetInput>, n: int)
    ensures
        book_fold(sheets, n) matches Ok(b) ==> questions_ok(b.questions) && aspect_keys(
            b.aspects,
        ).no_duplicates(),
    decreases n,
{
    if n <= 0 {
        assert(question_codes(Seq::<NewQuestionView>::empty()) =~= Seq::<Seq<char>>::empty());
        assert(aspect_keys(Seq::<AspectView>::empty()) =~= Seq::empty());
    } else {
        book_fold_ok(sheets, n - 1);
        if let Ok(b) = book_fold(sheets, n - 1) {
            let s = sheets[n - 1];
            let rows = rows_view(s.rows@);
            if let Some(h) = first_header(rows, 0) {
                let c = columns_of(rows[h as int]);
                sheet_fold_ok(c, s.marks, rows, h as int, rows.len() - h - 1);
                if let Ok(st) = sheet_fold(c, s.marks, rows, h as int, rows.len() - h - 1) {
                    merge_all_questions_ok(b.questions, st.questions);
                    merge_all_aspects_ok(b.aspects, st.aspects);
                }
            }
        }
    }
}

/// A list with the same values as one without duplicates has none.
proof fn same_values_no_duplicates<A>(a: Seq<A>, b: Seq<A>)
    requires
        a.to_multiset() == b.to_multiset(),
        b.no_duplicates(),
    ensures
        a.no_duplicates(),
{
    b.lemma_multiset_has_no_duplicates();
    a.lemma_multiset_has_no_duplicates_conv();
}

// ---------------------------------------------------------------------------
// Reading the workbook
// ---------------------------------------------------------------------------

/// The result holds the workbook state `b`: the names of the sheets read,
/// joined by ", "; the skipped rows; the columns found, sorted, each once;
/// the merged questions in natural code order and the merged aspects in
/// factor, characteristic and aspect order.
/// The questions in order, each from the merged list by `idx`: every
/// merged question once, and those that order alike in merged order.
pub open spec fn questions_placed(ws: Seq<NewQuestion>, bq: Seq<NewQuestionView>, idx: Seq<int>) -> bool {
    &&& idx.len() == ws.len()
    &&& ws.len() == bq.len()
    &&& forall|k: int| 0 <= k < ws.len() ==> 0 <= #[trigger] idx[k] < bq.len() && ws[k]@ == bq[idx[k]]
    &&& forall|k: int, l: int| 0 <= k < l < ws.len() ==> #[trigger] idx[k] != #[trigger] idx[l]
    &&& forall|k: int, l: int|
        0 <= k < l < ws.len() && NewQuestion::le(ws[l], ws[k]) ==> #[trigger] idx[k] < #[trigger] idx[l]
}

/// The guideline aspects in order, each from the merged list by `idx`:
/// every merged aspect once, and those that order alike in merged order.
pub open spec fn aspects_placed(ws: Seq<NewGuidelineAspect>, ba: Seq<AspectView>, idx: Seq<int>) -> bool {
    &&& idx.len() == ws.len()
    &&& ws.len() == ba.len()
    &&& forall|k: int| 0 <= k < ws.len() ==> 0 <= #[trigger] idx[k] < ba.len() && ws[k]@ == ba[idx[k]]
    &&& forall|k: int, l: int| 0 <= k < l < ws.len() ==> #[trigger] idx[k] != #[trigger] idx[l]
    &&& forall|k: int, l: int|
        0 <= k < l < ws.len() && NewGuidelineAspect::le(ws[l], ws[k]) ==> #[trigger] idx[k] < #[trigger] idx[l]
}

pub open spec fn workbook_of(w: ParsedWorkbook, b: BookState) -> bool {
    &&& w.sheet_name@ == join(b.names, ", "@)
    &&& w.skipped_rows == b.skipped
    &&& strictly_sorted(strs(w.detected_columns@))
    &&& strs(w.detected_columns@).to_set() == b.columns
    &&& new_questions_view(w.questions@).to_multiset() == b.questions.to_multiset()
    &&& sorted(w.questions@)
    &&& aspects_view(w.guideline_aspects@).to_multiset() == b.aspects.to_multiset()
    &&& sorted(w.guideline_aspects@)
    &&& exists|idx: Seq<int>| questions_placed(w.questions@, b.questions, idx)
    &&& exists|idx: Seq<int>| aspects_placed(w.guideline_aspects@, b.aspects, idx)
}

proof fn same_multiset_same_codes(a: Seq<NewQuestionView>, b: Seq<NewQuestionView>)
    requires
        a.to_multiset() == b.to_multiset(),
    ensures
        question_codes(a).to_set() == question_codes(b).to_set(),
{
    broadcast use vstd::seq_lib::to_multiset_contains;

    assert forall|c: Seq<char>| question_codes(a).to_set().contains(c) implies question_codes(b).to_set().contains(c) by {
        let i = choose|i: int| 0 <= i < question_codes(a).len() && question_codes(a)[i] == c;
        assert(a.contains(a[i]));
        assert(a.to_multiset().count(a[i]) > 0);
        assert(b.contains(a[i]));
        let j = choose|j: int| 0 <= j < b.len() && b[j] == a[i];
        assert(question_codes(b)[j] == c);
    }
    assert forall|c: Seq<char>| question_codes(b).to_set().contains(c) implies question_codes(a).to_set().contains(c) by {
        let i = choose|i: int| 0 <= i < question_codes(b).len() && question_codes(b)[i] == c;
        assert(b.contains(b[i]));
        assert(b.to_multiset().count(b[i]) > 0);
        assert(a.contains(b[i]));
        let j = choose|j: int| 0 <= j < a.len() && a[j] == b[i];
        assert(question_codes(a)[j] == c);
    }
    assert(question_codes(a).to_set() =~= question_codes(b).to_set());
}

/// What a workbook read from its sheets holds: the names of the sheets that
/// were read, joined with ", ", in order; the sum of their skipped rows;
/// the union of their question codes, in order of natural code parts; and
/// the union of their detected columns, sorted, each once.
pub proof fn imported_workbook_laws(sheets: Seq<SheetInput>, w: ParsedWorkbook)
    requires
        book_fold(sheets, sheets.len() as int) matches Ok(b) && workbook_of(w, b),
    ensures
        w.sheet_name@ == join(parsed_names(sheets, sheets.len() as int), ", "@),
        w.skipped_rows == parsed_skipped(sheets, sheets.len() as int),
        question_codes(new_questions_view(w.questions@)).to_set() == parsed_codes(
            sheets,
            sheets.len() as int,
        ),
        forall|i: int, j: int|
            0 <= i < j < w.questions@.len() ==> nums_le(
                natural_parts(w.questions@[i].code@),
                natural_parts(w.questions@[j].code@),
            ),
        strictly_sorted(strs(w.detected_columns@)),
        strs(w.detected_columns@).to_set() == parsed_columns(sheets, sheets.len() as int),
{
    book_fold_accumulates(sheets, sheets.len() as int);
    let b = book_fold(sheets, sheets.len() as int)->Ok_0;
    same_multiset_same_codes(new_questions_view(w.questions@), b.questions);
    assert forall|i: int, j: int| 0 <= i < j < w.questions@.len() implies nums_le(
        natural_parts(w.questions@[i].code@),
        natural_parts(w.questions@[j].code@),
    ) by {
        assert(NewQuestion::le(w.questions@[i], w.questions@[j]));
    }
}

fn absorb_columns(columns: &mut Vec<Vec<char>>, names: &Vec<String>)
    requires
        strictly_sorted(views(old(columns)@)),
    ensures
        strictly_sorted(views(final(columns)@)),
        views(final(columns)@).to_set() == views(old(columns)@).to_set() + strs(names@).to_set(),
{
    let ghost start = views(columns@).to_set();
    let n = names.len();
    let mut i: usize = 0;
    assert(strs(names@).take(0).to_set() =~= Set::<Seq<char>>::empty());
    assert(start + Set::<Seq<char>>::empty() =~= start);
    while i < n
        invariant
            i <= n == names@.len(),
            strictly_sorted(views(columns@)),
            views(columns@).to_set() == start + strs(names@).take(i as int).to_set(),
        decreases n - i,
    {
        insert_sorted_unique(columns, chars_of(names[i].as_str()));
        let ghost t = strs(names@).take(i as int);
        assert(strs(names@).take(i + 1) =~= t.push(names@[i as int]@));
        proof {
            t.lemma_push_to_set_commute(names@[i as int]@);
        }
        assert(views(columns@).to_set() =~= start + strs(names@).take(i + 1).to_set());
        i = i + 1;
    }
    assert(strs(names@).take(n as int) =~= strs(names@));
}

fn absorb_aspects(aspects: &mut Vec<NewGuidelineAspect>, keys: &mut Vec<AspectKey>, inc: &Vec<NewGuidelineAspect>)
    requires
        keys_match(old(keys)@, aspects_view(old(aspects)@)),
    ensures
        keys_match(final(keys)@, aspects_view(final(aspects)@)),
        aspects_view(final(aspects)@) == merge_all_aspects(aspects_view(old(aspects)@), aspects_view(inc@)),
{
    let ghost start = aspects_view(aspects@);
    let n = inc.len();
    let mut i: usize = 0;
    while i < n
        invariant
            i <= n == inc@.len(),
            keys_match(keys@, aspects_view(aspects@)),
            aspects_view(aspects@) == merge_all_aspects(start, aspects_view(inc@).take(i as int)),
        decreases n - i,
    {
        merge_aspect_into(aspects, keys, inc[i].duplicate());
        assert(aspects_view(inc@).take(i + 1).drop_last() =~= aspects_view(inc@).take(i as int));
        i = i + 1;
    }
    assert(aspects_view(inc@).take(n as int) =~= aspects_view(inc@));
}

fn absorb_questions(questions: &mut Vec<NewQuestion>, inc: &Vec<NewQuestion>)
    ensures
        new_questions_view(final(questions)@) == merge_all_questions(
            new_questions_view(old(questions)@),
            new_questions_view(inc@),
        ),
{
    let ghost start = new_questions_view(questions@);
    let n = inc.len();
    let mut i: usize = 0;
    while i < n
        invariant
            i <= n == inc@.len(),
            new_questions_view(questions@) == merge_all_questions(
                start,
                new_questions_view(inc@).take(i as int),
            ),
        decreases n - i,
    {
        merge_question_into(questions, inc[i].duplicate());
        assert(new_questions_view(inc@).take(i + 1).drop_last() =~= new_questions_view(inc@).take(
            i as int,
        ));
        i = i + 1;
    }
    assert(new_questions_view(inc@).take(n as int) =~= new_questions_view(inc@));
}

fn strings_of(v: &Vec<Vec<char>>) -> (r: Vec<String>)
    ensures
        strs(r@) == views(v@),
{
    let mut r: Vec<String> = Vec::new();
    let n = v.len();
    let mut i: usize = 0;
    while i < n
        invariant
            i <= n == v@.len(),
            strs(r@) =~= views(v@).take(i as int),
        decreases n - i,
    {
        r.push(string_of(&v[i]));
        assert(views(v@).take(i + 1) =~= views(v@).take(i as int).push(v@[i as int]@));
        i = i + 1;
    }
    assert(views(v@).take(n as int) =~= views(v@));
    r
}

spec fn book_view(
    names: Seq<Vec<char>>,
    questions: Seq<NewQuestion>,
    aspects: Seq<NewGuidelineAspect>,
    skipped: usize,
    columns: Seq<Vec<char>>,
) -> BookState {
    BookState {
        names: views(names),
        questions: new_questions_view(questions),
        aspects: aspects_view(aspects),
        skipped: skipped as nat,
        columns: views(columns).to_set(),
    }
}

/// One question per code, none marked for deletion, one aspect per key.
pub open spec fn imported_ok(w: ParsedWorkbook) -> bool {
    &&& question_codes(new_questions_view(w.questions@)).no_duplicates()
    &&& forall|i: int|
        0 <= i < w.questions@.len() ==> (#[trigger] w.questions@[i]).status
            != QuestionStatus::Delete
    &&& aspect_keys(aspects_view(w.guideline_aspects@)).no_duplicates()
}

/// Reads the questions and guideline aspects of a workbook's sheets (see
/// `book_fold` and `workbook_of`).
pub fn parse_workbook_sheets(sheets: &Vec<SheetInput>) -> (r: Result<ParsedWorkbook, ImportError>)
    requires
        rows_before(sheets@, sheets@.len() as int) < usize::MAX,
    ensures
        match book_fold(sheets@, sheets@.len() as int) {
            Err(f) => r matches Err(ImportError::InvalidFactorCode { value, sheet, row }) && value@
                == f.value && sheet@ == f.sheet && row == f.row,
            Ok(b) => if b.names.len() == 0 {
                r matches Err(ImportError::NoQuestionSheet)
            } else {
                r matches Ok(w) && workbook_of(w, b)
            },
        },
        r matches Ok(w) ==> imported_ok(w),
{
    let mut names: Vec<Vec<char>> = Vec::new();
    let mut questions: Vec<NewQuestion> = Vec::new();
    let mut aspects: Vec<NewGuidelineAspect> = Vec::new();
    let mut keys: Vec<AspectKey> = Vec::new();
    let mut skipped: usize = 0;
    let mut columns: Vec<Vec<char>> = Vec::new();
    let n = sheets.len();
    proof {
        assert(book_view(names@, questions@, aspects@, skipped, columns@) =~= empty_book()) by {
            assert(views(names@) =~= Seq::<Seq<char>>::empty());
            assert(new_questions_view(questions@) =~= Seq::<NewQuestionView>::empty());
            assert(aspects_view(aspects@) =~= Seq::<AspectView>::empty());
            assert(views(columns@).to_set() =~= Set::<Seq<char>>::empty());
        }
    }
    let mut i: usize = 0;
    while i < n
        invariant
            i <= n == sheets@.len(),
            rows_before(sheets@, n as int) < usize::MAX,
            skipped <= rows_before(sheets@, i as int),
            strictly_sorted(views(columns@)),
            keys_match(keys@, aspects_view(aspects@)),
            book_fold(sheets@, i as int) == Ok::<BookState, ImportFailure>(
                book_view(names@, questions@, aspects@, skipped, columns@),
            ),
        decreases n - i,
    {
        let s = &sheets[i];
        proof {
            rows_before_grows(sheets@, i + 1, n as int);
        }
        match find_header(&s.rows) {
            None => {},
            Some((h, c)) => {
                proof {
                    first_header_in_range(rows_view(s.rows@), 0);
                }
                match parse_sheet(&s.rows, h, &c, &s.marks) {
                    Err(e) => {
                        proof {
                            book_fold_error_stays(sheets@, i + 1, n as int);
                        }
                        return Err(
                            ImportError::InvalidFactorCode {
                                value: e.1,
                                sheet: s.name.clone(),
                                row: e.0,
                            },
                        );
                    },
                    Ok(acc) => {
                        let ghost before = book_view(names@, questions@, aspects@, skipped, columns@);
                        let ghost before_names = names@;
                        names.push(chars_of(s.name.as_str()));
                        assert(views(names@) =~= views(before_names).push(s.name@));
                        skipped = skipped + acc.skipped;
                        absorb_columns(&mut columns, &c.column_names());
                        absorb_aspects(&mut aspects, &mut keys, &acc.aspects);
                        absorb_questions(&mut questions, &acc.questions);
                        assert(book_view(names@, questions@, aspects@, skipped, columns@) == absorb(
                            before,
                            s.name@,
                            sheet_view(acc),
                            c.names(),
                        ));
                    },
                }
            },
        }
        i = i + 1;
    }
    if names.len() == 0 {
        return Err(ImportError::NoQuestionSheet);
    }
    let sheet_name = string_of(&join_words(&names, &chars_of(", ")));
    let ghost merged_questions = questions@;
    let ghost merged_aspects = aspects@;
    let sorted_questions = stable_sort_vec(questions);
    let sorted_aspects = stable_sort_vec(aspects);
    proof {
        let qi = choose|idx: Seq<int>| stable_order(merged_questions, sorted_questions@, idx);
        assert(questions_placed(sorted_questions@, new_questions_view(merged_questions), qi));
        let ai = choose|idx: Seq<int>| stable_order(merged_aspects, sorted_aspects@, idx);
        assert(aspects_placed(sorted_aspects@, aspects_view(merged_aspects), ai));
        same_values_same_views(sorted_questions@, merged_questions, |q: NewQuestion| q@);
        same_values_same_views(sorted_aspects@, merged_aspects, |a: NewGuidelineAspect| a@);
        book_fold_ok(sheets@, n as int);
        let out_q = new_questions_view(sorted_questions@);
        let in_q = new_questions_view(merged_questions);
        same_values_same_views(out_q, in_q, |q: NewQuestionView| q.code);
        same_values_no_duplicates(question_codes(out_q), question_codes(in_q));
        let out_a = aspects_view(sorted_aspects@);
        let in_a = aspects_view(merged_aspects);
        same_values_same_views(out_a, in_a, |a: AspectView| aspect_key(a));
        same_values_no_duplicates(aspect_keys(out_a), aspect_keys(in_a));
        assert forall|i: int| 0 <= i < sorted_questions@.len() implies (
        #[trigger] sorted_questions@[i]).status != QuestionStatus::Delete by {
            broadcast use vstd::seq_lib::group_to_multiset_ensures;

            assert(out_q[i] == sorted_questions@[i]@);
            assert(out_q.to_multiset().count(out_q[i]) > 0);
            assert(in_q.contains(out_q[i]));
            let j = choose|j: int| 0 <= j < in_q.len() && in_q[j] == out_q[i];
            assert(in_q[j].status != QuestionStatus::Delete);
        }
    }
    let detected_columns = strings_of(&columns);
    Ok(
        ParsedWorkbook {
            sheet_name,
            questions: sorted_questions,
            guideline_aspects: sorted_aspects,
            skipped_rows: skipped,
            detected_columns,
        },
    )
}

} // verus!
