//! Rules of the question bank: generated codes, what an edit changes, the
//! status an edit leads to, guideline aspects as stored, and the
//! confirmations that destructive actions ask for.
use vstd::prelude::*;

use crate::collab::{busy_text, clock_chars, CollaborationLock};
use crate::domain::{
    aspect_code_spec, clone_strings, normalize_aspect_code, opt_str, questions_view, strs,
    AspectView, DeleteGuidelineAspectRequest, DeleteHistorySnapshotRequest,
    MarkOriginalBaselineRequest, NewGuidelineAspect, NewQuestion, NewQuestionView, Question,
    QuestionStatus, QuestionView, ResetDatabaseRequest, RestoreHistorySnapshotRequest,
};
use crate::importer::digits_value;
use crate::text::{
    chars_of, chars_starts_with, is_blank, is_blank_chars, lit, starts_with, str_eq, string_of,
    subrange_chars, trim, trim_chars,
};
use crate::workbook::{decimal, decimal_chars};

verus! {

// ---------------------------------------------------------------------------
// Generated codes
// ---------------------------------------------------------------------------

pub open spec fn all_digits(s: Seq<char>) -> bool {
    forall|i: int| 0 <= i < s.len() ==> '0' <= #[trigger] s[i] <= '9'
}

/// `str::parse::<u32>`: an optional '+', then one or more decimal digits,
/// whose value fits in `u32`.
pub open spec fn u32_text_value(s: Seq<char>) -> Option<u32> {
    let d = if s.len() > 0 && s[0] == '+' { s.drop_first() } else { s };
    if d.len() > 0 && all_digits(d) && digits_value(d) <= u32::MAX {
        Some(digits_value(d) as u32)
    } else {
        None
    }
}

proof fn digits_value_grows(w: Seq<char>, k: int)
    requires
        0 <= k <= w.len(),
        all_digits(w),
    ensures
        digits_value(w.take(k)) <= digits_value(w),
    decreases w.len(),
{
    if k < w.len() {
        assert(w.drop_last().take(k) =~= w.take(k));
        digits_value_grows(w.drop_last(), k);
    } else {
        assert(w.take(k) =~= w);
    }
}

/// The number of a decimal text, as `str::parse::<u32>` reads it.
pub fn parse_u32(s: &Vec<char>) -> (r: Option<u32>)
    ensures
        r == u32_text_value(s@),
{
    let start: usize = if s.len() > 0 && s[0] == '+' { 1 } else { 0 };
    let ghost d = s@.subrange(start as int, s@.len() as int);
    assert(d =~= (if s@.len() > 0 && s@[0] == '+' { s@.drop_first() } else { s@ }));
    if start == s.len() {
        return None;
    }
    let mut value: u64 = 0;
    let mut i: usize = start;
    while i < s.len()
        invariant
            start <= i <= s@.len(),
            d == s@.subrange(start as int, s@.len() as int),
            d == (if s@.len() > 0 && s@[0] == '+' { s@.drop_first() } else { s@ }),
            value == digits_value(d.take(i - start)),
            value <= u32::MAX,
            all_digits(d.take(i - start)),
        decreases s@.len() - i,
    {
        let c = s[i];
        assert(d.take(i + 1 - start).drop_last() =~= d.take(i - start));
        assert(d.take(i + 1 - start).last() == c);
        if c < '0' || c > '9' {
            assert(d[i - start] == c);
            assert(!all_digits(d));
            return None;
        }
        value = value * 10 + ((c as u32) - 48) as u64;
        assert(value == digits_value(d.take(i + 1 - start)));
        assert(all_digits(d.take(i + 1 - start))) by {
            assert forall|j: int| 0 <= j < i + 1 - start implies '0' <= #[trigger] d.take(
                i + 1 - start,
            )[j] <= '9' by {
                if j < i - start {
                    assert(d.take(i + 1 - start)[j] == d.take(i - start)[j]);
                }
            }
        }
        if value > 0xffff_ffff {
            proof {
                if all_digits(d) {
                    digits_value_grows(d, i + 1 - start);
                }
            }
            return None;
        }
        i = i + 1;
    }
    assert(d.take(i - start) =~= d);
    Some(value as u32)
}

/// The number of a generated code "APP-n".
pub open spec fn app_number(code: Seq<char>) -> Option<u32> {
    if starts_with(code, "APP-"@) {
        u32_text_value(code.subrange(4, code.len() as int))
    } else {
        None
    }
}

/// The highest number of a generated code among the questions (0 if none).
pub open spec fn highest_app(q: Seq<QuestionView>) -> nat
    decreases q.len(),
{
    if q.len() == 0 {
        0
    } else {
        let prev = highest_app(q.drop_last());
        match app_number(q.last().content.code) {
            Some(n) => if n > prev { n as nat } else { prev },
            None => prev,
        }
    }
}

fn app_number_of(code: &str) -> (r: Option<u32>)
    ensures
        r == app_number(code@),
{
    let c = chars_of(code);
    let prefix = chars_of("APP-");
    proof {
        reveal_strlit("APP-");
    }
    if chars_starts_with(&c, &prefix) {
        parse_u32(&subrange_chars(&c, 4, c.len()))
    } else {
        None
    }
}

/// The highest number of a generated code "APP-n" among the questions.
pub fn highest_app_number(existing: &Vec<Question>) -> (r: u32)
    ensures
        r == highest_app(questions_view(existing@)),
{
    let ghost qv = questions_view(existing@);
    let mut best: u32 = 0;
    let n = existing.len();
    let mut i: usize = 0;
    while i < n
        invariant
            i <= n == existing@.len(),
            qv == questions_view(existing@),
            best == highest_app(qv.take(i as int)),
        decreases n - i,
    {
        assert(qv.take(i + 1).drop_last() =~= qv.take(i as int));
        match app_number_of(existing[i].code.as_str()) {
            Some(v) => {
                if v > best {
                    best = v;
                }
            },
            None => {},
        }
        i = i + 1;
    }
    assert(qv.take(n as int) =~= qv);
    best
}

/// At least four digits, zeros in front (`{:04}`).
pub open spec fn pad4(d: Seq<char>) -> Seq<char> {
    if d.len() < 4 {
        Seq::new((4 - d.len()) as nat, |i: int| '0') + d
    } else {
        d
    }
}

/// The code for a new question: "APP-" and one more than the highest
/// generated number, in at least four digits.
pub open spec fn next_code_spec(q: Seq<QuestionView>) -> Seq<char> {
    "APP-"@ + pad4(decimal((highest_app(q) + 1) as nat))
}

pub fn next_question_code(existing: &Vec<Question>) -> (r: String)
    requires
        highest_app(questions_view(existing@)) < u32::MAX,
    ensures
        r@ == next_code_spec(questions_view(existing@)),
{
    let next = highest_app_number(existing) + 1;
    let digits = decimal_chars(next as usize);
    let mut r = chars_of("APP-");
    let mut k: usize = digits.len();
    let ghost zeros = if digits@.len() < 4 {
        Seq::new((4 - digits@.len()) as nat, |i: int| '0')
    } else {
        Seq::<char>::empty()
    };
    let ghost base = r@;
    while k < 4
        invariant
            digits@.len() <= k <= 4 || (k == digits@.len() && k >= 4),
            r@ == base + Seq::new((k - digits@.len()) as nat, |i: int| '0'),
        decreases 4 - k,
    {
        r.push('0');
        assert(r@ =~= base + Seq::new((k + 1 - digits@.len()) as nat, |i: int| '0'));
        k = k + 1;
    }
    let ghost before = r@;
    crate::text::append_chars(&mut r, &digits);
    proof {
        reveal_strlit("APP-");
        if digits@.len() < 4 {
            assert(before =~= base + zeros);
        } else {
            assert(before =~= base);
        }
        assert(r@ =~= "APP-"@ + pad4(digits@));
    }
    string_of(&r)
}

proof fn digit_char_value(d: nat)
    requires
        d < 10,
    ensures
        '0' <= crate::workbook::digit_char(d) <= '9',
        ((crate::workbook::digit_char(d) as u32) - 48) as nat == d,
{
}

proof fn decimal_value(n: nat)
    ensures
        decimal(n).len() > 0,
        all_digits(decimal(n)),
        digits_value(decimal(n)) == n,
    decreases n,
{
    digit_char_value(n % 10);
    if n >= 10 {
        decimal_value(n / 10);
        let w = decimal(n);
        assert(w.drop_last() =~= decimal(n / 10));
        assert forall|i: int| 0 <= i < w.len() implies '0' <= #[trigger] w[i] <= '9' by {
            if i < w.len() - 1 {
                assert(w[i] == decimal(n / 10)[i]);
            }
        }
        assert(w.last() == crate::workbook::digit_char(n % 10));
        assert((n / 10) * 10 + n % 10 == n) by (nonlinear_arith);
        assert(digits_value(w) == digits_value(w.drop_last()) * 10 + ((w.last() as u32) - 48) as nat);
        assert(digits_value(w.drop_last()) == n / 10);
        assert(((w.last() as u32) - 48) as nat == n % 10);
    } else {
        let w = decimal(n);
        assert(w.drop_last() =~= Seq::<char>::empty());
        assert(w.last() == crate::workbook::digit_char(n));
        assert(digits_value(w.drop_last()) == 0);
        assert(digits_value(w) == digits_value(w.drop_last()) * 10 + ((w.last() as u32) - 48) as nat);
    }
}

proof fn zeros_value(k: nat, w: Seq<char>)
    requires
        all_digits(w),
    ensures
        all_digits(Seq::new(k, |i: int| '0') + w),
        digits_value(Seq::new(k, |i: int| '0') + w) == digits_value(w),
    decreases k + w.len(),
{
    let z = Seq::new(k, |i: int| '0');
    if w.len() > 0 {
        assert((z + w).drop_last() =~= z + w.drop_last());
        zeros_value(k, w.drop_last());
    } else if k > 0 {
        assert((z + w).drop_last() =~= Seq::new((k - 1) as nat, |i: int| '0') + w);
        zeros_value((k - 1) as nat, w);
        assert((z + w).last() == '0');
    } else {
        assert(z + w =~= w);
    }
}

proof fn app_number_bounded(q: Seq<QuestionView>, i: int)
    requires
        0 <= i < q.len(),
    ensures
        app_number(q[i].content.code) matches Some(n) ==> n <= highest_app(q),
    decreases q.len(),
{
    if i < q.len() - 1 {
        app_number_bounded(q.drop_last(), i);
        assert(q.drop_last()[i] == q[i]);
    }
}

/// A generated code is new: no question of the bank has the code that the
/// next question would get.
pub proof fn next_code_is_new(q: Seq<QuestionView>)
    requires
        highest_app(q) < u32::MAX,
    ensures
        forall|i: int| 0 <= i < q.len() ==> (#[trigger] q[i]).content.code != next_code_spec(q),
{
    let n = (highest_app(q) + 1) as nat;
    decimal_value(n);
    let d = decimal(n);
    let p = pad4(d);
    if d.len() < 4 {
        zeros_value((4 - d.len()) as nat, d);
    }
    let code = next_code_spec(q);
    reveal_strlit("APP-");
    assert(code.subrange(0, 4) =~= "APP-"@);
    assert(code.subrange(4, code.len() as int) =~= p);
    assert(p[0] != '+');
    assert(app_number(code) == Some(n as u32));
    assert forall|i: int| 0 <= i < q.len() implies (#[trigger] q[i]).content.code != code by {
        app_number_bounded(q, i);
    }
}

// ---------------------------------------------------------------------------
// Edits
// ---------------------------------------------------------------------------

fn same_opt(a: &Option<String>, b: &Option<String>) -> (r: bool)
    ensures
        r == (opt_str(*a) == opt_str(*b)),
{
    match (a, b) {
        (Some(x), Some(y)) => str_eq(x.as_str(), y.as_str()),
        (None, None) => true,
        _ => false,
    }
}

fn same_texts(a: &Vec<String>, b: &Vec<String>) -> (r: bool)
    ensures
        r == (strs(a@) == strs(b@)),
{
    if a.len() != b.len() {
        assert(strs(a@).len() != strs(b@).len());
        return false;
    }
    let n = a.len();
    let mut i: usize = 0;
    while i < n
        invariant
            i <= n == a@.len() == b@.len(),
            forall|k: int| 0 <= k < i ==> strs(a@)[k] == strs(b@)[k],
        decreases n - i,
    {
        if !str_eq(a[i].as_str(), b[i].as_str()) {
            assert(strs(a@)[i as int] != strs(b@)[i as int]);
            return false;
        }
        i = i + 1;
    }
    assert(strs(a@) =~= strs(b@));
    true
}

fn same_status(a: QuestionStatus, b: QuestionStatus) -> (r: bool)
    ensures
        r == (a == b),
{
    match (a, b) {
        (QuestionStatus::Keep, QuestionStatus::Keep) => true,
        (QuestionStatus::Modify, QuestionStatus::Modify) => true,
        (QuestionStatus::Add, QuestionStatus::Add) => true,
        (QuestionStatus::Delete, QuestionStatus::Delete) => true,
        _ => false,
    }
}

/// Whether an edit changes anything of a question's content.
pub fn question_content_changed(existing: &Question, question: &NewQuestion) -> (r: bool)
    ensures
        r == (existing@.content != question@),
{
    let same_scope = match (existing.scope, question.scope) {
        (crate::domain::QuestionScope::Institutional, crate::domain::QuestionScope::Institutional) => true,
        (crate::domain::QuestionScope::Program, crate::domain::QuestionScope::Program) => true,
        _ => false,
    };
    let same = str_eq(existing.code.as_str(), question.code.as_str()) && str_eq(
        existing.text.as_str(),
        question.text.as_str(),
    ) && same_scope && str_eq(existing.format.as_str(), question.format.as_str()) && same_opt(
        &existing.convention_code,
        &question.convention_code,
    ) && same_status(existing.status, question.status) && str_eq(
        existing.factor.as_str(),
        question.factor.as_str(),
    ) && str_eq(existing.characteristic.as_str(), question.characteristic.as_str()) && str_eq(
        existing.aspect.as_str(),
        question.aspect.as_str(),
    ) && same_texts(&existing.audiences, &question.audiences) && same_opt(
        &existing.justification,
        &question.justification,
    );
    !same
}

/// The status after an edit: a deletion request always wins; an added or
/// deleted question keeps its status; a kept or modified question becomes
/// added when asked, else modified.
pub open spec fn next_status_spec(existing: QuestionStatus, requested: QuestionStatus) -> QuestionStatus {
    if requested == QuestionStatus::Delete {
        QuestionStatus::Delete
    } else if existing == QuestionStatus::Add {
        QuestionStatus::Add
    } else if existing == QuestionStatus::Delete {
        QuestionStatus::Delete
    } else if requested == QuestionStatus::Add {
        QuestionStatus::Add
    } else {
        QuestionStatus::Modify
    }
}

/// An edit that changes a question never leaves it kept: it is deleted
/// exactly when a deletion is asked for or the question was already
/// deleted; otherwise it is added exactly when it was added or an addition
/// is asked for; otherwise it is modified. So a kept or modified question
/// edited again is modified.
pub proof fn edited_status_laws(existing: QuestionStatus, requested: QuestionStatus)
    ensures
        next_status_spec(existing, requested) != QuestionStatus::Keep,
        (next_status_spec(existing, requested) == QuestionStatus::Delete) <==> (requested
            == QuestionStatus::Delete || existing == QuestionStatus::Delete),
        (next_status_spec(existing, requested) == QuestionStatus::Add) <==> (requested
            != QuestionStatus::Delete && existing != QuestionStatus::Delete && (existing
            == QuestionStatus::Add || requested == QuestionStatus::Add)),
        (existing == QuestionStatus::Keep || existing == QuestionStatus::Modify) && (requested
            == QuestionStatus::Keep || requested == QuestionStatus::Modify) ==> next_status_spec(
            existing,
            requested,
        ) == QuestionStatus::Modify,
{
}

pub fn next_question_status(existing: &QuestionStatus, requested: &QuestionStatus) -> (r: QuestionStatus)
    ensures
        r == next_status_spec(*existing, *requested),
{
    match (existing, requested) {
        (_, QuestionStatus::Delete) => QuestionStatus::Delete,
        (QuestionStatus::Add, _) => QuestionStatus::Add,
        (QuestionStatus::Delete, _) => QuestionStatus::Delete,
        (_, QuestionStatus::Add) => QuestionStatus::Add,
        _ => QuestionStatus::Modify,
    }
}

fn trimmed(s: &String) -> (r: String)
    ensures
        r@ == trim(s@),
{
    string_of(&trim_chars(&chars_of(s.as_str())))
}

fn blank(s: &str) -> (r: bool)
    ensures
        r == is_blank(s@),
{
    is_blank_chars(&chars_of(s))
}

// ---------------------------------------------------------------------------
// Guideline aspects as stored
// ---------------------------------------------------------------------------

/// An aspect needs a title, a factor, a characteristic code and name, and
/// a description.
pub open spec fn aspect_incomplete(a: NewGuidelineAspect) -> bool {
    is_blank(a.guideline_title@) || is_blank(a.factor_code.text()) || is_blank(
        a.characteristic_code@,
    ) || is_blank(a.characteristic_name@) || is_blank(a.aspect_description@)
}

/// An aspect as stored: texts trimmed, a blank factor name replaced by the
/// factor's own name, and the aspect code normalised.
pub open spec fn normalized_aspect(a: NewGuidelineAspect) -> AspectView {
    let characteristic_code = trim(a.characteristic_code@);
    let description = trim(a.aspect_description@);
    AspectView {
        guideline_title: trim(a.guideline_title@),
        scope: a.scope,
        factor_code: a.factor_code.text(),
        factor_name: trim(
            if is_blank(a.factor_name@) {
                a.factor_code.label_text()
            } else {
                a.factor_name@
            },
        ),
        characteristic_code,
        characteristic_name: trim(a.characteristic_name@),
        aspect_code: aspect_code_spec(
            a.factor_code.text(),
            characteristic_code,
            a.aspect_code@,
            description,
        ),
        aspect_description: description,
        requires_appreciation: a.requires_appreciation,
    }
}

pub fn normalize_guideline_aspect(aspect: &mut NewGuidelineAspect) -> (r: Result<(), String>)
    ensures
        aspect_incomplete(*old(aspect)) ==> (r matches Err(m) && m@
            == "guideline title, factor, characteristic and aspect are required"@)
            && final(aspect)@ == old(aspect)@,
        !aspect_incomplete(*old(aspect)) ==> r is Ok && final(aspect)@ == normalized_aspect(
            *old(aspect),
        ) && final(aspect).factor_code == old(aspect).factor_code,
{
    if blank(aspect.guideline_title.as_str()) || blank(aspect.factor_code.as_str()) || blank(
        aspect.characteristic_code.as_str(),
    ) || blank(aspect.characteristic_name.as_str()) || blank(aspect.aspect_description.as_str()) {
        return Err(lit("guideline title, factor, characteristic and aspect are required"));
    }
    if blank(aspect.factor_name.as_str()) {
        aspect.factor_name = aspect.factor_code.label();
    }
    aspect.guideline_title = trimmed(&aspect.guideline_title);
    aspect.factor_name = trimmed(&aspect.factor_name);
    aspect.characteristic_code = trimmed(&aspect.characteristic_code);
    aspect.characteristic_name = trimmed(&aspect.characteristic_name);
    aspect.aspect_description = trimmed(&aspect.aspect_description);
    aspect.aspect_code = normalize_aspect_code(
        &aspect.factor_code,
        aspect.characteristic_code.as_str(),
        aspect.aspect_code.as_str(),
        aspect.aspect_description.as_str(),
    );
    Ok(())
}

// ---------------------------------------------------------------------------
// Creating and editing questions
// ---------------------------------------------------------------------------

pub open spec fn text_required() -> Seq<char> {
    "question text is required"@
}

pub open spec fn audience_required() -> Seq<char> {
    "at least one subaudience must be assigned"@
}

/// A new question: its text and at least one audience are required; a
/// blank code gets the next generated code.
pub fn prepare_new_question(question: NewQuestion, existing: &Vec<Question>) -> (r: Result<NewQuestion, String>)
    requires
        is_blank(question.code@) && !is_blank(question.text@) ==> highest_app(
            questions_view(existing@),
        ) < u32::MAX,
    ensures
        is_blank(question.text@) ==> (r matches Err(m) && m@ == text_required()),
        !is_blank(question.text@) && question.audiences@.len() == 0 ==> (r matches Err(m) && m@
            == audience_required()),
        !is_blank(question.text@) && question.audiences@.len() > 0 ==> (r matches Ok(q) && q@ == (
        NewQuestionView {
            code: if is_blank(question.code@) {
                next_code_spec(questions_view(existing@))
            } else {
                question.code@
            },
            ..question@
        })),
{
    let mut question = question;
    if blank(question.text.as_str()) {
        return Err(lit("question text is required"));
    }
    if blank(question.code.as_str()) {
        question.code = next_question_code(existing);
    }
    if question.audiences.len() == 0 {
        return Err(lit("at least one subaudience must be assigned"));
    }
    Ok(question)
}

/// What an edit of a question comes to.
#[derive(Debug)]
pub enum QuestionUpdate {
    /// Nothing of the content changes: the question stays as it is.
    Unchanged,
    /// The content to store.
    Save(NewQuestion),
}

pub open spec fn stale_edit() -> Seq<char> {
    "question was changed by another editor; reload it before saving"@
}

/// An edit of `existing` by `editor`: refused while another editor holds
/// the question's lock, when the question changed since the editor read it
/// (`expected_updated_at`), without text or without audiences. A blank code
/// keeps the existing one; an edit that changes nothing is no edit; else
/// the status follows `next_status_spec`.
pub fn plan_question_update(
    existing: &Question,
    question: NewQuestion,
    expected_updated_at: Option<i64>,
    lock: Option<CollaborationLock>,
    editor: &str,
) -> (r: Result<QuestionUpdate, String>)
    ensures
        ({
            let busy = lock matches Some(l) && l.editor_name@ != editor@;
            let stale = expected_updated_at matches Some(t) && t != existing.updated_at;
            let content = NewQuestionView {
                code: if is_blank(question.code@) { existing.code@ } else { question.code@ },
                ..question@
            };
            &&& busy ==> (r matches Err(m) && m@ == busy_text(lock->Some_0@))
            &&& !busy && stale ==> (r matches Err(m) && m@ == stale_edit())
            &&& !busy && !stale && is_blank(question.text@) ==> (r matches Err(m) && m@
                == text_required())
            &&& !busy && !stale && !is_blank(question.text@) && question.audiences@.len() == 0
                ==> (r matches Err(m) && m@ == audience_required())
            &&& !busy && !stale && !is_blank(question.text@) && question.audiences@.len() > 0
                && content == existing@.content ==> (r matches Ok(QuestionUpdate::Unchanged))
            &&& !busy && !stale && !is_blank(question.text@) && question.audiences@.len() > 0
                && content != existing@.content ==> (r matches Ok(QuestionUpdate::Save(q)) && q@
                == NewQuestionView {
                status: next_status_spec(existing.status, question.status),
                ..content
            })
        }),
{
    match &lock {
        Some(l) => {
            if !str_eq(l.editor_name.as_str(), editor) {
                let mut m = chars_of(l.editor_name.as_str());
                crate::text::append_chars(&mut m, &chars_of(" is editing this item until "));
                crate::text::append_chars(&mut m, &clock_chars(l.locked_until));
                return Err(string_of(&m));
            }
        },
        None => {},
    }
    match expected_updated_at {
        Some(t) => {
            if t != existing.updated_at {
                return Err(lit("question was changed by another editor; reload it before saving"));
            }
        },
        None => {},
    }
    let mut question = question;
    if blank(question.text.as_str()) {
        return Err(lit("question text is required"));
    }
    if blank(question.code.as_str()) {
        question.code = existing.code.clone();
    }
    if question.audiences.len() == 0 {
        return Err(lit("at least one subaudience must be assigned"));
    }
    if !question_content_changed(existing, &question) {
        return Ok(QuestionUpdate::Unchanged);
    }
    question.status = next_question_status(&existing.status, &question.status);
    Ok(QuestionUpdate::Save(question))
}

// ---------------------------------------------------------------------------
// Confirmations
// ---------------------------------------------------------------------------

/// A confirmation text matches its phrase once trimmed.
pub open spec fn confirmed(text: Seq<char>, phrase: Seq<char>) -> bool {
    trim(text) == phrase
}

fn confirms(text: &str, phrase: &str) -> (r: bool)
    ensures
        r == confirmed(text@, phrase@),
{
    let t = trim_chars(&chars_of(text));
    crate::text::chars_eq(&t, &chars_of(phrase))
}

pub fn check_delete_guideline_aspect(request: &DeleteGuidelineAspectRequest) -> (r: Result<(), String>)
    ensures
        !confirmed(request.confirmation_text@, "ELIMINAR LINEAMIENTO"@) ==> (r matches Err(m) && m@
            == "type ELIMINAR LINEAMIENTO to confirm deletion"@),
        confirmed(request.confirmation_text@, "ELIMINAR LINEAMIENTO"@)
            && !request.acknowledge_related_questions ==> (r matches Err(m) && m@
            == "acknowledge that related questions will be deleted"@),
        confirmed(request.confirmation_text@, "ELIMINAR LINEAMIENTO"@)
            && request.acknowledge_related_questions ==> r is Ok,
{
    if !confirms(request.confirmation_text.as_str(), "ELIMINAR LINEAMIENTO") {
        return Err(lit("type ELIMINAR LINEAMIENTO to confirm deletion"));
    }
    if !request.acknowledge_related_questions {
        return Err(lit("acknowledge that related questions will be deleted"));
    }
    Ok(())
}

pub fn check_delete_history_snapshot(request: &DeleteHistorySnapshotRequest) -> (r: Result<(), String>)
    ensures
        !confirmed(request.confirmation_text@, "ELIMINAR HISTORIAL"@) ==> (r matches Err(m) && m@
            == "type ELIMINAR HISTORIAL to confirm deletion"@),
        confirmed(request.confirmation_text@, "ELIMINAR HISTORIAL"@) ==> r is Ok,
{
    if !confirms(request.confirmation_text.as_str(), "ELIMINAR HISTORIAL") {
        return Err(lit("type ELIMINAR HISTORIAL to confirm deletion"));
    }
    Ok(())
}

pub fn check_restore_history_snapshot(request: &RestoreHistorySnapshotRequest) -> (r: Result<(), String>)
    ensures
        !confirmed(request.confirmation_text@, "RESTAURAR HISTORIAL"@) ==> (r matches Err(m) && m@
            == "type RESTAURAR HISTORIAL to confirm restore"@),
        confirmed(request.confirmation_text@, "RESTAURAR HISTORIAL"@) ==> r is Ok,
{
    if !confirms(request.confirmation_text.as_str(), "RESTAURAR HISTORIAL") {
        return Err(lit("type RESTAURAR HISTORIAL to confirm restore"));
    }
    Ok(())
}

pub fn check_reset_database(request: &ResetDatabaseRequest) -> (r: Result<(), String>)
    ensures
        !confirmed(request.confirmation_text@, "BORRAR DATOS"@) ==> (r matches Err(m) && m@
            == "type BORRAR DATOS to confirm database cleanup"@),
        confirmed(request.confirmation_text@, "BORRAR DATOS"@) && !(request.acknowledge_backup
            && request.acknowledge_irreversible) ==> (r matches Err(m) && m@
            == "backup and irreversible action acknowledgements are required"@),
        confirmed(request.confirmation_text@, "BORRAR DATOS"@) && request.acknowledge_backup
            && request.acknowledge_irreversible ==> r is Ok,
{
    if !confirms(request.confirmation_text.as_str(), "BORRAR DATOS") {
        return Err(lit("type BORRAR DATOS to confirm database cleanup"));
    }
    if !request.acknowledge_backup || !request.acknowledge_irreversible {
        return Err(lit("backup and irreversible action acknowledgements are required"));
    }
    Ok(())
}

/// The message of a finished database cleanup.
pub fn reset_database_message() -> (r: String)
    ensures
        r@ == "Database content was deleted. Workspace settings and editor profile were kept."@,
{
    lit("Database content was deleted. Workspace settings and editor profile were kept.")
}

/// Marking the original baseline needs the phrase, both acknowledgements
/// and at least one question.
pub fn check_mark_original_baseline(request: &MarkOriginalBaselineRequest, question_count: usize) -> (r: Result<(), String>)
    ensures
        !confirmed(request.confirmation_text@, "FIJAR ORIGINAL"@) ==> (r matches Err(m) && m@
            == "type FIJAR ORIGINAL to confirm the original baseline"@),
        confirmed(request.confirmation_text@, "FIJAR ORIGINAL"@) && !(
        request.acknowledge_replacement && request.acknowledge_backup) ==> (r matches Err(m) && m@
            == "confirm replacement impact and backup acknowledgement before marking original"@),
        confirmed(request.confirmation_text@, "FIJAR ORIGINAL"@) && request.acknowledge_replacement
            && request.acknowledge_backup && question_count == 0 ==> (r matches Err(m) && m@
            == "import questions before marking an original baseline"@),
        confirmed(request.confirmation_text@, "FIJAR ORIGINAL"@) && request.acknowledge_replacement
            && request.acknowledge_backup && question_count > 0 ==> r is Ok,
{
    if !confirms(request.confirmation_text.as_str(), "FIJAR ORIGINAL") {
        return Err(lit("type FIJAR ORIGINAL to confirm the original baseline"));
    }
    if !request.acknowledge_replacement || !request.acknowledge_backup {
        return Err(
            lit("confirm replacement impact and backup acknowledgement before marking original"),
        );
    }
    if question_count == 0 {
        return Err(lit("import questions before marking an original baseline"));
    }
    Ok(())
}


// ---------------------------------------------------------------------------
// Editing a guideline aspect
// ---------------------------------------------------------------------------

/// The factor, characteristic and aspect labels ("code. name") under which
/// the questions of a guideline aspect are filed.
pub open spec fn hierarchy_labels(a: AspectView) -> (Seq<char>, Seq<char>, Seq<char>) {
    (
        crate::importer::join_number_name_spec(a.factor_code, a.factor_name),
        crate::importer::join_number_name_spec(a.characteristic_code, a.characteristic_name),
        crate::importer::join_number_name_spec(a.aspect_code, a.aspect_description),
    )
}

/// What editing a guideline aspect does to the questions filed under it:
/// their labels before and after, and whether they change (the questions
/// under the old labels are then relabelled and marked as modified).
#[derive(Debug)]
pub struct AspectRelabel {
    pub old_labels: (String, String, String),
    pub new_labels: (String, String, String),
    pub hierarchy_changed: bool,
}

fn labels_of(a: &NewGuidelineAspect) -> (r: (String, String, String))
    ensures
        (r.0@, r.1@, r.2@) == hierarchy_labels(a@),
{
    (
        crate::importer::join_number_name(lit(a.factor_code.as_str()), a.factor_name.clone()),
        crate::importer::join_number_name(a.characteristic_code.clone(), a.characteristic_name.clone()),
        crate::importer::join_number_name(a.aspect_code.clone(), a.aspect_description.clone()),
    )
}

pub fn plan_aspect_relabel(existing: &NewGuidelineAspect, updated: &NewGuidelineAspect) -> (r: AspectRelabel)
    ensures
        (r.old_labels.0@, r.old_labels.1@, r.old_labels.2@) == hierarchy_labels(existing@),
        (r.new_labels.0@, r.new_labels.1@, r.new_labels.2@) == hierarchy_labels(updated@),
        r.hierarchy_changed == (hierarchy_labels(existing@) != hierarchy_labels(updated@)),
{
    let old_labels = labels_of(existing);
    let new_labels = labels_of(updated);
    let changed = !str_eq(old_labels.0.as_str(), new_labels.0.as_str()) || !str_eq(
        old_labels.1.as_str(),
        new_labels.1.as_str(),
    ) || !str_eq(old_labels.2.as_str(), new_labels.2.as_str());
    AspectRelabel { old_labels, new_labels, hierarchy_changed: changed }
}

} // verus!
