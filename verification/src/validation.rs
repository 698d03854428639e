//! Readiness checks of the question bank and the counts that the dashboard
//! and the import preview show.
use vstd::prelude::*;

use crate::domain::{
    new_questions_view, questions_view, strs, ImportWorkbookPreviewResult, NewQuestionView,
    ProviderLink, Question, QuestionStatus, QuestionView, StatusCount, ValidationIssue,
    ValidationSeverity,
};
use crate::importer::{insert_sorted_unique, strictly_sorted};
use crate::text::{append_chars, chars_of, is_blank, is_blank_chars, lit, str_eq, string_of, views};
use crate::workbook::{decimal, decimal_chars, ParsedWorkbook};

verus! {

/// A lower-case hexadecimal digit.
pub open spec fn is_lower_hex(c: char) -> bool {
    ('0' <= c && c <= '9') || ('a' <= c && c <= 'f')
}

/// `uuid::Uuid::new_v4`, as text: `Display` writes the hyphenated form,
/// 36 characters, lower-case hexadecimal digits with hyphens at 8, 13, 18
/// and 23; `new_v4` sets the version digit (at 14) to 4 and the variant
/// bits, so the digit at 19 is one of 8, 9, a, b. The other digits are
/// random: nothing more is stated of them.
#[verifier::external_body]
pub(crate) fn new_uuid() -> (r: String)
    ensures
        r@.len() == 36,
        forall|i: int|
            0 <= i < 36 ==> if i == 8 || i == 13 || i == 18 || i == 23 {
                r@[i] == '-'
            } else {
                is_lower_hex(#[trigger] r@[i])
            },
        r@[14] == '4',
        r@[19] == '8' || r@[19] == '9' || r@[19] == 'a' || r@[19] == 'b',
{
    uuid::Uuid::new_v4().to_string()
}

// ---------------------------------------------------------------------------
// Readiness checks
// ---------------------------------------------------------------------------

/// A finding without its (random) identifier.
pub struct IssueView {
    pub severity: ValidationSeverity,
    pub entity: Seq<char>,
    pub entity_id: Seq<char>,
    pub message: Seq<char>,
}

pub open spec fn issue_view(i: ValidationIssue) -> IssueView {
    IssueView {
        severity: i.severity,
        entity: i.entity@,
        entity_id: i.entity_id@,
        message: i.message@,
    }
}

pub open spec fn issues_view(s: Seq<ValidationIssue>) -> Seq<IssueView> {
    s.map_values(|i: ValidationIssue| issue_view(i))
}

/// The findings on one question: no audience and no response convention
/// (unless the question is open) block; a deletion without justification
/// warns.
pub open spec fn question_issues(q: QuestionView) -> Seq<IssueView> {
    let c = q.content;
    let a = if c.audiences.len() == 0 {
        seq![
            IssueView {
                severity: ValidationSeverity::Blocking,
                entity: "question"@,
                entity_id: q.id,
                message: c.code + " has no assigned subaudiences"@,
            },
        ]
    } else {
        Seq::empty()
    };
    let b = if c.convention_code is None && c.format != "open"@ {
        seq![
            IssueView {
                severity: ValidationSeverity::Blocking,
                entity: "question"@,
                entity_id: q.id,
                message: c.code + " has no response convention"@,
            },
        ]
    } else {
        Seq::empty()
    };
    let d = if c.status == QuestionStatus::Delete && c.justification is None {
        seq![
            IssueView {
                severity: ValidationSeverity::Warning,
                entity: "question"@,
                entity_id: q.id,
                message: c.code + " is marked for deletion without justification"@,
            },
        ]
    } else {
        Seq::empty()
    };
    a + b + d
}

/// A question gets a warning exactly when it is marked for deletion with no
/// justification at all, and then one, naming its code; a justified
/// deletion, or a question not marked for deletion, gets no warning.
pub proof fn deletion_warning_law(q: QuestionView)
    ensures
        (exists|i: int|
            0 <= i < question_issues(q).len() && (#[trigger] question_issues(q)[i]).severity
                == ValidationSeverity::Warning) <==> (q.content.status == QuestionStatus::Delete
            && q.content.justification is None),
        forall|i: int|
            0 <= i < question_issues(q).len() && (#[trigger] question_issues(q)[i]).severity
                == ValidationSeverity::Warning ==> question_issues(q)[i].message == q.content.code
                + " is marked for deletion without justification"@ && question_issues(q)[i].entity_id
                == q.id,
        q.content.justification is Some ==> forall|i: int|
            0 <= i < question_issues(q).len() ==> (#[trigger] question_issues(q)[i]).severity
                != ValidationSeverity::Warning,
{
    let is = question_issues(q);
    if q.content.status == QuestionStatus::Delete && q.content.justification is None {
        assert(is[is.len() - 1].severity == ValidationSeverity::Warning);
    }
}

/// The findings on a question: a blocking one when it has no audience, a
/// blocking one when it has no response convention and is not open, a
/// warning when it is marked for deletion with no justification; nothing
/// else, and each names the question.
pub proof fn question_findings_law(q: QuestionView)
    ensures
        question_issues(q).len() == (if q.content.audiences.len() == 0 { 1int } else { 0int }) + (if q.content.convention_code
            is None && q.content.format != "open"@ { 1int } else { 0int }) + (if q.content.status
            == QuestionStatus::Delete && q.content.justification is None { 1int } else { 0int }),
        (exists|i: int|
            0 <= i < question_issues(q).len() && (#[trigger] question_issues(q)[i]).message
                == q.content.code + " has no assigned subaudiences"@ && question_issues(q)[i].severity
                == ValidationSeverity::Blocking) <== q.content.audiences.len() == 0,
        (exists|i: int|
            0 <= i < question_issues(q).len() && (#[trigger] question_issues(q)[i]).message
                == q.content.code + " has no response convention"@ && question_issues(q)[i].severity
                == ValidationSeverity::Blocking) <== (q.content.convention_code is None
            && q.content.format != "open"@),
        forall|i: int|
            0 <= i < question_issues(q).len() ==> (#[trigger] question_issues(q)[i]).entity_id == q.id
                && question_issues(q)[i].entity == "question"@,
{
    let is = question_issues(q);
    if q.content.audiences.len() == 0 {
        assert(is[0].message == q.content.code + " has no assigned subaudiences"@);
    }
    if q.content.convention_code is None && q.content.format != "open"@ {
        let k: int = if q.content.audiences.len() == 0 { 1 } else { 0 };
        assert(is[k].message == q.content.code + " has no response convention"@);
    }
}

/// Every warning of a list of questions is that of a question of the list
/// marked for deletion without justification, and every such question has
/// its warning.
pub proof fn deletion_warnings_of_list(qs: Seq<QuestionView>)
    ensures
        forall|i: int|
            0 <= i < all_issues(qs).len() && (#[trigger] all_issues(qs)[i]).severity
                == ValidationSeverity::Warning ==> exists|j: int|
                0 <= j < qs.len() && (#[trigger] qs[j]).id == all_issues(qs)[i].entity_id
                    && qs[j].content.status == QuestionStatus::Delete && qs[j].content.justification
                    is None,
        forall|j: int|
            0 <= j < qs.len() && (#[trigger] qs[j]).content.status == QuestionStatus::Delete
                && qs[j].content.justification is None ==> exists|i: int|
                0 <= i < all_issues(qs).len() && all_issues(qs)[i].severity
                    == ValidationSeverity::Warning && all_issues(qs)[i].entity_id == qs[j].id,
    decreases qs.len(),
{
    if qs.len() > 0 {
        let p = qs.drop_last();
        deletion_warnings_of_list(p);
        deletion_warning_law(qs.last());
        let a = all_issues(p);
        let b = question_issues(qs.last());
        assert(all_issues(qs) == a + b);
        assert forall|i: int|
            0 <= i < all_issues(qs).len() && (#[trigger] all_issues(qs)[i]).severity
                == ValidationSeverity::Warning implies exists|j: int|
                0 <= j < qs.len() && (#[trigger] qs[j]).id == all_issues(qs)[i].entity_id
                    && qs[j].content.status == QuestionStatus::Delete && qs[j].content.justification
                    is None by {
            if i < a.len() {
                assert(all_issues(qs)[i] == a[i]);
                let j = choose|j: int|
                    0 <= j < p.len() && (#[trigger] p[j]).id == a[i].entity_id && p[j].content.status
                        == QuestionStatus::Delete && p[j].content.justification is None;
                assert(qs[j] == p[j]);
            } else {
                assert(all_issues(qs)[i] == b[i - a.len()]);
                assert(qs[qs.len() - 1] == qs.last());
            }
        }
        assert forall|j: int|
            0 <= j < qs.len() && (#[trigger] qs[j]).content.status == QuestionStatus::Delete
                && qs[j].content.justification is None implies exists|i: int|
                0 <= i < all_issues(qs).len() && all_issues(qs)[i].severity
                    == ValidationSeverity::Warning && all_issues(qs)[i].entity_id == qs[j].id by {
            if j < p.len() {
                assert(qs[j] == p[j]);
                let i = choose|i: int|
                    0 <= i < a.len() && a[i].severity == ValidationSeverity::Warning && a[i].entity_id
                        == p[j].id;
                assert(all_issues(qs)[i] == a[i]);
            } else {
                assert(qs[j] == qs.last());
                let k = b.len() - 1;
                assert(b[k].severity == ValidationSeverity::Warning);
                assert(all_issues(qs)[a.len() + k] == b[k]);
            }
        }
    }
}

pub open spec fn all_issues(q: Seq<QuestionView>) -> Seq<IssueView>
    decreases q.len(),
{
    if q.len() == 0 {
        Seq::empty()
    } else {
        all_issues(q.drop_last()) + question_issues(q.last())
    }
}

fn issue(severity: ValidationSeverity, question: &Question, tail: &str) -> (r: ValidationIssue)
    ensures
        issue_view(r) == (IssueView {
            severity,
            entity: "question"@,
            entity_id: question.id@,
            message: question.code@ + tail@,
        }),
{
    let mut m = chars_of(question.code.as_str());
    append_chars(&mut m, &chars_of(tail));
    ValidationIssue {
        id: new_uuid(),
        severity,
        entity: lit("question"),
        entity_id: question.id.clone(),
        message: string_of(&m),
    }
}

/// The findings on each question in turn, each with a new random id.
pub fn validate_questions(questions: &Vec<Question>) -> (r: Vec<ValidationIssue>)
    ensures
        issues_view(r@) == all_issues(questions_view(questions@)),
{
    let ghost qv = questions_view(questions@);
    let mut r: Vec<ValidationIssue> = Vec::new();
    let n = questions.len();
    let mut i: usize = 0;
    assert(issues_view(r@) =~= all_issues(qv.take(0)));
    while i < n
        invariant
            i <= n == questions@.len(),
            qv == questions_view(questions@),
            issues_view(r@) == all_issues(qv.take(i as int)),
        decreases n - i,
    {
        let q = &questions[i];
        let ghost start = issues_view(r@);
        let ghost c = qv[i as int].content;
        assert(qv.take(i + 1).drop_last() =~= qv.take(i as int));
        assert(qv.take(i + 1).last() == q@);
        if q.audiences.len() == 0 {
            let x = issue(ValidationSeverity::Blocking, q, " has no assigned subaudiences");
            r.push(x);
        }
        let ghost after_a = issues_view(r@);
        let open = str_eq(q.format.as_str(), "open");
        if q.convention_code.is_none() && !open {
            let x = issue(ValidationSeverity::Blocking, q, " has no response convention");
            r.push(x);
        }
        let ghost after_b = issues_view(r@);
        let deleted = match q.status {
            QuestionStatus::Delete => true,
            _ => false,
        };
        if deleted && q.justification.is_none() {
            let x = issue(
                ValidationSeverity::Warning,
                q,
                " is marked for deletion without justification",
            );
            r.push(x);
        }
        proof {
            let qi = question_issues(q@);
            assert(issues_view(r@) =~= start + qi);
        }
        i = i + 1;
    }
    assert(qv.take(n as int) =~= qv);
    r
}

// ---------------------------------------------------------------------------
// Counts
// ---------------------------------------------------------------------------

/// How many questions have status `s`.
pub open spec fn status_count(q: Seq<QuestionView>, s: QuestionStatus) -> nat
    decreases q.len(),
{
    if q.len() == 0 {
        0
    } else {
        status_count(q.drop_last(), s) + if q.last().content.status == s { 1nat } else { 0nat }
    }
}

fn count_status(questions: &Vec<Question>, s: QuestionStatus) -> (r: usize)
    ensures
        r == status_count(questions_view(questions@), s),
{
    let ghost qv = questions_view(questions@);
    let n = questions.len();
    let mut c: usize = 0;
    let mut i: usize = 0;
    while i < n
        invariant
            i <= n == questions@.len(),
            qv == questions_view(questions@),
            c <= i,
            c == status_count(qv.take(i as int), s),
        decreases n - i,
    {
        assert(qv.take(i + 1).drop_last() =~= qv.take(i as int));
        let same = match (questions[i].status, s) {
            (QuestionStatus::Keep, QuestionStatus::Keep) => true,
            (QuestionStatus::Modify, QuestionStatus::Modify) => true,
            (QuestionStatus::Add, QuestionStatus::Add) => true,
            (QuestionStatus::Delete, QuestionStatus::Delete) => true,
            _ => false,
        };
        if same {
            c = c + 1;
        }
        i = i + 1;
    }
    assert(qv.take(n as int) =~= qv);
    c
}

/// The number of questions of each status, in the order keep, modify, add,
/// delete.
pub fn count_by_status(questions: &Vec<Question>) -> (r: Vec<StatusCount>)
    ensures
        r@.len() == 4,
        r@[0].status == QuestionStatus::Keep,
        r@[1].status == QuestionStatus::Modify,
        r@[2].status == QuestionStatus::Add,
        r@[3].status == QuestionStatus::Delete,
        forall|i: int| 0 <= i < 4 ==> #[trigger] r@[i].count == status_count(questions_view(questions@), r@[i].status),
{
    let mut r: Vec<StatusCount> = Vec::new();
    r.push(StatusCount { status: QuestionStatus::Keep, count: count_status(questions, QuestionStatus::Keep) });
    r.push(StatusCount { status: QuestionStatus::Modify, count: count_status(questions, QuestionStatus::Modify) });
    r.push(StatusCount { status: QuestionStatus::Add, count: count_status(questions, QuestionStatus::Add) });
    r.push(StatusCount { status: QuestionStatus::Delete, count: count_status(questions, QuestionStatus::Delete) });
    r
}

/// How many findings block.
pub open spec fn blocking_count(s: Seq<IssueView>) -> nat
    decreases s.len(),
{
    if s.len() == 0 {
        0
    } else {
        blocking_count(s.drop_last()) + if s.last().severity == ValidationSeverity::Blocking {
            1nat
        } else {
            0nat
        }
    }
}

/// How many provider links are not validated yet.
pub open spec fn pending_links(s: Seq<ProviderLink>) -> nat
    decreases s.len(),
{
    if s.len() == 0 {
        0
    } else {
        pending_links(s.drop_last()) + if s.last().validation_status@ != "validated"@ {
            1nat
        } else {
            0nat
        }
    }
}

/// The figures of the dashboard.
#[derive(Debug)]
pub struct DashboardCounts {
    pub total_questions: usize,
    pub pending_changes: usize,
    pub blocking_validations: usize,
    pub provider_links_pending: usize,
    pub questions_by_status: Vec<StatusCount>,
}

fn count_blocking(issues: &Vec<ValidationIssue>) -> (r: usize)
    ensures
        r == blocking_count(issues_view(issues@)),
{
    let ghost v = issues_view(issues@);
    let n = issues.len();
    let mut c: usize = 0;
    let mut i: usize = 0;
    while i < n
        invariant
            i <= n == issues@.len(),
            v == issues_view(issues@),
            c <= i,
            c == blocking_count(v.take(i as int)),
        decreases n - i,
    {
        assert(v.take(i + 1).drop_last() =~= v.take(i as int));
        let blocking = match issues[i].severity {
            ValidationSeverity::Blocking => true,
            ValidationSeverity::Warning => false,
        };
        if blocking {
            c = c + 1;
        }
        i = i + 1;
    }
    assert(v.take(n as int) =~= v);
    c
}

fn count_pending_links(links: &Vec<ProviderLink>) -> (r: usize)
    ensures
        r == pending_links(links@),
{
    let n = links.len();
    let mut c: usize = 0;
    let mut i: usize = 0;
    while i < n
        invariant
            i <= n == links@.len(),
            c <= i,
            c == pending_links(links@.take(i as int)),
        decreases n - i,
    {
        assert(links@.take(i + 1).drop_last() =~= links@.take(i as int));
        if !str_eq(links[i].validation_status.as_str(), "validated") {
            c = c + 1;
        }
        i = i + 1;
    }
    assert(links@.take(n as int) =~= links@);
    c
}

/// The dashboard figures: questions, questions with a change pending (any
/// status but keep), blocking findings, links not validated, and the
/// questions by status.
pub fn dashboard_counts(questions: &Vec<Question>, links: &Vec<ProviderLink>) -> (r: DashboardCounts)
    ensures
        r.total_questions == questions@.len(),
        r.pending_changes == questions@.len() - status_count(
            questions_view(questions@),
            QuestionStatus::Keep,
        ),
        r.blocking_validations == blocking_count(all_issues(questions_view(questions@))),
        r.provider_links_pending == pending_links(links@),
        r.questions_by_status@.len() == 4,
        forall|i: int|
            0 <= i < 4 ==> #[trigger] r.questions_by_status@[i].count == status_count(
                questions_view(questions@),
                r.questions_by_status@[i].status,
            ),
        r.questions_by_status@[0].status == QuestionStatus::Keep,
        r.questions_by_status@[1].status == QuestionStatus::Modify,
        r.questions_by_status@[2].status == QuestionStatus::Add,
        r.questions_by_status@[3].status == QuestionStatus::Delete,
{
    let issues = validate_questions(questions);
    let kept = count_status(questions, QuestionStatus::Keep);
    proof {
        status_count_bound(questions_view(questions@), QuestionStatus::Keep);
    }
    DashboardCounts {
        total_questions: questions.len(),
        pending_changes: questions.len() - kept,
        blocking_validations: count_blocking(&issues),
        provider_links_pending: count_pending_links(links),
        questions_by_status: count_by_status(questions),
    }
}

proof fn status_count_bound(q: Seq<QuestionView>, s: QuestionStatus)
    ensures
        status_count(q, s) <= q.len(),
    decreases q.len(),
{
    if q.len() > 0 {
        status_count_bound(q.drop_last(), s);
    }
}

// ---------------------------------------------------------------------------
// Import preview
// ---------------------------------------------------------------------------

/// The audiences of all the questions.
pub open spec fn all_audiences(q: Seq<NewQuestionView>) -> Set<Seq<char>>
    decreases q.len(),
{
    if q.len() == 0 {
        Set::empty()
    } else {
        all_audiences(q.drop_last()) + q.last().audiences.to_set()
    }
}

/// How many questions have no audience.
pub open spec fn without_audience(q: Seq<NewQuestionView>) -> nat
    decreases q.len(),
{
    if q.len() == 0 {
        0
    } else {
        without_audience(q.drop_last()) + if q.last().audiences.len() == 0 { 1nat } else { 0nat }
    }
}

/// The warnings of an import preview.
pub open spec fn preview_warnings(p: ParsedWorkbook) -> Seq<Seq<char>> {
    let q = new_questions_view(p.questions@);
    let a = if p.questions@.len() == 0 {
        seq!["No se detectaron preguntas importables."@]
    } else {
        Seq::empty()
    };
    let b = if p.guideline_aspects@.len() == 0 {
        seq!["No se detectaron lineamientos CNA."@]
    } else {
        Seq::empty()
    };
    let n = without_audience(q);
    let c = if n > 0 {
        seq![decimal(n) + " preguntas no tienen publico detectado."@]
    } else {
        Seq::empty()
    };
    a + b + c
}

/// What an import would bring: the workbook's figures, its audiences
/// sorted and each once, and warnings for a workbook without questions,
/// without guideline aspects, or with questions that have no audience.
pub fn preview_result(file_name: String, parsed: ParsedWorkbook) -> (r: ImportWorkbookPreviewResult)
    ensures
        r.file_name@ == file_name@,
        r.sheet_name@ == parsed.sheet_name@,
        r.detected_questions == parsed.questions@.len(),
        r.detected_guideline_aspects == parsed.guideline_aspects@.len(),
        r.skipped_rows == parsed.skipped_rows,
        strs(r.detected_columns@) == strs(parsed.detected_columns@),
        strictly_sorted(strs(r.detected_audiences@)),
        strs(r.detected_audiences@).to_set() == all_audiences(new_questions_view(parsed.questions@)),
        strs(r.warnings@) == preview_warnings(parsed),
{
    let ghost qv = new_questions_view(parsed.questions@);
    let mut audiences: Vec<Vec<char>> = Vec::new();
    let mut missing: usize = 0;
    let n = parsed.questions.len();
    let mut i: usize = 0;
    assert(views(audiences@).to_set() =~= all_audiences(qv.take(0)));
    while i < n
        invariant
            i <= n == parsed.questions@.len(),
            qv == new_questions_view(parsed.questions@),
            strictly_sorted(views(audiences@)),
            views(audiences@).to_set() == all_audiences(qv.take(i as int)),
            missing <= i,
            missing == without_audience(qv.take(i as int)),
        decreases n - i,
    {
        assert(qv.take(i + 1).drop_last() =~= qv.take(i as int));
        let q = &parsed.questions[i];
        let ghost start = views(audiences@).to_set();
        let ghost list = strs(q.audiences@);
        if q.audiences.len() == 0 {
            missing = missing + 1;
        }
        let m = q.audiences.len();
        let mut j: usize = 0;
        assert(start + list.take(0).to_set() =~= start);
        while j < m
            invariant
                j <= m == q.audiences@.len(),
                list == strs(q.audiences@),
                strictly_sorted(views(audiences@)),
                views(audiences@).to_set() == start + list.take(j as int).to_set(),
            decreases m - j,
        {
            insert_sorted_unique(&mut audiences, chars_of(q.audiences[j].as_str()));
            assert(list.take(j + 1) =~= list.take(j as int).push(list[j as int]));
            proof {
                list.take(j as int).lemma_push_to_set_commute(list[j as int]);
            }
            assert(views(audiences@).to_set() =~= start + list.take(j + 1).to_set());
            j = j + 1;
        }
        assert(list.take(m as int) =~= list);
        assert(qv.take(i + 1).last() == q@);
        i = i + 1;
    }
    assert(qv.take(n as int) =~= qv);
    let mut warnings: Vec<String> = Vec::new();
    if parsed.questions.len() == 0 {
        warnings.push(lit("No se detectaron preguntas importables."));
    }
    if parsed.guideline_aspects.len() == 0 {
        warnings.push(lit("No se detectaron lineamientos CNA."));
    }
    if missing > 0 {
        let mut w = decimal_chars(missing);
        append_chars(&mut w, &chars_of(" preguntas no tienen publico detectado."));
        warnings.push(string_of(&w));
    }
    assert(strs(warnings@) =~= preview_warnings(parsed));
    let mut detected_audiences: Vec<String> = Vec::new();
    let k = audiences.len();
    let mut j: usize = 0;
    while j < k
        invariant
            j <= k == audiences@.len(),
            strs(detected_audiences@) =~= views(audiences@).take(j as int),
        decreases k - j,
    {
        detected_audiences.push(string_of(&audiences[j]));
        assert(views(audiences@).take(j + 1) =~= views(audiences@).take(j as int).push(audiences@[j as int]@));
        j = j + 1;
    }
    assert(views(audiences@).take(k as int) =~= views(audiences@));
    ImportWorkbookPreviewResult {
        file_name,
        sheet_name: parsed.sheet_name,
        detected_questions: parsed.questions.len(),
        detected_guideline_aspects: parsed.guideline_aspects.len(),
        skipped_rows: parsed.skipped_rows,
        detected_columns: parsed.detected_columns,
        detected_audiences,
        warnings,
    }
}

/// The cycle an import goes to: the name asked for unless blank, else
/// "Ciclo importado".
pub fn import_cycle_name(requested: Option<String>) -> (r: String)
    ensures
        r@ == (match requested {
            Some(n) => if is_blank(n@) { "Ciclo importado"@ } else { n@ },
            None => "Ciclo importado"@,
        }),
{
    match requested {
        Some(n) => if is_blank_chars(&chars_of(n.as_str())) {
            lit("Ciclo importado")
        } else {
            n
        },
        None => lit("Ciclo importado"),
    }
}

} // verus!
