//! The original baseline: content hashes of questions, the comparison of the
//! current bank with the baseline, and its counts.
use vstd::prelude::*;
use vstd::utf8::encode_utf8;

use sha2::Digest;

use crate::domain::{
    clone_opt, clone_strings, hex_char, hex_digit, opt_str, questions_view, strs, BaselineStatus,
    NewQuestionView, OriginalQuestionSnapshot, Question, QuestionDiffKind, QuestionStatus,
    QuestionView, SourceDocument,
};
use crate::text::str_eq;

verus! {

// ---------------------------------------------------------------------------
// Content hash
// ---------------------------------------------------------------------------

/// The SHA-256 digest of a byte string.
pub uninterp spec fn sha256(data: Seq<u8>) -> Seq<u8>;

/// `sha2::Sha256::digest`: the digest of `data` is `sha256(data@)`, 32
/// bytes long (the output size of SHA-256). Feeding the bytes in several
/// `update` calls gives the digest of their concatenation, so the callers
/// hash one concatenated buffer.
#[verifier::external_body]
pub(crate) fn sha256_digest(data: &Vec<u8>) -> (r: Vec<u8>)
    ensures
        r@ == sha256(data@),
        r@.len() == 32,
{
    sha2::Sha256::digest(data.as_slice()).to_vec()
}

/// Two lower-case hexadecimal digits per byte.
pub open spec fn hex_text(b: Seq<u8>) -> Seq<char>
    decreases b.len(),
{
    if b.len() == 0 {
        Seq::empty()
    } else {
        hex_text(b.drop_last()) + seq![
            hex_digit((b.last() / 16) as int),
            hex_digit((b.last() % 16) as int),
        ]
    }
}

/// The bytes as lower-case hexadecimal text.
pub fn hex_lower(bytes: &Vec<u8>) -> (r: String)
    ensures
        r@ == hex_text(bytes@),
{
    let mut r: Vec<char> = Vec::new();
    let n = bytes.len();
    let mut i: usize = 0;
    while i < n
        invariant
            i <= n == bytes@.len(),
            r@ == hex_text(bytes@.take(i as int)),
        decreases n - i,
    {
        let b = bytes[i];
        r.push(hex_char((b / 16) as u32));
        r.push(hex_char((b % 16) as u32));
        assert(bytes@.take(i + 1).drop_last() =~= bytes@.take(i as int));
        assert(r@ =~= hex_text(bytes@.take(i + 1)));
        i = i + 1;
    }
    assert(bytes@.take(n as int) =~= bytes@);
    crate::text::string_of(&r)
}

/// The UTF-8 bytes of texts, one after the other.
pub open spec fn texts_bytes(t: Seq<Seq<char>>) -> Seq<u8>
    decreases t.len(),
{
    if t.len() == 0 {
        Seq::empty()
    } else {
        texts_bytes(t.drop_last()) + encode_utf8(t.last())
    }
}

/// The fields that the content hash covers before the audiences: code,
/// text, scope, format, convention, factor, characteristic and aspect
/// (status and justification are left out).
pub open spec fn hashed_fields(q: NewQuestionView) -> Seq<Seq<char>> {
    seq![
        q.code,
        q.text,
        q.scope.text(),
        q.format,
        match q.convention_code {
            Some(c) => c,
            None => Seq::empty(),
        },
        q.factor,
        q.characteristic,
        q.aspect,
    ]
}

/// What the content hash covers: the hashed fields, then each audience.
pub open spec fn hash_input(q: NewQuestionView) -> Seq<u8> {
    texts_bytes(hashed_fields(q) + q.audiences)
}

proof fn texts_bytes_concat(a: Seq<Seq<char>>, b: Seq<Seq<char>>)
    ensures
        texts_bytes(a + b) == texts_bytes(a) + texts_bytes(b),
    decreases b.len(),
{
    if b.len() == 0 {
        assert(a + b =~= a);
        assert(texts_bytes(b) =~= Seq::<u8>::empty());
        assert(texts_bytes(a) + Seq::<u8>::empty() =~= texts_bytes(a));
    } else {
        texts_bytes_concat(a, b.drop_last());
        assert((a + b).drop_last() =~= a + b.drop_last());
        assert((a + b).last() == b.last());
        assert(texts_bytes(a) + texts_bytes(b.drop_last()) + encode_utf8(b.last()) =~= texts_bytes(a)
            + (texts_bytes(b.drop_last()) + encode_utf8(b.last())));
    }
}

/// The content hash covers every audience: its input is the bytes of the
/// hashed fields followed by the bytes of each audience in turn, so adding
/// an audience adds its bytes to the input, and two questions whose hashed
/// fields agree have the same input exactly when their audiences give the
/// same bytes.
pub proof fn hash_input_laws(q: NewQuestionView, x: Seq<char>)
    ensures
        hash_input(q) == texts_bytes(
            seq![
                q.code,
                q.text,
                q.scope.text(),
                q.format,
                match q.convention_code {
                    Some(c) => c,
                    None => Seq::empty(),
                },
                q.factor,
                q.characteristic,
                q.aspect,
            ],
        ) + texts_bytes(q.audiences),
        hash_input(NewQuestionView { audiences: q.audiences.push(x), ..q }) == hash_input(q)
            + encode_utf8(x),
        hash_input(NewQuestionView { audiences: Seq::empty(), ..q }) == texts_bytes(hashed_fields(q)),
        hash_input(NewQuestionView { status: QuestionStatus::Keep, justification: None, ..q })
            == hash_input(q),
{
    texts_bytes_concat(hashed_fields(q), q.audiences);
    let q2 = NewQuestionView { audiences: q.audiences.push(x), ..q };
    texts_bytes_concat(hashed_fields(q2), q2.audiences);
    assert(q2.audiences.drop_last() =~= q.audiences);
    assert(hashed_fields(q2) == hashed_fields(q));
    let q0 = NewQuestionView { audiences: Seq::empty(), ..q };
    assert(hashed_fields(q0) + q0.audiences =~= hashed_fields(q));
}

pub open spec fn content_hash(q: NewQuestionView) -> Seq<char> {
    hex_text(sha256(hash_input(q)))
}

fn push_text_bytes(out: &mut Vec<u8>, s: &str)
    ensures
        final(out)@ == old(out)@ + encode_utf8(s@),
{
    let b = s.as_bytes();
    let n = b.len();
    let ghost start = out@;
    let mut i: usize = 0;
    while i < n
        invariant
            i <= n == b@.len(),
            b@ == encode_utf8(s@),
            out@ == start + b@.take(i as int),
        decreases n - i,
    {
        out.push(b[i]);
        assert(b@.take(i + 1) =~= b@.take(i as int).push(b@[i as int]));
        assert(out@ =~= start + b@.take(i + 1));
        i = i + 1;
    }
    assert(b@.take(n as int) =~= b@);
}

proof fn texts_bytes_step(t: Seq<Seq<char>>, k: int)
    requires
        0 <= k < t.len(),
    ensures
        texts_bytes(t.take(k + 1)) == texts_bytes(t.take(k)) + encode_utf8(t[k]),
{
    assert(t.take(k + 1).drop_last() =~= t.take(k));
}

fn hashed_field_bytes(question: &Question) -> (r: Vec<u8>)
    ensures
        r@ == texts_bytes(hashed_fields(question@.content)),
{
    let ghost parts = hashed_fields(question@.content);
    let mut data: Vec<u8> = Vec::new();
    proof {
        assert(texts_bytes(parts.take(0)) =~= Seq::<u8>::empty());
        texts_bytes_step(parts, 0);
        texts_bytes_step(parts, 1);
        texts_bytes_step(parts, 2);
        texts_bytes_step(parts, 3);
        texts_bytes_step(parts, 4);
        texts_bytes_step(parts, 5);
        texts_bytes_step(parts, 6);
        texts_bytes_step(parts, 7);
        assert(parts.take(8) =~= parts);
    }
    assert(data@ =~= texts_bytes(parts.take(0)));
    push_text_bytes(&mut data, question.code.as_str());
    assert(data@ =~= texts_bytes(parts.take(1)));
    push_text_bytes(&mut data, question.text.as_str());
    assert(data@ =~= texts_bytes(parts.take(2)));
    push_text_bytes(&mut data, question.scope.as_str());
    assert(data@ =~= texts_bytes(parts.take(3)));
    push_text_bytes(&mut data, question.format.as_str());
    assert(data@ =~= texts_bytes(parts.take(4)));
    match &question.convention_code {
        Some(c) => push_text_bytes(&mut data, c.as_str()),
        None => {
            proof {
                reveal_strlit("");
            }
            push_text_bytes(&mut data, "");
        },
    }
    assert(data@ =~= texts_bytes(parts.take(5)));
    push_text_bytes(&mut data, question.factor.as_str());
    assert(data@ =~= texts_bytes(parts.take(6)));
    push_text_bytes(&mut data, question.characteristic.as_str());
    assert(data@ =~= texts_bytes(parts.take(7)));
    push_text_bytes(&mut data, question.aspect.as_str());
    data
}

/// The hash of a question's content: the SHA-256 of `hash_input`, in
/// lower-case hexadecimal.
pub fn question_hash(question: &Question) -> (r: String)
    ensures
        r@ == content_hash(question@.content),
{
    let ghost parts = hashed_fields(question@.content);
    let ghost audiences = strs(question.audiences@);
    let mut data = hashed_field_bytes(question);
    assert(parts + audiences.take(0) =~= parts);
    let n = question.audiences.len();
    let mut i: usize = 0;
    while i < n
        invariant
            i <= n == audiences.len(),
            audiences == strs(question.audiences@),
            data@ == texts_bytes(parts + audiences.take(i as int)),
        decreases n - i,
    {
        push_text_bytes(&mut data, question.audiences[i].as_str());
        assert((parts + audiences.take(i + 1)).drop_last() =~= parts + audiences.take(i as int));
        i = i + 1;
    }
    assert(audiences.take(n as int) =~= audiences);
    let digest = sha256_digest(&data);
    hex_lower(&digest)
}

// ---------------------------------------------------------------------------
// Comparison with the baseline
// ---------------------------------------------------------------------------

/// The last snapshot with code `code` (the one a map by code keeps).
pub open spec fn snapshot_with_code(s: Seq<OriginalQuestionSnapshot>, code: Seq<char>) -> Option<int>
    decreases s.len(),
{
    if s.len() == 0 {
        None
    } else if s.last().code@ == code {
        Some(s.len() - 1)
    } else {
        snapshot_with_code(s.drop_last(), code)
    }
}

/// How a current question stands against the baseline: a status that asks
/// for a change decides (deletion, modification, addition); a kept
/// question is unchanged when the baseline holds its code with the same
/// content hash, modified when the hash differs, added when the code is new.
pub open spec fn diff_kind(q: QuestionView, s: Seq<OriginalQuestionSnapshot>) -> QuestionDiffKind {
    match q.content.status {
        QuestionStatus::Delete => QuestionDiffKind::Removed,
        QuestionStatus::Modify => QuestionDiffKind::Modified,
        QuestionStatus::Add => QuestionDiffKind::Added,
        QuestionStatus::Keep => match snapshot_with_code(s, q.content.code) {
            Some(i) => if s[i].content_hash@ == content_hash(q.content) {
                QuestionDiffKind::Unchanged
            } else {
                QuestionDiffKind::Modified
            },
            None => QuestionDiffKind::Added,
        },
    }
}

/// A baseline question that the bank no longer holds, as a question marked
/// for deletion.
pub open spec fn removed_question(s: OriginalQuestionSnapshot) -> QuestionView {
    QuestionView {
        id: s.question_id@,
        content: NewQuestionView {
            code: s.code@,
            text: s.text@,
            scope: s.scope,
            format: s.format@,
            convention_code: opt_str(s.convention_code),
            status: QuestionStatus::Delete,
            factor: s.factor@,
            characteristic: s.characteristic@,
            aspect: s.aspect@,
            audiences: strs(s.audiences@),
            justification: None,
        },
        updated_at: s.marked_at,
    }
}

pub open spec fn has_code(q: Seq<QuestionView>, code: Seq<char>) -> bool {
    exists|i: int| 0 <= i < q.len() && (#[trigger] q[i]).content.code == code
}

/// The baseline questions whose code no current question has, in baseline
/// order, as removed questions.
pub open spec fn missing_originals(q: Seq<QuestionView>, s: Seq<OriginalQuestionSnapshot>) -> Seq<(QuestionView, QuestionDiffKind)>
    decreases s.len(),
{
    if s.len() == 0 {
        Seq::empty()
    } else {
        let m = missing_originals(q, s.drop_last());
        if has_code(q, s.last().code@) {
            m
        } else {
            m.push((removed_question(s.last()), QuestionDiffKind::Removed))
        }
    }
}

/// The current questions in order, each with its kind, then the missing
/// baseline questions.
pub open spec fn diff_spec(q: Seq<QuestionView>, s: Seq<OriginalQuestionSnapshot>) -> Seq<(QuestionView, QuestionDiffKind)> {
    q.map_values(|x: QuestionView| (x, diff_kind(x, s))) + missing_originals(q, s)
}

pub open spec fn diff_view(d: Seq<(Question, QuestionDiffKind)>) -> Seq<(QuestionView, QuestionDiffKind)> {
    d.map_values(|p: (Question, QuestionDiffKind)| (p.0@, p.1))
}

fn find_snapshot(s: &Vec<OriginalQuestionSnapshot>, code: &str) -> (r: Option<usize>)
    ensures
        r matches Some(i) ==> i < s@.len(),
        (match r {
            Some(i) => Some(i as int),
            None => None,
        }) == snapshot_with_code(s@, code@),
{
    let mut n = s.len();
    assert(s@.take(n as int) =~= s@);
    while n > 0
        invariant
            n <= s@.len(),
            snapshot_with_code(s@, code@) == snapshot_with_code(s@.take(n as int), code@),
        decreases n,
    {
        assert(s@.take(n as int).drop_last() =~= s@.take(n - 1));
        if str_eq(s[n - 1].code.as_str(), code) {
            return Some(n - 1);
        }
        n = n - 1;
    }
    None
}

fn kind_of(q: &Question, s: &Vec<OriginalQuestionSnapshot>) -> (r: QuestionDiffKind)
    ensures
        r == diff_kind(q@, s@),
{
    match q.status {
        QuestionStatus::Delete => QuestionDiffKind::Removed,
        QuestionStatus::Modify => QuestionDiffKind::Modified,
        QuestionStatus::Add => QuestionDiffKind::Added,
        QuestionStatus::Keep => match find_snapshot(s, q.code.as_str()) {
            Some(i) => if str_eq(s[i].content_hash.as_str(), question_hash(q).as_str()) {
                QuestionDiffKind::Unchanged
            } else {
                QuestionDiffKind::Modified
            },
            None => QuestionDiffKind::Added,
        },
    }
}

fn has_question_code(q: &Vec<Question>, code: &str) -> (r: bool)
    ensures
        r == has_code(questions_view(q@), code@),
{
    let n = q.len();
    let mut i: usize = 0;
    while i < n
        invariant
            i <= n == q@.len(),
            forall|k: int| 0 <= k < i ==> q@[k].code@ != code@,
        decreases n - i,
    {
        if str_eq(q[i].code.as_str(), code) {
            assert(questions_view(q@)[i as int].content.code == code@);
            return true;
        }
        i = i + 1;
    }
    assert forall|k: int| 0 <= k < n implies (#[trigger] questions_view(q@)[k]).content.code
        != code@ by {
        assert(questions_view(q@)[k] == q@[k]@);
    }
    false
}

fn removed_from_snapshot(s: &OriginalQuestionSnapshot) -> (r: Question)
    ensures
        r@ == removed_question(*s),
{
    Question {
        id: s.question_id.clone(),
        code: s.code.clone(),
        text: s.text.clone(),
        scope: s.scope,
        format: s.format.clone(),
        convention_code: clone_opt(&s.convention_code),
        status: QuestionStatus::Delete,
        factor: s.factor.clone(),
        characteristic: s.characteristic.clone(),
        aspect: s.aspect.clone(),
        audiences: clone_strings(&s.audiences),
        justification: None,
        updated_at: s.marked_at,
    }
}

/// Each current question with how it stands against the baseline, then
/// the baseline questions no longer in the bank, marked for deletion and
/// removed (see `diff_spec`).
pub fn diff_questions(questions: &Vec<Question>, snapshots: &Vec<OriginalQuestionSnapshot>) -> (r: Vec<(Question, QuestionDiffKind)>)
    ensures
        diff_view(r@) == diff_spec(questions_view(questions@), snapshots@),
{
    let ghost qv = questions_view(questions@);
    let mut r: Vec<(Question, QuestionDiffKind)> = Vec::new();
    let n = questions.len();
    let mut i: usize = 0;
    while i < n
        invariant
            i <= n == questions@.len(),
            qv == questions_view(questions@),
            diff_view(r@) == qv.take(i as int).map_values(
                |x: QuestionView| (x, diff_kind(x, snapshots@)),
            ),
        decreases n - i,
    {
        let q = questions[i].duplicate();
        let k = kind_of(&questions[i], snapshots);
        let ghost before = r@;
        r.push((q, k));
        assert(diff_view(r@) =~= diff_view(before).push((qv[i as int], k)));
        assert(qv.take(i + 1) =~= qv.take(i as int).push(qv[i as int]));
        assert(qv.take(i + 1).map_values(|x: QuestionView| (x, diff_kind(x, snapshots@)))
            =~= qv.take(i as int).map_values(|x: QuestionView| (x, diff_kind(x, snapshots@))).push(
            (qv[i as int], diff_kind(qv[i as int], snapshots@)),
        ));
        i = i + 1;
    }
    assert(qv.take(n as int) =~= qv);
    let ghost head = diff_view(r@);
    let m = snapshots.len();
    let mut j: usize = 0;
    while j < m
        invariant
            j <= m == snapshots@.len(),
            qv == questions_view(questions@),
            diff_view(r@) == head + missing_originals(qv, snapshots@.take(j as int)),
        decreases m - j,
    {
        assert(snapshots@.take(j + 1).drop_last() =~= snapshots@.take(j as int));
        assert(snapshots@.take(j + 1).last() == snapshots@[j as int]);
        if !has_question_code(questions, snapshots[j].code.as_str()) {
            let ghost before = r@;
            r.push((removed_from_snapshot(&snapshots[j]), QuestionDiffKind::Removed));
            assert(diff_view(r@) =~= diff_view(before).push(
                (removed_question(snapshots@[j as int]), QuestionDiffKind::Removed),
            ));
        }
        j = j + 1;
    }
    assert(snapshots@.take(m as int) =~= snapshots@);
    r
}

// ---------------------------------------------------------------------------
// Counts
// ---------------------------------------------------------------------------

/// How many entries of a comparison have kind `k`.
pub open spec fn kind_count(d: Seq<(QuestionView, QuestionDiffKind)>, k: QuestionDiffKind) -> nat
    decreases d.len(),
{
    if d.len() == 0 {
        0
    } else {
        kind_count(d.drop_last(), k) + if d.last().1 == k { 1nat } else { 0nat }
    }
}

pub fn count_kind(d: &Vec<(Question, QuestionDiffKind)>, k: QuestionDiffKind) -> (r: usize)
    ensures
        r == kind_count(diff_view(d@), k),
{
    let n = d.len();
    let mut c: usize = 0;
    let mut i: usize = 0;
    while i < n
        invariant
            i <= n == d@.len(),
            c <= i,
            c == kind_count(diff_view(d@).take(i as int), k),
        decreases n - i,
    {
        assert(diff_view(d@).take(i + 1).drop_last() =~= diff_view(d@).take(i as int));
        let same = match (d[i].1, k) {
            (QuestionDiffKind::Unchanged, QuestionDiffKind::Unchanged) => true,
            (QuestionDiffKind::Added, QuestionDiffKind::Added) => true,
            (QuestionDiffKind::Modified, QuestionDiffKind::Modified) => true,
            (QuestionDiffKind::Removed, QuestionDiffKind::Removed) => true,
            _ => false,
        };
        if same {
            c = c + 1;
        }
        i = i + 1;
    }
    assert(diff_view(d@).take(n as int) =~= diff_view(d@));
    c
}

/// The baseline status of a bank: whether a baseline exists, its document,
/// the sizes of both, and the comparison counted by kind.
pub fn build_baseline_status(
    questions: Vec<Question>,
    snapshots: Vec<OriginalQuestionSnapshot>,
    source_document: Option<SourceDocument>,
) -> (r: BaselineStatus)
    ensures
        r.has_original == (snapshots@.len() > 0),
        r.source_document == source_document,
        r.original_questions == snapshots@.len(),
        r.current_questions == questions@.len(),
        r.unchanged_questions == kind_count(
            diff_spec(questions_view(questions@), snapshots@),
            QuestionDiffKind::Unchanged,
        ),
        r.modified_questions == kind_count(
            diff_spec(questions_view(questions@), snapshots@),
            QuestionDiffKind::Modified,
        ),
        r.added_questions == kind_count(
            diff_spec(questions_view(questions@), snapshots@),
            QuestionDiffKind::Added,
        ),
        r.removed_questions == kind_count(
            diff_spec(questions_view(questions@), snapshots@),
            QuestionDiffKind::Removed,
        ),
{
    let diffed = diff_questions(&questions, &snapshots);
    BaselineStatus {
        has_original: snapshots.len() > 0,
        source_document,
        original_questions: snapshots.len(),
        current_questions: questions.len(),
        unchanged_questions: count_kind(&diffed, QuestionDiffKind::Unchanged),
        modified_questions: count_kind(&diffed, QuestionDiffKind::Modified),
        added_questions: count_kind(&diffed, QuestionDiffKind::Added),
        removed_questions: count_kind(&diffed, QuestionDiffKind::Removed),
    }
}


// ---------------------------------------------------------------------------
// Marking the baseline
// ---------------------------------------------------------------------------

/// `s` is the baseline snapshot of `q`: its content and content hash, the
/// source document, the editor and the time of marking.
pub open spec fn snapshot_of(
    q: QuestionView,
    s: OriginalQuestionSnapshot,
    source: Seq<char>,
    editor: Seq<char>,
    at: i64,
) -> bool {
    &&& s.question_id@ == q.id
    &&& s.source_document_id@ == source
    &&& s.code@ == q.content.code
    &&& s.text@ == q.content.text
    &&& s.scope == q.content.scope
    &&& s.format@ == q.content.format
    &&& opt_str(s.convention_code) == q.content.convention_code
    &&& s.status == q.content.status
    &&& s.factor@ == q.content.factor
    &&& s.characteristic@ == q.content.characteristic
    &&& s.aspect@ == q.content.aspect
    &&& strs(s.audiences@) == q.content.audiences
    &&& s.content_hash@ == content_hash(q.content)
    &&& s.marked_by@ == editor
    &&& s.marked_at == at
}

/// The snapshots that mark the bank as the original baseline: one per
/// question, in order (see `snapshot_of`), each with a new random id.
pub fn baseline_snapshots(
    questions: &Vec<Question>,
    source_document_id: &str,
    editor_name: &str,
    marked_at: i64,
) -> (r: Vec<OriginalQuestionSnapshot>)
    ensures
        r@.len() == questions@.len(),
        forall|i: int|
            0 <= i < r@.len() ==> snapshot_of(
                questions@[i]@,
                #[trigger] r@[i],
                source_document_id@,
                editor_name@,
                marked_at,
            ),
{
    let mut r: Vec<OriginalQuestionSnapshot> = Vec::new();
    let n = questions.len();
    let mut i: usize = 0;
    while i < n
        invariant
            i <= n == questions@.len(),
            r@.len() == i,
            forall|k: int|
                0 <= k < i ==> snapshot_of(
                    questions@[k]@,
                    #[trigger] r@[k],
                    source_document_id@,
                    editor_name@,
                    marked_at,
                ),
        decreases n - i,
    {
        let q = &questions[i];
        let s = OriginalQuestionSnapshot {
            id: crate::validation::new_uuid(),
            question_id: q.id.clone(),
            source_document_id: crate::text::lit(source_document_id),
            code: q.code.clone(),
            text: q.text.clone(),
            scope: q.scope,
            format: q.format.clone(),
            convention_code: clone_opt(&q.convention_code),
            status: q.status,
            factor: q.factor.clone(),
            characteristic: q.characteristic.clone(),
            aspect: q.aspect.clone(),
            audiences: clone_strings(&q.audiences),
            content_hash: question_hash(q),
            marked_by: crate::text::lit(editor_name),
            marked_at,
        };
        r.push(s);
        i = i + 1;
    }
    r
}

/// The kind that a status gives a question compared with a baseline that
/// holds it unchanged.
pub open spec fn status_kind(s: QuestionStatus) -> QuestionDiffKind {
    match s {
        QuestionStatus::Keep => QuestionDiffKind::Unchanged,
        QuestionStatus::Modify => QuestionDiffKind::Modified,
        QuestionStatus::Add => QuestionDiffKind::Added,
        QuestionStatus::Delete => QuestionDiffKind::Removed,
    }
}

proof fn snapshot_with_unique_code(s: Seq<OriginalQuestionSnapshot>, code: Seq<char>, i: int)
    requires
        0 <= i < s.len(),
        s[i].code@ == code,
        forall|j: int| 0 <= j < s.len() && j != i ==> (#[trigger] s[j]).code@ != code,
    ensures
        snapshot_with_code(s, code) == Some(i),
    decreases s.len(),
{
    if i < s.len() - 1 {
        assert(s.last().code@ != code);
        let t = s.drop_last();
        assert forall|j: int| 0 <= j < t.len() && j != i implies (#[trigger] t[j]).code@ != code by {
            assert(t[j] == s[j]);
        }
        snapshot_with_unique_code(t, code, i);
    }
}

proof fn nothing_missing(q: Seq<QuestionView>, s: Seq<OriginalQuestionSnapshot>)
    requires
        forall|j: int| 0 <= j < s.len() ==> has_code(q, (#[trigger] s[j]).code@),
    ensures
        missing_originals(q, s) == Seq::<(QuestionView, QuestionDiffKind)>::empty(),
    decreases s.len(),
{
    if s.len() > 0 {
        let t = s.drop_last();
        assert forall|j: int| 0 <= j < t.len() implies has_code(q, (#[trigger] t[j]).code@) by {
            assert(t[j] == s[j]);
        }
        nothing_missing(q, t);
        assert(has_code(q, s[s.len() - 1].code@));
    }
}

/// Comparing a bank whose codes are distinct with the baseline marked from
/// it: every kept question is unchanged, every other question has the
/// kind its status forces, and no baseline question is reported missing.
pub proof fn baseline_of_bank_compares_by_status(
    q: Seq<QuestionView>,
    s: Seq<OriginalQuestionSnapshot>,
    source: Seq<char>,
    editor: Seq<char>,
    at: i64,
)
    requires
        s.len() == q.len(),
        forall|i: int| 0 <= i < q.len() ==> snapshot_of(q[i], #[trigger] s[i], source, editor, at),
        forall|i: int, j: int|
            0 <= i < j < q.len() ==> (#[trigger] q[i]).content.code != (#[trigger] q[j]).content.code,
    ensures
        diff_spec(q, s) == q.map_values(|x: QuestionView| (x, status_kind(x.content.status))),
{
    assert forall|j: int| 0 <= j < s.len() implies has_code(q, (#[trigger] s[j]).code@) by {
        assert(snapshot_of(q[j], s[j], source, editor, at));
        assert(q[j].content.code == s[j].code@);
    }
    nothing_missing(q, s);
    assert forall|i: int| 0 <= i < q.len() implies diff_kind(#[trigger] q[i], s) == status_kind(
        q[i].content.status,
    ) by {
        assert(snapshot_of(q[i], s[i], source, editor, at));
        if q[i].content.status == QuestionStatus::Keep {
            assert forall|j: int| 0 <= j < s.len() && j != i implies (#[trigger] s[j]).code@
                != q[i].content.code by {
                assert(snapshot_of(q[j], s[j], source, editor, at));
                if j < i {
                    assert(q[j].content.code != q[i].content.code);
                } else {
                    assert(q[i].content.code != q[j].content.code);
                }
            }
            snapshot_with_unique_code(s, q[i].content.code, i);
        }
    }
    assert(diff_spec(q, s) =~= q.map_values(|x: QuestionView| (x, status_kind(x.content.status))));
}

} // verus!
