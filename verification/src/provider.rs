//! The survey provider's side: its links, the review of each question in
//! each exported instrument, and the review report.
use vstd::prelude::*;

use crate::audience::{
    instrument_key_spec, instrument_label_spec, provider_instrument_key, provider_instrument_label,
};
use crate::bank::confirmed;
use crate::domain::{
    opt_str, questions_view, strs, NewProviderLink, ProviderQuestionReview,
    ProviderQuestionReviewItem, ProviderQuestionReviewStatus, Question, QuestionView,
    ResetProviderQuestionReviewsRequest, SaveProviderQuestionReviewRequest,
};
use crate::export::{text_order, text_order_exec, text_order_laws, text_order_trans};
use crate::importer::{insert_sorted_unique, strictly_sorted};
use crate::sort::{stable_order, stable_sort_vec, sorted, Ordered};
use crate::text::{
    char_is_digit, char_is_ws, chars_of, chars_starts_with, is_blank, is_blank_chars, is_digit,
    is_ws, join, join_words, lit, replace_char, replace_chars, split_words, starts_with, str_eq,
    string_of, trim, trim_chars, views, words, Sep,
};
use crate::workbook::same_values_same_views;

verus! {

// ---------------------------------------------------------------------------
// Links and instruments
// ---------------------------------------------------------------------------

/// Provider links must be https URLs.
pub fn check_provider_link(link: &NewProviderLink) -> (r: Result<(), String>)
    ensures
        starts_with(link.url@, "https://"@) ==> r is Ok,
        !starts_with(link.url@, "https://"@) ==> (r matches Err(m) && m@
            == "provider links must use an https URL"@),
{
    if chars_starts_with(&chars_of(link.url.as_str()), &chars_of("https://")) {
        Ok(())
    } else {
        Err(lit("provider links must use an https URL"))
    }
}

/// `s` without its leading digits and white space.
pub open spec fn strip_leading_digits_ws(s: Seq<char>) -> Seq<char>
    decreases s.len(),
{
    if s.len() > 0 && (is_digit(s[0]) || is_ws(s[0])) {
        strip_leading_digits_ws(s.drop_first())
    } else {
        s
    }
}

/// An instrument audience as written by older sheets: trimmed, underscores
/// as spaces, leading numbering removed, words joined by one space.
pub open spec fn instrument_audience_spec(v: Seq<char>) -> Seq<char> {
    join(words(Sep::Space, strip_leading_digits_ws(replace_char(trim(v), '_', " "@))), " "@)
}

fn strip_leading(s: &Vec<char>) -> (r: Vec<char>)
    ensures
        r@ == strip_leading_digits_ws(s@),
{
    let n = s.len();
    let mut i: usize = 0;
    assert(s@.subrange(0, n as int) =~= s@);
    while i < n && (char_is_digit(s[i]) || char_is_ws(s[i]))
        invariant
            i <= n == s@.len(),
            strip_leading_digits_ws(s@) == strip_leading_digits_ws(s@.subrange(i as int, n as int)),
        decreases n - i,
    {
        assert(s@.subrange(i as int, n as int).drop_first() =~= s@.subrange(i + 1, n as int));
        i = i + 1;
    }
    crate::text::subrange_chars(s, i, n)
}

pub fn normalize_instrument_audience(value: &str) -> (r: String)
    ensures
        r@ == instrument_audience_spec(value@),
{
    let t = trim_chars(&chars_of(value));
    proof {
        reveal_strlit(" ");
    }
    let u = replace_chars(&t, '_', &chars_of(" "));
    let s = strip_leading(&u);
    let w = split_words(Sep::Space, &s);
    string_of(&join_words(&w, &chars_of(" ")))
}

/// The instruments under which a question is reviewed: the instrument keys
/// of its audiences, sorted and each once; "Sin instrumento" for a question
/// without audience.
pub open spec fn review_instruments_ok(audiences: Seq<Seq<char>>, r: Seq<Seq<char>>) -> bool {
    if audiences.len() == 0 {
        r == seq!["Sin instrumento"@]
    } else {
        &&& strictly_sorted(r)
        &&& r.to_set() == Set::new(
            |k: Seq<char>|
                k.len() > 0 && exists|j: int|
                    0 <= j < audiences.len() && instrument_key_spec(#[trigger] audiences[j]) == k,
        )
    }
}

pub fn review_instruments(audiences: &Vec<String>) -> (r: Vec<String>)
    ensures
        review_instruments_ok(strs(audiences@), strs(r@)),
{
    if audiences.len() == 0 {
        let mut r: Vec<String> = Vec::new();
        r.push(lit("Sin instrumento"));
        assert(strs(r@) =~= seq!["Sin instrumento"@]);
        return r;
    }
    let ghost a = strs(audiences@);
    let mut keys: Vec<Vec<char>> = Vec::new();
    let n = audiences.len();
    let mut i: usize = 0;
    assert(views(keys@).to_set() =~= Set::new(
        |k: Seq<char>| k.len() > 0 && exists|j: int| 0 <= j < 0 && instrument_key_spec(#[trigger] a[j]) == k,
    ));
    while i < n
        invariant
            i <= n == audiences@.len(),
            a == strs(audiences@),
            strictly_sorted(views(keys@)),
            views(keys@).to_set() == Set::new(
                |k: Seq<char>|
                    k.len() > 0 && exists|j: int| 0 <= j < i && instrument_key_spec(#[trigger] a[j]) == k,
            ),
        decreases n - i,
    {
        let key = provider_instrument_key(audiences[i].as_str());
        let ghost before = views(keys@).to_set();
        assert(a[i as int] == audiences@[i as int]@);
        if !key.as_str().is_empty() {
            insert_sorted_unique(&mut keys, chars_of(key.as_str()));
        }
        assert(instrument_key_spec(a[i as int]) == key@);
        assert(views(keys@).to_set() =~= Set::new(
            |k: Seq<char>|
                k.len() > 0 && exists|j: int| 0 <= j < i + 1 && instrument_key_spec(#[trigger] a[j]) == k,
        )) by {
            assert forall|k: Seq<char>|
                k.len() > 0 && (exists|j: int| 0 <= j < i + 1 && instrument_key_spec(#[trigger] a[j]) == k)
                implies #[trigger] views(keys@).to_set().contains(k) by {
                let j = choose|j: int| 0 <= j < i + 1 && instrument_key_spec(#[trigger] a[j]) == k;
                if j < i {
                    assert(before.contains(k));
                }
            }
            assert forall|k: Seq<char>| #[trigger] views(keys@).to_set().contains(k) implies k.len() > 0
                && (exists|j: int| 0 <= j < i + 1 && instrument_key_spec(#[trigger] a[j]) == k) by {
                if before.contains(k) {
                } else {
                    assert(k == key@);
                }
            }
        }
        i = i + 1;
    }
    let mut r: Vec<String> = Vec::new();
    let m = keys.len();
    let mut j: usize = 0;
    while j < m
        invariant
            j <= m == keys@.len(),
            strs(r@) == views(keys@).take(j as int),
        decreases m - j,
    {
        r.push(string_of(&keys[j]));
        assert(views(keys@).take(j + 1) =~= views(keys@).take(j as int).push(keys@[j as int]@));
        assert(strs(r@) =~= views(keys@).take(j + 1));
        j = j + 1;
    }
    assert(views(keys@).take(m as int) =~= views(keys@));
    r
}

// ---------------------------------------------------------------------------
// Review items
// ---------------------------------------------------------------------------

pub struct ReviewView {
    pub id: Seq<char>,
    pub question_id: Seq<char>,
    pub instrument_audience: Seq<char>,
    pub status: ProviderQuestionReviewStatus,
    pub observation: Seq<char>,
    pub evidence_path: Option<Seq<char>>,
    pub updated_at: i64,
}

pub open spec fn review_view(r: ProviderQuestionReview) -> ReviewView {
    ReviewView {
        id: r.id@,
        question_id: r.question_id@,
        instrument_audience: r.instrument_audience@,
        status: r.status,
        observation: r.observation@,
        evidence_path: opt_str(r.evidence_path),
        updated_at: r.updated_at,
    }
}

/// The last review of question `qid` kept under instrument `key`.
pub open spec fn keyed_review(rs: Seq<ProviderQuestionReview>, qid: Seq<char>, key: Seq<char>) -> Option<int>
    decreases rs.len(),
{
    if rs.len() == 0 {
        None
    } else {
        let r = rs.last();
        if r.question_id@ == qid && !is_blank(r.instrument_audience@) && instrument_key_spec(
            r.instrument_audience@,
        ) == key {
            Some(rs.len() - 1)
        } else {
            keyed_review(rs.drop_last(), qid, key)
        }
    }
}

/// The last review of question `qid` kept without instrument (older data).
pub open spec fn legacy_review(rs: Seq<ProviderQuestionReview>, qid: Seq<char>) -> Option<int>
    decreases rs.len(),
{
    if rs.len() == 0 {
        None
    } else {
        let r = rs.last();
        if r.question_id@ == qid && is_blank(r.instrument_audience@) {
            Some(rs.len() - 1)
        } else {
            legacy_review(rs.drop_last(), qid)
        }
    }
}

/// The review of a question in an instrument: its own, else the question's
/// review without instrument, else none.
pub open spec fn review_for(rs: Seq<ProviderQuestionReview>, qid: Seq<char>, key: Seq<char>) -> Option<ReviewView> {
    match keyed_review(rs, qid, key) {
        Some(i) => Some(review_view(rs[i])),
        None => match legacy_review(rs, qid) {
            Some(i) => Some(review_view(rs[i])),
            None => None,
        },
    }
}

pub struct ItemView {
    pub question: QuestionView,
    pub instrument_audience: Seq<char>,
    pub instrument_label: Seq<char>,
    pub review: Option<ReviewView>,
}

pub open spec fn item_view(i: ProviderQuestionReviewItem) -> ItemView {
    ItemView {
        question: i.question@,
        instrument_audience: i.instrument_audience@,
        instrument_label: i.instrument_label@,
        review: match i.review {
            Some(r) => Some(review_view(r)),
            None => None,
        },
    }
}

pub open spec fn items_view(s: Seq<ProviderQuestionReviewItem>) -> Seq<ItemView> {
    s.map_values(|i: ProviderQuestionReviewItem| item_view(i))
}

/// The items of a question over its review instruments `keys`.
pub open spec fn question_items(q: QuestionView, keys: Seq<Seq<char>>, rs: Seq<ProviderQuestionReview>) -> Seq<ItemView> {
    keys.map_values(
        |k: Seq<char>|
            ItemView {
                question: q,
                instrument_audience: k,
                instrument_label: instrument_label_spec(k),
                review: review_for(rs, q.id, k),
            },
    )
}

fn duplicate_review(r: &ProviderQuestionReview) -> (c: ProviderQuestionReview)
    ensures
        review_view(c) == review_view(*r),
{
    ProviderQuestionReview {
        id: r.id.clone(),
        question_id: r.question_id.clone(),
        instrument_audience: r.instrument_audience.clone(),
        status: r.status,
        observation: r.observation.clone(),
        evidence_path: crate::domain::clone_opt(&r.evidence_path),
        updated_at: r.updated_at,
    }
}

fn find_review(rs: &Vec<ProviderQuestionReview>, keys: &Vec<String>, qid: &str, key: &str) -> (r: Option<ProviderQuestionReview>)
    requires
        keys@.len() == rs@.len(),
        forall|i: int| 0 <= i < keys@.len() ==> (#[trigger] keys@[i])@ == instrument_key_spec(rs@[i].instrument_audience@),
    ensures
        (match r {
            Some(x) => Some(review_view(x)),
            None => None,
        }) == review_for(rs@, qid@, key@),
{
    let mut n = rs.len();
    assert(rs@.take(n as int) =~= rs@);
    while n > 0
        invariant
            n <= rs@.len() == keys@.len(),
            forall|i: int| 0 <= i < keys@.len() ==> (#[trigger] keys@[i])@ == instrument_key_spec(rs@[i].instrument_audience@),
            keyed_review(rs@, qid@, key@) == keyed_review(rs@.take(n as int), qid@, key@),
        decreases n,
    {
        assert(rs@.take(n as int).drop_last() =~= rs@.take(n - 1));
        let r = &rs[n - 1];
        if str_eq(r.question_id.as_str(), qid) && !is_blank_chars(&chars_of(r.instrument_audience.as_str()))
            && str_eq(keys[n - 1].as_str(), key) {
            return Some(duplicate_review(r));
        }
        n = n - 1;
    }
    let mut m = rs.len();
    while m > 0
        invariant
            m <= rs@.len(),
            keyed_review(rs@, qid@, key@) is None,
            legacy_review(rs@, qid@) == legacy_review(rs@.take(m as int), qid@),
        decreases m,
    {
        assert(rs@.take(m as int).drop_last() =~= rs@.take(m - 1));
        let r = &rs[m - 1];
        if str_eq(r.question_id.as_str(), qid) && is_blank_chars(&chars_of(r.instrument_audience.as_str())) {
            return Some(duplicate_review(r));
        }
        m = m - 1;
    }
    None
}

/// Items in the order of their instrument, then of their question's code.
impl Ordered for ProviderQuestionReviewItem {
    open spec fn le(a: Self, b: Self) -> bool {
        let i = text_order(a.instrument_audience@, b.instrument_audience@);
        i < 0 || (i == 0 && text_order(a.question.code@, b.question.code@) <= 0)
    }

    proof fn le_total(a: Self, b: Self) {
        text_order_laws(a.instrument_audience@, b.instrument_audience@);
        text_order_laws(a.question.code@, b.question.code@);
    }

    proof fn le_trans(a: Self, b: Self, c: Self) {
        text_order_laws(a.instrument_audience@, b.instrument_audience@);
        text_order_laws(b.instrument_audience@, c.instrument_audience@);
        text_order_laws(a.instrument_audience@, c.instrument_audience@);
        text_order_laws(a.question.code@, b.question.code@);
        text_order_laws(b.question.code@, c.question.code@);
        text_order_laws(a.question.code@, c.question.code@);
        if text_order(a.instrument_audience@, b.instrument_audience@) <= 0 && text_order(
            b.instrument_audience@,
            c.instrument_audience@,
        ) <= 0 {
            text_order_trans(a.instrument_audience@, b.instrument_audience@, c.instrument_audience@);
        }
        if text_order(a.question.code@, b.question.code@) <= 0 && text_order(
            b.question.code@,
            c.question.code@,
        ) <= 0 {
            text_order_trans(a.question.code@, b.question.code@, c.question.code@);
        }
    }

    fn le_exec(&self, other: &Self) -> (r: bool) {
        let i = text_order_exec(
            &chars_of(self.instrument_audience.as_str()),
            &chars_of(other.instrument_audience.as_str()),
        );
        i < 0 || (i == 0 && text_order_exec(
            &chars_of(self.question.code.as_str()),
            &chars_of(other.question.code.as_str()),
        ) <= 0)
    }
}

/// Each question with each of its review instruments and the review kept
/// for it, in the order of instrument and code.
pub open spec fn review_items_ok(
    questions: Seq<QuestionView>,
    rs: Seq<ProviderQuestionReview>,
    r: Seq<ProviderQuestionReviewItem>,
) -> bool {
    exists|unsorted: Seq<ItemView>|
        {
            &&& items_view(r).to_multiset() == unsorted.to_multiset()
            &&& unsorted_items(questions, rs, unsorted)
            &&& exists|idx: Seq<int>| items_placed(r, unsorted, idx)
        }
}

/// The items in order, each from the unsorted list by `idx`: every unsorted
/// item once, and items that order alike in unsorted order.
pub open spec fn items_placed(r: Seq<ProviderQuestionReviewItem>, u: Seq<ItemView>, idx: Seq<int>) -> bool {
    &&& idx.len() == r.len()
    &&& r.len() == u.len()
    &&& forall|k: int| 0 <= k < r.len() ==> 0 <= #[trigger] idx[k] < u.len() && item_view(r[k]) == u[idx[k]]
    &&& forall|k: int, l: int| 0 <= k < l < r.len() ==> #[trigger] idx[k] != #[trigger] idx[l]
    &&& forall|k: int, l: int|
        0 <= k < l < r.len() && ProviderQuestionReviewItem::le(r[l], r[k]) ==> #[trigger] idx[k]
            < #[trigger] idx[l]
}

/// `u` lists, question after question, the items of each question over
/// instruments that satisfy `review_instruments_ok`.
pub open spec fn unsorted_items(questions: Seq<QuestionView>, rs: Seq<ProviderQuestionReview>, u: Seq<ItemView>) -> bool
    decreases questions.len(),
{
    if questions.len() == 0 {
        u.len() == 0
    } else {
        let q = questions.last();
        exists|keys: Seq<Seq<char>>, k: int|
            0 <= k <= u.len() && review_instruments_ok(q.content.audiences, keys) && u.skip(k)
                == question_items(q, keys, rs) && unsorted_items(questions.drop_last(), rs, u.take(k))
    }
}

/// The review items of the bank (see `review_items_ok`), sorted by
/// instrument and code.
pub fn provider_review_items(questions: &Vec<Question>, reviews: &Vec<ProviderQuestionReview>) -> (r: Vec<ProviderQuestionReviewItem>)
    ensures
        review_items_ok(questions_view(questions@), reviews@, r@),
        sorted(r@),
{
    let mut keys: Vec<String> = Vec::new();
    let nr = reviews.len();
    let mut t: usize = 0;
    while t < nr
        invariant
            t <= nr == reviews@.len(),
            keys@.len() == t,
            forall|i: int| 0 <= i < t ==> (#[trigger] keys@[i])@ == instrument_key_spec(reviews@[i].instrument_audience@),
        decreases nr - t,
    {
        keys.push(provider_instrument_key(reviews[t].instrument_audience.as_str()));
        t = t + 1;
    }
    let ghost qv = questions_view(questions@);
    let ghost rs = reviews@;
    let mut items: Vec<ProviderQuestionReviewItem> = Vec::new();
    let n = questions.len();
    let mut i: usize = 0;
    assert(unsorted_items(qv.take(0), rs, items_view(items@)));
    while i < n
        invariant
            i <= n == questions@.len(),
            qv == questions_view(questions@),
            rs == reviews@,
            keys@.len() == reviews@.len(),
            forall|j: int| 0 <= j < keys@.len() ==> (#[trigger] keys@[j])@ == instrument_key_spec(reviews@[j].instrument_audience@),
            unsorted_items(qv.take(i as int), rs, items_view(items@)),
        decreases n - i,
    {
        let q = &questions[i];
        let ks = review_instruments(&q.audiences);
        let ghost start = items_view(items@);
        let ghost expected = question_items(q@, strs(ks@), rs);
        let m = ks.len();
        let mut j: usize = 0;
        while j < m
            invariant
                j <= m == ks@.len(),
                expected == question_items(q@, strs(ks@), rs),
                rs == reviews@,
                keys@.len() == reviews@.len(),
                forall|x: int| 0 <= x < keys@.len() ==> (#[trigger] keys@[x])@ == instrument_key_spec(reviews@[x].instrument_audience@),
                items_view(items@) == start + expected.take(j as int),
            decreases m - j,
        {
            let k = &ks[j];
            let review = find_review(reviews, &keys, q.id.as_str(), k.as_str());
            let item = ProviderQuestionReviewItem {
                question: q.duplicate(),
                instrument_audience: k.clone(),
                instrument_label: provider_instrument_label(k.as_str()),
                review,
            };
            assert(strs(ks@)[j as int] == k@);
            assert(item_view(item) == expected[j as int]);
            let ghost before = items@;
            items.push(item);
            assert(items_view(items@) =~= items_view(before).push(item_view(item)));
            assert(expected.take(j + 1) =~= expected.take(j as int).push(expected[j as int]));
            j = j + 1;
        }
        assert(expected.take(m as int) =~= expected);
        proof {
            let u = items_view(items@);
            let t1 = qv.take(i + 1);
            assert(t1.drop_last() =~= qv.take(i as int));
            assert(t1.last() == q@);
            assert(u.skip(start.len() as int) =~= expected);
            assert(u.take(start.len() as int) =~= start);
            assert(review_instruments_ok(q@.content.audiences, strs(ks@)));
        }
        i = i + 1;
    }
    assert(qv.take(n as int) =~= qv);
    let ghost unsorted = items@;
    let sorted_items = stable_sort_vec(items);
    proof {
        same_values_same_views(sorted_items@, unsorted, |x: ProviderQuestionReviewItem| item_view(x));
        assert(items_view(sorted_items@).to_multiset() == items_view(unsorted).to_multiset());
        let idx = choose|idx: Seq<int>| stable_order(unsorted, sorted_items@, idx);
        assert(items_placed(sorted_items@, items_view(unsorted), idx));
    }
    sorted_items
}

// ---------------------------------------------------------------------------
// Saving and resetting reviews
// ---------------------------------------------------------------------------

/// A review to save: kept under its instrument key; a review that is not
/// "correct" needs an observation.
pub fn prepare_review(review: SaveProviderQuestionReviewRequest) -> (r: Result<SaveProviderQuestionReviewRequest, String>)
    ensures
        is_blank(review.observation@) && review.status != ProviderQuestionReviewStatus::Correct ==> (
        r matches Err(m) && m@ == "observation is required when a question is not correct"@),
        !(is_blank(review.observation@) && review.status != ProviderQuestionReviewStatus::Correct)
            ==> (r matches Ok(x) && x.instrument_audience@ == instrument_key_spec(
            review.instrument_audience@,
        ) && x.question_id@ == review.question_id@ && x.status == review.status
            && x.observation@ == review.observation@ && opt_str(x.evidence_path) == opt_str(
            review.evidence_path,
        )),
{
    let mut review = review;
    review.instrument_audience = provider_instrument_key(review.instrument_audience.as_str());
    let correct = match review.status {
        ProviderQuestionReviewStatus::Correct => true,
        _ => false,
    };
    if is_blank_chars(&chars_of(review.observation.as_str())) && !correct {
        return Err(lit("observation is required when a question is not correct"));
    }
    Ok(review)
}

/// A reset needs its confirmation; it applies to the instrument asked for
/// (by its key) or, when none or a blank one is given, to all reviews.
pub fn prepare_reset(request: &ResetProviderQuestionReviewsRequest) -> (r: Result<Option<String>, String>)
    ensures
        !confirmed(request.confirmation_text@, "REINICIAR REVISION"@) ==> (r matches Err(m) && m@
            == "confirmation text must be REINICIAR REVISION"@),
        confirmed(request.confirmation_text@, "REINICIAR REVISION"@) ==> (r matches Ok(x) && (match request.instrument_audience {
            Some(v) => if instrument_key_spec(v@).len() == 0 {
                x is None
            } else {
                x matches Some(k) && k@ == instrument_key_spec(v@)
            },
            None => x is None,
        })),
{
    let t = trim_chars(&chars_of(request.confirmation_text.as_str()));
    if !crate::text::chars_eq(&t, &chars_of("REINICIAR REVISION")) {
        return Err(lit("confirmation text must be REINICIAR REVISION"));
    }
    match &request.instrument_audience {
        Some(v) => {
            let k = provider_instrument_key(v.as_str());
            if k.as_str().is_empty() {
                Ok(None)
            } else {
                Ok(Some(k))
            }
        },
        None => Ok(None),
    }
}

/// The reviews that a reset removes: all, or those kept under the
/// instrument.
pub open spec fn reset_removes(r: ProviderQuestionReview, instrument: Option<Seq<char>>) -> bool {
    match instrument {
        Some(k) => instrument_key_spec(r.instrument_audience@) == k,
        None => true,
    }
}

/// The ids of the reviews that a reset removes, in order.
pub fn reviews_to_reset(reviews: &Vec<ProviderQuestionReview>, instrument: Option<&str>) -> (r: Vec<String>)
    ensures
        strs(r@) == reviews@.filter(|x: ProviderQuestionReview| reset_removes(x, match instrument {
            Some(k) => Some(k@),
            None => None,
        })).map_values(|x: ProviderQuestionReview| x.id@),
{
    let mut r: Vec<String> = Vec::new();
    let n = reviews.len();
    let mut i: usize = 0;
    assert(reviews@.take(0).filter(|x: ProviderQuestionReview| reset_removes(x, match instrument {
        Some(k) => Some(k@),
        None => None,
    })) =~= Seq::<ProviderQuestionReview>::empty()) by {
        reveal(Seq::filter);
    }
    while i < n
        invariant
            i <= n == reviews@.len(),
            strs(r@) == reviews@.take(i as int).filter(|x: ProviderQuestionReview| reset_removes(x, match instrument {
                Some(k) => Some(k@),
                None => None,
            })).map_values(|x: ProviderQuestionReview| x.id@),
        decreases n - i,
    {
        proof {
            crate::collab::filter_step(reviews@, i as int, |x: ProviderQuestionReview| reset_removes(x, match instrument {
                Some(k) => Some(k@),
                None => None,
            }));
        }
        let removes = match instrument {
            Some(k) => str_eq(provider_instrument_key(reviews[i].instrument_audience.as_str()).as_str(), k),
            None => true,
        };
        if removes {
            let ghost before = r@;
            r.push(reviews[i].id.clone());
            assert(strs(r@) =~= strs(before).push(reviews@[i as int].id@));
        }
        i = i + 1;
    }
    assert(reviews@.take(n as int) =~= reviews@);
    r
}

// ---------------------------------------------------------------------------
// The review report
// ---------------------------------------------------------------------------

pub open spec fn review_label(s: ProviderQuestionReviewStatus) -> Seq<char> {
    match s {
        ProviderQuestionReviewStatus::Correct => "OK"@,
        ProviderQuestionReviewStatus::NeedsModification => "Modificar"@,
        ProviderQuestionReviewStatus::Missing => "No aparece"@,
        ProviderQuestionReviewStatus::Pending => "Pendiente"@,
    }
}

/// The label of a review status in the report.
pub fn review_status_label(status: &ProviderQuestionReviewStatus) -> (r: &'static str)
    ensures
        r@ == review_label(*status),
{
    match status {
        ProviderQuestionReviewStatus::Correct => "OK",
        ProviderQuestionReviewStatus::NeedsModification => "Modificar",
        ProviderQuestionReviewStatus::Missing => "No aparece",
        ProviderQuestionReviewStatus::Pending => "Pendiente",
    }
}

pub open spec fn label_color(label: Seq<char>) -> Seq<char> {
    if label == "OK"@ {
        "047857"@
    } else if label == "Modificar"@ {
        "1D4ED8"@
    } else if label == "No aparece"@ {
        "B91C1C"@
    } else {
        "6B7280"@
    }
}

/// The colour (RGB hex) of a status label in the report.
pub fn status_color(status: &str) -> (r: &'static str)
    ensures
        r@ == label_color(status@),
{
    if str_eq(status, "OK") {
        "047857"
    } else if str_eq(status, "Modificar") {
        "1D4ED8"
    } else if str_eq(status, "No aparece") {
        "B91C1C"
    } else {
        "6B7280"
    }
}

/// The label of an item: its review's, "Pendiente" when it has none.
pub open spec fn item_label(i: ProviderQuestionReviewItem) -> Seq<char> {
    match i.review {
        Some(r) => review_label(r.status),
        None => "Pendiente"@,
    }
}

/// One question of the report.
#[derive(Debug)]
pub struct ReviewReportEntry {
    pub heading: String,
    pub color: String,
    pub text: String,
    pub observation: String,
    pub evidence: String,
    pub evidence_path: String,
}

pub open spec fn entry_of(i: ProviderQuestionReviewItem, e: ReviewReportEntry) -> bool {
    let observation = match i.review {
        Some(r) => r.observation@,
        None => Seq::empty(),
    };
    let evidence = match i.review {
        Some(r) => match r.evidence_path {
            Some(p) => p@,
            None => Seq::empty(),
        },
        None => Seq::empty(),
    };
    &&& e.heading@ == i.question.code@ + " · "@ + item_label(i)
    &&& e.color@ == label_color(item_label(i))
    &&& e.text@ == i.question.text@
    &&& e.observation@ == (if observation.len() == 0 { "Sin observacion"@ } else { observation })
    &&& e.evidence@ == (if evidence.len() == 0 { "Sin evidencia adjunta"@ } else { evidence })
    &&& e.evidence_path@ == evidence
}

/// The report of the reviews of one instrument or of all.
#[derive(Debug)]
pub struct ReviewReport {
    pub instrument_label: String,
    pub total: usize,
    pub approved: usize,
    pub needs_modification: usize,
    pub missing: usize,
    pub pending: usize,
    pub entries: Vec<ReviewReportEntry>,
}

/// How many items have a review with status `s`.
pub open spec fn reviewed_count(items: Seq<ProviderQuestionReviewItem>, s: ProviderQuestionReviewStatus) -> nat
    decreases items.len(),
{
    if items.len() == 0 {
        0
    } else {
        reviewed_count(items.drop_last(), s) + match items.last().review {
            Some(r) => if r.status == s { 1nat } else { 0nat },
            None => 0nat,
        }
    }
}

proof fn reviewed_counts_bound(items: Seq<ProviderQuestionReviewItem>)
    ensures
        reviewed_count(items, ProviderQuestionReviewStatus::Correct) + reviewed_count(
            items,
            ProviderQuestionReviewStatus::NeedsModification,
        ) + reviewed_count(items, ProviderQuestionReviewStatus::Missing) <= items.len(),
    decreases items.len(),
{
    if items.len() > 0 {
        reviewed_counts_bound(items.drop_last());
    }
}

/// The instrument a report is asked for, by its key; none or a blank one
/// means all.
pub open spec fn selected_instrument(selected: Option<Seq<char>>) -> Option<Seq<char>> {
    match selected {
        Some(v) => if instrument_key_spec(v).len() == 0 {
            None
        } else {
            Some(instrument_key_spec(v))
        },
        None => None,
    }
}

pub open spec fn in_report(sel: Option<Seq<char>>) -> spec_fn(ProviderQuestionReviewItem) -> bool {
    |i: ProviderQuestionReviewItem| match sel {
        Some(k) => i.instrument_audience@ == k,
        None => true,
    }
}

pub open spec fn report_ok(items: Seq<ProviderQuestionReviewItem>, selected: Option<Seq<char>>, r: ReviewReport) -> bool {
    let sel = selected_instrument(selected);
    let kept = items.filter(in_report(sel));
    &&& r.instrument_label@ == (match sel {
        Some(k) => crate::audience::instrument_label_spec(k),
        None => "Todos los instrumentos"@,
    })
    &&& r.total == kept.len()
    &&& r.approved == reviewed_count(kept, ProviderQuestionReviewStatus::Correct)
    &&& r.needs_modification == reviewed_count(kept, ProviderQuestionReviewStatus::NeedsModification)
    &&& r.missing == reviewed_count(kept, ProviderQuestionReviewStatus::Missing)
    &&& r.pending == r.total - r.approved - r.needs_modification - r.missing
    &&& r.entries@.len() == kept.len()
    &&& forall|j: int| 0 <= j < kept.len() ==> entry_of(kept[j], #[trigger] r.entries@[j])
}

fn report_entry(i: &ProviderQuestionReviewItem) -> (e: ReviewReportEntry)
    ensures
        entry_of(*i, e),
{
    let label = match &i.review {
        Some(r) => review_status_label(&r.status),
        None => "Pendiente",
    };
    let mut heading = chars_of(i.question.code.as_str());
    crate::text::append_chars(&mut heading, &chars_of(" · "));
    crate::text::append_chars(&mut heading, &chars_of(label));
    let observation = match &i.review {
        Some(r) => r.observation.clone(),
        None => String::new(),
    };
    let evidence = match &i.review {
        Some(r) => match &r.evidence_path {
            Some(p) => p.clone(),
            None => String::new(),
        },
        None => String::new(),
    };
    ReviewReportEntry {
        heading: string_of(&heading),
        color: lit(status_color(label)),
        text: i.question.text.clone(),
        observation: if observation.as_str().is_empty() {
            lit("Sin observacion")
        } else {
            observation
        },
        evidence: if evidence.as_str().is_empty() {
            lit("Sin evidencia adjunta")
        } else {
            evidence.clone()
        },
        evidence_path: evidence,
    }
}

fn status_is(i: &ProviderQuestionReviewItem, s: ProviderQuestionReviewStatus) -> (r: bool)
    ensures
        r == (match i.review {
            Some(x) => x.status == s,
            None => false,
        }),
{
    match &i.review {
        Some(x) => match (x.status, s) {
            (ProviderQuestionReviewStatus::Pending, ProviderQuestionReviewStatus::Pending) => true,
            (ProviderQuestionReviewStatus::Correct, ProviderQuestionReviewStatus::Correct) => true,
            (ProviderQuestionReviewStatus::NeedsModification, ProviderQuestionReviewStatus::NeedsModification) => true,
            (ProviderQuestionReviewStatus::Missing, ProviderQuestionReviewStatus::Missing) => true,
            _ => false,
        },
        None => false,
    }
}

pub open spec fn selected_view(selected: Option<&str>) -> Option<Seq<char>> {
    match selected {
        Some(v) => Some(v@),
        None => None,
    }
}

/// The report of the review items of the instrument asked for (see
/// `report_ok`); an instrument without items is an error.
pub fn review_report(items: &Vec<ProviderQuestionReviewItem>, selected: Option<&str>) -> (r: Result<ReviewReport, String>)
    ensures
        items@.filter(in_report(selected_instrument(selected_view(selected)))).len() == 0 ==> (r matches Err(m)
            && m@ == "no provider review items were found for the selected instrument"@),
        items@.filter(in_report(selected_instrument(selected_view(selected)))).len() > 0 ==> (r matches Ok(x)
            && report_ok(items@, selected_view(selected), x)),
{
    let sel: Option<String> = match selected {
        Some(v) => {
            let k = provider_instrument_key(v);
            if k.as_str().is_empty() {
                None
            } else {
                Some(k)
            }
        },
        None => None,
    };
    assert(match sel {
        Some(k) => Some(k@),
        None => None,
    } == selected_instrument(selected_view(selected)));
    let ghost mut kept: Seq<ProviderQuestionReviewItem> = Seq::empty();
    let mut count: usize = 0;
    let mut entries: Vec<ReviewReportEntry> = Vec::new();
    let mut approved: usize = 0;
    let mut needs: usize = 0;
    let mut missing: usize = 0;
    let n = items.len();
    let mut i: usize = 0;
    assert(items@.take(0).filter(in_report(selected_instrument(selected_view(selected)))) =~= Seq::<ProviderQuestionReviewItem>::empty()) by {
        reveal(Seq::filter);
    }
    while i < n
        invariant
            i <= n == items@.len(),
            (match sel {
                Some(k) => Some(k@),
                None => None,
            }) == selected_instrument(selected_view(selected)),
            kept.len() == entries@.len(),
            kept == items@.take(i as int).filter(in_report(selected_instrument(selected_view(selected)))),
            forall|j: int| 0 <= j < kept.len() ==> entry_of(kept[j], #[trigger] entries@[j]),
            approved == reviewed_count(kept, ProviderQuestionReviewStatus::Correct),
            needs == reviewed_count(kept, ProviderQuestionReviewStatus::NeedsModification),
            missing == reviewed_count(kept, ProviderQuestionReviewStatus::Missing),
            kept.len() <= i,
            count == kept.len(),
        decreases n - i,
    {
        proof {
            crate::collab::filter_step(items@, i as int, in_report(selected_instrument(selected_view(selected))));
            reviewed_counts_bound(kept);
        }
        let item = &items[i];
        let shown = match &sel {
            Some(k) => str_eq(item.instrument_audience.as_str(), k.as_str()),
            None => true,
        };
        if shown {
            let ghost before = kept;
            proof {
                kept = kept.push(*item);
            }
            count = count + 1;
            entries.push(report_entry(item));
            assert(kept.drop_last() =~= before);
            if status_is(item, ProviderQuestionReviewStatus::Correct) {
                approved = approved + 1;
            }
            if status_is(item, ProviderQuestionReviewStatus::NeedsModification) {
                needs = needs + 1;
            }
            if status_is(item, ProviderQuestionReviewStatus::Missing) {
                missing = missing + 1;
            }
        }
        i = i + 1;
    }
    assert(items@.take(n as int) =~= items@);
    if count == 0 {
        return Err(lit("no provider review items were found for the selected instrument"));
    }
    proof {
        reviewed_counts_bound(kept);
    }
    let total = count;
    Ok(ReviewReport {
        instrument_label: match sel {
            Some(k) => crate::audience::provider_instrument_label(k.as_str()),
            None => lit("Todos los instrumentos"),
        },
        total,
        approved,
        needs_modification: needs,
        missing,
        pending: total - approved - missing - needs,
        entries,
    })
}

} // verus!
