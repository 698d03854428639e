//! Reading consolidated question workbooks: rows, marks and merging.
use vstd::prelude::*;

use crate::columns::{cell, cell_text, ColumnMap};
use crate::domain::strs;
use crate::sort::{text_le, text_le_exec, text_le_total, text_le_antisym};
use crate::text::{
    append_chars, char_is_alpha, chars_contains, chars_eq, chars_of, contains, header_key,
    header_key_chars, is_alpha, is_blank, is_blank_chars, join, join_words, lit, replace_char,
    replace_chars, split_words, string_of, views, words, Sep,
};

verus! {

// ---------------------------------------------------------------------------
// Cell-level rules
// ---------------------------------------------------------------------------

pub open spec fn forward_fill_spec(value: Seq<char>, last: Seq<char>) -> Seq<char> {
    if is_blank(value) {
        last
    } else {
        value
    }
}

/// The cell value, or the last value seen in its column when the cell is
/// blank (merged cells of the hierarchy columns). The value used becomes the
/// last value seen.
pub fn forward_fill(value: String, last_seen: &mut String) -> (r: String)
    ensures
        r@ == forward_fill_spec(value@, old(last_seen)@),
        final(last_seen)@ == r@,
{
    if is_blank_chars(&chars_of(value.as_str())) {
        last_seen.clone()
    } else {
        *last_seen = value.clone();
        value
    }
}

pub open spec fn join_number_name_spec(number: Seq<char>, name: Seq<char>) -> Seq<char> {
    if number.len() == 0 {
        name
    } else if name.len() == 0 {
        number
    } else {
        number + ". "@ + name
    }
}

/// "number. name", or whichever of the two is present.
pub fn join_number_name(number: String, name: String) -> (r: String)
    ensures
        r@ == join_number_name_spec(number@, name@),
{
    if number.as_str().is_empty() {
        name
    } else if name.as_str().is_empty() {
        number
    } else {
        let mut r = chars_of(number.as_str());
        append_chars(&mut r, &chars_of(". "));
        append_chars(&mut r, &chars_of(name.as_str()));
        string_of(&r)
    }
}

pub fn none_if_empty(value: String) -> (r: Option<String>)
    ensures
        r == (if value@.len() == 0 {
            None
        } else {
            Some(value)
        }),
{
    if value.as_str().is_empty() {
        None
    } else {
        Some(value)
    }
}

/// A hierarchy code as compared when merging: header form, dots removed.
pub open spec fn code_key(v: Seq<char>) -> Seq<char> {
    join(words(Sep::Space, replace_char(header_key(v), '.', Seq::empty())), " "@)
}

pub fn normalize_key(value: &str) -> (r: String)
    ensures
        r@ == code_key(value@),
{
    let h = header_key_chars(&chars_of(value));
    let d = replace_chars(&h, '.', &Vec::new());
    let w = split_words(Sep::Space, &d);
    string_of(&join_words(&w, &chars_of(" ")))
}

// ---------------------------------------------------------------------------
// Natural order of codes
// ---------------------------------------------------------------------------

/// The value of a run of decimal digits.
pub open spec fn digits_value(w: Seq<char>) -> nat
    decreases w.len(),
{
    if w.len() == 0 {
        0
    } else {
        digits_value(w.drop_last()) * 10 + ((w.last() as u32) - 48) as nat
    }
}

/// The numbers of the digit runs of a text that fit in `u32`, in order.
pub open spec fn number_parts(ws: Seq<Seq<char>>) -> Seq<u32>
    decreases ws.len(),
{
    if ws.len() == 0 {
        Seq::empty()
    } else {
        let p = number_parts(ws.drop_last());
        let v = digits_value(ws.last());
        if v <= u32::MAX {
            p.push(v as u32)
        } else {
            p
        }
    }
}

/// The key by which codes sort naturally ("7.10" after "7.9").
pub open spec fn natural_parts(v: Seq<char>) -> Seq<u32> {
    number_parts(words(Sep::NonDigit, v))
}

/// The value of a digit run, when it fits in `u32`.
fn parse_digits(w: &Vec<char>) -> (r: Option<u32>)
    requires
        forall|i: int| 0 <= i < w@.len() ==> crate::text::is_digit(#[trigger] w@[i]),
    ensures
        r == (if digits_value(w@) <= u32::MAX {
            Some(digits_value(w@) as u32)
        } else {
            None
        }),
{
    let mut acc: u32 = 0;
    let mut ok = true;
    let n = w.len();
    let mut i: usize = 0;
    while i < n
        invariant
            i <= n == w@.len(),
            forall|k: int| 0 <= k < w@.len() ==> crate::text::is_digit(#[trigger] w@[k]),
            ok ==> acc == digits_value(w@.subrange(0, i as int)),
            !ok ==> digits_value(w@.subrange(0, i as int)) > u32::MAX,
        decreases n - i,
    {
        let ghost prefix = w@.subrange(0, i + 1);
        assert(prefix.drop_last() =~= w@.subrange(0, i as int));
        assert(prefix.last() == w@[i as int]);
        let d: u32 = (w[i] as u32) - 48;
        if ok {
            if acc > 429496729 || (acc == 429496729 && d > 5) {
                ok = false;
            } else {
                acc = acc * 10 + d;
            }
        }
        i = i + 1;
    }
    assert(w@.subrange(0, n as int) =~= w@);
    if ok {
        Some(acc)
    } else {
        None
    }
}

pub fn natural_code_parts(value: &str) -> (r: Vec<u32>)
    ensures
        r@ == natural_parts(value@),
{
    let ws = split_words(Sep::NonDigit, &chars_of(value));
    let ghost all = words(Sep::NonDigit, value@);
    proof {
        words_of_non_digit(value@);
    }
    let mut r: Vec<u32> = Vec::new();
    let n = ws.len();
    let mut i: usize = 0;
    while i < n
        invariant
            i <= n == ws@.len(),
            views(ws@) == all,
            forall|k: int, j: int| 0 <= k < all.len() && 0 <= j < all[k].len()
                ==> crate::text::is_digit(#[trigger] all[k][j]),
            r@ == number_parts(all.take(i as int)),
        decreases n - i,
    {
        assert(all.take(i + 1).drop_last() =~= all.take(i as int));
        assert(all[i as int] == ws@[i as int]@);
        match parse_digits(&ws[i]) {
            Some(v) => r.push(v),
            None => {},
        }
        i = i + 1;
    }
    assert(all.take(n as int) =~= all);
    r
}

/// Every character of a word cut at non-digits is a digit.
proof fn words_of_non_digit(s: Seq<char>)
    ensures
        forall|k: int, j: int| 0 <= k < words(Sep::NonDigit, s).len() && 0 <= j < words(
            Sep::NonDigit,
            s,
        )[k].len() ==> crate::text::is_digit(#[trigger] words(Sep::NonDigit, s)[k][j]),
{
    split_state_digits(s);
}

proof fn split_state_digits(s: Seq<char>)
    ensures
        ({
            let (d, c) = crate::text::split_state(Sep::NonDigit, s);
            &&& forall|k: int, j: int| 0 <= k < d.len() && 0 <= j < d[k].len()
                ==> crate::text::is_digit(#[trigger] d[k][j])
            &&& forall|j: int| 0 <= j < c.len() ==> crate::text::is_digit(#[trigger] c[j])
        }),
    decreases s.len(),
{
    if s.len() > 0 {
        split_state_digits(s.drop_last());
        let (d0, c0) = crate::text::split_state(Sep::NonDigit, s.drop_last());
        let x = s.last();
        if crate::text::is_sep(Sep::NonDigit, x) {
            if c0.len() > 0 {
                let d1 = d0.push(c0);
                assert forall|k: int, j: int| 0 <= k < d1.len() && 0 <= j < d1[k].len()
                    implies crate::text::is_digit(#[trigger] d1[k][j]) by {
                    if k < d0.len() {
                        assert(d1[k] == d0[k]);
                    } else {
                        assert(d1[k] == c0);
                    }
                }
            }
        } else {
            let c1 = c0.push(x);
            assert forall|j: int| 0 <= j < c1.len() implies crate::text::is_digit(#[trigger] c1[j]) by {
                if j < c0.len() {
                    assert(c1[j] == c0[j]);
                }
            }
        }
    }
}

// ---------------------------------------------------------------------------
// Response formats
// ---------------------------------------------------------------------------

pub open spec fn all_alpha(w: Seq<char>) -> bool {
    forall|i: int| 0 <= i < w.len() ==> is_alpha(#[trigger] w[i])
}

pub open spec fn all_words_alpha(ws: Seq<Seq<char>>) -> bool {
    forall|k: int| 0 <= k < ws.len() ==> all_alpha(#[trigger] ws[k])
}

/// How many of the words are not blank.
pub open spec fn non_blank_count(ws: Seq<Seq<char>>) -> nat
    decreases ws.len(),
{
    if ws.len() == 0 {
        0
    } else {
        non_blank_count(ws.drop_last()) + if is_blank(ws.last()) {
            0nat
        } else {
            1nat
        }
    }
}

/// The response format of a question from its convention code and text:
/// "open", "multipleChoice", "singleChoice" or "likert".
pub open spec fn format_spec(convention: Seq<char>, text: Seq<char>) -> Seq<char> {
    let nc = header_key(convention);
    let nt = header_key(text);
    let parts = words(Sep::Space, nc);
    if contains(nc, "abierta"@) {
        "open"@
    } else if non_blank_count(words(Sep::Newline, convention)) > 1 || (parts.len() > 1
        && all_words_alpha(parts)) || contains(nt, "seleccione"@) || contains(nt, "marque"@)
        || contains(nt, "cuales"@) {
        "multipleChoice"@
    } else if nc == "k"@ || nc == "si no"@ {
        "singleChoice"@
    } else {
        "likert"@
    }
}

fn word_all_alpha(w: &Vec<char>) -> (r: bool)
    ensures
        r == all_alpha(w@),
{
    let n = w.len();
    let mut i: usize = 0;
    while i < n
        invariant
            i <= n == w@.len(),
            forall|k: int| 0 <= k < i ==> is_alpha(#[trigger] w@[k]),
        decreases n - i,
    {
        if !char_is_alpha(w[i]) {
            return false;
        }
        i = i + 1;
    }
    true
}

fn words_all_alpha(ws: &Vec<Vec<char>>) -> (r: bool)
    ensures
        r == all_words_alpha(views(ws@)),
{
    let n = ws.len();
    let mut i: usize = 0;
    while i < n
        invariant
            i <= n == ws@.len(),
            forall|k: int| 0 <= k < i ==> all_alpha(#[trigger] views(ws@)[k]),
        decreases n - i,
    {
        assert(views(ws@)[i as int] == ws@[i as int]@);
        if !word_all_alpha(&ws[i]) {
            return false;
        }
        i = i + 1;
    }
    true
}

fn count_non_blank(ws: &Vec<Vec<char>>) -> (r: usize)
    ensures
        r == non_blank_count(views(ws@)),
{
    let n = ws.len();
    let mut i: usize = 0;
    let mut c: usize = 0;
    while i < n
        invariant
            i <= n == ws@.len(),
            c == non_blank_count(views(ws@).take(i as int)),
            c <= i,
        decreases n - i,
    {
        assert(views(ws@).take(i + 1).drop_last() =~= views(ws@).take(i as int));
        assert(views(ws@)[i as int] == ws@[i as int]@);
        if !is_blank_chars(&ws[i]) {
            c = c + 1;
        }
        i = i + 1;
    }
    assert(views(ws@).take(n as int) =~= views(ws@));
    c
}

pub fn question_format_from_convention(convention: Option<&str>, text: &str) -> (r: String)
    ensures
        r@ == format_spec(
            match convention {
                Some(c) => c@,
                None => Seq::empty(),
            },
            text@,
        ),
{
    let conv = match convention {
        Some(c) => chars_of(c),
        None => Vec::new(),
    };
    let nc = header_key_chars(&conv);
    let nt = header_key_chars(&chars_of(text));
    if chars_contains(&nc, &chars_of("abierta")) {
        return lit("open");
    }
    let parts = split_words(Sep::Space, &nc);
    let combined = parts.len() > 1 && words_all_alpha(&parts);
    let lines = split_words(Sep::Newline, &conv);
    if count_non_blank(&lines) > 1 || combined || chars_contains(&nt, &chars_of("seleccione"))
        || chars_contains(&nt, &chars_of("marque")) || chars_contains(&nt, &chars_of("cuales")) {
        return lit("multipleChoice");
    }
    if chars_eq(&nc, &chars_of("k")) || chars_eq(&nc, &chars_of("si no")) {
        return lit("singleChoice");
    }
    lit("likert")
}

// ---------------------------------------------------------------------------
// Generated codes
// ---------------------------------------------------------------------------

/// Strictly increasing in text order: sorted, each text once.
pub open spec fn strictly_sorted(s: Seq<Seq<char>>) -> bool {
    forall|i: int, j: int|
        #![trigger s[i], s[j]]
        0 <= i < j < s.len() ==> text_le(s[i], s[j]) && s[i] != s[j]
}

pub proof fn strictly_sorted_at(s: Seq<Seq<char>>, i: int, j: int)
    requires
        strictly_sorted(s),
        0 <= i < j < s.len(),
    ensures
        text_le(s[i], s[j]),
        s[i] != s[j],
{
}

/// Inserts `x` into a strictly sorted list of texts, unless already there.
pub fn insert_sorted_unique(v: &mut Vec<Vec<char>>, x: Vec<char>)
    requires
        strictly_sorted(views(old(v)@)),
    ensures
        strictly_sorted(views(final(v)@)),
        views(final(v)@).to_set() == views(old(v)@).to_set().insert(x@),
{
    let ghost old_v = views(v@);
    let n = v.len();
    let mut pos: usize = 0;
    while pos < n && text_le_exec(&v[pos], &x) && !chars_eq(&v[pos], &x)
        invariant
            pos <= n == v@.len(),
            views(v@) == old_v,
            strictly_sorted(old_v),
            forall|k: int| 0 <= k < pos ==> text_le(old_v[k], x@) && old_v[k] != x@,
        decreases n - pos,
    {
        assert(old_v[pos as int] == v@[pos as int]@);
        pos = pos + 1;
    }
    if pos < n {
        assert(old_v[pos as int] == v@[pos as int]@);
        if chars_eq(&v[pos], &x) {
            assert(old_v.to_set() =~= old_v.to_set().insert(x@)) by {
                assert(old_v.contains(x@));
            }
            return;
        }
    }
    proof {
        if pos < n {
            text_le_total(old_v[pos as int], x@);
        }
        assert forall|j: int| pos <= j < n implies text_le(x@, old_v[j]) && old_v[j] != x@ by {
            if j > pos {
                assert(text_le(old_v[pos as int], old_v[j]));
                crate::sort::text_le_trans(x@, old_v[pos as int], old_v[j]);
            }
        }
    }
    v.insert(pos, x);
    proof {
        let nv = views(v@);
        assert(nv =~= old_v.insert(pos as int, x@));
        assert forall|i: int, j: int| 0 <= i < j < nv.len() implies text_le(nv[i], nv[j])
            && nv[i] != nv[j] by {
            if j < pos {
                assert(nv[i] == old_v[i] && nv[j] == old_v[j]);
                strictly_sorted_at(old_v, i, j);
            } else if j == pos {
                assert(nv[i] == old_v[i] && nv[j] == x@);
            } else if i < pos {
                assert(nv[i] == old_v[i] && nv[j] == old_v[j - 1]);
                assert(text_le(x@, old_v[j - 1]) && old_v[j - 1] != x@);
                crate::sort::text_le_trans(old_v[i], x@, old_v[j - 1]);
                if old_v[i] == old_v[j - 1] {
                    text_le_antisym(old_v[i], x@);
                }
            } else if i == pos {
                assert(nv[i] == x@ && nv[j] == old_v[j - 1]);
                assert(text_le(x@, old_v[j - 1]) && old_v[j - 1] != x@);
            } else {
                assert(nv[i] == old_v[i - 1] && nv[j] == old_v[j - 1]);
                strictly_sorted_at(old_v, i - 1, j - 1);
            }
        }
        assert(nv.to_set() =~= old_v.to_set().insert(x@)) by {
            assert forall|t: Seq<char>| nv.to_set().contains(t) <==> old_v.to_set().insert(
                x@,
            ).contains(t) by {
                if nv.contains(t) {
                    let k = choose|k: int| 0 <= k < nv.len() && nv[k] == t;
                    if k < pos {
                        assert(old_v[k] == t);
                    } else if k > pos {
                        assert(old_v[k - 1] == t);
                    }
                }
                if old_v.contains(t) {
                    let k = choose|k: int| 0 <= k < old_v.len() && old_v[k] == t;
                    if k < pos {
                        assert(nv[k] == t);
                    } else {
                        assert(nv[k + 1] == t);
                    }
                }
                if t == x@ {
                    assert(nv[pos as int] == t);
                }
            }
        }
    }
}

/// A code for a question that has none, from the first five words of its
/// text in header form, sorted, each once: "IMP-" and the words joined by
/// dashes.
pub open spec fn first_words(ws: Seq<Seq<char>>) -> Seq<Seq<char>> {
    if ws.len() < 5 {
        ws
    } else {
        ws.take(5)
    }
}

pub open spec fn stable_code_spec(text: Seq<char>, ws: Seq<Seq<char>>) -> bool {
    &&& strictly_sorted(ws)
    &&& ws.to_set() == first_words(words(Sep::Space, header_key(text))).to_set()
}

/// The generated code of a question text.
pub open spec fn stable_code_text(text: Seq<char>) -> Seq<char> {
    "IMP-"@ + join(choose|ws: Seq<Seq<char>>| stable_code_spec(text, ws), "-"@)
}

/// Two strictly sorted lists of texts with the same elements are equal.
pub proof fn strictly_sorted_unique(a: Seq<Seq<char>>, b: Seq<Seq<char>>)
    requires
        strictly_sorted(a),
        strictly_sorted(b),
        a.to_set() == b.to_set(),
    ensures
        a == b,
    decreases a.len(),
{
    if a.len() == 0 {
        if b.len() > 0 {
            assert(b.to_set().contains(b[0]));
        }
        assert(a =~= b);
    } else {
        assert(a.to_set().contains(a[0]));
        assert(b.len() > 0);
        assert(b.to_set().contains(b[0]));
        let j = choose|j: int| 0 <= j < b.len() && b[j] == a[0];
        let i = choose|i: int| 0 <= i < a.len() && a[i] == b[0];
        if i > 0 {
            assert(text_le(a[0], a[i]));
            if j > 0 {
                assert(text_le(b[0], b[j]));
            }
            text_le_antisym(a[0], a[i]);
            assert(false);
        }
        assert(a[0] == b[0]);
        let a1 = a.drop_first();
        let b1 = b.drop_first();
        assert(a1.to_set() =~= b1.to_set()) by {
            assert forall|t: Seq<char>| a1.to_set().contains(t) implies b1.to_set().contains(t) by {
                let k = choose|k: int| 0 <= k < a1.len() && a1[k] == t;
                assert(a[k + 1] == t);
                assert(a.to_set().contains(t));
                let m = choose|m: int| 0 <= m < b.len() && b[m] == t;
                if m == 0 {
                    strictly_sorted_at(a, 0, k + 1);
                }
                assert(b1[m - 1] == t);
            }
            assert forall|t: Seq<char>| b1.to_set().contains(t) implies a1.to_set().contains(t) by {
                let k = choose|k: int| 0 <= k < b1.len() && b1[k] == t;
                assert(b[k + 1] == t);
                assert(b.to_set().contains(t));
                let m = choose|m: int| 0 <= m < a.len() && a[m] == t;
                if m == 0 {
                    strictly_sorted_at(b, 0, k + 1);
                }
                assert(a1[m - 1] == t);
            }
        }
        strictly_sorted_unique(a1, b1);
        assert(a =~= seq![a[0]] + a1);
        assert(b =~= seq![b[0]] + b1);
    }
}

pub fn stable_code(text: &str) -> (r: String)
    ensures
        r@ == stable_code_text(text@),
{
    let h = header_key_chars(&chars_of(text));
    let all = split_words(Sep::Space, &h);
    let mut set: Vec<Vec<char>> = Vec::new();
    let limit: usize = if all.len() < 5 { all.len() } else { 5 };
    let ghost first = views(all@).take(limit as int);
    let mut i: usize = 0;
    assert(views(set@).to_set() =~= first.take(0).to_set());
    while i < limit
        invariant
            i <= limit <= all@.len(),
            limit == if all@.len() < 5 { all@.len() as int } else { 5 },
            first == views(all@).take(limit as int),
            strictly_sorted(views(set@)),
            views(set@).to_set() == first.take(i as int).to_set(),
        decreases limit - i,
    {
        let w = all[i].clone();
        insert_sorted_unique(&mut set, w);
        assert(first[i as int] == all@[i as int]@);
        assert(first.take(i + 1) =~= first.take(i as int).push(all@[i as int]@));
        proof {
            first.take(i as int).lemma_push_to_set_commute(all@[i as int]@);
        }
        assert(first.take(i as int).push(all@[i as int]@).to_set() =~= first.take(
            i as int,
        ).to_set().insert(all@[i as int]@));
        i = i + 1;
    }
    assert(views(all@).len() == all@.len());
    assert(first.take(limit as int) =~= first);
    let mut r = chars_of("IMP-");
    let joined = join_words(&set, &chars_of("-"));
    append_chars(&mut r, &joined);
    assert(views(all@) == words(Sep::Space, header_key(text@)));
    if all.len() < 5 {
        assert(first =~= views(all@));
    } else {
        assert(first =~= views(all@).take(5));
    }
    assert(first_words(words(Sep::Space, header_key(text@))) == first);
    assert(stable_code_spec(text@, views(set@)));
    proof {
        let c = choose|ws: Seq<Seq<char>>| stable_code_spec(text@, ws);
        strictly_sorted_unique(c, views(set@));
    }
    string_of(&r)
}

} // verus!
