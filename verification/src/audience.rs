//! Públicos, subpúblicos and the instruments derived from them.
use vstd::prelude::*;

use crate::text::{
    append_chars, chars_eq_ignore_ascii_case, chars_of, chars_starts_with, eq_ignore_ascii_case,
    is_digit, join, join_words, lit, lowercase_chars, lowercase, replace_char, replace_chars,
    split_words, starts_with, str_eq, string_of, subrange_chars, trim, trim_chars, uppercase_of,
    views, words, Sep, char_is_digit, to_uppercase, no_char, no_sep, replace_char_absent,
    replace_char_removes, words_props, words_of_join, join_no_char,
};

verus! {

/// A público (the instrument it belongs to) and the column (público with its
/// subpúblico) under which a question is shown.
#[derive(Debug)]
pub struct InstrumentAudience {
    pub public: String,
    pub column: String,
}

/// A subpúblico column of an instrument: its stable key and display label.
#[derive(Debug)]
pub struct InstrumentColumn {
    pub key: String,
    pub label: String,
}

// ---------------------------------------------------------------------------
// Specification
// ---------------------------------------------------------------------------

/// A word with its leading ASCII digits removed.
pub open spec fn strip_leading_digits(w: Seq<char>) -> Seq<char>
    decreases w.len(),
{
    if w.len() > 0 && is_digit(w[0]) {
        strip_leading_digits(w.drop_first())
    } else {
        w
    }
}

/// The words with their numbering prefixes removed, empty results dropped.
pub open spec fn label_parts(ws: Seq<Seq<char>>) -> Seq<Seq<char>>
    decreases ws.len(),
{
    if ws.len() == 0 {
        Seq::empty()
    } else {
        let p = label_parts(ws.drop_last());
        let w = strip_leading_digits(ws.last());
        if w.len() > 0 {
            p.push(w)
        } else {
            p
        }
    }
}

/// An Excel público label without numbering prefixes and underscores, its
/// words separated by single spaces ("1Profesores_Planta" is
/// "Profesores Planta").
pub open spec fn audience_label(v: Seq<char>) -> Seq<char> {
    join(label_parts(words(Sep::Space, replace_char(v, '_', " "@))), " "@)
}

pub open spec fn audience_from_excel_spec(public: Seq<char>, subpublic: Seq<char>) -> Seq<char> {
    let p = audience_label(public);
    let s = audience_label(subpublic);
    if p.len() == 0 {
        s
    } else if s.len() == 0 {
        p
    } else {
        p + " "@ + s
    }
}

pub open spec fn prefix_count() -> int {
    7
}

/// The públicos that own an instrument, in the order they are tried.
pub open spec fn public_prefix(i: int) -> Seq<char> {
    if i == 0 {
        "Profesores Planta"@
    } else if i == 1 {
        "Profesores Cátedra"@
    } else if i == 2 {
        "Profesores Catedra"@
    } else if i == 3 {
        "Servicios Generales"@
    } else if i == 4 {
        "Administrativos"@
    } else if i == 5 {
        "Directivos"@
    } else {
        "Estudiantes"@
    }
}

/// The (público, column) pair of a normalised label, trying the prefixes
/// from the `i`-th on.
pub open spec fn parse_from(n: Seq<char>, i: int) -> (Seq<char>, Seq<char>)
    decreases prefix_count() - i,
{
    if i < 0 || i >= prefix_count() {
        ("General"@, n)
    } else if eq_ignore_ascii_case(n, public_prefix(i)) {
        (public_prefix(i), public_prefix(i))
    } else if starts_with(lowercase(n), lowercase(public_prefix(i) + " "@)) {
        (public_prefix(i), n)
    } else {
        parse_from(n, i + 1)
    }
}

pub open spec fn parse_spec(v: Seq<char>) -> (Seq<char>, Seq<char>) {
    parse_from(audience_label(v), 0)
}

pub open spec fn subpublic_spec(public: Seq<char>, column: Seq<char>) -> Seq<char> {
    if public == "General"@ {
        column
    } else {
        let p = public + " "@;
        if starts_with(column, p) && trim(column.subrange(p.len() as int, column.len() as int)).len()
            > 0 {
            trim(column.subrange(p.len() as int, column.len() as int))
        } else {
            column
        }
    }
}

pub open spec fn display_public_spec(public: Seq<char>) -> Seq<char> {
    if public == "Profesores Planta"@ {
        "Profesores de planta"@
    } else if public == "Profesores Cátedra"@ || public == "Profesores Catedra"@ {
        "Profesores de cátedra"@
    } else {
        public
    }
}

pub open spec fn instrument_key_spec(v: Seq<char>) -> Seq<char> {
    let (p, c) = parse_spec(v);
    if p == "General"@ {
        c
    } else {
        p
    }
}

pub open spec fn instrument_label_spec(key: Seq<char>) -> Seq<char> {
    if key == "Sin instrumento"@ {
        key
    } else {
        display_public_spec(key)
    }
}

pub open spec fn title_public_spec(public: Seq<char>) -> Seq<char> {
    if public == "Profesores Planta"@ {
        "PROFESORES DE PLANTA"@
    } else if public == "Profesores Cátedra"@ || public == "Profesores Catedra"@ {
        "PROFESORES DE CÁTEDRA"@
    } else {
        uppercase_of(public)
    }
}

pub open spec fn column_prefix_spec(public: Seq<char>) -> Seq<char> {
    if public == "Profesores Planta"@ || public == "Profesores Cátedra"@ || public
        == "Profesores Catedra"@ {
        "Profesores"@
    } else {
        public
    }
}

pub open spec fn canonical_subpublic_spec(v: Seq<char>) -> Seq<char> {
    if v == "Maestrías"@ || v == "Maestrias"@ {
        "Maestría"@
    } else if v == "Maestrías virtuales"@ || v == "Maestrias virtuales"@ {
        "Maestría Virtual"@
    } else if v == "Especializaciones MQ"@ {
        "EMQ"@
    } else if v == "Especializaciones virtuales/extensión"@ || v
        == "Especializaciones virtuales/extension"@ {
        "Especializaciones virtual / extensión"@
    } else {
        v
    }
}

pub open spec fn column_label_spec(public: Seq<char>, key: Seq<char>) -> Seq<char> {
    let (p, c) = parse_spec(key);
    let sub = canonical_subpublic_spec(subpublic_spec(p, c));
    if public == "General"@ {
        sub
    } else {
        let prefix = column_prefix_spec(public);
        if sub.len() == 0 || sub == prefix {
            prefix
        } else {
            prefix + " "@ + sub
        }
    }
}

// ---------------------------------------------------------------------------
// Implementation
// ---------------------------------------------------------------------------

fn strip_digits(w: &Vec<char>) -> (r: Vec<char>)
    ensures
        r@ == strip_leading_digits(w@),
{
    let n = w.len();
    let mut i: usize = 0;
    assert(w@.subrange(0, n as int) =~= w@);
    while i < n && char_is_digit(w[i])
        invariant
            i <= n == w@.len(),
            strip_leading_digits(w@) == strip_leading_digits(w@.subrange(i as int, n as int)),
        decreases n - i,
    {
        assert(w@.subrange(i as int, n as int).drop_first() =~= w@.subrange(i + 1, n as int));
        i = i + 1;
    }
    subrange_chars(w, i, n)
}

pub fn audience_label_chars(v: &Vec<char>) -> (r: Vec<char>)
    ensures
        r@ == audience_label(v@),
{
    let space = chars_of(" ");
    let replaced = replace_chars(v, '_', &space);
    let ws = split_words(Sep::Space, &replaced);
    let mut parts: Vec<Vec<char>> = Vec::new();
    let n = ws.len();
    let mut i: usize = 0;
    while i < n
        invariant
            i <= n == ws@.len(),
            views(ws@) == words(Sep::Space, replaced@),
            views(parts@) == label_parts(views(ws@).take(i as int)),
        decreases n - i,
    {
        let w = strip_digits(&ws[i]);
        assert(views(ws@).take(i + 1).drop_last() =~= views(ws@).take(i as int));
        assert(views(ws@).take(i + 1).last() == ws@[i as int]@);
        if w.len() > 0 {
            let ghost before = parts@;
            parts.push(w);
            assert(views(parts@) =~= views(before).push(w@));
        }
        i = i + 1;
    }
    assert(views(ws@).take(n as int) =~= views(ws@));
    join_words(&parts, &space)
}

/// The público label of an Excel cell without numbering prefixes or
/// underscores, words separated by single spaces.
pub fn normalize_audience_label(value: &str) -> (r: String)
    ensures
        r@ == audience_label(value@),
{
    string_of(&audience_label_chars(&chars_of(value)))
}

proof fn strip_digits_props(w: Seq<char>, x: char)
    requires
        no_char(w, x),
        no_sep(Sep::Space, w),
    ensures
        no_char(strip_leading_digits(w), x),
        no_sep(Sep::Space, strip_leading_digits(w)),
        strip_leading_digits(w).len() > 0 ==> !is_digit(strip_leading_digits(w)[0]),
    decreases w.len(),
{
    if w.len() > 0 && is_digit(w[0]) {
        let t = w.drop_first();
        assert forall|i: int| 0 <= i < t.len() implies t[i] != x && !crate::text::is_sep(Sep::Space, t[i]) by {
            assert(t[i] == w[i + 1]);
        }
        strip_digits_props(t, x);
    }
}

proof fn label_parts_props(ws: Seq<Seq<char>>, x: char)
    requires
        forall|j: int| 0 <= j < ws.len() ==> no_char(#[trigger] ws[j], x) && no_sep(Sep::Space, ws[j]),
    ensures
        forall|j: int|
            0 <= j < label_parts(ws).len() ==> (#[trigger] label_parts(ws)[j]).len() > 0 && !is_digit(
                label_parts(ws)[j][0],
            ) && no_char(label_parts(ws)[j], x) && no_sep(Sep::Space, label_parts(ws)[j]),
    decreases ws.len(),
{
    if ws.len() > 0 {
        let q = ws.drop_last();
        assert forall|j: int| 0 <= j < q.len() implies no_char(#[trigger] q[j], x) && no_sep(Sep::Space, q[j]) by {
            assert(q[j] == ws[j]);
        }
        label_parts_props(q, x);
        assert(ws.last() == ws[ws.len() - 1]);
        strip_digits_props(ws.last(), x);
        let lp = label_parts(q);
        let w = strip_leading_digits(ws.last());
        if w.len() > 0 {
            assert forall|j: int| 0 <= j < lp.push(w).len() implies (#[trigger] lp.push(w)[j]).len() > 0
                && !is_digit(lp.push(w)[j][0]) && no_char(lp.push(w)[j], x) && no_sep(
                Sep::Space,
                lp.push(w)[j],
            ) by {
                if j < lp.len() {
                    assert(lp.push(w)[j] == lp[j]);
                }
            }
        }
    }
}

proof fn label_parts_fixed(p: Seq<Seq<char>>)
    requires
        forall|j: int| 0 <= j < p.len() ==> (#[trigger] p[j]).len() > 0 && !is_digit(p[j][0]),
    ensures
        label_parts(p) == p,
    decreases p.len(),
{
    if p.len() > 0 {
        let q = p.drop_last();
        assert forall|j: int| 0 <= j < q.len() implies (#[trigger] q[j]).len() > 0 && !is_digit(q[j][0]) by {
            assert(q[j] == p[j]);
        }
        label_parts_fixed(q);
        assert(p.last() == p[p.len() - 1]);
        assert(strip_leading_digits(p.last()) == p.last());
        assert(q.push(p.last()) =~= p);
    }
}

/// The words of a normalised público label: none empty, none with a space
/// or an underscore, none starting with an ASCII digit; the label is those
/// words joined by single spaces.
pub open spec fn label_words_ok(p: Seq<Seq<char>>) -> bool {
    forall|j: int|
        0 <= j < p.len() ==> (#[trigger] p[j]).len() > 0 && !is_digit(p[j][0]) && no_char(p[j], '_')
            && no_sep(Sep::Space, p[j])
}

/// A normalised público label is its words, each free of spaces and
/// underscores and not starting with a digit, joined by single spaces; and
/// normalising it again changes nothing.
pub proof fn audience_label_laws(v: Seq<char>)
    ensures
        label_words_ok(words(Sep::Space, audience_label(v))),
        audience_label(v) == join(words(Sep::Space, audience_label(v)), " "@),
        no_char(audience_label(v), '_'),
        audience_label(audience_label(v)) == audience_label(v),
{
    reveal_strlit(" ");
    let r = replace_char(v, '_', " "@);
    replace_char_removes(v, '_', " "@);
    words_props(Sep::Space, r, '_');
    let p = label_parts(words(Sep::Space, r));
    label_parts_props(words(Sep::Space, r), '_');
    let n = join(p, " "@);
    assert(n == audience_label(v));
    join_no_char(p, " "@, '_');
    words_of_join(p);
    replace_char_absent(n, '_', " "@);
    label_parts_fixed(p);
}

proof fn parse_from_general(n: Seq<char>, i: int)
    ensures
        parse_from(n, i).0 == "General"@ ==> parse_from(n, i).1 == n,
    decreases prefix_count() - i,
{
    reveal_strlit("General");
    reveal_strlit("Profesores Planta");
    reveal_strlit("Profesores Cátedra");
    reveal_strlit("Profesores Catedra");
    reveal_strlit("Servicios Generales");
    reveal_strlit("Administrativos");
    reveal_strlit("Directivos");
    reveal_strlit("Estudiantes");
    if 0 <= i < prefix_count() {
        parse_from_general(n, i + 1);
    }
}

/// An audience under no known público is kept under its normalised label,
/// and that key is kept under itself.
pub proof fn general_key_is_stable(v: Seq<char>)
    requires
        parse_spec(v).0 == "General"@,
    ensures
        instrument_key_spec(v) == audience_label(v),
        instrument_key_spec(instrument_key_spec(v)) == instrument_key_spec(v),
{
    parse_from_general(audience_label(v), 0);
    audience_label_laws(v);
}

proof fn normalized_label(p: Seq<char>, w: Seq<Seq<char>>)
    requires
        join(w, " "@) == p,
        label_words_ok(w),
    ensures
        audience_label(p) == p,
{
    reveal_strlit(" ");
    join_no_char(w, " "@, '_');
    replace_char_absent(p, '_', " "@);
    words_of_join(w);
    label_parts_fixed(w);
}

proof fn prefix_normalized(i: int)
    requires
        0 <= i < prefix_count(),
    ensures
        audience_label(public_prefix(i)) == public_prefix(i),
{
    reveal_strlit(" ");
    reveal_strlit("Profesores");
    reveal_strlit("Planta");
    reveal_strlit("Cátedra");
    reveal_strlit("Catedra");
    reveal_strlit("Servicios");
    reveal_strlit("Generales");
    reveal_strlit("Administrativos");
    reveal_strlit("Directivos");
    reveal_strlit("Estudiantes");
    reveal_strlit("Profesores Planta");
    reveal_strlit("Profesores Cátedra");
    reveal_strlit("Profesores Catedra");
    reveal_strlit("Servicios Generales");
    let w: Seq<Seq<char>> = if i == 0 {
        seq!["Profesores"@, "Planta"@]
    } else if i == 1 {
        seq!["Profesores"@, "Cátedra"@]
    } else if i == 2 {
        seq!["Profesores"@, "Catedra"@]
    } else if i == 3 {
        seq!["Servicios"@, "Generales"@]
    } else if i == 4 {
        seq!["Administrativos"@]
    } else if i == 5 {
        seq!["Directivos"@]
    } else {
        seq!["Estudiantes"@]
    };
    if w.len() == 2 {
        assert(w.drop_last() =~= seq![w[0]]);
        assert(join(w.drop_last(), " "@) == w[0]);
        assert(join(w, " "@) == w[0] + " "@ + w[1]);
    }
    assert(join(w, " "@) =~= public_prefix(i));
    assert(label_words_ok(w));
    normalized_label(public_prefix(i), w);
}

/// Two texts whose `m`-th characters differ, ignoring ASCII case, with only
/// ASCII characters up to there, are not equal ignoring case, and the first
/// does not start with the second and a space, lower-cased.
proof fn letters_differ(n: Seq<char>, q: Seq<char>, m: int)
    requires
        0 <= m < n.len(),
        m < q.len(),
        forall|k: int| 0 <= k <= m ==> (#[trigger] n[k] as u32) < 128,
        forall|k: int| 0 <= k <= m ==> (#[trigger] q[k] as u32) < 128,
        crate::text::ascii_lower(n[m]) != crate::text::ascii_lower(q[m]),
    ensures
        !eq_ignore_ascii_case(n, q),
        !starts_with(lowercase(n), lowercase(q + " "@)),
{
    let qs = q + " "@;
    assert forall|k: int| 0 <= k <= m implies (#[trigger] qs[k] as u32) < 128 by {
        assert(qs[k] == q[k]);
    }
    crate::text::ascii_prefix_len_at_least(n, m + 1);
    crate::text::ascii_prefix_len_at_least(qs, m + 1);
    crate::text::lowercase_at(n, m);
    crate::text::lowercase_at(qs, m);
    assert(qs[m] == q[m]);
    if starts_with(lowercase(n), lowercase(qs)) {
        assert(lowercase(n).subrange(0, lowercase(qs).len() as int)[m] == lowercase(n)[m]);
    }
}

proof fn skip_prefixes(i: int, j: int)
    requires
        0 <= j <= i < prefix_count(),
        i != 2,
    ensures
        parse_from(public_prefix(i), j) == parse_from(public_prefix(i), i),
    decreases i - j,
{
    reveal_strlit("Profesores Planta");
    reveal_strlit("Profesores Cátedra");
    reveal_strlit("Profesores Catedra");
    reveal_strlit("Servicios Generales");
    reveal_strlit("Administrativos");
    reveal_strlit("Directivos");
    reveal_strlit("Estudiantes");
    if j < i {
        let m: int = if i == 1 { 11 } else { 0 };
        letters_differ(public_prefix(i), public_prefix(j), m);
        skip_prefixes(i, j + 1);
    }
}

/// The key of each known público but "Profesores Catedra" is kept under
/// itself.
proof fn prefix_key_is_stable(i: int)
    requires
        0 <= i < prefix_count(),
        i != 2,
    ensures
        instrument_key_spec(public_prefix(i)) == public_prefix(i),
{
    reveal_strlit("General");
    reveal_strlit("Profesores Planta");
    reveal_strlit("Profesores Cátedra");
    reveal_strlit("Profesores Catedra");
    reveal_strlit("Servicios Generales");
    reveal_strlit("Administrativos");
    reveal_strlit("Directivos");
    reveal_strlit("Estudiantes");
    let p = public_prefix(i);
    prefix_normalized(i);
    assert(parse_spec(p) == parse_from(p, 0));
    skip_prefixes(i, 0);
    assert(eq_ignore_ascii_case(p, p));
}

/// A key is kept under itself, but for the key "Profesores Catedra" (which
/// the spelling "Profesores Cátedra" comes before).
pub proof fn instrument_key_is_stable(v: Seq<char>)
    requires
        instrument_key_spec(v) != "Profesores Catedra"@,
    ensures
        instrument_key_spec(instrument_key_spec(v)) == instrument_key_spec(v),
{
    reveal_strlit("General");
    if parse_spec(v).0 == "General"@ {
        general_key_is_stable(v);
    } else {
        let i = parse_public_index(audience_label(v), 0);
        prefix_key_is_stable(i);
    }
}

/// The público found by `parse_from` is "General" or a known público.
proof fn parse_public_index(n: Seq<char>, i: int) -> (k: int)
    requires
        0 <= i,
        parse_from(n, i).0 != "General"@,
    ensures
        0 <= k < prefix_count(),
        parse_from(n, i).0 == public_prefix(k),
    decreases prefix_count() - i,
{
    if i >= prefix_count() {
        i
    } else if eq_ignore_ascii_case(n, public_prefix(i)) || starts_with(lowercase(n), lowercase(public_prefix(i) + " "@)) {
        i
    } else {
        parse_public_index(n, i + 1)
    }
}

/// The audience of a row from its público and tipo de público cells.
pub fn audience_from_excel(public: String, subpublic: String) -> (r: String)
    ensures
        r@ == audience_from_excel_spec(public@, subpublic@),
{
    let p = audience_label_chars(&chars_of(public.as_str()));
    let s = audience_label_chars(&chars_of(subpublic.as_str()));
    if p.len() == 0 {
        string_of(&s)
    } else if s.len() == 0 {
        string_of(&p)
    } else {
        let mut r = p;
        append_chars(&mut r, &chars_of(" "));
        append_chars(&mut r, &s);
        string_of(&r)
    }
}

fn known_public_prefix(i: usize) -> (r: Vec<char>)
    requires
        i < 7,
    ensures
        r@ == public_prefix(i as int),
{
    if i == 0 {
        chars_of("Profesores Planta")
    } else if i == 1 {
        chars_of("Profesores Cátedra")
    } else if i == 2 {
        chars_of("Profesores Catedra")
    } else if i == 3 {
        chars_of("Servicios Generales")
    } else if i == 4 {
        chars_of("Administrativos")
    } else if i == 5 {
        chars_of("Directivos")
    } else {
        chars_of("Estudiantes")
    }
}

impl InstrumentAudience {
    /// The audience of questions that have none.
    pub fn fallback() -> (r: Self)
        ensures
            r.public@ == "General"@,
            r.column@ == "General"@,
    {
        InstrumentAudience { public: lit("General"), column: lit("General") }
    }

    /// The público and column of an audience label.
    pub fn parse(value: &str) -> (r: Self)
        ensures
            (r.public@, r.column@) == parse_spec(value@),
    {
        let normalized = audience_label_chars(&chars_of(value));
        let lowered = lowercase_chars(&normalized);
        let mut i: usize = 0;
        while i < 7
            invariant
                i <= 7,
                normalized@ == audience_label(value@),
                lowered@ == lowercase(normalized@),
                parse_from(normalized@, 0) == parse_from(normalized@, i as int),
            decreases 7 - i,
        {
            let prefix = known_public_prefix(i);
            if chars_eq_ignore_ascii_case(&normalized, &prefix) {
                return InstrumentAudience { public: string_of(&prefix), column: string_of(&prefix) };
            }
            let mut boundary = prefix.clone();
            append_chars(&mut boundary, &chars_of(" "));
            let boundary_lower = lowercase_chars(&boundary);
            if chars_starts_with(&lowered, &boundary_lower) {
                return InstrumentAudience { public: string_of(&prefix), column: string_of(&normalized) };
            }
            i = i + 1;
        }
        InstrumentAudience { public: lit("General"), column: string_of(&normalized) }
    }

    /// The subpúblico part of the column ("Pregrado" for
    /// "Profesores Planta Pregrado").
    pub fn subpublic(&self) -> (r: String)
        ensures
            r@ == subpublic_spec(self.public@, self.column@),
    {
        if str_eq(self.public.as_str(), "General") {
            return self.column.clone();
        }
        let column = chars_of(self.column.as_str());
        let mut p = chars_of(self.public.as_str());
        append_chars(&mut p, &chars_of(" "));
        if chars_starts_with(&column, &p) {
            let rest = subrange_chars(&column, p.len(), column.len());
            let t = trim_chars(&rest);
            if t.len() > 0 {
                return string_of(&t);
            }
        }
        self.column.clone()
    }
}

/// The display label of a público.
pub fn display_public_label(public: &str) -> (r: String)
    ensures
        r@ == display_public_spec(public@),
{
    if str_eq(public, "Profesores Planta") {
        lit("Profesores de planta")
    } else if str_eq(public, "Profesores Cátedra") || str_eq(public, "Profesores Catedra") {
        lit("Profesores de cátedra")
    } else {
        lit(public)
    }
}

/// The exported instrument under which provider reviews of an audience are
/// kept: its público, or the whole column for audiences without one.
pub fn provider_instrument_key(value: &str) -> (r: String)
    ensures
        r@ == instrument_key_spec(value@),
{
    let parsed = InstrumentAudience::parse(value);
    if str_eq(parsed.public.as_str(), "General") {
        parsed.column
    } else {
        parsed.public
    }
}

/// The display label of a provider review instrument key.
pub fn provider_instrument_label(key: &str) -> (r: String)
    ensures
        r@ == instrument_label_spec(key@),
{
    if str_eq(key, "Sin instrumento") {
        lit(key)
    } else {
        display_public_label(key)
    }
}

/// The público as written in an instrument title.
pub fn instrument_title_public(public: &str) -> (r: String)
    ensures
        r@ == title_public_spec(public@),
{
    if str_eq(public, "Profesores Planta") {
        lit("PROFESORES DE PLANTA")
    } else if str_eq(public, "Profesores Cátedra") || str_eq(public, "Profesores Catedra") {
        lit("PROFESORES DE CÁTEDRA")
    } else {
        to_uppercase(public)
    }
}

fn instrument_column_prefix(public: &str) -> (r: String)
    ensures
        r@ == column_prefix_spec(public@),
{
    if str_eq(public, "Profesores Planta") || str_eq(public, "Profesores Cátedra") || str_eq(
        public,
        "Profesores Catedra",
    ) {
        lit("Profesores")
    } else {
        lit(public)
    }
}

fn canonical_subpublic_label(value: &str) -> (r: String)
    ensures
        r@ == canonical_subpublic_spec(value@),
{
    if str_eq(value, "Maestrías") || str_eq(value, "Maestrias") {
        lit("Maestría")
    } else if str_eq(value, "Maestrías virtuales") || str_eq(value, "Maestrias virtuales") {
        lit("Maestría Virtual")
    } else if str_eq(value, "Especializaciones MQ") {
        lit("EMQ")
    } else if str_eq(value, "Especializaciones virtuales/extensión") || str_eq(
        value,
        "Especializaciones virtuales/extension",
    ) {
        lit("Especializaciones virtual / extensión")
    } else {
        lit(value)
    }
}

/// The header of a subpúblico column in the instrument of `public`.
pub fn display_instrument_column_label(public: &str, key: &str) -> (r: String)
    ensures
        r@ == column_label_spec(public@, key@),
{
    let audience = InstrumentAudience::parse(key);
    let sub = audience.subpublic();
    let subpublic = canonical_subpublic_label(sub.as_str());
    if str_eq(public, "General") {
        return subpublic;
    }
    let prefix = instrument_column_prefix(public);
    if subpublic.as_str().is_empty() || str_eq(subpublic.as_str(), prefix.as_str()) {
        prefix
    } else {
        let mut r = chars_of(prefix.as_str());
        append_chars(&mut r, &chars_of(" "));
        append_chars(&mut r, &chars_of(subpublic.as_str()));
        string_of(&r)
    }
}

} // verus!
