use vstd::prelude::*;

verus! {

// ---------------------------------------------------------------------------
// Character classes
// ---------------------------------------------------------------------------

/// Unicode `White_Space` property, the set that `char::is_whitespace` tests.
pub open spec fn is_ws(c: char) -> bool {
    ||| ('\u{9}' <= c && c <= '\u{d}')
    ||| c == ' '
    ||| c == '\u{85}'
    ||| c == '\u{a0}'
    ||| c == '\u{1680}'
    ||| ('\u{2000}' <= c && c <= '\u{200a}')
    ||| c == '\u{2028}'
    ||| c == '\u{2029}'
    ||| c == '\u{202f}'
    ||| c == '\u{205f}'
    ||| c == '\u{3000}'
}

pub open spec fn is_digit(c: char) -> bool {
    '0' <= c && c <= '9'
}

pub open spec fn is_upper(c: char) -> bool {
    'A' <= c && c <= 'Z'
}

pub open spec fn is_lower(c: char) -> bool {
    'a' <= c && c <= 'z'
}

pub open spec fn is_alpha(c: char) -> bool {
    is_upper(c) || is_lower(c)
}

pub open spec fn is_alnum(c: char) -> bool {
    is_alpha(c) || is_digit(c)
}

/// ASCII lower-casing of one character; other characters are kept.
pub open spec fn ascii_lower(c: char) -> char {
    if is_upper(c) {
        ((c as u32) + 32) as char
    } else {
        c
    }
}

pub fn char_is_ws(c: char) -> (r: bool)
    ensures
        r == is_ws(c),
{
    ('\u{9}' <= c && c <= '\u{d}') || c == ' ' || c == '\u{85}' || c == '\u{a0}' || c
        == '\u{1680}' || ('\u{2000}' <= c && c <= '\u{200a}') || c == '\u{2028}' || c
        == '\u{2029}' || c == '\u{202f}' || c == '\u{205f}' || c == '\u{3000}'
}

pub fn char_is_digit(c: char) -> (r: bool)
    ensures
        r == is_digit(c),
{
    '0' <= c && c <= '9'
}

pub fn char_is_alpha(c: char) -> (r: bool)
    ensures
        r == is_alpha(c),
{
    ('A' <= c && c <= 'Z') || ('a' <= c && c <= 'z')
}

pub fn char_is_alnum(c: char) -> (r: bool)
    ensures
        r == is_alnum(c),
{
    char_is_alpha(c) || char_is_digit(c)
}

pub fn char_ascii_lower(c: char) -> (r: char)
    ensures
        r == ascii_lower(c),
{
    if 'A' <= c && c <= 'Z' {
        let n: u8 = (c as u32 + 32) as u8;
        n as char
    } else {
        c
    }
}

// ---------------------------------------------------------------------------
// Conversions between strings and character vectors
// ---------------------------------------------------------------------------

/// The characters of `s`, in order.
pub(crate) fn chars_of(s: &str) -> (r: Vec<char>)
    ensures
        r@ == s@,
{
    broadcast use vstd::string::axiom_spec_iter;

    let mut r: Vec<char> = Vec::new();
    for c in it: s.chars()
        invariant
            r@ == it.seq().take(it.index() as int),
    {
        r.push(c);
    }
    r
}

/// The string made of the characters of `v`, in order. Calls
/// `String::from_iter` over characters.
#[verifier::external_body]
pub(crate) fn string_of(v: &Vec<char>) -> (r: String)
    ensures
        r@ == v@,
{
    String::from_iter(v.iter())
}

pub fn lit(s: &str) -> (r: String)
    ensures
        r@ == s@,
{
    s.to_owned()
}


// ---------------------------------------------------------------------------
// Sequence-level operations
// ---------------------------------------------------------------------------

pub open spec fn trim_start(s: Seq<char>) -> Seq<char>
    decreases s.len(),
{
    if s.len() > 0 && is_ws(s[0]) {
        trim_start(s.drop_first())
    } else {
        s
    }
}

pub open spec fn trim_end(s: Seq<char>) -> Seq<char>
    decreases s.len(),
{
    if s.len() > 0 && is_ws(s.last()) {
        trim_end(s.drop_last())
    } else {
        s
    }
}

/// What `str::trim` leaves: leading and trailing white space removed.
pub open spec fn trim(s: Seq<char>) -> Seq<char> {
    trim_end(trim_start(s))
}

/// Whether `s` consists of white space only (`str::trim(..).is_empty()`).
pub open spec fn is_blank(s: Seq<char>) -> bool {
    trim(s).len() == 0
}

pub fn trim_chars(s: &Vec<char>) -> (r: Vec<char>)
    ensures
        r@ == trim(s@),
{
    let n = s.len();
    let mut i: usize = 0;
    assert(s@.subrange(0, n as int) =~= s@);
    while i < n && char_is_ws(s[i])
        invariant
            i <= n == s@.len(),
            trim_start(s@) == trim_start(s@.subrange(i as int, n as int)),
        decreases n - i,
    {
        assert(s@.subrange(i as int, n as int).drop_first() =~= s@.subrange(i + 1, n as int));
        i = i + 1;
    }
    let ghost t = s@.subrange(i as int, n as int);
    assert(trim_start(t) == t);
    let mut j: usize = n;
    while j > i && char_is_ws(s[j - 1])
        invariant
            i <= j <= n == s@.len(),
            t == s@.subrange(i as int, n as int),
            trim_end(t) == trim_end(s@.subrange(i as int, j as int)),
        decreases j - i,
    {
        assert(s@.subrange(i as int, j as int).drop_last() =~= s@.subrange(i as int, j - 1));
        j = j - 1;
    }
    let mut r: Vec<char> = Vec::new();
    let mut k: usize = i;
    while k < j
        invariant
            i <= k <= j <= n == s@.len(),
            r@ =~= s@.subrange(i as int, k as int),
        decreases j - k,
    {
        r.push(s[k]);
        k = k + 1;
    }
    r
}

pub fn is_blank_chars(s: &Vec<char>) -> (r: bool)
    ensures
        r == is_blank(s@),
{
    let t = trim_chars(s);
    t.len() == 0
}

/// The separators by which a text is cut into words.
pub enum Sep {
    /// Unicode white space (`str::split_whitespace`).
    Space,
    /// Anything but an ASCII letter or digit.
    NonAlnum,
    /// Anything but an ASCII digit.
    NonDigit,
    /// A line feed.
    Newline,
}

pub open spec fn is_sep(k: Sep, c: char) -> bool {
    match k {
        Sep::Space => is_ws(c),
        Sep::NonAlnum => !is_alnum(c),
        Sep::NonDigit => !is_digit(c),
        Sep::Newline => c == '\n',
    }
}

pub fn char_is_sep(k: &Sep, c: char) -> (r: bool)
    ensures
        r == is_sep(*k, c),
{
    match k {
        Sep::Space => char_is_ws(c),
        Sep::NonAlnum => !char_is_alnum(c),
        Sep::NonDigit => !char_is_digit(c),
        Sep::Newline => c == '\n',
    }
}

/// Words finished so far and the word in progress after reading `s`.
pub open spec fn split_state(k: Sep, s: Seq<char>) -> (Seq<Seq<char>>, Seq<char>)
    decreases s.len(),
{
    if s.len() == 0 {
        (Seq::empty(), Seq::empty())
    } else {
        let (d, c) = split_state(k, s.drop_last());
        if is_sep(k, s.last()) {
            if c.len() > 0 {
                (d.push(c), Seq::empty())
            } else {
                (d, Seq::empty())
            }
        } else {
            (d, c.push(s.last()))
        }
    }
}

/// The maximal runs of non-separator characters of `s`, in order: what
/// `split(sep).filter(|w| !w.is_empty())` yields.
pub open spec fn words(k: Sep, s: Seq<char>) -> Seq<Seq<char>> {
    let (d, c) = split_state(k, s);
    if c.len() > 0 {
        d.push(c)
    } else {
        d
    }
}

pub open spec fn views(v: Seq<Vec<char>>) -> Seq<Seq<char>> {
    v.map_values(|x: Vec<char>| x@)
}

pub fn split_words(k: Sep, s: &Vec<char>) -> (r: Vec<Vec<char>>)
    ensures
        views(r@) == words(k, s@),
{
    let n = s.len();
    let mut done: Vec<Vec<char>> = Vec::new();
    let mut cur: Vec<char> = Vec::new();
    let mut i: usize = 0;
    while i < n
        invariant
            i <= n == s@.len(),
            (views(done@), cur@) == split_state(k, s@.subrange(0, i as int)),
        decreases n - i,
    {
        assert(s@.subrange(0, i + 1).drop_last() =~= s@.subrange(0, i as int));
        let c = s[i];
        if char_is_sep(&k, c) {
            if cur.len() > 0 {
                let ghost old_done = done@;
                let w = cur;
                done.push(w);
                cur = Vec::new();
                assert(views(done@) =~= views(old_done).push(w@));
            } else {
                cur = Vec::new();
            }
        } else {
            cur.push(c);
        }
        i = i + 1;
    }
    assert(s@.subrange(0, n as int) =~= s@);
    if cur.len() > 0 {
        let ghost old_done = done@;
        let w = cur;
        done.push(w);
        assert(views(done@) =~= views(old_done).push(w@));
    }
    done
}

/// The parts joined with `sep` between consecutive parts.
pub open spec fn join(parts: Seq<Seq<char>>, sep: Seq<char>) -> Seq<char>
    decreases parts.len(),
{
    if parts.len() == 0 {
        Seq::empty()
    } else if parts.len() == 1 {
        parts[0]
    } else {
        join(parts.drop_last(), sep) + sep + parts.last()
    }
}

pub fn join_words(parts: &Vec<Vec<char>>, sep: &Vec<char>) -> (r: Vec<char>)
    ensures
        r@ == join(views(parts@), sep@),
{
    let mut r: Vec<char> = Vec::new();
    let n = parts.len();
    let mut i: usize = 0;
    while i < n
        invariant
            i <= n == parts@.len(),
            r@ == join(views(parts@).take(i as int), sep@),
        decreases n - i,
    {
        let ghost before = r@;
        if i > 0 {
            append_chars(&mut r, sep);
        }
        append_chars(&mut r, &parts[i]);
        assert(views(parts@).take(i + 1).drop_last() =~= views(parts@).take(i as int));
        i = i + 1;
    }
    assert(views(parts@).take(n as int) =~= views(parts@));
    r
}

pub fn append_chars(r: &mut Vec<char>, s: &Vec<char>)
    ensures
        final(r)@ == old(r)@ + s@,
{
    let n = s.len();
    let mut i: usize = 0;
    while i < n
        invariant
            i <= n == s@.len(),
            r@ == old(r)@ + s@.subrange(0, i as int),
        decreases n - i,
    {
        r.push(s[i]);
        i = i + 1;
        assert(r@ =~= old(r)@ + s@.subrange(0, i as int));
    }
    assert(s@.subrange(0, n as int) =~= s@);
}

/// `s` with every occurrence of `from` replaced by `to`.
pub open spec fn replace_char(s: Seq<char>, from: char, to: Seq<char>) -> Seq<char>
    decreases s.len(),
{
    if s.len() == 0 {
        Seq::empty()
    } else {
        replace_char(s.drop_last(), from, to) + if s.last() == from {
            to
        } else {
            seq![s.last()]
        }
    }
}

pub fn replace_chars(s: &Vec<char>, from: char, to: &Vec<char>) -> (r: Vec<char>)
    ensures
        r@ == replace_char(s@, from, to@),
{
    let mut r: Vec<char> = Vec::new();
    let n = s.len();
    let mut i: usize = 0;
    while i < n
        invariant
            i <= n == s@.len(),
            r@ == replace_char(s@.subrange(0, i as int), from, to@),
        decreases n - i,
    {
        assert(s@.subrange(0, i + 1).drop_last() =~= s@.subrange(0, i as int));
        if s[i] == from {
            append_chars(&mut r, to);
        } else {
            r.push(s[i]);
        }
        i = i + 1;
    }
    assert(s@.subrange(0, n as int) =~= s@);
    r
}

pub fn chars_eq(a: &Vec<char>, b: &Vec<char>) -> (r: bool)
    ensures
        r == (a@ == b@),
{
    if a.len() != b.len() {
        return false;
    }
    let n = a.len();
    let mut i: usize = 0;
    while i < n
        invariant
            i <= n == a@.len() == b@.len(),
            forall|k: int| 0 <= k < i ==> a@[k] == b@[k],
        decreases n - i,
    {
        if a[i] != b[i] {
            return false;
        }
        i = i + 1;
    }
    assert(a@ =~= b@);
    true
}

pub fn str_eq(a: &str, b: &str) -> (r: bool)
    ensures
        r == (a@ == b@),
{
    chars_eq(&chars_of(a), &chars_of(b))
}

pub open spec fn starts_with(s: Seq<char>, p: Seq<char>) -> bool {
    p.len() <= s.len() && s.subrange(0, p.len() as int) == p
}

pub fn chars_starts_with(s: &Vec<char>, p: &Vec<char>) -> (r: bool)
    ensures
        r == starts_with(s@, p@),
{
    if p.len() > s.len() {
        return false;
    }
    let n = p.len();
    let mut i: usize = 0;
    while i < n
        invariant
            i <= n == p@.len() <= s@.len(),
            forall|k: int| 0 <= k < i ==> s@[k] == p@[k],
        decreases n - i,
    {
        if s[i] != p[i] {
            return false;
        }
        i = i + 1;
    }
    assert(s@.subrange(0, n as int) =~= p@);
    true
}

/// Whether `p` occurs in `s`.
pub open spec fn contains(s: Seq<char>, p: Seq<char>) -> bool {
    exists|i: int| 0 <= i && i + p.len() <= s.len() && #[trigger] s.subrange(i, i + p.len()) == p
}

pub fn chars_contains(s: &Vec<char>, p: &Vec<char>) -> (r: bool)
    ensures
        r == contains(s@, p@),
{
    if p.len() == 0 {
        assert(s@.subrange(0, 0 + p@.len() as int) =~= p@);
        return true;
    }
    if p.len() > s.len() {
        return false;
    }
    let mut i: usize = 0;
    while i <= s.len() - p.len()
        invariant
            1 <= p@.len() <= s@.len(),
            i <= s@.len() - p@.len() + 1,
            forall|k: int| 0 <= k < i ==> #[trigger] s@.subrange(k, k + p@.len()) != p@,
        decreases s@.len() - i,
    {
        let window = subrange_chars(s, i, i + p.len());
        if chars_eq(&window, p) {
            return true;
        }
        i = i + 1;
    }
    false
}

pub open spec fn eq_ignore_ascii_case(a: Seq<char>, b: Seq<char>) -> bool {
    a.len() == b.len() && forall|i: int| 0 <= i < a.len() ==> ascii_lower(a[i]) == ascii_lower(b[i])
}

pub fn chars_eq_ignore_ascii_case(a: &Vec<char>, b: &Vec<char>) -> (r: bool)
    ensures
        r == eq_ignore_ascii_case(a@, b@),
{
    if a.len() != b.len() {
        return false;
    }
    let n = a.len();
    let mut i: usize = 0;
    while i < n
        invariant
            i <= n == a@.len() == b@.len(),
            forall|k: int| 0 <= k < i ==> ascii_lower(a@[k]) == ascii_lower(b@[k]),
        decreases n - i,
    {
        if char_ascii_lower(a[i]) != char_ascii_lower(b[i]) {
            return false;
        }
        i = i + 1;
    }
    true
}

pub fn subrange_chars(s: &Vec<char>, from: usize, to: usize) -> (r: Vec<char>)
    requires
        from <= to <= s@.len(),
    ensures
        r@ == s@.subrange(from as int, to as int),
{
    let mut r: Vec<char> = Vec::new();
    let mut k: usize = from;
    while k < to
        invariant
            from <= k <= to <= s@.len(),
            r@ =~= s@.subrange(from as int, k as int),
        decreases to - k,
    {
        r.push(s[k]);
        k = k + 1;
    }
    r
}

/// The degree sign dropped and the accented vowels that the CNA workbooks
/// use replaced by plain ones.
pub open spec fn fold_accents(s: Seq<char>) -> Seq<char> {
    replace_char(
        replace_char(
            replace_char(
                replace_char(replace_char(replace_char(s, '°', Seq::empty()), 'ú', "u"@), 'í', "i"@),
                'ó',
                "o"@,
            ),
            'á',
            "a"@,
        ),
        'é',
        "e"@,
    )
}

pub fn fold_accents_chars(s: &Vec<char>) -> (r: Vec<char>)
    ensures
        r@ == fold_accents(s@),
{
    let a = replace_chars(s, '°', &Vec::new());
    let b = replace_chars(&a, 'ú', &chars_of("u"));
    let c = replace_chars(&b, 'í', &chars_of("i"));
    let d = replace_chars(&c, 'ó', &chars_of("o"));
    let e = replace_chars(&d, 'á', &chars_of("a"));
    replace_chars(&e, 'é', &chars_of("e"))
}

/// Lower-cased words of `s` joined by `sep`.
pub open spec fn lower_words(s: Seq<char>, sep: Seq<char>) -> Seq<char> {
    join(words(Sep::Space, lowercase(s)), sep)
}

pub fn lower_words_chars(s: &Vec<char>, sep: &str) -> (r: Vec<char>)
    ensures
        r@ == lower_words(s@, sep@),
{
    let l = lowercase_chars(s);
    let w = split_words(Sep::Space, &l);
    join_words(&w, &chars_of(sep))
}

/// A column header as the importer compares it: line breaks as spaces,
/// accents folded, lower case, single spaces.
pub open spec fn header_key(v: Seq<char>) -> Seq<char> {
    lower_words(fold_accents(replace_char(replace_char(v, '\n', " "@), '\r', " "@)), " "@)
}

pub fn header_key_chars(v: &Vec<char>) -> (r: Vec<char>)
    ensures
        r@ == header_key(v@),
{
    let sp = chars_of(" ");
    let a = replace_chars(v, '\n', &sp);
    let b = replace_chars(&a, '\r', &sp);
    let c = fold_accents_chars(&b);
    lower_words_chars(&c, " ")
}

// ---------------------------------------------------------------------------
// Unicode case mapping
// ---------------------------------------------------------------------------

/// What `str::to_lowercase` returns for a text with a character that is
/// not ASCII, after the lower-cased ASCII characters before the first such
/// character.
pub uninterp spec fn lowercase_of(s: Seq<char>) -> Seq<char>;

/// The number of ASCII characters before the first one that is not.
pub open spec fn ascii_prefix_len(s: Seq<char>) -> nat
    decreases s.len(),
{
    if s.len() == 0 || (s[0] as u32) >= 128 {
        0
    } else {
        1 + ascii_prefix_len(s.drop_first())
    }
}

/// A text of ASCII characters only.
pub open spec fn is_ascii_text(s: Seq<char>) -> bool {
    forall|i: int| 0 <= i < s.len() ==> (#[trigger] s[i] as u32) < 128
}

/// ASCII lower-casing of each character.
pub open spec fn ascii_lower_text(s: Seq<char>) -> Seq<char> {
    s.map_values(|c: char| ascii_lower(c))
}

/// What `str::to_lowercase` returns: each ASCII upper-case letter becomes
/// its lower-case letter and every other ASCII character stays; after the
/// first character that is not ASCII, the result named `lowercase_of`.
pub open spec fn lowercase(s: Seq<char>) -> Seq<char> {
    if is_ascii_text(s) {
        ascii_lower_text(s)
    } else {
        ascii_lower_text(s.take(ascii_prefix_len(s) as int)) + lowercase_of(s)
    }
}

/// What `str::to_uppercase` returns for a string with these characters.
pub uninterp spec fn uppercase_of(s: Seq<char>) -> Seq<char>;

/// Calls `str::to_lowercase`. Each ASCII character is mapped on its own:
/// 'A'..='Z' to 'a'..='z', every other ASCII character kept, as the
/// documentation of `char::to_lowercase` gives for these characters (an
/// ASCII upper-case letter's one-to-one mapping; no mapping for the rest).
/// So the result begins with the text's ASCII characters before its first
/// other character, so mapped; what follows (Unicode case tables, with the
/// final-sigma rule) is named `lowercase_of`: it depends on the characters
/// of the argument alone.
#[verifier::external_body]
pub(crate) fn to_lowercase(s: &str) -> (r: String)
    ensures
        is_ascii_text(s@) ==> r@ == ascii_lower_text(s@),
        !is_ascii_text(s@) ==> r@ == ascii_lower_text(s@.take(ascii_prefix_len(s@) as int))
            + lowercase_of(s@),
{
    s.to_lowercase()
}

/// Calls `str::to_uppercase`, whose result is named `uppercase_of`.
#[verifier::external_body]
pub(crate) fn to_uppercase(s: &str) -> (r: String)
    ensures
        r@ == uppercase_of(s@),
{
    s.to_uppercase()
}

pub fn lowercase_chars(s: &Vec<char>) -> (r: Vec<char>)
    ensures
        r@ == lowercase(s@),
{
    let t = string_of(s);
    let l = to_lowercase(t.as_str());
    chars_of(l.as_str())
}


// ---------------------------------------------------------------------------
// Facts about words
// ---------------------------------------------------------------------------

/// `s` does not hold the character `x`.
pub open spec fn no_char(s: Seq<char>, x: char) -> bool {
    forall|i: int| 0 <= i < s.len() ==> s[i] != x
}

/// `s` holds no separator of kind `k`.
pub open spec fn no_sep(k: Sep, s: Seq<char>) -> bool {
    forall|i: int| 0 <= i < s.len() ==> !is_sep(k, #[trigger] s[i])
}

/// Replacing a character that does not occur changes nothing.
pub proof fn replace_char_absent(s: Seq<char>, from: char, to: Seq<char>)
    requires
        no_char(s, from),
    ensures
        replace_char(s, from, to) == s,
    decreases s.len(),
{
    if s.len() > 0 {
        replace_char_absent(s.drop_last(), from, to);
        assert(s.drop_last() + seq![s.last()] =~= s);
    }
}

/// After replacing a character by a text without it, it no longer occurs.
pub proof fn replace_char_removes(s: Seq<char>, from: char, to: Seq<char>)
    requires
        no_char(to, from),
    ensures
        no_char(replace_char(s, from, to), from),
    decreases s.len(),
{
    if s.len() > 0 {
        replace_char_removes(s.drop_last(), from, to);
        let a = replace_char(s.drop_last(), from, to);
        let b = if s.last() == from { to } else { seq![s.last()] };
        assert forall|i: int| 0 <= i < (a + b).len() implies (a + b)[i] != from by {
            if i >= a.len() {
                assert((a + b)[i] == b[i - a.len()]);
            }
        }
    }
}

/// The words finished and in progress hold neither separators nor a
/// character absent from the text, and finished words are not empty.
pub proof fn split_state_props(k: Sep, s: Seq<char>, x: char)
    requires
        no_char(s, x),
    ensures
        forall|j: int|
            0 <= j < split_state(k, s).0.len() ==> (#[trigger] split_state(k, s).0[j]).len() > 0
                && no_char(split_state(k, s).0[j], x) && no_sep(k, split_state(k, s).0[j]),
        no_char(split_state(k, s).1, x),
        no_sep(k, split_state(k, s).1),
    decreases s.len(),
{
    if s.len() > 0 {
        split_state_props(k, s.drop_last(), x);
        let (d, c) = split_state(k, s.drop_last());
        assert(s.last() == s[s.len() - 1]);
        if !is_sep(k, s.last()) {
            let c2 = c.push(s.last());
            assert forall|i: int| 0 <= i < c2.len() implies c2[i] != x && !is_sep(k, c2[i]) by {
                if i < c.len() {
                    assert(c2[i] == c[i]);
                }
            }
        }
    }
}

/// The words of a text hold neither separators nor a character absent from
/// the text, and none is empty.
pub proof fn words_props(k: Sep, s: Seq<char>, x: char)
    requires
        no_char(s, x),
    ensures
        forall|j: int|
            0 <= j < words(k, s).len() ==> (#[trigger] words(k, s)[j]).len() > 0 && no_char(
                words(k, s)[j],
                x,
            ) && no_sep(k, words(k, s)[j]),
{
    split_state_props(k, s, x);
}

/// Reading a text without separators after `a` extends the word in
/// progress.
pub proof fn split_state_concat(k: Sep, a: Seq<char>, b: Seq<char>)
    requires
        no_sep(k, b),
    ensures
        split_state(k, a + b) == (split_state(k, a).0, split_state(k, a).1 + b),
    decreases b.len(),
{
    if b.len() == 0 {
        assert(a + b =~= a);
        assert(split_state(k, a).1 + b =~= split_state(k, a).1);
    } else {
        assert((a + b).drop_last() =~= a + b.drop_last());
        assert((a + b).last() == b[b.len() - 1]);
        split_state_concat(k, a, b.drop_last());
        assert((split_state(k, a).1 + b.drop_last()).push(b.last()) =~= split_state(k, a).1 + b);
    }
}

/// Words without spaces joined by single spaces are split back into the
/// same words.
pub proof fn words_of_join(p: Seq<Seq<char>>)
    requires
        forall|j: int| 0 <= j < p.len() ==> (#[trigger] p[j]).len() > 0 && no_sep(Sep::Space, p[j]),
    ensures
        words(Sep::Space, join(p, " "@)) == p,
{
    if p.len() > 0 {
        split_join(p);
        assert(p.drop_last().push(p.last()) =~= p);
    }
}

proof fn split_join(p: Seq<Seq<char>>)
    requires
        p.len() > 0,
        forall|j: int| 0 <= j < p.len() ==> (#[trigger] p[j]).len() > 0 && no_sep(Sep::Space, p[j]),
    ensures
        split_state(Sep::Space, join(p, " "@)) == (p.drop_last(), p.last()),
    decreases p.len(),
{
    reveal_strlit(" ");
    if p.len() == 1 {
        split_state_concat(Sep::Space, Seq::empty(), p[0]);
        assert(Seq::<char>::empty() + p[0] =~= p[0]);
        assert(p.drop_last() =~= Seq::<Seq<char>>::empty());
    } else {
        let q = p.drop_last();
        assert forall|j: int| 0 <= j < q.len() implies (#[trigger] q[j]).len() > 0 && no_sep(Sep::Space, q[j]) by {
            assert(q[j] == p[j]);
        }
        split_join(q);
        let a = join(q, " "@) + " "@;
        assert(a.drop_last() =~= join(q, " "@));
        assert(a.last() == ' ');
        assert(q.last().len() > 0);
        assert(q.drop_last().push(q.last()) =~= q);
        split_state_concat(Sep::Space, a, p.last());
        assert(split_state(Sep::Space, Seq::<char>::empty()).1 =~= Seq::<char>::empty());
        assert(Seq::<char>::empty() + p.last() =~= p.last());
    }
}

/// Joining texts without `x` with a separator without `x` gives a text
/// without `x`.
pub proof fn join_no_char(p: Seq<Seq<char>>, sep: Seq<char>, x: char)
    requires
        forall|j: int| 0 <= j < p.len() ==> no_char(#[trigger] p[j], x),
        no_char(sep, x),
    ensures
        no_char(join(p, sep), x),
    decreases p.len(),
{
    if p.len() > 1 {
        let q = p.drop_last();
        assert forall|j: int| 0 <= j < q.len() implies no_char(#[trigger] q[j], x) by {
            assert(q[j] == p[j]);
        }
        join_no_char(q, sep, x);
        let a = join(q, sep);
        let w = p.last();
        assert(no_char(w, x));
        assert forall|i: int| 0 <= i < (a + sep + w).len() implies (a + sep + w)[i] != x by {
            if i < a.len() {
                assert((a + sep + w)[i] == a[i]);
            } else if i < a.len() + sep.len() {
                assert((a + sep + w)[i] == sep[i - a.len()]);
            } else {
                assert((a + sep + w)[i] == w[i - a.len() - sep.len()]);
            }
        }
    } else if p.len() == 1 {
        assert(no_char(p[0], x));
    }
}


/// A word of ASCII letters is its own header key, lower-cased.
pub proof fn header_key_of_letters(w: Seq<char>)
    requires
        w.len() > 0,
        forall|i: int| 0 <= i < w.len() ==> is_alpha(#[trigger] w[i]),
    ensures
        header_key(w) == ascii_lower_text(w),
{
    reveal_strlit(" ");
    reveal_strlit("u");
    reveal_strlit("i");
    reveal_strlit("o");
    reveal_strlit("a");
    reveal_strlit("e");
    assert(no_char(w, '\n') && no_char(w, '\r') && no_char(w, '°') && no_char(w, 'ú') && no_char(w, 'í')
        && no_char(w, 'ó') && no_char(w, 'á') && no_char(w, 'é'));
    replace_char_absent(w, '\n', " "@);
    replace_char_absent(w, '\r', " "@);
    replace_char_absent(w, '°', Seq::empty());
    replace_char_absent(w, 'ú', "u"@);
    replace_char_absent(w, 'í', "i"@);
    replace_char_absent(w, 'ó', "o"@);
    replace_char_absent(w, 'á', "a"@);
    replace_char_absent(w, 'é', "e"@);
    assert(fold_accents(w) == w);
    assert(is_ascii_text(w));
    let l = ascii_lower_text(w);
    assert(lowercase(w) == l);
    assert(no_sep(Sep::Space, l)) by {
        assert forall|i: int| 0 <= i < l.len() implies !is_sep(Sep::Space, #[trigger] l[i]) by {
            assert(is_alpha(w[i]));
        }
    }
    let p = seq![l];
    words_of_join(p);
    assert(join(p, " "@) == l);
}

/// Every character of `s` satisfies `p`.
pub open spec fn chars_all(s: Seq<char>, p: spec_fn(char) -> bool) -> bool {
    forall|i: int| 0 <= i < s.len() ==> p(#[trigger] s[i])
}

proof fn replace_char_all(s: Seq<char>, from: char, to: Seq<char>, p: spec_fn(char) -> bool)
    requires
        chars_all(s, p),
        chars_all(to, p),
    ensures
        chars_all(replace_char(s, from, to), p),
    decreases s.len(),
{
    if s.len() > 0 {
        replace_char_all(s.drop_last(), from, to, p);
        let a = replace_char(s.drop_last(), from, to);
        let b = if s.last() == from { to } else { seq![s.last()] };
        assert(p(s[s.len() - 1]));
        assert forall|i: int| 0 <= i < (a + b).len() implies p(#[trigger] (a + b)[i]) by {
            if i < a.len() {
                assert((a + b)[i] == a[i]);
            } else {
                assert((a + b)[i] == b[i - a.len()]);
            }
        }
    }
}

proof fn split_state_all(k: Sep, s: Seq<char>, p: spec_fn(char) -> bool)
    requires
        chars_all(s, p),
    ensures
        forall|j: int| 0 <= j < split_state(k, s).0.len() ==> chars_all(#[trigger] split_state(k, s).0[j], p),
        chars_all(split_state(k, s).1, p),
    decreases s.len(),
{
    if s.len() > 0 {
        split_state_all(k, s.drop_last(), p);
        let (d, c) = split_state(k, s.drop_last());
        assert(p(s[s.len() - 1]));
        if !is_sep(k, s.last()) {
            let c2 = c.push(s.last());
            assert forall|i: int| 0 <= i < c2.len() implies p(#[trigger] c2[i]) by {
                if i < c.len() {
                    assert(c2[i] == c[i]);
                }
            }
        }
    }
}

proof fn words_all(k: Sep, s: Seq<char>, p: spec_fn(char) -> bool)
    requires
        chars_all(s, p),
    ensures
        forall|j: int| 0 <= j < words(k, s).len() ==> chars_all(#[trigger] words(k, s)[j], p),
{
    split_state_all(k, s, p);
}

proof fn join_all(parts: Seq<Seq<char>>, sep: Seq<char>, p: spec_fn(char) -> bool)
    requires
        forall|j: int| 0 <= j < parts.len() ==> chars_all(#[trigger] parts[j], p),
        chars_all(sep, p),
    ensures
        chars_all(join(parts, sep), p),
    decreases parts.len(),
{
    if parts.len() > 1 {
        let q = parts.drop_last();
        assert forall|j: int| 0 <= j < q.len() implies chars_all(#[trigger] q[j], p) by {
            assert(q[j] == parts[j]);
        }
        join_all(q, sep, p);
        let a = join(q, sep);
        let w = parts.last();
        assert(chars_all(w, p));
        assert forall|i: int| 0 <= i < (a + sep + w).len() implies p(#[trigger] (a + sep + w)[i]) by {
            if i < a.len() {
                assert((a + sep + w)[i] == a[i]);
            } else if i < a.len() + sep.len() {
                assert((a + sep + w)[i] == sep[i - a.len()]);
            } else {
                assert((a + sep + w)[i] == w[i - a.len() - sep.len()]);
            }
        }
    } else if parts.len() == 1 {
        assert(chars_all(parts[0], p));
    }
}

/// An ASCII character that is not an upper-case letter, a line feed or a
/// carriage return.
pub open spec fn plain_lower(c: char) -> bool {
    (c as u32) < 128 && !is_upper(c) && c != '\n' && c != '\r'
}

proof fn fold_accents_ascii(t: Seq<char>)
    requires
        is_ascii_text(t),
    ensures
        fold_accents(t) == t,
{
    reveal_strlit("u");
    reveal_strlit("i");
    reveal_strlit("o");
    reveal_strlit("a");
    reveal_strlit("e");
    assert(no_char(t, '°') && no_char(t, 'ú') && no_char(t, 'í') && no_char(t, 'ó') && no_char(t, 'á')
        && no_char(t, 'é')) by {
        assert forall|i: int| 0 <= i < t.len() implies (t[i] as u32) < 128 by {}
    }
    replace_char_absent(t, '°', Seq::empty());
    replace_char_absent(t, 'ú', "u"@);
    replace_char_absent(t, 'í', "i"@);
    replace_char_absent(t, 'ó', "o"@);
    replace_char_absent(t, 'á', "a"@);
    replace_char_absent(t, 'é', "e"@);
}

/// The header key of an ASCII text is its words, lower-cased, joined by
/// single spaces: no upper-case letter, no line break, no other space than
/// the single ones between words; and the key of a key is the key itself.
pub proof fn header_key_ascii_laws(v: Seq<char>)
    requires
        is_ascii_text(v),
    ensures
        header_key(header_key(v)) == header_key(v),
        header_key(v) == join(words(Sep::Space, header_key(v)), " "@),
        forall|j: int|
            0 <= j < words(Sep::Space, header_key(v)).len() ==> (#[trigger] words(Sep::Space, header_key(v))[j]).len() > 0
                && no_sep(Sep::Space, words(Sep::Space, header_key(v))[j]),
        chars_all(header_key(v), |c: char| plain_lower(c)),
{
    reveal_strlit(" ");
    let pa = |c: char| (c as u32) < 128;
    let pl = |c: char| plain_lower(c);
    assert(chars_all(v, pa));
    assert(chars_all(" "@, pa));
    replace_char_all(v, '\n', " "@, pa);
    let t1 = replace_char(v, '\n', " "@);
    replace_char_removes(v, '\n', " "@);
    let pn = |c: char| c != '\n';
    assert(chars_all(t1, pn));
    assert(chars_all(" "@, pn));
    replace_char_all(t1, '\r', " "@, pa);
    replace_char_all(t1, '\r', " "@, pn);
    replace_char_removes(t1, '\r', " "@);
    let t2 = replace_char(t1, '\r', " "@);
    assert(is_ascii_text(t2)) by {
        assert forall|i: int| 0 <= i < t2.len() implies (#[trigger] t2[i] as u32) < 128 by {
            assert(pa(t2[i]));
        }
    }
    fold_accents_ascii(t2);
    let l = ascii_lower_text(t2);
    assert(lowercase(t2) == l);
    assert(chars_all(l, pl)) by {
        assert forall|i: int| 0 <= i < l.len() implies pl(#[trigger] l[i]) by {
            assert(pa(t2[i]) && pn(t2[i]) && t2[i] != '\r');
        }
    }
    let w = words(Sep::Space, l);
    words_all(Sep::Space, l, pl);
    words_props(Sep::Space, l, '\n');
    assert(chars_all(" "@, pl));
    join_all(w, " "@, pl);
    let h = join(w, " "@);
    assert(header_key(v) == h);
    words_of_join(w);
    // the key of the key
    assert(no_char(h, '\n') && no_char(h, '\r')) by {
        assert forall|i: int| 0 <= i < h.len() implies h[i] != '\n' && h[i] != '\r' by {
            assert(pl(h[i]));
        }
    }
    replace_char_absent(h, '\n', " "@);
    replace_char_absent(h, '\r', " "@);
    assert(is_ascii_text(h)) by {
        assert forall|i: int| 0 <= i < h.len() implies (#[trigger] h[i] as u32) < 128 by {
            assert(pl(h[i]));
        }
    }
    fold_accents_ascii(h);
    assert(ascii_lower_text(h) =~= h) by {
        assert forall|i: int| 0 <= i < h.len() implies ascii_lower_text(h)[i] == h[i] by {
            assert(pl(h[i]));
        }
    }
    assert(lowercase(h) == h);
}

proof fn ascii_prefix_len_bound(s: Seq<char>)
    ensures
        ascii_prefix_len(s) <= s.len(),
        forall|k: int| 0 <= k < ascii_prefix_len(s) ==> (#[trigger] s[k] as u32) < 128,
    decreases s.len(),
{
    if s.len() > 0 && (s[0] as u32) < 128 {
        ascii_prefix_len_bound(s.drop_first());
        assert forall|k: int| 0 <= k < ascii_prefix_len(s) implies (#[trigger] s[k] as u32) < 128 by {
            if k > 0 {
                assert(s[k] == s.drop_first()[k - 1]);
            }
        }
    }
}

/// The first `m` characters being ASCII, at least `m` characters come
/// before the first other one.
pub proof fn ascii_prefix_len_at_least(s: Seq<char>, m: int)
    requires
        0 <= m <= s.len(),
        forall|k: int| 0 <= k < m ==> (#[trigger] s[k] as u32) < 128,
    ensures
        ascii_prefix_len(s) >= m,
    decreases m,
{
    if m > 0 {
        assert((s[0] as u32) < 128);
        assert forall|k: int| 0 <= k < m - 1 implies (#[trigger] s.drop_first()[k] as u32) < 128 by {
            assert(s.drop_first()[k] == s[k + 1]);
        }
        ascii_prefix_len_at_least(s.drop_first(), m - 1);
    }
}

/// Before the first character that is not ASCII, the lower-cased text
/// holds each character ASCII lower-cased.
pub proof fn lowercase_at(s: Seq<char>, m: int)
    requires
        0 <= m < ascii_prefix_len(s),
    ensures
        m < lowercase(s).len(),
        lowercase(s)[m] == ascii_lower(s[m]),
{
    ascii_prefix_len_bound(s);
    if !is_ascii_text(s) {
        let a = ascii_lower_text(s.take(ascii_prefix_len(s) as int));
        assert((a + lowercase_of(s))[m] == a[m]);
    }
}
} // verus!
