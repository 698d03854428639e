//! The answer that the Microsoft sign-in sends to the local callback: the
//! request's path, its query, the state check and the authorization code.
use vstd::prelude::*;

use crate::text::{append_chars, chars_of, split_words, string_of, words, Sep};

verus! {

/// The (key, value) pairs of the query of a URL, decoded, in order; `None`
/// when the text does not parse as a URL.
pub uninterp spec fn query_pairs_of(url: Seq<char>) -> Option<Seq<(Seq<char>, Seq<char>)>>;

pub open spec fn pairs_view(v: Seq<(String, String)>) -> Seq<(Seq<char>, Seq<char>)> {
    v.map_values(|p: (String, String)| (p.0@, p.1@))
}

/// `url::Url::parse` and `query_pairs`: the decoded pairs are named by
/// `query_pairs_of`; the parser's error message is not stated.
#[verifier::external_body]
fn url_query_pairs(url: &str) -> (r: Result<Vec<(String, String)>, String>)
    ensures
        match r {
            Ok(v) => query_pairs_of(url@) == Some(pairs_view(v@)),
            Err(_) => query_pairs_of(url@) is None,
        },
{
    url::Url::parse(url).map(|u| u.query_pairs().map(|(k, v)| (k.into_owned(), v.into_owned())).collect()).map_err(|error| error.to_string())
}

/// Why a callback request gives no authorization code.
#[derive(Debug)]
pub enum CallbackError {
    /// The request has no path on its first line.
    InvalidRequest,
    /// The path does not make a URL; the parser's message.
    InvalidUrl(String),
    /// The state differs from the one sent with the sign-in request.
    StateMismatch,
    /// The sign-in was refused: its error description, or a fixed message.
    Refused(String),
}

/// The text before the first line feed (all of it when there is none).
pub open spec fn first_line(s: Seq<char>) -> Seq<char>
    decreases s.len(),
{
    if s.len() == 0 {
        Seq::empty()
    } else if s[0] == '\n' {
        Seq::empty()
    } else {
        seq![s[0]] + first_line(s.drop_first())
    }
}

/// The path of an HTTP request: the second word of its first line.
pub open spec fn request_path(request: Seq<char>) -> Option<Seq<char>> {
    let w = words(Sep::Space, first_line(request));
    if w.len() >= 2 {
        Some(w[1])
    } else {
        None
    }
}

/// The value of the first pair whose key is `key` or `other`.
pub open spec fn first_value(p: Seq<(Seq<char>, Seq<char>)>, key: Seq<char>, other: Seq<char>) -> Option<Seq<char>>
    decreases p.len(),
{
    if p.len() == 0 {
        None
    } else if p[0].0 == key || p[0].0 == other {
        Some(p[0].1)
    } else {
        first_value(p.drop_first(), key, other)
    }
}

pub open spec fn no_code_message() -> Seq<char> {
    "microsoft login did not return an authorization code"@
}

/// The callback's outcome for a query: a state other than the expected
/// one (none counts as empty) is refused; then the first `code` is the
/// result; without one, the first `error_description` or `error` value, or
/// a fixed message, is the refusal.
pub open spec fn query_outcome(p: Seq<(Seq<char>, Seq<char>)>, expected: Seq<char>, r: Result<String, CallbackError>) -> bool {
    let state = match first_value(p, "state"@, "state"@) {
        Some(v) => v,
        None => Seq::empty(),
    };
    if state != expected {
        r matches Err(CallbackError::StateMismatch)
    } else {
        match first_value(p, "code"@, "code"@) {
            Some(c) => r matches Ok(x) && x@ == c,
            None => r matches Err(CallbackError::Refused(m)) && m@ == match first_value(
                p,
                "error_description"@,
                "error"@,
            ) {
                Some(e) => e,
                None => no_code_message(),
            },
        }
    }
}

fn first_line_chars(s: &Vec<char>) -> (r: Vec<char>)
    ensures
        r@ == first_line(s@),
{
    let n = s.len();
    let mut i: usize = 0;
    while i < n && s[i] != '\n'
        invariant
            i <= n == s@.len(),
            forall|k: int| 0 <= k < i ==> s@[k] != '\n',
        decreases n - i,
    {
        i = i + 1;
    }
    let r = crate::text::subrange_chars(s, 0, i);
    proof {
        first_line_prefix(s@, i as int);
    }
    r
}

proof fn first_line_prefix(s: Seq<char>, i: int)
    requires
        0 <= i <= s.len(),
        forall|k: int| 0 <= k < i ==> s[k] != '\n',
        i == s.len() || s[i] == '\n',
    ensures
        first_line(s) == s.subrange(0, i),
    decreases i,
{
    if i == 0 {
        assert(s.subrange(0, 0) =~= Seq::<char>::empty());
    } else {
        first_line_prefix(s.drop_first(), i - 1);
        assert(s.subrange(0, i) =~= seq![s[0]] + s.drop_first().subrange(0, i - 1));
    }
}

fn find_value(p: &Vec<(String, String)>, key: &str, other: &str) -> (r: Option<String>)
    ensures
        match first_value(pairs_view(p@), key@, other@) {
            Some(v) => r matches Some(x) && x@ == v,
            None => r is None,
        },
{
    let n = p.len();
    let mut i: usize = 0;
    assert(pairs_view(p@).skip(0) =~= pairs_view(p@));
    while i < n
        invariant
            i <= n == p@.len(),
            first_value(pairs_view(p@), key@, other@) == first_value(
                pairs_view(p@).skip(i as int),
                key@,
                other@,
            ),
        decreases n - i,
    {
        let ghost rest = pairs_view(p@).skip(i as int);
        assert(rest[0] == (p@[i as int].0@, p@[i as int].1@));
        if crate::text::str_eq(p[i].0.as_str(), key) || crate::text::str_eq(p[i].0.as_str(), other) {
            return Some(crate::text::lit(p[i].1.as_str()));
        }
        assert(rest.drop_first() =~= pairs_view(p@).skip(i + 1));
        i = i + 1;
    }
    assert(pairs_view(p@).skip(n as int) =~= Seq::<(Seq<char>, Seq<char>)>::empty());
    None
}

/// The outcome of a callback request for the state sent with the sign-in
/// request (see `request_path` and `query_outcome`): the path is read as
/// a URL on `http://localhost`.
pub fn callback_outcome(request: &str, expected_state: &str) -> (r: Result<String, CallbackError>)
    ensures
        match request_path(request@) {
            None => r matches Err(CallbackError::InvalidRequest),
            Some(path) => match query_pairs_of("http://localhost"@ + path) {
                None => r matches Err(CallbackError::InvalidUrl(_)),
                Some(p) => query_outcome(p, expected_state@, r),
            },
        },
{
    let line = first_line_chars(&chars_of(request));
    let w = split_words(Sep::Space, &line);
    if w.len() < 2 {
        return Err(CallbackError::InvalidRequest);
    }
    let mut url = chars_of("http://localhost");
    append_chars(&mut url, &w[1]);
    let pairs = match url_query_pairs(string_of(&url).as_str()) {
        Ok(p) => p,
        Err(e) => return Err(CallbackError::InvalidUrl(e)),
    };
    let state = match find_value(&pairs, "state", "state") {
        Some(v) => v,
        None => String::new(),
    };
    if !crate::text::str_eq(state.as_str(), expected_state) {
        return Err(CallbackError::StateMismatch);
    }
    match find_value(&pairs, "code", "code") {
        Some(c) => Ok(c),
        None => match find_value(&pairs, "error_description", "error") {
            Some(e) => Err(CallbackError::Refused(e)),
            None => Err(CallbackError::Refused(crate::text::lit(
                "microsoft login did not return an authorization code",
            ))),
        },
    }
}

impl CallbackError {
    pub open spec fn message_text(&self) -> Seq<char> {
        match self {
            CallbackError::InvalidRequest => "invalid microsoft callback request"@,
            CallbackError::InvalidUrl(m) => m@,
            CallbackError::StateMismatch => "microsoft login state did not match the local request"@,
            CallbackError::Refused(m) => m@,
        }
    }

    /// The error as shown to the user.
    pub fn message(&self) -> (r: String)
        ensures
            r@ == self.message_text(),
    {
        match self {
            CallbackError::InvalidRequest => crate::text::lit("invalid microsoft callback request"),
            CallbackError::InvalidUrl(m) => crate::text::lit(m.as_str()),
            CallbackError::StateMismatch => crate::text::lit(
                "microsoft login state did not match the local request",
            ),
            CallbackError::Refused(m) => crate::text::lit(m.as_str()),
        }
    }
}

} // verus!
