//! Names of the files that the application writes, pasted evidence images,
//! and the small rules of the workspace settings.
use vstd::prelude::*;

use base64::Engine;

use crate::baseline::sha256;
use crate::text::{
    append_chars, ascii_lower, char_ascii_lower, char_is_alnum, chars_eq, chars_of,
    chars_starts_with, contains, eq_ignore_ascii_case, is_alnum, is_blank, lit, starts_with,
    str_eq, string_of, subrange_chars, trim, trim_chars,
};
use crate::workbook::{decimal, digit};

verus! {

// ---------------------------------------------------------------------------
// Outside encoders
// ---------------------------------------------------------------------------

/// Standard base64 (with padding) decoding of a text.
pub uninterp spec fn base64_decoded(text: Seq<char>) -> Option<Seq<u8>>;

/// `base64::engine::general_purpose::STANDARD.decode`: the bytes of
/// `text`, or the decoder's error message. The bytes are named by
/// `base64_decoded`; the message is not stated.
#[verifier::external_body]
fn base64_decode(text: &str) -> (r: Result<Vec<u8>, String>)
    ensures
        match r {
            Ok(b) => base64_decoded(text@) == Some(b@),
            Err(_) => base64_decoded(text@) is None,
        },
{
    base64::engine::general_purpose::STANDARD.decode(text).map_err(|error| error.to_string())
}

/// URL-safe base64 without padding of some bytes.
pub uninterp spec fn base64_url_text(data: Seq<u8>) -> Seq<char>;

/// `base64::engine::general_purpose::URL_SAFE_NO_PAD.encode`; it panics
/// only when the encoded length overflows `usize`, which the bound rules
/// out.
#[verifier::external_body]
fn base64_url_encode(data: &Vec<u8>) -> (r: String)
    requires
        data@.len() <= usize::MAX / 2,
    ensures
        r@ == base64_url_text(data@),
{
    base64::engine::general_purpose::URL_SAFE_NO_PAD.encode(data.as_slice())
}


// ---------------------------------------------------------------------------
// File names
// ---------------------------------------------------------------------------

pub open spec fn image_extension(v: Seq<char>) -> Seq<char> {
    if v == "jpeg"@ || v == "jpg"@ {
        "jpg"@
    } else if v == "gif"@ {
        "gif"@
    } else if v == "webp"@ {
        "webp"@
    } else {
        "png"@
    }
}

/// The extension an image of subtype `value` is saved with.
pub fn normalize_image_extension(value: &str) -> (r: &'static str)
    ensures
        r@ == image_extension(value@),
{
    if str_eq(value, "jpeg") || str_eq(value, "jpg") {
        "jpg"
    } else if str_eq(value, "gif") {
        "gif"
    } else if str_eq(value, "webp") {
        "webp"
    } else {
        "png"
    }
}

pub open spec fn stem_char(c: char) -> char {
    if is_alnum(c) || c == '-' || c == '_' {
        c
    } else {
        '-'
    }
}

/// `s` without the dashes at either end.
pub open spec fn trim_dashes(s: Seq<char>) -> Seq<char>
    decreases s.len(),
{
    if s.len() > 0 && s[0] == '-' {
        trim_dashes(s.drop_first())
    } else if s.len() > 0 && s.last() == '-' {
        trim_dashes(s.drop_last())
    } else {
        s
    }
}

/// A file stem: ASCII letters, digits, dashes and underscores kept, other
/// characters as dashes, no dash at either end.
pub open spec fn file_stem_spec(v: Seq<char>) -> Seq<char> {
    trim_dashes(v.map_values(|c: char| stem_char(c)))
}

fn trim_dash_chars(s: &Vec<char>) -> (r: Vec<char>)
    ensures
        r@ == trim_dashes(s@),
    decreases s@.len(),
{
    if s.len() > 0 && s[0] == '-' {
        trim_dash_chars(&subrange_chars(s, 1, s.len()))
    } else if s.len() > 0 && s[s.len() - 1] == '-' {
        trim_dash_chars(&subrange_chars(s, 0, s.len() - 1))
    } else {
        s.clone()
    }
}

pub fn sanitize_file_stem(value: &str) -> (r: String)
    ensures
        r@ == file_stem_spec(value@),
{
    let v = chars_of(value);
    let mut m: Vec<char> = Vec::new();
    let n = v.len();
    let mut i: usize = 0;
    while i < n
        invariant
            i <= n == v@.len(),
            v@ == value@,
            m@ == v@.take(i as int).map_values(|c: char| stem_char(c)),
        decreases n - i,
    {
        let c = v[i];
        let kept = if char_is_alnum(c) || c == '-' || c == '_' {
            c
        } else {
            '-'
        };
        m.push(kept);
        assert(v@.take(i + 1).map_values(|c: char| stem_char(c)) =~= v@.take(i as int).map_values(
            |c: char| stem_char(c),
        ).push(stem_char(v@[i as int])));
        i = i + 1;
    }
    assert(v@.take(n as int) =~= v@);
    string_of(&trim_dash_chars(&m))
}

/// Whether an extension (as `Path::extension` gives it) is that of an image
/// the report can show.
pub open spec fn image_file_extension(ext: Seq<char>) -> bool {
    let e = ext.map_values(|c: char| ascii_lower(c));
    e == "png"@ || e == "jpg"@ || e == "jpeg"@ || e == "webp"@ || e == "bmp"@ || e == "gif"@
}

pub fn is_supported_image_extension(ext: &str) -> (r: bool)
    ensures
        r == image_file_extension(ext@),
{
    let v = chars_of(ext);
    let mut e: Vec<char> = Vec::new();
    let n = v.len();
    let mut i: usize = 0;
    while i < n
        invariant
            i <= n == v@.len(),
            v@ == ext@,
            e@ == v@.take(i as int).map_values(|c: char| ascii_lower(c)),
        decreases n - i,
    {
        e.push(char_ascii_lower(v[i]));
        assert(v@.take(i + 1).map_values(|c: char| ascii_lower(c)) =~= v@.take(i as int).map_values(
            |c: char| ascii_lower(c),
        ).push(ascii_lower(v@[i as int])));
        i = i + 1;
    }
    assert(v@.take(n as int) =~= v@);
    chars_eq(&e, &chars_of("png")) || chars_eq(&e, &chars_of("jpg")) || chars_eq(&e, &chars_of("jpeg"))
        || chars_eq(&e, &chars_of("webp")) || chars_eq(&e, &chars_of("bmp")) || chars_eq(
        &e,
        &chars_of("gif"),
    )
}

/// Database packages have the extension "acna", in any case.
pub fn is_database_package_extension(ext: &str) -> (r: bool)
    ensures
        r == eq_ignore_ascii_case(ext@, "acna"@),
{
    crate::text::chars_eq_ignore_ascii_case(&chars_of(ext), &chars_of("acna"))
}

/// The message for a database package with another extension.
pub fn database_package_message() -> (r: String)
    ensures
        r@ == "database packages must use the .acna extension"@,
{
    lit("database packages must use the .acna extension")
}

// ---------------------------------------------------------------------------
// Settings
// ---------------------------------------------------------------------------

/// The Microsoft tenant: the value trimmed, "organizations" when blank.
pub fn normalize_tenant(value: &str) -> (r: String)
    ensures
        r@ == (if trim(value@).len() == 0 {
            "organizations"@
        } else {
            trim(value@)
        }),
{
    let t = trim_chars(&chars_of(value));
    if t.len() == 0 {
        lit("organizations")
    } else {
        string_of(&t)
    }
}

/// The editor's full name: trimmed, at least three bytes long.
pub fn check_editor_name(full_name: &str) -> (r: Result<String, String>)
    ensures
        vstd::utf8::encode_utf8(trim(full_name@)).len() < 3 ==> (r matches Err(m) && m@
            == "editor full name is required"@),
        vstd::utf8::encode_utf8(trim(full_name@)).len() >= 3 ==> (r matches Ok(n) && n@ == trim(
            full_name@,
        )),
{
    let t = string_of(&trim_chars(&chars_of(full_name)));
    if t.as_str().as_bytes().len() < 3 {
        Err(lit("editor full name is required"))
    } else {
        Ok(t)
    }
}

/// A blank text is no value.
pub fn empty_to_none(value: String) -> (r: Option<String>)
    ensures
        is_blank(value@) ==> r is None,
        !is_blank(value@) ==> r == Some(value),
{
    if crate::text::is_blank_chars(&chars_of(value.as_str())) {
        None
    } else {
        Some(value)
    }
}

/// The PKCE challenge of a verifier: the URL-safe base64 (no padding) of
/// the SHA-256 of its UTF-8 bytes.
pub fn pkce_challenge(verifier: &str) -> (r: String)
    ensures
        r@ == base64_url_text(sha256(vstd::utf8::encode_utf8(verifier@))),
{
    let b = verifier.as_bytes();
    let mut data: Vec<u8> = Vec::new();
    let n = b.len();
    let mut i: usize = 0;
    while i < n
        invariant
            i <= n == b@.len(),
            b@ == vstd::utf8::encode_utf8(verifier@),
            data@ == b@.take(i as int),
        decreases n - i,
    {
        data.push(b[i]);
        assert(b@.take(i + 1) =~= b@.take(i as int).push(b@[i as int]));
        i = i + 1;
    }
    assert(b@.take(n as int) =~= b@);
    let digest = crate::baseline::sha256_digest(&data);
    base64_url_encode(&digest)
}

// ---------------------------------------------------------------------------
// Pasted evidence
// ---------------------------------------------------------------------------

/// The first position of `c` in `s`.
pub open spec fn first_index(s: Seq<char>, c: char, i: int) -> Option<int>
    decreases s.len() - i,
{
    if i < 0 || i >= s.len() {
        None
    } else if s[i] == c {
        Some(i)
    } else {
        first_index(s, c, i + 1)
    }
}

fn find_char(s: &Vec<char>, c: char) -> (r: Option<usize>)
    ensures
        (match r {
            Some(i) => Some(i as int),
            None => None,
        }) == first_index(s@, c, 0),
        r matches Some(i) ==> i < s@.len(),
{
    let n = s.len();
    let mut i: usize = 0;
    while i < n
        invariant
            i <= n == s@.len(),
            first_index(s@, c, 0) == first_index(s@, c, i as int),
        decreases n - i,
    {
        if s[i] == c {
            return Some(i);
        }
        i = i + 1;
    }
    None
}

/// The image subtype of a data URL's header ("data:image/png;base64"):
/// what follows "data:image/" up to the first ';'.
pub open spec fn image_subtype(mime: Seq<char>) -> Seq<char> {
    let rest = mime.subrange(11, mime.len() as int);
    match first_index(rest, ';', 0) {
        Some(k) => rest.subrange(0, k),
        None => rest,
    }
}

/// Why a pasted image is refused.
pub enum EvidenceFault {
    /// No comma between header and body.
    NotDataUrl,
    /// The header is not that of a base64 image.
    NotImage,
    /// The body is not base64.
    NotBase64,
}

/// A pasted image as a data URL: its header and its base64 body, split at
/// the first comma; the header must be that of a base64 image.
pub open spec fn evidence_spec(data_url: Seq<char>) -> Result<(Seq<char>, Seq<u8>), EvidenceFault> {
    match first_index(data_url, ',', 0) {
        None => Err(EvidenceFault::NotDataUrl),
        Some(i) => {
            let mime = data_url.subrange(0, i);
            let body = data_url.subrange(i + 1, data_url.len() as int);
            if !starts_with(mime, "data:image/"@) || !contains(mime, ";base64"@) {
                Err(EvidenceFault::NotImage)
            } else {
                match base64_decoded(body) {
                    Some(bytes) => Ok((image_extension(image_subtype(mime)), bytes)),
                    None => Err(EvidenceFault::NotBase64),
                }
            }
        },
    }
}

/// The extension and bytes of a pasted image (see `evidence_spec`); a
/// decoding error carries the decoder's message after "invalid pasted
/// image: ".
pub fn evidence_image(data_url: &str) -> (r: Result<(String, Vec<u8>), String>)
    ensures
        match evidence_spec(data_url@) {
            Ok((ext, bytes)) => (r matches Ok(x) && x.0@ == ext && x.1@ == bytes),
            Err(EvidenceFault::NotDataUrl) => (r matches Err(e) && e@ == "invalid pasted image data"@),
            Err(EvidenceFault::NotImage) => (r matches Err(e) && e@ == "only pasted image evidence is supported"@),
            Err(EvidenceFault::NotBase64) => (r matches Err(e) && crate::text::starts_with(
                e@,
                "invalid pasted image: "@,
            )),
        },
{
    let v = chars_of(data_url);
    let found = find_char(&v, ',');
    let i = match found {
        Some(k) => k,
        None => return Err(lit("invalid pasted image data")),
    };
    let n = v.len();
    assert(i < n);
    let mime = subrange_chars(&v, 0, i);
    let body = subrange_chars(&v, i + 1, n);
    proof {
        reveal_strlit("data:image/");
    }
    if !chars_starts_with(&mime, &chars_of("data:image/")) || !crate::text::chars_contains(
        &mime,
        &chars_of(";base64"),
    ) {
        return Err(lit("only pasted image evidence is supported"));
    }
    let rest = subrange_chars(&mime, 11, mime.len());
    let subtype = match find_char(&rest, ';') {
        Some(k) => subrange_chars(&rest, 0, k),
        None => rest,
    };
    let ext = normalize_image_extension(string_of(&subtype).as_str());
    match base64_decode(string_of(&body).as_str()) {
        Ok(bytes) => Ok((lit(ext), bytes)),
        Err(e) => {
            let prefix = chars_of("invalid pasted image: ");
            let mut m = prefix.clone();
            append_chars(&mut m, &chars_of(e.as_str()));
            assert(m@.subrange(0, prefix@.len() as int) =~= prefix@);
            Err(string_of(&m))
        },
    }
}

/// The decimal text of an integer, with a minus sign when negative.
pub open spec fn signed_decimal(t: int) -> Seq<char> {
    if t < 0 {
        "-"@ + decimal((-t) as nat)
    } else {
        decimal(t as nat)
    }
}

fn digits_u128(n: u128) -> (r: Vec<char>)
    ensures
        r@ == decimal(n as nat),
    decreases n,
{
    if n < 10 {
        let mut r = Vec::new();
        r.push(digit(n as usize));
        assert(r@ =~= seq![crate::workbook::digit_char(n as nat)]);
        r
    } else {
        let mut r = digits_u128(n / 10);
        r.push(digit((n % 10) as usize));
        r
    }
}

/// The file of a pasted image: the question id and the name as file stems
/// ("evidencia" when none is left), the time in milliseconds, the
/// extension.
pub fn evidence_file_name(question_id: &str, timestamp_millis: i64, file_name: Option<&str>, extension: &str) -> (r: String)
    ensures
        ({
            let name = match file_name {
                Some(f) => if file_stem_spec(f@).len() == 0 { "evidencia"@ } else { file_stem_spec(f@) },
                None => "evidencia"@,
            };
            r@ == file_stem_spec(question_id@) + "-"@ + signed_decimal(timestamp_millis as int) + "-"@
                + name + "."@ + extension@
        }),
{
    let name = match file_name {
        Some(f) => {
            let s = sanitize_file_stem(f);
            if s.as_str().is_empty() {
                lit("evidencia")
            } else {
                s
            }
        },
        None => lit("evidencia"),
    };
    let mut r = chars_of(sanitize_file_stem(question_id).as_str());
    append_chars(&mut r, &chars_of("-"));
    if timestamp_millis < 0 {
        append_chars(&mut r, &chars_of("-"));
        let magnitude: u128 = (0i128 - timestamp_millis as i128) as u128;
        append_chars(&mut r, &digits_u128(magnitude));
    } else {
        append_chars(&mut r, &digits_u128(timestamp_millis as u128));
    }
    append_chars(&mut r, &chars_of("-"));
    append_chars(&mut r, &chars_of(name.as_str()));
    append_chars(&mut r, &chars_of("."));
    append_chars(&mut r, &chars_of(extension));
    string_of(&r)
}

} // verus!
