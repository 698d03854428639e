//! Entities of the question bank and their textual codes.
use vstd::prelude::*;

use vstd::utf8::encode_utf8;

use crate::text::{
    append_chars, chars_of, chars_starts_with, fold_accents, fold_accents_chars, lit,
    lower_words, lower_words_chars, replace_char, replace_chars, starts_with, str_eq, string_of,
    subrange_chars, trim, trim_chars,
};

verus! {

#[derive(Debug, Clone, Copy, PartialEq, Eq, Structural, Hash)]
pub enum CycleStatus {
    Planning,
    InReview,
    InApplication,
    Closed,
}

impl CycleStatus {
    pub open spec fn text(self) -> Seq<char> {
        match self {
            CycleStatus::Planning => "planning"@,
            CycleStatus::InReview => "in_review"@,
            CycleStatus::InApplication => "in_application"@,
            CycleStatus::Closed => "closed"@,
        }
    }

    pub fn as_str(&self) -> (r: &'static str)
        ensures
            r@ == self.text(),
    {
        match self {
            CycleStatus::Planning => "planning",
            CycleStatus::InReview => "in_review",
            CycleStatus::InApplication => "in_application",
            CycleStatus::Closed => "closed",
        }
    }

    /// The status stored as `value`; unknown values read as `Planning`.
    pub fn from_str(value: &str) -> (r: Self)
        ensures
            r == (if value@ == "in_review"@ {
                CycleStatus::InReview
            } else if value@ == "in_application"@ {
                CycleStatus::InApplication
            } else if value@ == "closed"@ {
                CycleStatus::Closed
            } else {
                CycleStatus::Planning
            }),
    {
        if str_eq(value, "in_review") {
            CycleStatus::InReview
        } else if str_eq(value, "in_application") {
            CycleStatus::InApplication
        } else if str_eq(value, "closed") {
            CycleStatus::Closed
        } else {
            CycleStatus::Planning
        }
    }
}

#[derive(Debug, Clone, Copy, PartialEq, Eq, Structural, Hash)]
pub enum QuestionScope {
    Institutional,
    Program,
}

impl QuestionScope {
    pub open spec fn text(self) -> Seq<char> {
        match self {
            QuestionScope::Institutional => "institutional"@,
            QuestionScope::Program => "program"@,
        }
    }

    pub fn as_str(&self) -> (r: &'static str)
        ensures
            r@ == self.text(),
    {
        match self {
            QuestionScope::Institutional => "institutional",
            QuestionScope::Program => "program",
        }
    }

    /// The scope stored as `value`; anything but "program" is institutional.
    pub fn from_str(value: &str) -> (r: Self)
        ensures
            r == (if value@ == "program"@ {
                QuestionScope::Program
            } else {
                QuestionScope::Institutional
            }),
    {
        if str_eq(value, "program") {
            QuestionScope::Program
        } else {
            QuestionScope::Institutional
        }
    }
}

#[derive(Debug, Clone, Copy, PartialEq, Eq, Structural, Hash)]
pub enum QuestionStatus {
    Keep,
    Modify,
    Add,
    Delete,
}

impl QuestionStatus {
    pub open spec fn text(self) -> Seq<char> {
        match self {
            QuestionStatus::Keep => "keep"@,
            QuestionStatus::Modify => "modify"@,
            QuestionStatus::Add => "add"@,
            QuestionStatus::Delete => "delete"@,
        }
    }

    pub fn as_str(&self) -> (r: &'static str)
        ensures
            r@ == self.text(),
    {
        match self {
            QuestionStatus::Keep => "keep",
            QuestionStatus::Modify => "modify",
            QuestionStatus::Add => "add",
            QuestionStatus::Delete => "delete",
        }
    }

    /// The status stored as `value`; unknown values read as `Keep`.
    pub fn from_str(value: &str) -> (r: Self)
        ensures
            r == (if value@ == "modify"@ {
                QuestionStatus::Modify
            } else if value@ == "add"@ {
                QuestionStatus::Add
            } else if value@ == "delete"@ {
                QuestionStatus::Delete
            } else {
                QuestionStatus::Keep
            }),
    {
        if str_eq(value, "modify") {
            QuestionStatus::Modify
        } else if str_eq(value, "add") {
            QuestionStatus::Add
        } else if str_eq(value, "delete") {
            QuestionStatus::Delete
        } else {
            QuestionStatus::Keep
        }
    }
}

#[derive(Debug, Clone, Copy, PartialEq, Eq, Structural, Hash)]
pub enum ProviderQuestionReviewStatus {
    Pending,
    Correct,
    NeedsModification,
    Missing,
}

impl ProviderQuestionReviewStatus {
    pub open spec fn text(self) -> Seq<char> {
        match self {
            ProviderQuestionReviewStatus::Pending => "pending"@,
            ProviderQuestionReviewStatus::Correct => "correct"@,
            ProviderQuestionReviewStatus::NeedsModification => "needs_modification"@,
            ProviderQuestionReviewStatus::Missing => "missing"@,
        }
    }

    pub fn as_str(&self) -> (r: &'static str)
        ensures
            r@ == self.text(),
    {
        match self {
            ProviderQuestionReviewStatus::Pending => "pending",
            ProviderQuestionReviewStatus::Correct => "correct",
            ProviderQuestionReviewStatus::NeedsModification => "needs_modification",
            ProviderQuestionReviewStatus::Missing => "missing",
        }
    }

    /// The status stored as `value`; unknown values read as `Pending`.
    pub fn from_str(value: &str) -> (r: Self)
        ensures
            r == (if value@ == "correct"@ {
                ProviderQuestionReviewStatus::Correct
            } else if value@ == "needs_modification"@ {
                ProviderQuestionReviewStatus::NeedsModification
            } else if value@ == "missing"@ {
                ProviderQuestionReviewStatus::Missing
            } else {
                ProviderQuestionReviewStatus::Pending
            }),
    {
        if str_eq(value, "correct") {
            ProviderQuestionReviewStatus::Correct
        } else if str_eq(value, "needs_modification") {
            ProviderQuestionReviewStatus::NeedsModification
        } else if str_eq(value, "missing") {
            ProviderQuestionReviewStatus::Missing
        } else {
            ProviderQuestionReviewStatus::Pending
        }
    }
}

#[derive(Debug, Clone, Copy, PartialEq, Eq, Structural)]
pub enum ExportKind {
    Consolidated,
    Instruments,
}

#[derive(Debug, Clone, Copy, PartialEq, Eq, Structural)]
pub enum QuestionDiffKind {
    Unchanged,
    Added,
    Modified,
    Removed,
}

#[derive(Debug, Clone, Copy, PartialEq, Eq, Structural)]
pub enum ValidationSeverity {
    Blocking,
    Warning,
}

// ---------------------------------------------------------------------------
// CNA factors
// ---------------------------------------------------------------------------

/// A CNA factor: one of the twelve of the national guidelines, or a factor
/// added by later guidelines, kept by its code.
#[derive(Debug, Clone, PartialEq, Eq, PartialOrd, Ord, Hash)]
pub enum CnaFactorCode {
    Factor1,
    Factor2,
    Factor3,
    Factor4,
    Factor5,
    Factor6,
    Factor7,
    Factor8,
    Factor9,
    Factor10,
    Factor11,
    Factor12,
    Custom(String),
}

/// The number of a known factor (1..=12), 0 for a custom one.
pub open spec fn factor_number(f: CnaFactorCode) -> int {
    match f {
        CnaFactorCode::Factor1 => 1,
        CnaFactorCode::Factor2 => 2,
        CnaFactorCode::Factor3 => 3,
        CnaFactorCode::Factor4 => 4,
        CnaFactorCode::Factor5 => 5,
        CnaFactorCode::Factor6 => 6,
        CnaFactorCode::Factor7 => 7,
        CnaFactorCode::Factor8 => 8,
        CnaFactorCode::Factor9 => 9,
        CnaFactorCode::Factor10 => 10,
        CnaFactorCode::Factor11 => 11,
        CnaFactorCode::Factor12 => 12,
        CnaFactorCode::Custom(_) => 0,
    }
}

/// The decimal text of a factor number 1..=12.
pub open spec fn number_text(n: int) -> Seq<char> {
    if n == 1 {
        "1"@
    } else if n == 2 {
        "2"@
    } else if n == 3 {
        "3"@
    } else if n == 4 {
        "4"@
    } else if n == 5 {
        "5"@
    } else if n == 6 {
        "6"@
    } else if n == 7 {
        "7"@
    } else if n == 8 {
        "8"@
    } else if n == 9 {
        "9"@
    } else if n == 10 {
        "10"@
    } else if n == 11 {
        "11"@
    } else {
        "12"@
    }
}

/// `s` with every leading occurrence of `p` removed
/// (`str::trim_start_matches` with a string pattern).
pub open spec fn strip_prefix_all(s: Seq<char>, p: Seq<char>) -> Seq<char>
    decreases s.len(),
{
    if p.len() > 0 && starts_with(s, p) {
        strip_prefix_all(s.subrange(p.len() as int, s.len() as int), p)
    } else {
        s
    }
}

/// The factor code text once surrounding blanks and "Factor" prefixes are
/// removed.
pub open spec fn factor_key(v: Seq<char>) -> Seq<char> {
    trim(strip_prefix_all(trim(v), "Factor"@))
}

impl CnaFactorCode {
    pub open spec fn text(self) -> Seq<char> {
        match self {
            CnaFactorCode::Custom(v) => v@,
            _ => number_text(factor_number(self)),
        }
    }

    /// The factor read from `value`: `None` when nothing is left once blanks
    /// and "Factor" prefixes are removed.
    pub open spec fn parsed(value: Seq<char>) -> Option<CnaFactorCode> {
        let k = factor_key(value);
        if k.len() == 0 {
            None
        } else if k == "1"@ {
            Some(CnaFactorCode::Factor1)
        } else if k == "2"@ {
            Some(CnaFactorCode::Factor2)
        } else if k == "3"@ {
            Some(CnaFactorCode::Factor3)
        } else if k == "4"@ {
            Some(CnaFactorCode::Factor4)
        } else if k == "5"@ {
            Some(CnaFactorCode::Factor5)
        } else if k == "6"@ {
            Some(CnaFactorCode::Factor6)
        } else if k == "7"@ {
            Some(CnaFactorCode::Factor7)
        } else if k == "8"@ {
            Some(CnaFactorCode::Factor8)
        } else if k == "9"@ {
            Some(CnaFactorCode::Factor9)
        } else if k == "10"@ {
            Some(CnaFactorCode::Factor10)
        } else if k == "11"@ {
            Some(CnaFactorCode::Factor11)
        } else if k == "12"@ {
            Some(CnaFactorCode::Factor12)
        } else {
            None
        }
    }

    pub fn as_str(&self) -> (r: &str)
        ensures
            r@ == self.text(),
    {
        match self {
            CnaFactorCode::Factor1 => "1",
            CnaFactorCode::Factor2 => "2",
            CnaFactorCode::Factor3 => "3",
            CnaFactorCode::Factor4 => "4",
            CnaFactorCode::Factor5 => "5",
            CnaFactorCode::Factor6 => "6",
            CnaFactorCode::Factor7 => "7",
            CnaFactorCode::Factor8 => "8",
            CnaFactorCode::Factor9 => "9",
            CnaFactorCode::Factor10 => "10",
            CnaFactorCode::Factor11 => "11",
            CnaFactorCode::Factor12 => "12",
            CnaFactorCode::Custom(value) => value.as_str(),
        }
    }

    /// The factor written as `value` ("3", "Factor 3" or a custom code);
    /// `None` when the value holds no code.
    pub fn from_str(value: &str) -> (r: Option<Self>)
        ensures
            r is None <==> factor_key(value@).len() == 0,
            r matches Some(f) ==> f.text() == factor_key(value@),
            Self::parsed(value@) matches Some(f) ==> r == Some(f),
            Self::parsed(value@) is None && factor_key(value@).len() > 0 ==> (r matches Some(
                CnaFactorCode::Custom(c),
            ) && c@ == factor_key(value@)),
    {
        let k = factor_key_chars(&chars_of(value));
        if k.len() == 0 {
            None
        } else {
            let s = string_of(&k);
            let t = s.as_str();
            if str_eq(t, "1") {
                Some(CnaFactorCode::Factor1)
            } else if str_eq(t, "2") {
                Some(CnaFactorCode::Factor2)
            } else if str_eq(t, "3") {
                Some(CnaFactorCode::Factor3)
            } else if str_eq(t, "4") {
                Some(CnaFactorCode::Factor4)
            } else if str_eq(t, "5") {
                Some(CnaFactorCode::Factor5)
            } else if str_eq(t, "6") {
                Some(CnaFactorCode::Factor6)
            } else if str_eq(t, "7") {
                Some(CnaFactorCode::Factor7)
            } else if str_eq(t, "8") {
                Some(CnaFactorCode::Factor8)
            } else if str_eq(t, "9") {
                Some(CnaFactorCode::Factor9)
            } else if str_eq(t, "10") {
                Some(CnaFactorCode::Factor10)
            } else if str_eq(t, "11") {
                Some(CnaFactorCode::Factor11)
            } else if str_eq(t, "12") {
                Some(CnaFactorCode::Factor12)
            } else {
                Some(CnaFactorCode::Custom(s))
            }
        }
    }

    pub open spec fn label_text(self) -> Seq<char> {
        match self {
            CnaFactorCode::Factor1 => "Proyecto educativo del programa e identidad institucional"@,
            CnaFactorCode::Factor2 => "Estudiantes"@,
            CnaFactorCode::Factor3 => "Profesores"@,
            CnaFactorCode::Factor4 => "Egresados"@,
            CnaFactorCode::Factor5 => "Aspectos academicos y resultados de aprendizaje"@,
            CnaFactorCode::Factor6 => "Permanencia y graduacion"@,
            CnaFactorCode::Factor7 => "Interaccion con el entorno nacional e internacional"@,
            CnaFactorCode::Factor8 => "Aportes de investigacion, innovacion y creacion"@,
            CnaFactorCode::Factor9 => "Bienestar de la comunidad academica"@,
            CnaFactorCode::Factor10 => "Medios educativos y ambientes de aprendizaje"@,
            CnaFactorCode::Factor11 => "Organizacion, administracion y financiacion"@,
            CnaFactorCode::Factor12 => "Recursos fisicos y tecnologicos"@,
            CnaFactorCode::Custom(v) => v@,
        }
    }

    /// The name of the factor in the national guidelines; a custom factor is
    /// named by its code.
    pub fn label(&self) -> (r: String)
        ensures
            r@ == self.label_text(),
    {
        match self {
            CnaFactorCode::Factor1 => lit("Proyecto educativo del programa e identidad institucional"),
            CnaFactorCode::Factor2 => lit("Estudiantes"),
            CnaFactorCode::Factor3 => lit("Profesores"),
            CnaFactorCode::Factor4 => lit("Egresados"),
            CnaFactorCode::Factor5 => lit("Aspectos academicos y resultados de aprendizaje"),
            CnaFactorCode::Factor6 => lit("Permanencia y graduacion"),
            CnaFactorCode::Factor7 => lit("Interaccion con el entorno nacional e internacional"),
            CnaFactorCode::Factor8 => lit("Aportes de investigacion, innovacion y creacion"),
            CnaFactorCode::Factor9 => lit("Bienestar de la comunidad academica"),
            CnaFactorCode::Factor10 => lit("Medios educativos y ambientes de aprendizaje"),
            CnaFactorCode::Factor11 => lit("Organizacion, administracion y financiacion"),
            CnaFactorCode::Factor12 => lit("Recursos fisicos y tecnologicos"),
            CnaFactorCode::Custom(value) => value.clone(),
        }
    }

    /// A copy of the factor.
    pub fn duplicate(&self) -> (r: Self)
        ensures
            r == *self,
    {
        match self {
            CnaFactorCode::Factor1 => CnaFactorCode::Factor1,
            CnaFactorCode::Factor2 => CnaFactorCode::Factor2,
            CnaFactorCode::Factor3 => CnaFactorCode::Factor3,
            CnaFactorCode::Factor4 => CnaFactorCode::Factor4,
            CnaFactorCode::Factor5 => CnaFactorCode::Factor5,
            CnaFactorCode::Factor6 => CnaFactorCode::Factor6,
            CnaFactorCode::Factor7 => CnaFactorCode::Factor7,
            CnaFactorCode::Factor8 => CnaFactorCode::Factor8,
            CnaFactorCode::Factor9 => CnaFactorCode::Factor9,
            CnaFactorCode::Factor10 => CnaFactorCode::Factor10,
            CnaFactorCode::Factor11 => CnaFactorCode::Factor11,
            CnaFactorCode::Factor12 => CnaFactorCode::Factor12,
            CnaFactorCode::Custom(value) => CnaFactorCode::Custom(value.clone()),
        }
    }
}

fn strip_prefix_all_chars(s: &Vec<char>, p: &Vec<char>) -> (r: Vec<char>)
    ensures
        r@ == strip_prefix_all(s@, p@),
    decreases s@.len(),
{
    if p.len() > 0 && chars_starts_with(s, p) {
        let rest = subrange_chars(s, p.len(), s.len());
        strip_prefix_all_chars(&rest, p)
    } else {
        s.clone()
    }
}

fn factor_key_chars(v: &Vec<char>) -> (r: Vec<char>)
    ensures
        r@ == factor_key(v@),
{
    let t = trim_chars(v);
    let s = strip_prefix_all_chars(&t, &chars_of("Factor"));
    trim_chars(&s)
}


// ---------------------------------------------------------------------------
// Identifiers
// ---------------------------------------------------------------------------

/// Separators of a code (line breaks, dots, slashes) read as spaces.
pub open spec fn code_spaces(v: Seq<char>) -> Seq<char> {
    replace_char(
        replace_char(
            replace_char(replace_char(replace_char(v, '\n', " "@), '\r', " "@), '.', " "@),
            '/',
            " "@,
        ),
        '\\',
        " "@,
    )
}

/// An identifier key: separators as spaces, accents folded, lower case,
/// words joined by dashes ("1.2 Misión" is "1-2-mision").
pub open spec fn identifier_key(v: Seq<char>) -> Seq<char> {
    lower_words(fold_accents(code_spaces(v)), "-"@)
}

pub fn normalize_identifier(value: &str) -> (r: String)
    ensures
        r@ == identifier_key(value@),
{
    let sp = chars_of(" ");
    let v = chars_of(value);
    let a = replace_chars(&v, '\n', &sp);
    let b = replace_chars(&a, '\r', &sp);
    let c = replace_chars(&b, '.', &sp);
    let d = replace_chars(&c, '/', &sp);
    let e = replace_chars(&d, '\\', &sp);
    let f = fold_accents_chars(&e);
    string_of(&lower_words_chars(&f, "-"))
}

/// 64-bit FNV-1a over the bytes.
pub open spec fn fnv1a(b: Seq<u8>) -> u64
    decreases b.len(),
{
    if b.len() == 0 {
        0xcbf29ce484222325u64
    } else {
        (fnv1a(b.drop_last()) ^ (b.last() as u64)).wrapping_mul(0x100000001b3u64)
    }
}

pub open spec fn hex_digit(d: int) -> char {
    if d < 10 {
        (48 + d) as char
    } else {
        (87 + d) as char
    }
}

/// The last `n` lower-case hexadecimal digits of `x`, most significant first.
pub open spec fn hex_digits(x: nat, n: nat) -> Seq<char>
    decreases n,
{
    if n == 0 {
        Seq::empty()
    } else {
        hex_digits(x / 16, (n - 1) as nat).push(hex_digit((x % 16) as int))
    }
}

/// Eight hexadecimal digits of the low 32 bits of the FNV-1a hash of the
/// UTF-8 text.
pub open spec fn short_hash(v: Seq<char>) -> Seq<char> {
    hex_digits((fnv1a(encode_utf8(v)) as u32) as nat, 8)
}

pub(crate) fn hex_char(d: u32) -> (r: char)
    requires
        d < 16,
    ensures
        r == hex_digit(d as int),
{
    if d < 10 {
        ((48 + d) as u8) as char
    } else {
        ((87 + d) as u8) as char
    }
}

fn hex_chars(x: u32, n: u32) -> (r: Vec<char>)
    ensures
        r@ == hex_digits(x as nat, n as nat),
    decreases n,
{
    if n == 0 {
        Vec::new()
    } else {
        let mut r = hex_chars(x / 16, n - 1);
        r.push(hex_char(x % 16));
        r
    }
}

pub fn stable_short_hash(value: &str) -> (r: String)
    ensures
        r@ == short_hash(value@),
{
    let bytes = value.as_bytes();
    let n = bytes.len();
    let mut hash: u64 = 0xcbf29ce484222325;
    let mut i: usize = 0;
    while i < n
        invariant
            i <= n == bytes@.len(),
            bytes@ == encode_utf8(value@),
            hash == fnv1a(bytes@.subrange(0, i as int)),
        decreases n - i,
    {
        assert(bytes@.subrange(0, i + 1).drop_last() =~= bytes@.subrange(0, i as int));
        hash = (hash ^ (bytes[i] as u64)).wrapping_mul(0x100000001b3);
        i = i + 1;
    }
    assert(bytes@.subrange(0, n as int) =~= bytes@);
    string_of(&hex_chars(hash as u32, 8))
}

/// The internal key of a guideline aspect: its own code once normalised,
/// else a key made of the factor, the characteristic and a hash of the
/// description.
pub open spec fn aspect_code_spec(
    factor: Seq<char>,
    characteristic_code: Seq<char>,
    aspect_code: Seq<char>,
    aspect_description: Seq<char>,
) -> Seq<char> {
    let normalized = identifier_key(aspect_code);
    if normalized.len() > 0 {
        normalized
    } else {
        let hash = short_hash(identifier_key(aspect_description));
        let characteristic = identifier_key(characteristic_code);
        if characteristic.len() == 0 {
            factor + "-auto-"@ + hash
        } else {
            factor + "-"@ + characteristic + "-auto-"@ + hash
        }
    }
}

pub fn normalize_aspect_code(
    factor_code: &CnaFactorCode,
    characteristic_code: &str,
    aspect_code: &str,
    aspect_description: &str,
) -> (r: String)
    ensures
        r@ == aspect_code_spec(
            factor_code.text(),
            characteristic_code@,
            aspect_code@,
            aspect_description@,
        ),
{
    let normalized = normalize_identifier(aspect_code);
    if !normalized.as_str().is_empty() {
        return normalized;
    }
    let description_key = normalize_identifier(aspect_description);
    let hash = stable_short_hash(description_key.as_str());
    let characteristic = normalize_identifier(characteristic_code);
    let mut r = chars_of(factor_code.as_str());
    if characteristic.as_str().is_empty() {
        append_chars(&mut r, &chars_of("-auto-"));
    } else {
        append_chars(&mut r, &chars_of("-"));
        append_chars(&mut r, &chars_of(characteristic.as_str()));
        append_chars(&mut r, &chars_of("-auto-"));
    }
    append_chars(&mut r, &chars_of(hash.as_str()));
    string_of(&r)
}


// ---------------------------------------------------------------------------
// Records
// ---------------------------------------------------------------------------

/// The texts of a vector of strings.
pub open spec fn strs(v: Seq<String>) -> Seq<Seq<char>> {
    v.map_values(|s: String| s@)
}

pub open spec fn opt_str(o: Option<String>) -> Option<Seq<char>> {
    match o {
        Some(s) => Some(s@),
        None => None,
    }
}

pub fn clone_strings(v: &Vec<String>) -> (r: Vec<String>)
    ensures
        strs(r@) == strs(v@),
{
    let mut r: Vec<String> = Vec::new();
    let n = v.len();
    let mut i: usize = 0;
    while i < n
        invariant
            i <= n == v@.len(),
            strs(r@) =~= strs(v@).take(i as int),
        decreases n - i,
    {
        let ghost before = r@;
        let c = v[i].clone();
        r.push(c);
        assert(strs(r@) =~= strs(before).push(v@[i as int]@));
        assert(strs(v@).take(i + 1) =~= strs(v@).take(i as int).push(v@[i as int]@));
        i = i + 1;
    }
    assert(strs(v@).take(n as int) =~= strs(v@));
    r
}

pub fn clone_opt(o: &Option<String>) -> (r: Option<String>)
    ensures
        opt_str(r) == opt_str(*o),
{
    match o {
        Some(s) => Some(s.clone()),
        None => None,
    }
}

/// A question as it is created or edited, before it gets an identity.
#[derive(Debug, Clone, PartialEq, Eq)]
pub struct NewQuestion {
    pub code: String,
    pub text: String,
    pub scope: QuestionScope,
    pub format: String,
    pub convention_code: Option<String>,
    pub status: QuestionStatus,
    pub factor: String,
    pub characteristic: String,
    pub aspect: String,
    pub audiences: Vec<String>,
    pub justification: Option<String>,
}

pub struct NewQuestionView {
    pub code: Seq<char>,
    pub text: Seq<char>,
    pub scope: QuestionScope,
    pub format: Seq<char>,
    pub convention_code: Option<Seq<char>>,
    pub status: QuestionStatus,
    pub factor: Seq<char>,
    pub characteristic: Seq<char>,
    pub aspect: Seq<char>,
    pub audiences: Seq<Seq<char>>,
    pub justification: Option<Seq<char>>,
}

impl View for NewQuestion {
    type V = NewQuestionView;

    open spec fn view(&self) -> NewQuestionView {
        NewQuestionView {
            code: self.code@,
            text: self.text@,
            scope: self.scope,
            format: self.format@,
            convention_code: opt_str(self.convention_code),
            status: self.status,
            factor: self.factor@,
            characteristic: self.characteristic@,
            aspect: self.aspect@,
            audiences: strs(self.audiences@),
            justification: opt_str(self.justification),
        }
    }
}

impl NewQuestion {
    pub fn duplicate(&self) -> (r: Self)
        ensures
            r@ == self@,
    {
        NewQuestion {
            code: self.code.clone(),
            text: self.text.clone(),
            scope: self.scope,
            format: self.format.clone(),
            convention_code: clone_opt(&self.convention_code),
            status: self.status,
            factor: self.factor.clone(),
            characteristic: self.characteristic.clone(),
            aspect: self.aspect.clone(),
            audiences: clone_strings(&self.audiences),
            justification: clone_opt(&self.justification),
        }
    }
}

/// A question of the bank. `updated_at` is the time of the last change, in
/// nanoseconds since the Unix epoch (UTC).
#[derive(Debug, Clone, PartialEq, Eq)]
pub struct Question {
    pub id: String,
    pub code: String,
    pub text: String,
    pub scope: QuestionScope,
    pub format: String,
    pub convention_code: Option<String>,
    pub status: QuestionStatus,
    pub factor: String,
    pub characteristic: String,
    pub aspect: String,
    pub audiences: Vec<String>,
    pub justification: Option<String>,
    pub updated_at: i64,
}

pub struct QuestionView {
    pub id: Seq<char>,
    pub content: NewQuestionView,
    pub updated_at: i64,
}

impl View for Question {
    type V = QuestionView;

    open spec fn view(&self) -> QuestionView {
        QuestionView {
            id: self.id@,
            content: NewQuestionView {
                code: self.code@,
                text: self.text@,
                scope: self.scope,
                format: self.format@,
                convention_code: opt_str(self.convention_code),
                status: self.status,
                factor: self.factor@,
                characteristic: self.characteristic@,
                aspect: self.aspect@,
                audiences: strs(self.audiences@),
                justification: opt_str(self.justification),
            },
            updated_at: self.updated_at,
        }
    }
}

impl Question {
    pub fn duplicate(&self) -> (r: Self)
        ensures
            r@ == self@,
    {
        Question {
            id: self.id.clone(),
            code: self.code.clone(),
            text: self.text.clone(),
            scope: self.scope,
            format: self.format.clone(),
            convention_code: clone_opt(&self.convention_code),
            status: self.status,
            factor: self.factor.clone(),
            characteristic: self.characteristic.clone(),
            aspect: self.aspect.clone(),
            audiences: clone_strings(&self.audiences),
            justification: clone_opt(&self.justification),
            updated_at: self.updated_at,
        }
    }
}

pub open spec fn questions_view(v: Seq<Question>) -> Seq<QuestionView> {
    v.map_values(|q: Question| q@)
}

pub open spec fn new_questions_view(v: Seq<NewQuestion>) -> Seq<NewQuestionView> {
    v.map_values(|q: NewQuestion| q@)
}

/// A guideline aspect as it is created or edited.
#[derive(Debug, Clone, PartialEq, Eq)]
pub struct NewGuidelineAspect {
    pub guideline_title: String,
    pub scope: QuestionScope,
    pub factor_code: CnaFactorCode,
    pub factor_name: String,
    pub characteristic_code: String,
    pub characteristic_name: String,
    pub aspect_code: String,
    pub aspect_description: String,
    pub requires_appreciation: bool,
}

pub struct AspectView {
    pub guideline_title: Seq<char>,
    pub scope: QuestionScope,
    pub factor_code: Seq<char>,
    pub factor_name: Seq<char>,
    pub characteristic_code: Seq<char>,
    pub characteristic_name: Seq<char>,
    pub aspect_code: Seq<char>,
    pub aspect_description: Seq<char>,
    pub requires_appreciation: bool,
}

impl View for NewGuidelineAspect {
    type V = AspectView;

    open spec fn view(&self) -> AspectView {
        AspectView {
            guideline_title: self.guideline_title@,
            scope: self.scope,
            factor_code: self.factor_code.text(),
            factor_name: self.factor_name@,
            characteristic_code: self.characteristic_code@,
            characteristic_name: self.characteristic_name@,
            aspect_code: self.aspect_code@,
            aspect_description: self.aspect_description@,
            requires_appreciation: self.requires_appreciation,
        }
    }
}

impl NewGuidelineAspect {
    pub fn duplicate(&self) -> (r: Self)
        ensures
            r@ == self@,
    {
        NewGuidelineAspect {
            guideline_title: self.guideline_title.clone(),
            scope: self.scope,
            factor_code: self.factor_code.duplicate(),
            factor_name: self.factor_name.clone(),
            characteristic_code: self.characteristic_code.clone(),
            characteristic_name: self.characteristic_name.clone(),
            aspect_code: self.aspect_code.clone(),
            aspect_description: self.aspect_description.clone(),
            requires_appreciation: self.requires_appreciation,
        }
    }
}

pub open spec fn aspects_view(v: Seq<NewGuidelineAspect>) -> Seq<AspectView> {
    v.map_values(|a: NewGuidelineAspect| a@)
}

/// A guideline aspect of the bank.
#[derive(Debug, Clone, PartialEq, Eq)]
pub struct GuidelineAspect {
    pub id: String,
    pub guideline_title: String,
    pub scope: QuestionScope,
    pub factor_code: CnaFactorCode,
    pub factor_name: String,
    pub characteristic_code: String,
    pub characteristic_name: String,
    pub aspect_code: String,
    pub aspect_description: String,
    pub requires_appreciation: bool,
}

/// An imported workbook. `imported_at` is in nanoseconds since the Unix
/// epoch (UTC).
#[derive(Debug, Clone, PartialEq, Eq)]
pub struct SourceDocument {
    pub id: String,
    pub file_name: String,
    pub path: String,
    pub document_type: String,
    pub imported_at: i64,
    pub imported_rows: usize,
    pub skipped_rows: usize,
}

/// How the current bank compares with the original baseline.
#[derive(Debug, Clone, PartialEq, Eq)]
pub struct BaselineStatus {
    pub has_original: bool,
    pub source_document: Option<SourceDocument>,
    pub original_questions: usize,
    pub current_questions: usize,
    pub unchanged_questions: usize,
    pub modified_questions: usize,
    pub added_questions: usize,
    pub removed_questions: usize,
}

/// A question of the original baseline, with the hash of its content.
/// `marked_at` is in nanoseconds since the Unix epoch (UTC).
#[derive(Debug, Clone, PartialEq, Eq)]
pub struct OriginalQuestionSnapshot {
    pub id: String,
    pub question_id: String,
    pub source_document_id: String,
    pub code: String,
    pub text: String,
    pub scope: QuestionScope,
    pub format: String,
    pub convention_code: Option<String>,
    pub status: QuestionStatus,
    pub factor: String,
    pub characteristic: String,
    pub aspect: String,
    pub audiences: Vec<String>,
    pub content_hash: String,
    pub marked_by: String,
    pub marked_at: i64,
}

/// A finding of the readiness validation.
#[derive(Debug, Clone, PartialEq, Eq)]
pub struct ValidationIssue {
    pub id: String,
    pub severity: ValidationSeverity,
    pub entity: String,
    pub entity_id: String,
    pub message: String,
}

/// The review of one question inside one exported instrument.
/// `updated_at` is in nanoseconds since the Unix epoch (UTC).
#[derive(Debug, Clone, PartialEq, Eq)]
pub struct ProviderQuestionReview {
    pub id: String,
    pub question_id: String,
    pub instrument_audience: String,
    pub status: ProviderQuestionReviewStatus,
    pub observation: String,
    pub evidence_path: Option<String>,
    pub updated_at: i64,
}

/// A question to review inside one exported instrument, with its review if
/// there is one.
#[derive(Debug, Clone, PartialEq, Eq)]
pub struct ProviderQuestionReviewItem {
    pub question: Question,
    pub instrument_audience: String,
    pub instrument_label: String,
    pub review: Option<ProviderQuestionReview>,
}

#[derive(Debug, Clone, PartialEq, Eq)]
pub struct SaveProviderQuestionReviewRequest {
    pub question_id: String,
    pub instrument_audience: String,
    pub status: ProviderQuestionReviewStatus,
    pub observation: String,
    pub evidence_path: Option<String>,
}

#[derive(Debug, Clone, PartialEq, Eq)]
pub struct ResetProviderQuestionReviewsRequest {
    pub confirmation_text: String,
    pub instrument_audience: Option<String>,
}

#[derive(Debug, Clone, PartialEq, Eq)]
pub struct ResetProviderQuestionReviewsResult {
    pub deleted_reviews: usize,
}

#[derive(Debug, Clone, PartialEq, Eq)]
pub struct NewProviderLink {
    pub subaudience: String,
    pub url: String,
}

/// A survey link of a provider for one subaudience. `validated_at` is in
/// nanoseconds since the Unix epoch (UTC).
#[derive(Debug, Clone, PartialEq, Eq)]
pub struct ProviderLink {
    pub id: String,
    pub subaudience: String,
    pub url: String,
    pub validation_status: String,
    pub validated_at: Option<i64>,
}

#[derive(Debug, Clone, PartialEq, Eq)]
pub struct StatusCount {
    pub status: QuestionStatus,
    pub count: usize,
}

#[derive(Debug, Clone, PartialEq, Eq)]
pub struct UpdateQuestionRequest {
    pub question_id: String,
    pub question: NewQuestion,
    pub expected_updated_at: Option<i64>,
}

#[derive(Debug, Clone, PartialEq, Eq)]
pub struct MarkOriginalBaselineRequest {
    pub source_document_id: Option<String>,
    pub confirmation_text: String,
    pub acknowledge_replacement: bool,
    pub acknowledge_backup: bool,
}

#[derive(Debug, Clone, PartialEq, Eq)]
pub struct ResetDatabaseRequest {
    pub confirmation_text: String,
    pub acknowledge_backup: bool,
    pub acknowledge_irreversible: bool,
}

#[derive(Debug, Clone, PartialEq, Eq)]
pub struct ResetDatabaseResult {
    pub deleted: bool,
    pub message: String,
}

#[derive(Debug, Clone, PartialEq, Eq)]
pub struct DeleteGuidelineAspectRequest {
    pub aspect_id: String,
    pub confirmation_text: String,
    pub acknowledge_related_questions: bool,
}

#[derive(Debug, Clone, PartialEq, Eq)]
pub struct DeleteGuidelineAspectResult {
    pub deleted_aspect: bool,
    pub affected_questions: usize,
}

#[derive(Debug, Clone, PartialEq, Eq)]
pub struct UpdateGuidelineAspectRequest {
    pub aspect_id: String,
    pub aspect: NewGuidelineAspect,
}

#[derive(Debug, Clone, PartialEq, Eq)]
pub struct UpdateGuidelineAspectResult {
    pub aspect: GuidelineAspect,
    pub affected_questions: usize,
}

#[derive(Debug, Clone, PartialEq, Eq)]
pub struct RestoreHistorySnapshotRequest {
    pub snapshot_id: String,
    pub confirmation_text: String,
}

#[derive(Debug, Clone, PartialEq, Eq)]
pub struct DeleteHistorySnapshotRequest {
    pub snapshot_id: String,
    pub confirmation_text: String,
}

#[derive(Debug, Clone, PartialEq, Eq)]
pub struct ImportWorkbookRequest {
    pub path: String,
    pub cycle_name: Option<String>,
}

#[derive(Debug, Clone, PartialEq, Eq)]
pub struct ImportWorkbookResult {
    pub source_document_id: String,
    pub file_name: String,
    pub sheet_name: String,
    pub imported_questions: usize,
    pub imported_guideline_aspects: usize,
    pub skipped_rows: usize,
    pub detected_columns: Vec<String>,
}

#[derive(Debug, Clone, PartialEq, Eq)]
pub struct ImportWorkbookPreviewResult {
    pub file_name: String,
    pub sheet_name: String,
    pub detected_questions: usize,
    pub detected_guideline_aspects: usize,
    pub skipped_rows: usize,
    pub detected_columns: Vec<String>,
    pub detected_audiences: Vec<String>,
    pub warnings: Vec<String>,
}

#[derive(Debug, Clone, PartialEq, Eq)]
pub struct NewSourceDocument {
    pub id: String,
    pub file_name: String,
    pub path: String,
    pub document_type: String,
    pub imported_rows: usize,
    pub skipped_rows: usize,
}

#[derive(Debug, Clone, PartialEq, Eq)]
pub struct ExportWorkbookRequest {
    pub path: String,
    pub kind: ExportKind,
    pub instrument_public: Option<String>,
}

#[derive(Debug, Clone, PartialEq, Eq)]
pub struct ExportWorkbookResult {
    pub path: String,
    pub kind: ExportKind,
    pub exported_questions: usize,
    pub added_questions: usize,
    pub modified_questions: usize,
    pub removed_questions: usize,
}

#[derive(Debug, Clone, PartialEq, Eq)]
pub struct EditorProfile {
    pub full_name: String,
}

#[derive(Debug, Clone, PartialEq, Eq)]
pub struct SaveEditorProfileRequest {
    pub full_name: String,
}

#[derive(Debug, Clone, PartialEq, Eq)]
pub struct MicrosoftAccount {
    pub email: String,
    pub display_name: String,
}

#[derive(Debug, Clone, PartialEq, Eq)]
pub struct MicrosoftAuthConfig {
    pub client_id: String,
    pub tenant_id: String,
}

#[derive(Debug, Clone, PartialEq, Eq)]
pub struct MicrosoftLoginRequest {
    pub client_id: String,
    pub tenant_id: String,
}

#[derive(Debug, Clone, PartialEq, Eq)]
pub struct MicrosoftLoginResult {
    pub account: MicrosoftAccount,
    pub tenant_id: String,
    pub scopes: Vec<String>,
}

#[derive(Debug, Clone, PartialEq, Eq)]
pub struct SyncResult {
    pub method: String,
    pub message: String,
    pub database_path: String,
}

#[derive(Debug, Clone, PartialEq, Eq)]
pub struct ConfigureWorkspaceRequest {
    pub folder_path: String,
}

#[derive(Debug, Clone, PartialEq, Eq)]
pub struct OpenDatabaseRequest {
    pub database_path: String,
}

#[derive(Debug, Clone, PartialEq, Eq)]
pub struct ExportDatabasePackageRequest {
    pub path: String,
}

#[derive(Debug, Clone, PartialEq, Eq)]
pub struct OpenDatabasePackageRequest {
    pub path: String,
}

#[derive(Debug, Clone, PartialEq, Eq)]
pub struct DatabasePackageResult {
    pub path: String,
    pub message: String,
}

#[derive(Debug, Clone, PartialEq, Eq)]
pub struct WorkspaceStatus {
    pub database_path: String,
    pub configured_onedrive_path: Option<String>,
    pub turso_database_url: Option<String>,
    pub microsoft_account: Option<MicrosoftAccount>,
    pub microsoft_auth_config: Option<MicrosoftAuthConfig>,
    pub editor_profile: Option<EditorProfile>,
    pub graph_sync_available: bool,
    pub turso_connected: bool,
    pub has_questions: bool,
}

#[derive(Debug, Clone, PartialEq, Eq)]
pub struct SaveEvidenceAttachmentRequest {
    pub question_id: String,
    pub file_name: Option<String>,
    pub data_url: String,
}

#[derive(Debug, Clone, PartialEq, Eq)]
pub struct SaveEvidenceAttachmentResult {
    pub path: String,
}

#[derive(Debug, Clone, PartialEq, Eq)]
pub struct ExportProviderReviewDocxRequest {
    pub path: String,
    pub instrument_audience: Option<String>,
}

/// The error of a rejected request: its message.
#[derive(Debug, Clone, PartialEq, Eq)]
pub struct CommandError {
    pub message: String,
}

} // verus!
