//! Instrument definitions: the públicos assigned to an exported instrument
//! workbook, with their keys and labels.
use vstd::prelude::*;

use crate::audience::{
    column_label_spec, display_instrument_column_label, display_public_label, display_public_spec,
    parse_spec, InstrumentAudience,
};
use crate::domain::strs;
use crate::importer::{insert_sorted_unique, strictly_sorted};
use crate::text::{
    ascii_lower, char_ascii_lower, chars_of, join, join_words, split_words, str_eq, string_of,
    trim, trim_chars, views, words, Sep,
};

verus! {

/// The label under which a público key is shown in an instrument: the
/// público's label for a público, the column label for a subpúblico.
pub open spec fn assignment_label_spec(key: Seq<char>) -> Seq<char> {
    let (public, column) = parse_spec(key);
    if public == key {
        display_public_spec(key)
    } else {
        column_label_spec(public, key)
    }
}

pub fn display_assignment_label(public_key: &str) -> (r: String)
    ensures
        r@ == assignment_label_spec(public_key@),
{
    let parsed = InstrumentAudience::parse(public_key);
    if str_eq(parsed.public.as_str(), public_key) {
        display_public_label(public_key)
    } else {
        display_instrument_column_label(parsed.public.as_str(), public_key)
    }
}

/// The keys assigned to an instrument: the given values trimmed, blank
/// ones left out, sorted and each once.
pub open spec fn public_keys_ok(values: Seq<Seq<char>>, r: Seq<Seq<char>>) -> bool {
    &&& strictly_sorted(r)
    &&& r.to_set() == Set::new(
        |k: Seq<char>|
            k.len() > 0 && exists|j: int| 0 <= j < values.len() && trim(#[trigger] values[j]) == k,
    )
}

pub fn normalized_public_keys(values: Vec<String>) -> (r: Vec<String>)
    ensures
        public_keys_ok(strs(values@), strs(r@)),
{
    let ghost a = strs(values@);
    let mut keys: Vec<Vec<char>> = Vec::new();
    let n = values.len();
    let mut i: usize = 0;
    assert(views(keys@).to_set() =~= Set::new(
        |k: Seq<char>| k.len() > 0 && exists|j: int| 0 <= j < 0 && trim(#[trigger] a[j]) == k,
    ));
    while i < n
        invariant
            i <= n == values@.len(),
            a == strs(values@),
            strictly_sorted(views(keys@)),
            views(keys@).to_set() == Set::new(
                |k: Seq<char>| k.len() > 0 && exists|j: int| 0 <= j < i && trim(#[trigger] a[j]) == k,
            ),
        decreases n - i,
    {
        let key = trim_chars(&chars_of(values[i].as_str()));
        let ghost before = views(keys@).to_set();
        assert(a[i as int] == values@[i as int]@);
        let ghost kv = key@;
        if key.len() > 0 {
            insert_sorted_unique(&mut keys, key);
        }
        assert(views(keys@).to_set() =~= Set::new(
            |k: Seq<char>| k.len() > 0 && exists|j: int| 0 <= j < i + 1 && trim(#[trigger] a[j]) == k,
        )) by {
            assert forall|k: Seq<char>|
                k.len() > 0 && (exists|j: int| 0 <= j < i + 1 && trim(#[trigger] a[j]) == k)
                implies #[trigger] views(keys@).to_set().contains(k) by {
                let j = choose|j: int| 0 <= j < i + 1 && trim(#[trigger] a[j]) == k;
                if j < i {
                    assert(before.contains(k));
                }
            }
            assert forall|k: Seq<char>| #[trigger] views(keys@).to_set().contains(k) implies k.len() > 0
                && (exists|j: int| 0 <= j < i + 1 && trim(#[trigger] a[j]) == k) by {
                if before.contains(k) {
                } else {
                    assert(k == kv);
                }
            }
        }
        i = i + 1;
    }
    let mut r: Vec<String> = Vec::new();
    let m = keys.len();
    let mut j: usize = 0;
    while j < m
        invariant
            j <= m == keys@.len(),
            strs(r@) == views(keys@).take(j as int),
        decreases m - j,
    {
        r.push(string_of(&keys[j]));
        assert(views(keys@).take(j + 1) =~= views(keys@).take(j as int).push(keys@[j as int]@));
        assert(strs(r@) =~= views(keys@).take(j + 1));
        j = j + 1;
    }
    assert(views(keys@).take(m as int) =~= views(keys@));
    r
}

/// The key of a custom instrument: its label's ASCII letters and digits in
/// lower case, other runs as one dash; `None` when nothing is left.
pub open spec fn label_key_spec(label: Seq<char>) -> Option<Seq<char>> {
    let w = words(Sep::NonAlnum, label.map_values(|c: char| ascii_lower(c)));
    if w.len() == 0 {
        None
    } else {
        Some(join(w, "-"@))
    }
}

fn label_key(label: &str) -> (r: Option<String>)
    ensures
        match r {
            Some(k) => label_key_spec(label@) == Some(k@),
            None => label_key_spec(label@) is None,
        },
{
    let v = chars_of(label);
    let mut lowered: Vec<char> = Vec::new();
    let n = v.len();
    let mut i: usize = 0;
    while i < n
        invariant
            i <= n == v@.len(),
            v@ == label@,
            lowered@ == v@.take(i as int).map_values(|c: char| ascii_lower(c)),
        decreases n - i,
    {
        lowered.push(char_ascii_lower(v[i]));
        assert(v@.take(i + 1).map_values(|c: char| ascii_lower(c)) =~= v@.take(i as int).map_values(
            |c: char| ascii_lower(c),
        ).push(ascii_lower(v@[i as int])));
        i = i + 1;
    }
    assert(v@.take(n as int) =~= v@);
    let w = split_words(Sep::NonAlnum, &lowered);
    if w.len() == 0 {
        None
    } else {
        Some(string_of(&join_words(&w, &chars_of("-"))))
    }
}

/// The key of an instrument labelled `value`: its label key, or a new
/// random identifier when the label has no letters or digits.
pub fn slugify_key(value: &str) -> (r: String)
    ensures
        label_key_spec(value@) matches Some(k) ==> r@ == k,
        label_key_spec(value@) is None ==> r@.len() == 36,
{
    match label_key(value) {
        Some(k) => k,
        None => crate::validation::new_uuid(),
    }
}

/// An instrument definition ready to store: its label, key, público keys
/// and their labels.
#[derive(Debug)]
pub struct InstrumentDraft {
    pub label: String,
    pub key: String,
    pub public_keys: Vec<String>,
    pub public_labels: Vec<String>,
}

pub open spec fn draft_ok(label: Seq<char>, keys: Seq<Seq<char>>, is_system: bool, d: InstrumentDraft) -> bool {
    &&& d.label@ == trim(label)
    &&& public_keys_ok(keys, strs(d.public_keys@))
    &&& d.public_labels@.len() == d.public_keys@.len()
    &&& forall|i: int|
        0 <= i < d.public_keys@.len() ==> (#[trigger] d.public_labels@[i])@ == assignment_label_spec(
            d.public_keys@[i]@,
        )
    &&& is_system ==> d.key@ == parse_spec(d.public_keys@[0]@).0
    &&& !is_system && label_key_spec(trim(label)) is Some ==> label_key_spec(trim(label)) == Some(
        d.key@,
    )
}

/// An instrument definition as asked for: a label is required, and at
/// least one público; a system instrument is keyed by the público of its
/// first key, a custom one by its label (see `slugify_key`).
pub fn prepare_instrument_definition(label: &str, public_keys: Vec<String>, is_system: bool) -> (r: Result<InstrumentDraft, String>)
    ensures
        trim(label@).len() == 0 ==> (r matches Err(m) && m@ == "instrument label is required"@),
        trim(label@).len() > 0 && (forall|j: int|
            0 <= j < public_keys@.len() ==> trim(#[trigger] public_keys@[j]@).len() == 0) ==> (r matches Err(m)
            && m@ == "assign at least one public to the instrument"@),
        trim(label@).len() > 0 && (exists|j: int|
            0 <= j < public_keys@.len() && trim(#[trigger] public_keys@[j]@).len() > 0) ==> (r matches Ok(d)
            && draft_ok(label@, strs(public_keys@), is_system, d)),
{
    let ghost values = strs(public_keys@);
    let ghost pk = public_keys@;
    let trimmed = string_of(&trim_chars(&chars_of(label)));
    if trimmed.as_str().is_empty() {
        return Err(crate::text::lit("instrument label is required"));
    }
    let keys = normalized_public_keys(public_keys);
    if keys.len() == 0 {
        proof {
            assert forall|j: int| 0 <= j < pk.len() implies trim((#[trigger] pk[j])@).len() == 0 by {
                assert(values[j] == pk[j]@);
                if trim(values[j]).len() > 0 {
                    assert(strs(keys@).to_set().contains(trim(values[j])));
                }
            }
        }
        return Err(crate::text::lit("assign at least one public to the instrument"));
    }
    let key = if is_system {
        InstrumentAudience::parse(keys[0].as_str()).public
    } else {
        slugify_key(trimmed.as_str())
    };
    let mut labels: Vec<String> = Vec::new();
    let n = keys.len();
    let mut i: usize = 0;
    while i < n
        invariant
            i <= n == keys@.len(),
            labels@.len() == i,
            forall|k: int| 0 <= k < i ==> (#[trigger] labels@[k])@ == assignment_label_spec(keys@[k]@),
        decreases n - i,
    {
        labels.push(display_assignment_label(keys[i].as_str()));
        i = i + 1;
    }
    proof {
        assert(strs(keys@)[0] == keys@[0]@);
        assert(strs(keys@).to_set().contains(keys@[0]@));
    }
    Ok(InstrumentDraft { label: trimmed, key, public_keys: keys, public_labels: labels })
}

} // verus!
