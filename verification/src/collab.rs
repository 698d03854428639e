//! Editing locks: an editor holds a question or an aspect for a while, and
//! other editors are refused until the lock is released or expires.
use vstd::prelude::*;

use crate::text::{append_chars, chars_of, str_eq, string_of};

verus! {

/// What a lock is taken on.
#[derive(Debug, Clone, Copy, PartialEq, Eq, Structural)]
pub enum CollaborationResourceType {
    Question,
    GuidelineAspect,
}

impl CollaborationResourceType {
    pub open spec fn text(self) -> Seq<char> {
        match self {
            CollaborationResourceType::Question => "question"@,
            CollaborationResourceType::GuidelineAspect => "guideline_aspect"@,
        }
    }

    pub fn as_str(&self) -> (r: &'static str)
        ensures
            r@ == self.text(),
    {
        match self {
            CollaborationResourceType::Question => "question",
            CollaborationResourceType::GuidelineAspect => "guideline_aspect",
        }
    }

    /// The type stored as `value`; anything but "guideline_aspect" is a
    /// question.
    pub fn from_str(value: &str) -> (r: Self)
        ensures
            r == (if value@ == "guideline_aspect"@ {
                CollaborationResourceType::GuidelineAspect
            } else {
                CollaborationResourceType::Question
            }),
    {
        if str_eq(value, "guideline_aspect") {
            CollaborationResourceType::GuidelineAspect
        } else {
            CollaborationResourceType::Question
        }
    }
}

/// A lock held by an editor until `locked_until`; both times in
/// nanoseconds since the Unix epoch (UTC).
#[derive(Debug, Clone, PartialEq, Eq)]
pub struct CollaborationLock {
    pub resource_type: CollaborationResourceType,
    pub resource_id: String,
    pub editor_name: String,
    pub locked_until: i64,
    pub updated_at: i64,
}

pub struct LockView {
    pub resource_type: CollaborationResourceType,
    pub resource_id: Seq<char>,
    pub editor_name: Seq<char>,
    pub locked_until: i64,
    pub updated_at: i64,
}

impl View for CollaborationLock {
    type V = LockView;

    open spec fn view(&self) -> LockView {
        LockView {
            resource_type: self.resource_type,
            resource_id: self.resource_id@,
            editor_name: self.editor_name@,
            locked_until: self.locked_until,
            updated_at: self.updated_at,
        }
    }
}

pub open spec fn locks_view(s: Seq<CollaborationLock>) -> Seq<LockView> {
    s.map_values(|l: CollaborationLock| l@)
}

// ---------------------------------------------------------------------------
// Times
// ---------------------------------------------------------------------------

pub open spec fn nanos_per_second() -> int {
    1_000_000_000
}

/// A lock lasts the time asked for, and at least thirty seconds.
pub open spec fn lock_seconds(ttl_seconds: i64) -> int {
    if ttl_seconds < 30 {
        30
    } else {
        ttl_seconds as int
    }
}

/// The seconds of the day (UTC) of a time in nanoseconds.
pub open spec fn second_of_day(t: i64) -> int {
    (t as int / nanos_per_second()) % 86400
}

pub open spec fn two_digits(n: int) -> Seq<char> {
    seq![crate::workbook::digit_char((n / 10) as nat), crate::workbook::digit_char((n % 10) as nat)]
}

/// "HH:MM:SS" of a time (UTC).
pub open spec fn clock_text(t: i64) -> Seq<char> {
    let s = second_of_day(t);
    two_digits(s / 3600) + ":"@ + two_digits((s % 3600) / 60) + ":"@ + two_digits(s % 60)
}

proof fn shifted_second_of_day(t: i64, shifted: int)
    requires
        shifted == t as int + 86400 * 110000 * nanos_per_second(),
    ensures
        shifted >= 0,
        (shifted / nanos_per_second()) % 86400 == second_of_day(t),
{
    let n = nanos_per_second();
    assert(shifted / n == t as int / n + 86400 * 110000) by (nonlinear_arith)
        requires
            shifted == t as int + 86400 * 110000 * n,
            n == 1_000_000_000,
    ;
    assert((t as int / n + 86400 * 110000) % 86400 == (t as int / n) % 86400) by (nonlinear_arith);
}

fn two_digit_chars(n: u64) -> (r: Vec<char>)
    requires
        n < 100,
    ensures
        r@ == two_digits(n as int),
{
    let mut r = Vec::new();
    r.push(crate::workbook::digit((n / 10) as usize));
    r.push(crate::workbook::digit((n % 10) as usize));
    assert(r@ =~= two_digits(n as int));
    r
}

pub fn clock_chars(t: i64) -> (r: Vec<char>)
    ensures
        r@ == clock_text(t),
{
    let shifted: u128 = (t as i128 + 86400 * 110000 * 1_000_000_000) as u128;
    proof {
        shifted_second_of_day(t, shifted as int);
    }
    let s: u64 = ((shifted / 1_000_000_000) % 86400) as u64;
    assert(s == second_of_day(t));
    let mut r = two_digit_chars(s / 3600);
    append_chars(&mut r, &chars_of(":"));
    append_chars(&mut r, &two_digit_chars((s % 3600) / 60));
    append_chars(&mut r, &chars_of(":"));
    append_chars(&mut r, &two_digit_chars(s % 60));
    r
}

// ---------------------------------------------------------------------------
// The lock table
// ---------------------------------------------------------------------------

/// The locks on the same item.
pub open spec fn same_item(l: LockView, t: CollaborationResourceType, id: Seq<char>) -> bool {
    l.resource_type == t && l.resource_id == id
}

/// At most one lock per item.
pub open spec fn one_lock_per_item(s: Seq<LockView>) -> bool {
    forall|i: int, j: int|
        #![trigger s[i], s[j]]
        0 <= i < j < s.len() ==> !same_item(s[j], s[i].resource_type, s[i].resource_id)
}

/// The running locks on `t`/`id` at `now`.
pub open spec fn on_item(s: Seq<LockView>, t: CollaborationResourceType, id: Seq<char>, now: i64) -> Seq<LockView> {
    s.filter(held_by_item(t, id, now))
}

pub open spec fn held_by_item(t: CollaborationResourceType, id: Seq<char>, now: i64) -> spec_fn(LockView) -> bool {
    |l: LockView| l.locked_until > now && same_item(l, t, id)
}

pub open spec fn kept_lock(t: CollaborationResourceType, id: Seq<char>, now: i64) -> spec_fn(LockView) -> bool {
    |l: LockView| l.locked_until > now && !same_item(l, t, id)
}

pub open spec fn released_keeps(t: CollaborationResourceType, id: Seq<char>, editor: Seq<char>) -> spec_fn(LockView) -> bool {
    |l: LockView| !(same_item(l, t, id) && l.editor_name == editor)
}

/// The running locks on other items at `now`.
pub open spec fn kept(s: Seq<LockView>, t: CollaborationResourceType, id: Seq<char>, now: i64) -> Seq<LockView> {
    s.filter(kept_lock(t, id, now))
}

/// Who holds an item at `now`, and until when.
pub open spec fn holder(s: Seq<LockView>, t: CollaborationResourceType, id: Seq<char>, now: i64) -> Option<LockView> {
    let r = on_item(s, t, id, now);
    if r.len() > 0 {
        Some(r[0])
    } else {
        None
    }
}

pub open spec fn new_lock(t: CollaborationResourceType, id: Seq<char>, editor: Seq<char>, ttl_seconds: i64, now: i64) -> LockView {
    LockView {
        resource_type: t,
        resource_id: id,
        editor_name: editor,
        locked_until: (now + lock_seconds(ttl_seconds) * nanos_per_second()) as i64,
        updated_at: now,
    }
}

/// Taking a lock: refused while another editor holds the item; otherwise
/// expired locks are dropped and the editor's lock replaces any on the item.
pub open spec fn acquire_spec(
    s: Seq<LockView>,
    t: CollaborationResourceType,
    id: Seq<char>,
    editor: Seq<char>,
    ttl_seconds: i64,
    now: i64,
) -> Result<Seq<LockView>, LockView> {
    match holder(s, t, id, now) {
        Some(h) => if h.editor_name != editor {
            Err(h)
        } else {
            Ok(kept(s, t, id, now).push(new_lock(t, id, editor, ttl_seconds, now)))
        },
        None => Ok(kept(s, t, id, now).push(new_lock(t, id, editor, ttl_seconds, now))),
    }
}

/// Releasing: the editor's lock on the item goes; others' locks stay.
pub open spec fn release_spec(s: Seq<LockView>, t: CollaborationResourceType, id: Seq<char>, editor: Seq<char>) -> Seq<LockView> {
    s.filter(released_keeps(t, id, editor))
}

/// The message of a refused lock.
pub open spec fn busy_text(h: LockView) -> Seq<char> {
    h.editor_name + " is editing this item until "@ + clock_text(h.locked_until)
}

// ---------------------------------------------------------------------------
// Laws of the lock table
// ---------------------------------------------------------------------------

proof fn filter_push<A>(s: Seq<A>, x: A, p: spec_fn(A) -> bool)
    ensures
        s.push(x).filter(p) == (if p(x) {
            s.filter(p).push(x)
        } else {
            s.filter(p)
        }),
{
    reveal(Seq::filter);
    assert(s.push(x).drop_last() =~= s);
}

proof fn filter_keeps<A>(s: Seq<A>, p: spec_fn(A) -> bool, q: spec_fn(A) -> bool)
    requires
        forall|i: int| 0 <= i < s.len() ==> q(#[trigger] s[i]),
    ensures
        forall|i: int| 0 <= i < s.filter(p).len() ==> q(#[trigger] s.filter(p)[i]),
    decreases s.len(),
{
    reveal(Seq::filter);
    if s.len() > 0 {
        assert forall|i: int| 0 <= i < s.drop_last().len() implies q(#[trigger] s.drop_last()[i]) by {
            assert(s.drop_last()[i] == s[i]);
        }
        filter_keeps(s.drop_last(), p, q);
        assert(q(s[s.len() - 1]));
        let sub = s.drop_last().filter(p);
        assert forall|i: int| 0 <= i < s.filter(p).len() implies q(#[trigger] s.filter(p)[i]) by {
            if p(s.last()) {
                assert(s.filter(p) == sub.push(s.last()));
                if i < sub.len() {
                    assert(s.filter(p)[i] == sub[i]);
                }
            } else {
                assert(s.filter(p) == sub);
            }
        }
    }
}

proof fn filter_none<A>(s: Seq<A>, q: spec_fn(A) -> bool)
    requires
        forall|i: int| 0 <= i < s.len() ==> !q(#[trigger] s[i]),
    ensures
        s.filter(q).len() == 0,
    decreases s.len(),
{
    reveal(Seq::filter);
    if s.len() > 0 {
        assert forall|i: int| 0 <= i < s.drop_last().len() implies !q(#[trigger] s.drop_last()[i]) by {
            assert(s.drop_last()[i] == s[i]);
        }
        filter_none(s.drop_last(), q);
        assert(!q(s[s.len() - 1]));
    }
}

/// The table after `editor` took the item: other items' running locks,
/// then the new lock.
proof fn after_acquire(s: Seq<LockView>, t: CollaborationResourceType, id: Seq<char>, editor: Seq<char>, ttl_seconds: i64, now: i64, later: i64)
    requires
        acquire_spec(s, t, id, editor, ttl_seconds, now) is Ok,
    ensures
        ({
            let s1 = acquire_spec(s, t, id, editor, ttl_seconds, now)->Ok_0;
            let l = s1.last();
            &&& s1.len() > 0
            &&& same_item(l, t, id)
            &&& l.editor_name == editor
            &&& forall|i: int| 0 <= i < s1.len() - 1 ==> !same_item(#[trigger] s1[i], t, id)
            &&& holder(s1, t, id, later) == (if l.locked_until > later {
                Some(l)
            } else {
                None
            })
        }),
{
    let s1 = acquire_spec(s, t, id, editor, ttl_seconds, now)->Ok_0;
    let o = kept(s, t, id, now);
    let l = s1.last();
    assert(s1 == o.push(l));
    let keep = kept_lock(t, id, now);
    let held = held_by_item(t, id, later);
    s.filter_lemma(keep);
    assert forall|i: int| 0 <= i < o.len() implies !same_item(#[trigger] o[i], t, id) by {
        assert(keep(o[i]));
    }
    assert forall|i: int| 0 <= i < s1.len() - 1 implies !same_item(#[trigger] s1[i], t, id) by {
        assert(s1[i] == o[i]);
    }
    assert forall|i: int| 0 <= i < o.len() implies !held(#[trigger] o[i]) by {
        assert(!same_item(o[i], t, id));
    }
    filter_none(o, held);
    filter_push(o, l, held);
    assert(on_item(s1, t, id, later) == s1.filter(held));
}

/// While an editor's lock runs, every other editor is refused, and told
/// who holds the item.
pub proof fn lock_blocks_other_editors(
    s: Seq<LockView>,
    t: CollaborationResourceType,
    id: Seq<char>,
    holder_name: Seq<char>,
    ttl_seconds: i64,
    now: i64,
    other: Seq<char>,
    other_ttl: i64,
    later: i64,
)
    requires
        acquire_spec(s, t, id, holder_name, ttl_seconds, now) is Ok,
        other != holder_name,
        later < acquire_spec(s, t, id, holder_name, ttl_seconds, now)->Ok_0.last().locked_until,
    ensures
        acquire_spec(acquire_spec(s, t, id, holder_name, ttl_seconds, now)->Ok_0, t, id, other, other_ttl, later) matches Err(h)
            && h.editor_name == holder_name,
{
    after_acquire(s, t, id, holder_name, ttl_seconds, now, later);
}

/// The holder of a lock may take it again (renewing it).
pub proof fn holder_renews_lock(
    s: Seq<LockView>,
    t: CollaborationResourceType,
    id: Seq<char>,
    editor: Seq<char>,
    ttl_seconds: i64,
    now: i64,
    next_ttl: i64,
    later: i64,
)
    requires
        acquire_spec(s, t, id, editor, ttl_seconds, now) is Ok,
    ensures
        acquire_spec(acquire_spec(s, t, id, editor, ttl_seconds, now)->Ok_0, t, id, editor, next_ttl, later) is Ok,
{
    after_acquire(s, t, id, editor, ttl_seconds, now, later);
}

/// Once a lock has run out, anyone may take the item.
pub proof fn expired_lock_frees_item(
    s: Seq<LockView>,
    t: CollaborationResourceType,
    id: Seq<char>,
    editor: Seq<char>,
    ttl_seconds: i64,
    now: i64,
    other: Seq<char>,
    other_ttl: i64,
    later: i64,
)
    requires
        acquire_spec(s, t, id, editor, ttl_seconds, now) is Ok,
        later >= acquire_spec(s, t, id, editor, ttl_seconds, now)->Ok_0.last().locked_until,
    ensures
        acquire_spec(acquire_spec(s, t, id, editor, ttl_seconds, now)->Ok_0, t, id, other, other_ttl, later) is Ok,
{
    after_acquire(s, t, id, editor, ttl_seconds, now, later);
}

/// Once the holder releases the item, anyone may take it.
pub proof fn released_lock_frees_item(
    s: Seq<LockView>,
    t: CollaborationResourceType,
    id: Seq<char>,
    editor: Seq<char>,
    ttl_seconds: i64,
    now: i64,
    other: Seq<char>,
    other_ttl: i64,
    later: i64,
)
    requires
        acquire_spec(s, t, id, editor, ttl_seconds, now) is Ok,
    ensures
        acquire_spec(
            release_spec(acquire_spec(s, t, id, editor, ttl_seconds, now)->Ok_0, t, id, editor),
            t,
            id,
            other,
            other_ttl,
            later,
        ) is Ok,
{
    after_acquire(s, t, id, editor, ttl_seconds, now, later);
    let s1 = acquire_spec(s, t, id, editor, ttl_seconds, now)->Ok_0;
    let keep = released_keeps(t, id, editor);
    let not_item = |x: LockView| !same_item(x, t, id);
    let held = held_by_item(t, id, later);
    let o = s1.drop_last();
    assert(s1 == o.push(s1.last()));
    filter_push(o, s1.last(), keep);
    let s2 = release_spec(s1, t, id, editor);
    assert(s2 == o.filter(keep));
    assert forall|i: int| 0 <= i < o.len() implies not_item(#[trigger] o[i]) by {
        assert(o[i] == s1[i]);
    }
    filter_keeps(o, keep, not_item);
    assert forall|i: int| 0 <= i < s2.len() implies !held(#[trigger] s2[i]) by {
        assert(not_item(s2[i]));
    }
    filter_none(s2, held);
    assert(on_item(s2, t, id, later) == s2.filter(held));
}

// ---------------------------------------------------------------------------
// The executable table
// ---------------------------------------------------------------------------

/// The locks of a workspace.
#[derive(Debug)]
pub struct LockTable {
    pub locks: Vec<CollaborationLock>,
}

fn duplicate_lock(l: &CollaborationLock) -> (r: CollaborationLock)
    ensures
        r@ == l@,
{
    CollaborationLock {
        resource_type: l.resource_type,
        resource_id: l.resource_id.clone(),
        editor_name: l.editor_name.clone(),
        locked_until: l.locked_until,
        updated_at: l.updated_at,
    }
}

fn is_item(l: &CollaborationLock, t: CollaborationResourceType, id: &str) -> (r: bool)
    ensures
        r == same_item(l@, t, id@),
{
    let same_type = match (l.resource_type, t) {
        (CollaborationResourceType::Question, CollaborationResourceType::Question) => true,
        (CollaborationResourceType::GuidelineAspect, CollaborationResourceType::GuidelineAspect) => true,
        _ => false,
    };
    same_type && str_eq(l.resource_id.as_str(), id)
}

pub proof fn filter_step<A>(s: Seq<A>, i: int, p: spec_fn(A) -> bool)
    requires
        0 <= i < s.len(),
    ensures
        s.take(i + 1).filter(p) == (if p(s[i]) {
            s.take(i).filter(p).push(s[i])
        } else {
            s.take(i).filter(p)
        }),
{
    assert(s.take(i + 1) =~= s.take(i).push(s[i]));
    filter_push(s.take(i), s[i], p);
}

impl LockTable {
    pub fn new() -> (r: Self)
        ensures
            r.locks@.len() == 0,
    {
        LockTable { locks: Vec::new() }
    }

    /// Who holds the item at `now` (see `holder`).
    pub fn holder_of(&self, t: CollaborationResourceType, id: &str, now: i64) -> (r: Option<CollaborationLock>)
        ensures
            match holder(locks_view(self.locks@), t, id@, now) {
                Some(h) => r matches Some(l) && l@ == h,
                None => r is None,
            },
    {
        let ghost s = locks_view(self.locks@);
        let n = self.locks.len();
        let mut i: usize = 0;
        assert(s.take(0).filter(held_by_item(t, id@, now)) =~= Seq::<LockView>::empty()) by {
            reveal(Seq::filter);
        }
        while i < n
            invariant
                i <= n == self.locks@.len(),
                s == locks_view(self.locks@),
                s.take(i as int).filter(held_by_item(t, id@, now)).len() == 0,
            decreases n - i,
        {
            proof {
                filter_step(s, i as int, held_by_item(t, id@, now));
            }
            assert(s[i as int] == self.locks@[i as int]@);
            if self.locks[i].locked_until > now && is_item(&self.locks[i], t, id) {
                proof {
                    assert(s =~= s.take(i + 1) + s.skip(i + 1));
                    Seq::filter_distributes_over_add(s.take(i + 1), s.skip(i + 1), held_by_item(t, id@, now));
                    assert(s.take(i + 1).filter(held_by_item(t, id@, now)) =~= seq![s[i as int]]);
                    s.skip(i + 1).filter_lemma(held_by_item(t, id@, now));
                }
                return Some(duplicate_lock(&self.locks[i]));
            }
            i = i + 1;
        }
        assert(s.take(n as int) =~= s);
        None
    }

    /// Takes the item for `editor` until `ttl_seconds` (at least thirty)
    /// from `now` (see `acquire_spec`); a refusal names the holder and the
    /// time of day (UTC) its lock runs to, and leaves the table as it was.
    pub fn acquire(&mut self, t: CollaborationResourceType, id: &str, editor: &str, ttl_seconds: i64, now: i64) -> (r: Result<CollaborationLock, String>)
        requires
            now + lock_seconds(ttl_seconds) * nanos_per_second() <= i64::MAX,
        ensures
            match acquire_spec(locks_view(old(self).locks@), t, id@, editor@, ttl_seconds, now) {
                Ok(s) => (r matches Ok(l) && l@ == s.last()) && locks_view(final(self).locks@) == s,
                Err(h) => (r matches Err(m) && m@ == busy_text(h)) && final(self).locks@ == old(self).locks@,
            },
    {
        let ghost s = locks_view(self.locks@);
        match self.holder_of(t, id, now) {
            Some(h) => {
                if !str_eq(h.editor_name.as_str(), editor) {
                    let mut m = chars_of(h.editor_name.as_str());
                    append_chars(&mut m, &chars_of(" is editing this item until "));
                    append_chars(&mut m, &clock_chars(h.locked_until));
                    return Err(string_of(&m));
                }
            },
            None => {},
        }
        let mut next: Vec<CollaborationLock> = Vec::new();
        let n = self.locks.len();
        let mut i: usize = 0;
        assert(s.take(0).filter(kept_lock(t, id@, now)) =~= Seq::<LockView>::empty()) by {
            reveal(Seq::filter);
        }
        assert(locks_view(next@) =~= Seq::<LockView>::empty());
        while i < n
            invariant
                i <= n == self.locks@.len(),
                s == locks_view(self.locks@),
                locks_view(next@) == s.take(i as int).filter(kept_lock(t, id@, now)),
            decreases n - i,
        {
            proof {
                filter_step(s, i as int, kept_lock(t, id@, now));
            }
            assert(s[i as int] == self.locks@[i as int]@);
            if self.locks[i].locked_until > now && !is_item(&self.locks[i], t, id) {
                let ghost before = next@;
                next.push(duplicate_lock(&self.locks[i]));
                assert(locks_view(next@) =~= locks_view(before).push(s[i as int]));
            }
            i = i + 1;
        }
        assert(s.take(n as int) =~= s);
        let seconds: i64 = if ttl_seconds < 30 { 30 } else { ttl_seconds };
        assert(seconds == lock_seconds(ttl_seconds));
        let lock = CollaborationLock {
            resource_type: t,
            resource_id: id.to_owned(),
            editor_name: editor.to_owned(),
            locked_until: (now as i128 + seconds as i128 * 1_000_000_000) as i64,
            updated_at: now,
        };
        let ghost before = next@;
        next.push(duplicate_lock(&lock));
        assert(locks_view(next@) =~= locks_view(before).push(lock@));
        self.locks = next;
        Ok(lock)
    }

    /// Gives up `editor`'s lock on the item (see `release_spec`).
    pub fn release(&mut self, t: CollaborationResourceType, id: &str, editor: &str)
        ensures
            locks_view(final(self).locks@) == release_spec(locks_view(old(self).locks@), t, id@, editor@),
    {
        let ghost s = locks_view(self.locks@);
        let mut next: Vec<CollaborationLock> = Vec::new();
        let n = self.locks.len();
        let mut i: usize = 0;
        assert(s.take(0).filter(released_keeps(t, id@, editor@)) =~= Seq::<LockView>::empty()) by {
            reveal(Seq::filter);
        }
        assert(locks_view(next@) =~= Seq::<LockView>::empty());
        while i < n
            invariant
                i <= n == self.locks@.len(),
                s == locks_view(self.locks@),
                locks_view(next@) == s.take(i as int).filter(released_keeps(t, id@, editor@)),
            decreases n - i,
        {
            proof {
                filter_step(s, i as int, released_keeps(t, id@, editor@));
            }
            assert(s[i as int] == self.locks@[i as int]@);
            let item = is_item(&self.locks[i], t, id);
            let mine = str_eq(self.locks[i].editor_name.as_str(), editor);
            assert(same_item(s[i as int], t, id@) == item);
            assert((s[i as int].editor_name == editor@) == mine);
            assert(released_keeps(t, id@, editor@)(s[i as int]) == !(item && mine));
            if !(item && mine) {
                assert(released_keeps(t, id@, editor@)(s[i as int]));
                let ghost before = next@;
                next.push(duplicate_lock(&self.locks[i]));
                assert(locks_view(next@) =~= locks_view(before).push(s[i as int]));
                assert(locks_view(next@) == s.take(i + 1).filter(released_keeps(t, id@, editor@)));
            } else {
                assert(!released_keeps(t, id@, editor@)(s[i as int]));
                assert(locks_view(next@) == s.take(i + 1).filter(released_keeps(t, id@, editor@)));
            }
            i = i + 1;
        }
        assert(s.take(n as int) =~= s);
        self.locks = next;
    }
}

} // verus!
