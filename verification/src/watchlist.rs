use vstd::prelude::*;

use crate::json::{json_of_text, lemma_object_view, members_view, parse_json_text, views, Json, JsonV};
use crate::text::{decimal, lemma_decimal_round_trip, parse_u64, str_eq, strings_view, u64_from_str};

verus! {

/// Where the watch list is kept, relative to the home directory.
pub const WATCH_FILE: &'static str = "firefox-triage/ni-watch.json";

// ---------------------------------------------------------------------
// Instants
// ---------------------------------------------------------------------

/// A moment in UTC: whole seconds since the Unix epoch and the nanoseconds
/// within that second (a leap second counts its nanoseconds past one
/// billion).
#[derive(Clone, Copy, Debug, PartialEq, Eq, Structural)]
pub struct Instant {
    pub secs: i64,
    pub nanos: u32,
}

/// The instant that chrono reads from a date-time text (RFC 3339, with a
/// space or `T` between date and time), as (seconds, nanoseconds); `None`
/// when chrono rejects the text.
pub uninterp spec fn rfc3339_utc(s: Seq<char>) -> Option<(i64, u32)>;

/// Calls `str::parse::<chrono::DateTime<chrono::Utc>>` and, on success, reads
/// the result's `timestamp()` and `timestamp_subsec_nanos()`. Claimed: the
/// result is `rfc3339_utc` of the text (a function of the text alone).
#[verifier::external_body]
fn parse_utc(s: &str) -> (r: Option<Instant>)
    ensures
        match r {
            Some(t) => rfc3339_utc(s@) == Some((t.secs, t.nanos)),
            None => rfc3339_utc(s@) is None,
        },
{
    match s.parse::<chrono::DateTime<chrono::Utc>>() {
        Ok(t) => Some(Instant { secs: t.timestamp(), nanos: t.timestamp_subsec_nanos() }),
        Err(_) => None,
    }
}

/// The instant of a (seconds, nanoseconds) pair.
pub open spec fn instant_of(p: (i64, u32)) -> Instant {
    Instant { secs: p.0, nanos: p.1 }
}

/// The instant a date-time text denotes, if it is one.
pub open spec fn parsed_instant(s: Seq<char>) -> Option<Instant> {
    match rfc3339_utc(s) {
        Some(p) => Some(instant_of(p)),
        None => None,
    }
}

impl Instant {
    /// Reads a date-time text as chrono reads a `DateTime<Utc>`.
    pub fn parse(s: &str) -> (r: Option<Instant>)
        ensures
            r == parsed_instant(s@),
    {
        parse_utc(s)
    }
}

/// Whether `a` is strictly later than `b`.
pub open spec fn later_than(a: Instant, b: Instant) -> bool {
    a.secs > b.secs || (a.secs == b.secs && a.nanos > b.nanos)
}

/// Whether `a` is strictly later than `b`.
pub fn is_later(a: Instant, b: Instant) -> (r: bool)
    ensures
        r == later_than(a, b),
{
    a.secs > b.secs || (a.secs == b.secs && a.nanos > b.nanos)
}

/// Integer division rounded toward zero.
pub open spec fn div_toward_zero(a: int, b: int) -> int {
    if a >= 0 {
        a / b
    } else {
        -((-a) / b)
    }
}

/// The whole days from `earlier` to `later`, as chrono counts them in
/// `(later - earlier).num_days()`: the difference of the two times (a leap
/// second counted as chrono counts it), cut to whole seconds and then to whole
/// days, both toward zero.
pub open spec fn whole_days(later: Instant, earlier: Instant) -> int {
    let sod_l = later.secs as int % 86400;
    let sod_e = earlier.secs as int % 86400;
    let adj: int = if sod_l > sod_e && earlier.nanos >= 1_000_000_000 {
        1
    } else if sod_l < sod_e && later.nanos >= 1_000_000_000 {
        -1
    } else {
        0
    };
    let frac = later.nanos as int - earlier.nanos as int;
    let secs = later.secs as int - earlier.secs as int + adj + frac / 1_000_000_000;
    let nanos = frac % 1_000_000_000;
    let whole_secs = if secs < 0 && nanos > 0 {
        secs + 1
    } else {
        secs
    };
    div_toward_zero(whole_secs, 86400)
}

/// The whole days from `earlier` to `later` (see `whole_days`).
pub fn days_between(later: Instant, earlier: Instant) -> (r: i64)
    ensures
        r == whole_days(later, earlier),
{
    let ls = later.secs as i128;
    let es = earlier.secs as i128;
    let sod_l = ls.checked_rem_euclid(86400).unwrap();
    let sod_e = es.checked_rem_euclid(86400).unwrap();
    let adj: i128 = if sod_l > sod_e && earlier.nanos >= 1_000_000_000 {
        1
    } else if sod_l < sod_e && later.nanos >= 1_000_000_000 {
        -1
    } else {
        0
    };
    let frac = later.nanos as i128 - earlier.nanos as i128;
    let from_frac = frac.checked_div_euclid(1_000_000_000).unwrap();
    let nanos = frac.checked_rem_euclid(1_000_000_000).unwrap();
    assert(-5 <= from_frac <= 5) by (nonlinear_arith)
        requires
            from_frac == frac / 1_000_000_000,
            -5_000_000_000 <= frac <= 5_000_000_000,
    ;
    let secs = ls - es + adj + from_frac;
    let whole_secs = if secs < 0 && nanos > 0 {
        secs + 1
    } else {
        secs
    };
    let days = whole_secs.checked_div(86400).unwrap();
    assert(-0x4_0000_0000_0000 <= days <= 0x4_0000_0000_0000) by (nonlinear_arith)
        requires
            whole_secs >= 0 ==> days == whole_secs / 86400,
            whole_secs < 0 ==> days == -((-whole_secs) / 86400),
            -0x2_0000_0000_0000_0000 <= whole_secs <= 0x2_0000_0000_0000_0000,
    ;
    days as i64
}

// ---------------------------------------------------------------------
// Replies and needinfo flags
// ---------------------------------------------------------------------

/// The `creator` of a comment, or the empty text when it has none.
pub open spec fn creator_of(c: JsonV) -> Seq<char> {
    match c.get("creator"@).as_str() {
        Some(s) => s,
        None => Seq::empty(),
    }
}

/// The instant a comment was made, if its `creation_time` reads as one.
pub open spec fn comment_time(c: JsonV) -> Option<Instant> {
    match c.get("creation_time"@).as_str() {
        Some(s) => parsed_instant(s),
        None => None,
    }
}

/// Whether a comment made at `time` counts as a reply: its creator is one of
/// the targets and it was made after the needinfo was set.
pub open spec fn reply_at(c: JsonV, time: Option<Instant>, targets: Seq<Seq<char>>, ni_date: Instant) -> bool {
    targets.contains(creator_of(c)) && match time {
        Some(t) => later_than(t, ni_date),
        None => false,
    }
}

/// Whether a comment is a reply by one of the targets after `ni_date`.
pub open spec fn is_reply(c: JsonV, targets: Seq<Seq<char>>, ni_date: Instant) -> bool {
    reply_at(c, comment_time(c), targets, ni_date)
}

/// Whether some comment is a reply by one of the targets after `ni_date`.
pub open spec fn replied(comments: Seq<JsonV>, targets: Seq<Seq<char>>, ni_date: Instant) -> bool {
    exists|i: int| 0 <= i < comments.len() && is_reply(#[trigger] comments[i], targets, ni_date)
}

/// Whether a flag is an open needinfo request to `target`.
pub open spec fn open_ni_for(f: JsonV, target: Seq<char>) -> bool {
    &&& f.get("name"@).as_str() == Some("needinfo"@)
    &&& f.get("status"@).as_str() == Some("?"@)
    &&& f.get("requestee"@).as_str() == Some(target)
}

/// Whether no flag is an open needinfo request to any of the targets.
pub open spec fn ni_cleared(flags: Seq<JsonV>, targets: Seq<Seq<char>>) -> bool {
    !exists|t: int, i: int|
        0 <= t < targets.len() && 0 <= i < flags.len() && open_ni_for(#[trigger] flags[i], #[trigger] targets[t])
}

fn str_of<'a>(j: Option<&'a Json>) -> (r: Option<&'a String>)
    ensures
        match j {
            Some(v) => match r {
                Some(s) => v@.as_str() == Some(s@),
                None => v@.as_str() is None,
            },
            None => r is None,
        },
{
    match j {
        Some(v) => v.as_str(),
        None => None,
    }
}

fn contains_str(items: &[String], s: &str) -> (r: bool)
    ensures
        r == strings_view(items@).contains(s@),
{
    let mut i: usize = 0;
    while i < items.len()
        invariant
            i <= items@.len(),
            forall|k: int| 0 <= k < i ==> items@[k]@ != s@,
        decreases items@.len() - i,
    {
        if str_eq(items[i].as_str(), s) {
            assert(strings_view(items@)[i as int] == s@);
            return true;
        }
        i = i + 1;
    }
    assert forall|k: int| 0 <= k < strings_view(items@).len() implies strings_view(items@)[k] != s@ by {
        assert(strings_view(items@)[k] == items@[k]@);
    }
    false
}

/// Whether a comment made at `time` counts as a reply by one of `targets`
/// after `ni_date` (`time` is the comment's `creation_time`, read).
pub fn counts_as_reply(comment: &Json, time: Option<Instant>, targets: &[String], ni_date: Instant) -> (r: bool)
    ensures
        r == reply_at(comment@, time, strings_view(targets@), ni_date),
{
    let creator = str_of(comment.get("creator"));
    let by_target = match creator {
        Some(c) => contains_str(targets, c.as_str()),
        None => contains_str(targets, ""),
    };
    proof {
        if creator is None {
            assert(""@ =~= Seq::<char>::empty()) by {
                reveal_strlit("");
            }
        }
    }
    let after = match time {
        Some(t) => is_later(t, ni_date),
        None => false,
    };
    by_target && after
}

/// Whether one of the comments is a reply by one of `targets` made after
/// `ni_date`.
pub fn has_replied(comments: &[Json], targets: &[String], ni_date: Instant) -> (r: bool)
    ensures
        r == replied(views(comments@), strings_view(targets@), ni_date),
        forall|i: int|
            0 <= i < comments@.len() && strings_view(targets@).contains(creator_of((#[trigger] comments@[i])@)) && (
            match comment_time(comments@[i]@) {
                Some(w) => later_than(w, ni_date),
                None => false,
            }) ==> r,
        r ==> exists|i: int|
            0 <= i < comments@.len() && strings_view(targets@).contains(creator_of((#[trigger] comments@[i])@)) && (
            match comment_time(comments@[i]@) {
                Some(w) => later_than(w, ni_date),
                None => false,
            }),
{
    proof {
        law_reply_anywhere(views(comments@), strings_view(targets@), ni_date);
        assert forall|i: int| 0 <= i < comments@.len() implies (#[trigger] comments@[i])@ == views(comments@)[i] by {}
    }
    let ghost cs = views(comments@);
    let mut i: usize = 0;
    while i < comments.len()
        invariant
            i <= comments@.len(),
            cs == views(comments@),
            forall|k: int| 0 <= k < i ==> !is_reply(#[trigger] cs[k], strings_view(targets@), ni_date),
        decreases comments@.len() - i,
    {
        let c = &comments[i];
        let time = match str_of(c.get("creation_time")) {
            Some(s) => Instant::parse(s.as_str()),
            None => None,
        };
        assert(cs[i as int] == c@);
        if counts_as_reply(c, time, targets, ni_date) {
            return true;
        }
        i = i + 1;
    }
    false
}

/// Whether none of the flags is an open needinfo request (`name` "needinfo",
/// `status` "?") to one of `targets`.
pub fn ni_is_cleared(flags: &[Json], targets: &[String]) -> (r: bool)
    ensures
        r == ni_cleared(views(flags@), strings_view(targets@)),
{
    let ghost fs = views(flags@);
    let ghost ts = strings_view(targets@);
    let mut t: usize = 0;
    while t < targets.len()
        invariant
            t <= targets@.len(),
            fs == views(flags@),
            ts == strings_view(targets@),
            forall|a: int, b: int| 0 <= a < t && 0 <= b < fs.len() ==> !open_ni_for(#[trigger] fs[b], #[trigger] ts[a]),
        decreases targets@.len() - t,
    {
        let target = targets[t].as_str();
        let mut i: usize = 0;
        while i < flags.len()
            invariant
                t < targets@.len(),
                i <= flags@.len(),
                fs == views(flags@),
                ts == strings_view(targets@),
                target@ == ts[t as int],
                forall|a: int, b: int| 0 <= a < t && 0 <= b < fs.len() ==> !open_ni_for(#[trigger] fs[b], #[trigger] ts[a]),
                forall|b: int| 0 <= b < i ==> !open_ni_for(#[trigger] fs[b], ts[t as int]),
            decreases flags@.len() - i,
        {
            let f = &flags[i];
            assert(fs[i as int] == f@);
            let name_ok = match str_of(f.get("name")) {
                Some(s) => str_eq(s.as_str(), "needinfo"),
                None => false,
            };
            let status_ok = match str_of(f.get("status")) {
                Some(s) => str_eq(s.as_str(), "?"),
                None => false,
            };
            let requestee_ok = match str_of(f.get("requestee")) {
                Some(s) => str_eq(s.as_str(), target),
                None => false,
            };
            if name_ok && status_ok && requestee_ok {
                assert(open_ni_for(fs[i as int], ts[t as int]));
                return false;
            }
            i = i + 1;
        }
        t = t + 1;
    }
    true
}


// ---------------------------------------------------------------------
// Maps of named entries
// ---------------------------------------------------------------------

/// Whether no two pairs share a name.
pub open spec fn keys_unique(s: Seq<(Seq<char>, JsonV)>) -> bool {
    forall|i: int, j: int| 0 <= i < s.len() && 0 <= j < s.len() && i != j ==> #[trigger] s[i].0 != #[trigger] s[j].0
}

/// The map from name to value that a list of pairs gives (a later pair wins
/// over an earlier one of the same name).
pub open spec fn pairs_map(s: Seq<(Seq<char>, JsonV)>) -> Map<Seq<char>, JsonV>
    decreases s.len(),
{
    if s.len() == 0 {
        Map::empty()
    } else {
        pairs_map(s.drop_last()).insert(s.last().0, s.last().1)
    }
}

pub proof fn lemma_pairs_map_dom(s: Seq<(Seq<char>, JsonV)>, k: Seq<char>)
    ensures
        pairs_map(s).dom().contains(k) <==> exists|i: int| 0 <= i < s.len() && (#[trigger] s[i]).0 == k,
    decreases s.len(),
{
    if s.len() > 0 {
        let d = s.drop_last();
        lemma_pairs_map_dom(d, k);
        if pairs_map(s).dom().contains(k) && s.last().0 != k {
            let i = choose|i: int| 0 <= i < d.len() && (#[trigger] d[i]).0 == k;
            assert(s[i] == d[i]);
        }
        if exists|i: int| 0 <= i < s.len() && (#[trigger] s[i]).0 == k {
            let i = choose|i: int| 0 <= i < s.len() && (#[trigger] s[i]).0 == k;
            if i < s.len() - 1 {
                assert(d[i] == s[i]);
            }
        }
    }
}

pub proof fn lemma_pairs_map_value(s: Seq<(Seq<char>, JsonV)>, i: int)
    requires
        keys_unique(s),
        0 <= i < s.len(),
    ensures
        pairs_map(s).dom().contains(s[i].0),
        pairs_map(s)[s[i].0] == s[i].1,
    decreases s.len(),
{
    let d = s.drop_last();
    if i < s.len() - 1 {
        assert(d[i] == s[i]);
        assert(keys_unique(d)) by {
            assert forall|a: int, b: int| 0 <= a < d.len() && 0 <= b < d.len() && a != b implies #[trigger] d[a].0 != #[trigger] d[b].0 by {
                assert(d[a] == s[a] && d[b] == s[b]);
            }
        }
        lemma_pairs_map_value(d, i);
        assert(s[i].0 != s[s.len() - 1].0);
    }
}

proof fn lemma_unique_drop_last(s: Seq<(Seq<char>, JsonV)>)
    requires
        keys_unique(s),
        s.len() > 0,
    ensures
        keys_unique(s.drop_last()),
        !pairs_map(s.drop_last()).dom().contains(s.last().0),
{
    let d = s.drop_last();
    assert forall|a: int, b: int| 0 <= a < d.len() && 0 <= b < d.len() && a != b implies #[trigger] d[a].0 != #[trigger] d[b].0 by {
        assert(d[a] == s[a] && d[b] == s[b]);
    }
    lemma_pairs_map_dom(d, s.last().0);
    if pairs_map(d).dom().contains(s.last().0) {
        let i = choose|i: int| 0 <= i < d.len() && (#[trigger] d[i]).0 == s.last().0;
        assert(d[i] == s[i]);
        assert(s[i].0 == s[s.len() - 1].0);
    }
}

pub proof fn lemma_pairs_map_update(s: Seq<(Seq<char>, JsonV)>, i: int, v: JsonV)
    requires
        keys_unique(s),
        0 <= i < s.len(),
    ensures
        keys_unique(s.update(i, (s[i].0, v))),
        pairs_map(s.update(i, (s[i].0, v))) == pairs_map(s).insert(s[i].0, v),
    decreases s.len(),
{
    let t = s.update(i, (s[i].0, v));
    assert forall|a: int, b: int| 0 <= a < t.len() && 0 <= b < t.len() && a != b implies #[trigger] t[a].0 != #[trigger] t[b].0 by {
        assert(t[a].0 == s[a].0 && t[b].0 == s[b].0);
    }
    let d = s.drop_last();
    lemma_unique_drop_last(s);
    if i == s.len() - 1 {
        assert(t.drop_last() =~= d);
        assert(pairs_map(t) =~= pairs_map(s).insert(s[i].0, v));
    } else {
        assert(t.drop_last() =~= d.update(i, (d[i].0, v)));
        lemma_pairs_map_update(d, i, v);
        assert(d[i] == s[i]);
        assert(s[i].0 != s.last().0);
        assert(pairs_map(t) =~= pairs_map(s).insert(s[i].0, v));
    }
}

pub proof fn lemma_pairs_map_remove(s: Seq<(Seq<char>, JsonV)>, i: int)
    requires
        keys_unique(s),
        0 <= i < s.len(),
    ensures
        keys_unique(s.remove(i)),
        pairs_map(s.remove(i)) == pairs_map(s).remove(s[i].0),
    decreases s.len(),
{
    let t = s.remove(i);
    assert forall|a: int, b: int| 0 <= a < t.len() && 0 <= b < t.len() && a != b implies #[trigger] t[a].0 != #[trigger] t[b].0 by {
        let a2 = if a < i { a } else { a + 1 };
        let b2 = if b < i { b } else { b + 1 };
        assert(t[a] == s[a2] && t[b] == s[b2]);
    }
    let d = s.drop_last();
    lemma_unique_drop_last(s);
    if i == s.len() - 1 {
        assert(t =~= d);
        assert(pairs_map(t) =~= pairs_map(s).remove(s[i].0));
    } else {
        assert(t.drop_last() =~= d.remove(i));
        assert(t.last() == s.last());
        lemma_pairs_map_remove(d, i);
        assert(d[i] == s[i]);
        assert(s[i].0 != s.last().0);
        assert(pairs_map(t) =~= pairs_map(s).remove(s[i].0));
    }
}

pub proof fn lemma_pairs_map_push(s: Seq<(Seq<char>, JsonV)>, k: Seq<char>, v: JsonV)
    requires
        keys_unique(s),
        !pairs_map(s).dom().contains(k),
    ensures
        keys_unique(s.push((k, v))),
        pairs_map(s.push((k, v))) == pairs_map(s).insert(k, v),
{
    let t = s.push((k, v));
    assert(t.drop_last() =~= s);
    assert forall|a: int, b: int| 0 <= a < t.len() && 0 <= b < t.len() && a != b implies #[trigger] t[a].0 != #[trigger] t[b].0 by {
        if a == s.len() {
            lemma_pairs_map_dom(s, k);
            assert(t[b] == s[b]);
        } else if b == s.len() {
            lemma_pairs_map_dom(s, k);
            assert(t[a] == s[a]);
        } else {
            assert(t[a] == s[a] && t[b] == s[b]);
        }
    }
}


// ---------------------------------------------------------------------
// The watch list
// ---------------------------------------------------------------------

/// The entry that `add` stores for a bug.
pub open spec fn watch_entry(title: Seq<char>, targets: Seq<Seq<char>>, ni_set_date: Seq<char>) -> JsonV {
    JsonV::Object(
        seq![
            ("ni_set_date"@, JsonV::Str(ni_set_date)),
            ("ni_targets"@, JsonV::Array(targets.map_values(|t: Seq<char>| JsonV::Str(t)))),
            ("title"@, JsonV::Str(title)),
        ],
    )
}

/// Bugs whose needinfo requests are being watched, by bug id. The entries
/// are held as (bug id, entry) pairs with no id twice; the view is the map
/// from id to entry, which leaves out the order the pairs are held in.
pub struct WatchList {
    entries: Vec<(String, Json)>,
}

impl WatchList {
    #[verifier::type_invariant]
    spec fn ids_distinct(self) -> bool {
        keys_unique(members_view(self.entries@))
    }

    /// The entries as (bug id, entry) pairs, in the order held.
    pub closed spec fn pairs(self) -> Seq<(Seq<char>, JsonV)> {
        members_view(self.entries@)
    }
}

impl View for WatchList {
    type V = Map<Seq<char>, JsonV>;

    closed spec fn view(&self) -> Map<Seq<char>, JsonV> {
        pairs_map(self.pairs())
    }
}

impl WatchList {
    /// An empty list.
    pub fn new() -> (w: Self)
        ensures
            w@ == Map::<Seq<char>, JsonV>::empty(),
            w.pairs().len() == 0,
    {
        let w = WatchList { entries: Vec::new() };
        assert(w.pairs() =~= Seq::<(Seq<char>, JsonV)>::empty());
        w
    }

    fn find(&self, key: &str) -> (r: Option<usize>)
        ensures
            r matches Some(i) ==> i < self.pairs().len() && self.pairs()[i as int].0 == key@,
            r is None ==> !self@.dom().contains(key@),
    {
        let mut i: usize = 0;
        while i < self.entries.len()
            invariant
                i <= self.entries@.len(),
                forall|k: int| 0 <= k < i ==> (#[trigger] self.entries@[k]).0@ != key@,
            decreases self.entries@.len() - i,
        {
            if str_eq(self.entries[i].0.as_str(), key) {
                return Some(i);
            }
            i = i + 1;
        }
        proof {
            lemma_pairs_map_dom(self.pairs(), key@);
            if self@.dom().contains(key@) {
                let k = choose|k: int| 0 <= k < self.pairs().len() && (#[trigger] self.pairs()[k]).0 == key@;
                assert(self.pairs()[k].0 == self.entries@[k].0@);
            }
        }
        None
    }

    /// The entry of a bug, if it is watched.
    pub fn get(&self, bug_id: &str) -> (r: Option<&Json>)
        ensures
            r matches Some(e) ==> self@.dom().contains(bug_id@) && self@[bug_id@] == e@,
            r is None ==> !self@.dom().contains(bug_id@),
    {
        proof {
            use_type_invariant(self);
        }
        match self.find(bug_id) {
            Some(i) => {
                proof {
                    lemma_pairs_map_value(self.pairs(), i as int);
                }
                Some(&self.entries[i].1)
            },
            None => None,
        }
    }

    /// All entries as (bug id, entry) pairs.
    pub fn all(&self) -> (r: &Vec<(String, Json)>)
        ensures
            members_view(r@) == self.pairs(),
            keys_unique(members_view(r@)),
            pairs_map(members_view(r@)) == self@,
    {
        proof {
            use_type_invariant(self);
        }
        &self.entries
    }

    /// Puts `entry` under `bug_id`, in place of any entry it had.
    fn put(&mut self, bug_id: &str, entry: Json)
        ensures
            final(self)@ == old(self)@.insert(bug_id@, entry@),
    {
        proof {
            use_type_invariant(&*self);
        }
        let ghost before = self.pairs();
        match self.find(bug_id) {
            Some(i) => {
                proof {
                    lemma_pairs_map_update(before, i as int, entry@);
                }
                let key = self.entries[i].0.clone();
                let mut entries: Vec<(String, Json)> = Vec::new();
                std::mem::swap(&mut entries, &mut self.entries);
                entries.set(i, (key, entry));
                assert(members_view(entries@) =~= before.update(i as int, (before[i as int].0, entry@)));
                self.entries = entries;
                assert(self.pairs() =~= before.update(i as int, (before[i as int].0, entry@)));
            },
            None => {
                proof {
                    lemma_pairs_map_push(before, bug_id@, entry@);
                }
                let mut entries: Vec<(String, Json)> = Vec::new();
                std::mem::swap(&mut entries, &mut self.entries);
                entries.push((bug_id.to_owned(), entry));
                assert(members_view(entries@) =~= before.push((bug_id@, entry@)));
                self.entries = entries;
                assert(self.pairs() =~= before.push((bug_id@, entry@)));
            },
        }
    }

    /// Watches `bug_id`: stores its title, the needinfo targets and the date
    /// the needinfo was set, in place of any entry it had.
    pub fn add(&mut self, bug_id: &str, title: &str, ni_targets: &[String], ni_set_date: &str)
        ensures
            final(self)@ == old(self)@.insert(bug_id@, watch_entry(title@, strings_view(ni_targets@), ni_set_date@)),
            final(self)@.dom().contains(bug_id@),
            entry_targets(final(self)@[bug_id@]) == strings_view(ni_targets@),
            entry_date_text(final(self)@[bug_id@]) == ni_set_date@,
            final(self)@[bug_id@].get("title"@).as_str() == Some(title@),
    {
        proof {
            law_entry_reads_back(title@, strings_view(ni_targets@), ni_set_date@);
        }
        let mut members: Vec<(String, Json)> = Vec::new();
        members.push(("ni_set_date".to_owned(), Json::from_str(ni_set_date)));
        members.push(("ni_targets".to_owned(), Json::from_strings(ni_targets)));
        members.push(("title".to_owned(), Json::from_str(title)));
        let entry = Json::Object(members);
        proof {
            lemma_object_view(members);
            assert(strings_view(ni_targets@).map_values(|t: Seq<char>| JsonV::Str(t))
                =~= ni_targets@.map_values(|s: String| JsonV::Str(s@)));
            assert(members_view(members@) =~= seq![
                ("ni_set_date"@, JsonV::Str(ni_set_date@)),
                ("ni_targets"@, JsonV::Array(strings_view(ni_targets@).map_values(|t: Seq<char>| JsonV::Str(t)))),
                ("title"@, JsonV::Str(title@)),
            ]);
        }
        self.put(bug_id, entry);
    }

    /// Stops watching `bug_id`; says whether it was watched.
    pub fn remove(&mut self, bug_id: &str) -> (existed: bool)
        ensures
            existed == old(self)@.dom().contains(bug_id@),
            final(self)@ == old(self)@.remove(bug_id@),
    {
        proof {
            use_type_invariant(&*self);
        }
        let ghost before = self.pairs();
        match self.find(bug_id) {
            Some(i) => {
                proof {
                    lemma_pairs_map_remove(before, i as int);
                    lemma_pairs_map_value(before, i as int);
                }
                let mut entries: Vec<(String, Json)> = Vec::new();
                std::mem::swap(&mut entries, &mut self.entries);
                entries.remove(i);
                assert(members_view(entries@) =~= before.remove(i as int));
                self.entries = entries;
                assert(self.pairs() =~= before.remove(i as int));
                true
            },
            None => {
                assert(old(self)@.remove(bug_id@) =~= old(self)@);
                false
            },
        }
    }

    /// The list held in a JSON document: an object whose members map bug ids
    /// to entries (a later member wins over an earlier one of the same id);
    /// `None` when the document is not an object.
    pub fn from_json(doc: &Json) -> (r: Option<WatchList>)
        ensures
            match doc@ {
                JsonV::Object(ms) => r matches Some(w) && w@ == pairs_map(ms),
                _ => r is None,
            },
    {
        match doc {
            Json::Object(m) => {
                proof {
                    lemma_object_view(*m);
                }
                let ghost ms = members_view(m@);
                let mut w = WatchList::new();
                let mut i: usize = 0;
                assert(ms.take(0) =~= Seq::<(Seq<char>, JsonV)>::empty());
                while i < m.len()
                    invariant
                        i <= m@.len(),
                        ms == members_view(m@),
                        w@ == pairs_map(ms.take(i as int)),
                    decreases m@.len() - i,
                {
                    let e = m[i].1.duplicate();
                    w.put(m[i].0.as_str(), e);
                    assert(ms.take(i + 1).drop_last() =~= ms.take(i as int));
                    i = i + 1;
                }
                assert(ms.take(m@.len() as int) =~= ms);
                Some(w)
            },
            _ => None,
        }
    }

    /// The list as a JSON document: an object mapping bug ids to entries.
    pub fn to_json(&self) -> (r: Json)
        ensures
            r@ == JsonV::Object(self.pairs()),
    {
        let mut out: Vec<(String, Json)> = Vec::new();
        let mut i: usize = 0;
        while i < self.entries.len()
            invariant
                i <= self.entries@.len(),
                out@.len() == i,
                forall|k: int| 0 <= k < i ==> (#[trigger] out@[k]).0@ == self.entries@[k].0@ && out@[k].1@ == self.entries@[k].1@,
            decreases self.entries@.len() - i,
        {
            let e = self.entries[i].1.duplicate();
            out.push((self.entries[i].0.clone(), e));
            i = i + 1;
        }
        proof {
            lemma_object_view(out);
            assert(members_view(out@) =~= self.pairs());
        }
        Json::Object(out)
    }
}


/// The list a watch file holds: its text read as JSON, which must be an
/// object mapping bug ids to entries; `None` when the text is not JSON or
/// not an object.
pub fn watch_list_of_text(text: &str) -> (r: Option<WatchList>)
    ensures
        match json_of_text(text@) {
            Some(JsonV::Object(ms)) => r matches Some(w) && w@ == pairs_map(ms),
            _ => r is None,
        },
{
    match parse_json_text(text) {
        Some(doc) => WatchList::from_json(&doc),
        None => None,
    }
}

// ---------------------------------------------------------------------
// Polling
// ---------------------------------------------------------------------

/// What a poll finds for one watched bug.
#[derive(Clone, Copy, Debug, PartialEq, Eq, Structural)]
pub enum PollOutcome {
    /// A target commented after the needinfo was set; the bug is dropped.
    Replied,
    /// No open needinfo to a target is left; the bug is dropped.
    NiCleared,
    /// The needinfo is 30 days old or more; the bug is dropped.
    AutoRemoved,
    /// The needinfo is 14 to 29 days old; the bug stays.
    Stale,
    /// The needinfo is younger than 14 days; the bug stays.
    Pending,
    /// The bug could not be fetched; it is dropped.
    Inaccessible,
    /// The entry could not be read (its date is not a date-time); it stays.
    Skipped,
}

/// Whether an outcome drops the bug from the list.
pub open spec fn drops(o: PollOutcome) -> bool {
    o == PollOutcome::Replied || o == PollOutcome::NiCleared || o == PollOutcome::AutoRemoved
        || o == PollOutcome::Inaccessible
}

impl PollOutcome {
    /// Whether the outcome drops the bug from the list.
    pub fn drops_bug(&self) -> (r: bool)
        ensures
            r == drops(*self),
    {
        match self {
            PollOutcome::Replied | PollOutcome::NiCleared | PollOutcome::AutoRemoved | PollOutcome::Inaccessible => true,
            _ => false,
        }
    }
}

/// The string elements of a sequence of values, in order.
pub open spec fn strings_in(s: Seq<JsonV>) -> Seq<Seq<char>>
    decreases s.len(),
{
    if s.len() == 0 {
        Seq::empty()
    } else {
        let r = strings_in(s.drop_last());
        match s.last().as_str() {
            Some(t) => r.push(t),
            None => r,
        }
    }
}

/// The string elements of values that are all strings are those strings,
/// all of them, in order.
pub proof fn lemma_strings_in_all(s: Seq<JsonV>)
    requires
        forall|k: int| 0 <= k < s.len() ==> (#[trigger] s[k]) is Str,
    ensures
        strings_in(s).len() == s.len(),
        forall|k: int| 0 <= k < s.len() ==> s[k] == JsonV::Str(#[trigger] strings_in(s)[k]),
    decreases s.len(),
{
    if s.len() > 0 {
        let p = s.drop_last();
        assert forall|k: int| 0 <= k < p.len() implies (#[trigger] p[k]) is Str by {
            assert(p[k] == s[k]);
        }
        lemma_strings_in_all(p);
        assert(s.last() == s[s.len() - 1]);
        let r = strings_in(p);
        assert(strings_in(s) == r.push(s.last()->Str_0));
        assert forall|k: int| 0 <= k < s.len() implies s[k] == JsonV::Str(#[trigger] strings_in(s)[k]) by {
            if k < p.len() {
                assert(s[k] == p[k]);
                assert(strings_in(s)[k] == r[k]);
            }
        }
    }
}

/// The needinfo targets an entry lists.
pub open spec fn entry_targets(entry: JsonV) -> Seq<Seq<char>> {
    strings_in(entry.get("ni_targets"@).array_or_empty())
}

/// The needinfo date text of an entry, or the empty text.
pub open spec fn entry_date_text(entry: JsonV) -> Seq<char> {
    match entry.get("ni_set_date"@).as_str() {
        Some(s) => s,
        None => Seq::empty(),
    }
}

/// The outcome for a bug whose data was fetched, given the entry's needinfo
/// date (if it reads as one) and the time of the poll.
pub open spec fn fetched_outcome(entry: JsonV, data: JsonV, ni_date: Option<Instant>, now: Instant) -> PollOutcome {
    match ni_date {
        None => PollOutcome::Skipped,
        Some(ni) => {
            let targets = entry_targets(entry);
            let comments = data.get("comments"@).array_or_empty();
            let flags = data.get("bug"@).get("flags"@).array_or_empty();
            if replied(comments, targets, ni) {
                PollOutcome::Replied
            } else if ni_cleared(flags, targets) {
                PollOutcome::NiCleared
            } else {
                let age = whole_days(now, ni);
                if age >= 30 {
                    PollOutcome::AutoRemoved
                } else if age >= 14 {
                    PollOutcome::Stale
                } else {
                    PollOutcome::Pending
                }
            }
        },
    }
}

/// The model of an optional borrowed value.
pub open spec fn opt_view(j: Option<&Json>) -> Option<JsonV> {
    match j {
        Some(v) => Some(v@),
        None => None,
    }
}

/// The outcome for a watched bug: `fetched` is the bug's data (as
/// `assemble_bug` gives it), or `None` when fetching it failed.
pub open spec fn poll_outcome(entry: JsonV, fetched: Option<JsonV>, now: Instant) -> PollOutcome {
    match fetched {
        None => PollOutcome::Inaccessible,
        Some(data) => fetched_outcome(entry, data, parsed_instant(entry_date_text(entry)), now),
    }
}

fn array_elems<'a>(j: Option<&'a Json>, empty: &'a Vec<Json>) -> (r: &'a Vec<Json>)
    requires
        empty@.len() == 0,
    ensures
        views(r@) == (match j {
            Some(v) => v@.array_or_empty(),
            None => Seq::<JsonV>::empty(),
        }),
{
    match j {
        Some(v) => match v.as_array() {
            Some(a) => a,
            None => {
                assert(views(empty@) =~= Seq::<JsonV>::empty());
                empty
            },
        },
        None => {
            assert(views(empty@) =~= Seq::<JsonV>::empty());
            empty
        },
    }
}

/// The string elements of a sequence of values, in order.
pub fn string_elements(items: &[Json]) -> (r: Vec<String>)
    ensures
        strings_view(r@) == strings_in(views(items@)),
{
    let ghost vs = views(items@);
    let mut out: Vec<String> = Vec::new();
    let mut i: usize = 0;
    assert(vs.take(0) =~= Seq::<JsonV>::empty());
    assert(strings_view(out@) =~= Seq::<Seq<char>>::empty());
    while i < items.len()
        invariant
            i <= items@.len(),
            vs == views(items@),
            strings_view(out@) == strings_in(vs.take(i as int)),
        decreases items@.len() - i,
    {
        assert(vs.take(i + 1).drop_last() =~= vs.take(i as int));
        assert(vs.take(i + 1).last() == items@[i as int]@);
        match items[i].as_str() {
            Some(t) => {
                out.push(t.clone());
                assert(strings_view(out@) =~= strings_in(vs.take(i as int)).push(t@));
            },
            None => {},
        }
        i = i + 1;
    }
    assert(vs.take(items@.len() as int) =~= vs);
    out
}

/// The needinfo targets an entry lists.
pub fn targets_of(entry: &Json) -> (r: Vec<String>)
    ensures
        strings_view(r@) == entry_targets(entry@),
{
    let empty: Vec<Json> = Vec::new();
    let items = array_elems(entry.get("ni_targets"), &empty);
    string_elements(items.as_slice())
}

/// The outcome for a bug whose data was fetched, given the entry's needinfo
/// date (if it reads as one) and the time of the poll.
pub fn classify_fetched(entry: &Json, data: &Json, ni_date: Option<Instant>, now: Instant) -> (r: PollOutcome)
    ensures
        r == fetched_outcome(entry@, data@, ni_date, now),
{
    match ni_date {
        None => PollOutcome::Skipped,
        Some(ni) => {
            let targets = targets_of(entry);
            let empty: Vec<Json> = Vec::new();
            let comments = array_elems(data.get("comments"), &empty);
            let bug = data.get("bug");
            let flags_j = match bug {
                Some(b) => b.get("flags"),
                None => None,
            };
            proof {
                if bug is None {
                    assert(JsonV::Null.get("flags"@) == JsonV::Null);
                }
            }
            let empty2: Vec<Json> = Vec::new();
            let flags = array_elems(flags_j, &empty2);
            if has_replied(comments.as_slice(), targets.as_slice(), ni) {
                PollOutcome::Replied
            } else if ni_is_cleared(flags.as_slice(), targets.as_slice()) {
                PollOutcome::NiCleared
            } else {
                let age = days_between(now, ni);
                if age >= 30 {
                    PollOutcome::AutoRemoved
                } else if age >= 14 {
                    PollOutcome::Stale
                } else {
                    PollOutcome::Pending
                }
            }
        },
    }
}

/// The outcome for a watched bug: `fetched` is the bug's data, or `None`
/// when fetching it failed.
pub fn classify_poll(entry: &Json, fetched: Option<&Json>, now: Instant) -> (r: PollOutcome)
    ensures
        r == poll_outcome(entry@, opt_view(fetched), now),
{
    match fetched {
        None => PollOutcome::Inaccessible,
        Some(data) => {
            let date = match str_of(entry.get("ni_set_date")) {
                Some(s) => Instant::parse(s.as_str()),
                None => {
                    proof {
                        reveal_strlit("");
                        assert(""@ =~= Seq::<char>::empty());
                    }
                    Instant::parse("")
                },
            };
            classify_fetched(entry, data, date, now)
        },
    }
}

/// The bugs a poll reports, by outcome.
pub struct PollReport {
    pub replied: Vec<String>,
    pub ni_cleared: Vec<String>,
    pub stale: Vec<String>,
    pub auto_removed: Vec<String>,
    pub inaccessible: Vec<String>,
}

/// A report list after `bug_id` is recorded with outcome `o`: extended when
/// `o` is the list's outcome `which`.
pub open spec fn list_after(l: Seq<String>, bug_id: Seq<char>, o: PollOutcome, which: PollOutcome) -> Seq<Seq<char>> {
    if o == which {
        strings_view(l).push(bug_id)
    } else {
        strings_view(l)
    }
}

/// Whether `after` is `before` with `bug_id` added to the list of outcome `o`
/// (outcomes without a list leave it unchanged).
pub open spec fn recorded(before: PollReport, after: PollReport, bug_id: Seq<char>, o: PollOutcome) -> bool {
    &&& strings_view(after.replied@) == list_after(before.replied@, bug_id, o, PollOutcome::Replied)
    &&& strings_view(after.ni_cleared@) == list_after(before.ni_cleared@, bug_id, o, PollOutcome::NiCleared)
    &&& strings_view(after.stale@) == list_after(before.stale@, bug_id, o, PollOutcome::Stale)
    &&& strings_view(after.auto_removed@) == list_after(before.auto_removed@, bug_id, o, PollOutcome::AutoRemoved)
    &&& strings_view(after.inaccessible@) == list_after(before.inaccessible@, bug_id, o, PollOutcome::Inaccessible)
}

fn push_id(l: &mut Vec<String>, bug_id: &str)
    ensures
        strings_view(final(l)@) == strings_view(old(l)@).push(bug_id@),
{
    l.push(bug_id.to_owned());
    assert(strings_view(l@) =~= strings_view(old(l)@).push(bug_id@));
}

impl PollReport {
    /// A report with every list empty.
    pub fn new() -> (r: PollReport)
        ensures
            r.replied@.len() == 0,
            r.ni_cleared@.len() == 0,
            r.stale@.len() == 0,
            r.auto_removed@.len() == 0,
            r.inaccessible@.len() == 0,
    {
        PollReport {
            replied: Vec::new(),
            ni_cleared: Vec::new(),
            stale: Vec::new(),
            auto_removed: Vec::new(),
            inaccessible: Vec::new(),
        }
    }

    /// Adds `bug_id` to the list of outcome `o`.
    pub fn record(&mut self, bug_id: &str, o: PollOutcome)
        ensures
            recorded(*old(self), *final(self), bug_id@, o),
    {
        match o {
            PollOutcome::Replied => push_id(&mut self.replied, bug_id),
            PollOutcome::NiCleared => push_id(&mut self.ni_cleared, bug_id),
            PollOutcome::Stale => push_id(&mut self.stale, bug_id),
            PollOutcome::AutoRemoved => push_id(&mut self.auto_removed, bug_id),
            PollOutcome::Inaccessible => push_id(&mut self.inaccessible, bug_id),
            _ => {},
        }
    }

    /// The report as a JSON object of five arrays of bug ids, members in
    /// name order.
    pub fn to_json(&self) -> (r: Json)
        ensures
            r@ == JsonV::Object(
                seq![
                    ("auto_removed"@, JsonV::Array(self.auto_removed@.map_values(|s: String| JsonV::Str(s@)))),
                    ("inaccessible"@, JsonV::Array(self.inaccessible@.map_values(|s: String| JsonV::Str(s@)))),
                    ("ni_cleared"@, JsonV::Array(self.ni_cleared@.map_values(|s: String| JsonV::Str(s@)))),
                    ("replied"@, JsonV::Array(self.replied@.map_values(|s: String| JsonV::Str(s@)))),
                    ("stale"@, JsonV::Array(self.stale@.map_values(|s: String| JsonV::Str(s@)))),
                ],
            ),
    {
        let mut m: Vec<(String, Json)> = Vec::new();
        m.push(("auto_removed".to_owned(), Json::from_strings(self.auto_removed.as_slice())));
        m.push(("inaccessible".to_owned(), Json::from_strings(self.inaccessible.as_slice())));
        m.push(("ni_cleared".to_owned(), Json::from_strings(self.ni_cleared.as_slice())));
        m.push(("replied".to_owned(), Json::from_strings(self.replied.as_slice())));
        m.push(("stale".to_owned(), Json::from_strings(self.stale.as_slice())));
        proof {
            lemma_object_view(m);
            assert(members_view(m@) =~= seq![
                ("auto_removed"@, JsonV::Array(self.auto_removed@.map_values(|s: String| JsonV::Str(s@)))),
                ("inaccessible"@, JsonV::Array(self.inaccessible@.map_values(|s: String| JsonV::Str(s@)))),
                ("ni_cleared"@, JsonV::Array(self.ni_cleared@.map_values(|s: String| JsonV::Str(s@)))),
                ("replied"@, JsonV::Array(self.replied@.map_values(|s: String| JsonV::Str(s@)))),
                ("stale"@, JsonV::Array(self.stale@.map_values(|s: String| JsonV::Str(s@)))),
            ]);
        }
        Json::Object(m)
    }
}

/// The watched bug ids that read as numbers, with their numbers, in the
/// order held.
pub open spec fn poll_ids(s: Seq<(Seq<char>, JsonV)>) -> Seq<(Seq<char>, u64)>
    decreases s.len(),
{
    if s.len() == 0 {
        Seq::empty()
    } else {
        let r = poll_ids(s.drop_last());
        match u64_from_str(s.last().0) {
            Some(n) => r.push((s.last().0, n)),
            None => r,
        }
    }
}

proof fn lemma_poll_ids_has(s: Seq<(Seq<char>, JsonV)>, i: int, n: u64)
    requires
        0 <= i < s.len(),
        u64_from_str(s[i].0) == Some(n),
    ensures
        poll_ids(s).contains((s[i].0, n)),
    decreases s.len(),
{
    let r = poll_ids(s.drop_last());
    if i == s.len() - 1 {
        assert(poll_ids(s) == r.push((s.last().0, n)));
        assert(poll_ids(s)[r.len() as int] == (s[i].0, n));
    } else {
        assert(s.drop_last()[i] == s[i]);
        lemma_poll_ids_has(s.drop_last(), i, n);
        let k = choose|k: int| 0 <= k < r.len() && r[k] == (s[i].0, n);
        match u64_from_str(s.last().0) {
            Some(m) => {
                assert(poll_ids(s) == r.push((s.last().0, m)));
                assert(poll_ids(s)[k] == r[k]);
            },
            None => {},
        }
    }
}

impl WatchList {
    /// The bugs a poll fetches: the watched bug ids that read as numbers,
    /// with their numbers, in the order held.
    pub fn poll_queue(&self) -> (r: Vec<(String, u64)>)
        ensures
            r@.map_values(|p: (String, u64)| (p.0@, p.1)) == poll_ids(self.pairs()),
    {
        let ghost ps = self.pairs();
        let mut out: Vec<(String, u64)> = Vec::new();
        let mut i: usize = 0;
        assert(ps.take(0) =~= Seq::<(Seq<char>, JsonV)>::empty());
        assert(out@.map_values(|p: (String, u64)| (p.0@, p.1)) =~= Seq::<(Seq<char>, u64)>::empty());
        while i < self.entries.len()
            invariant
                i <= self.entries@.len(),
                ps == self.pairs(),
                out@.map_values(|p: (String, u64)| (p.0@, p.1)) == poll_ids(ps.take(i as int)),
            decreases self.entries@.len() - i,
        {
            assert(ps.take(i + 1).drop_last() =~= ps.take(i as int));
            assert(ps.take(i + 1).last().0 == self.entries@[i as int].0@);
            match parse_u64(self.entries[i].0.as_str()) {
                Some(n) => {
                    let ghost before = out@;
                    out.push((self.entries[i].0.clone(), n));
                    assert(out@.map_values(|p: (String, u64)| (p.0@, p.1)) =~= before.map_values(
                        |p: (String, u64)| (p.0@, p.1),
                    ).push((self.entries@[i as int].0@, n)));
                },
                None => {},
            }
            i = i + 1;
        }
        assert(ps.take(self.entries@.len() as int) =~= ps);
        out
    }

    /// One step of a poll: classifies the watched bug `bug_id` from its
    /// fetched data (`None` when fetching failed) and the time of the poll,
    /// records it in `report`, and drops it when the outcome says so. A bug
    /// that is not watched is skipped.
    pub fn record_poll(&mut self, bug_id: &str, fetched: Option<&Json>, now: Instant, report: &mut PollReport) -> (o: PollOutcome)
        ensures
            !old(self)@.dom().contains(bug_id@) ==> o == PollOutcome::Skipped,
            old(self)@.dom().contains(bug_id@) ==> o == poll_outcome(old(self)@[bug_id@], opt_view(fetched), now),
            final(self)@ == (if drops(o) {
                old(self)@.remove(bug_id@)
            } else {
                old(self)@
            }),
            recorded(*old(report), *final(report), bug_id@, o),
    {
        let o = match self.get(bug_id) {
            Some(entry) => classify_poll(entry, fetched, now),
            None => PollOutcome::Skipped,
        };
        report.record(bug_id, o);
        if o.drops_bug() {
            self.remove(bug_id);
        }
        o
    }
}


/// The outcome of recording `bug_id`, fetched as `fetched`, against the list
/// `m`: skipped when the bug is not watched.
pub open spec fn step_outcome(m: Map<Seq<char>, JsonV>, bug_id: Seq<char>, fetched: Option<JsonV>, now: Instant) -> PollOutcome {
    if m.dom().contains(bug_id) {
        poll_outcome(m[bug_id], fetched, now)
    } else {
        PollOutcome::Skipped
    }
}

/// The list after `bug_id` is recorded with outcome `o`.
pub open spec fn step_list(m: Map<Seq<char>, JsonV>, bug_id: Seq<char>, o: PollOutcome) -> Map<Seq<char>, JsonV> {
    if drops(o) {
        m.remove(bug_id)
    } else {
        m
    }
}

/// The list after a poll records each fetched bug of `rs` in turn.
pub open spec fn list_after_poll(m: Map<Seq<char>, JsonV>, rs: Seq<(Seq<char>, Option<JsonV>)>, now: Instant) -> Map<
    Seq<char>,
    JsonV,
>
    decreases rs.len(),
{
    if rs.len() == 0 {
        m
    } else {
        let m0 = list_after_poll(m, rs.drop_last(), now);
        step_list(m0, rs.last().0, step_outcome(m0, rs.last().0, rs.last().1, now))
    }
}

/// The outcomes of a poll that records each fetched bug of `rs` in turn.
pub open spec fn poll_outcomes(m: Map<Seq<char>, JsonV>, rs: Seq<(Seq<char>, Option<JsonV>)>, now: Instant) -> Seq<
    PollOutcome,
>
    decreases rs.len(),
{
    if rs.len() == 0 {
        Seq::empty()
    } else {
        let m0 = list_after_poll(m, rs.drop_last(), now);
        poll_outcomes(m, rs.drop_last(), now).push(step_outcome(m0, rs.last().0, rs.last().1, now))
    }
}

/// The ids of `rs` whose outcome in `outs` is `which`, in order.
pub open spec fn ids_with(rs: Seq<(Seq<char>, Option<JsonV>)>, outs: Seq<PollOutcome>, which: PollOutcome) -> Seq<
    Seq<char>,
>
    decreases rs.len(),
{
    if rs.len() == 0 {
        Seq::empty()
    } else {
        let r = ids_with(rs.drop_last(), outs.drop_last(), which);
        if outs.last() == which {
            r.push(rs.last().0)
        } else {
            r
        }
    }
}

/// The models of fetched bugs.
pub open spec fn fetched_view(f: Seq<(String, Option<Json>)>) -> Seq<(Seq<char>, Option<JsonV>)> {
    f.map_values(
        |p: (String, Option<Json>)|
            (
                p.0@,
                match p.1 {
                    Some(j) => Some(j@),
                    None => None,
                },
            ),
    )
}

proof fn lemma_poll_outcomes_len(m: Map<Seq<char>, JsonV>, rs: Seq<(Seq<char>, Option<JsonV>)>, now: Instant)
    ensures
        poll_outcomes(m, rs, now).len() == rs.len(),
    decreases rs.len(),
{
    if rs.len() > 0 {
        lemma_poll_outcomes_len(m, rs.drop_last(), now);
    }
}

impl WatchList {
    /// A poll: records each fetched bug of `fetched` in turn (its data, or
    /// `None` when fetching it failed) at the time `now`, dropping the bugs
    /// whose outcome says so, and reports the ids by outcome.
    pub fn poll_run(&mut self, fetched: &[(String, Option<Json>)], now: Instant) -> (report: PollReport)
        ensures
            ({
                let rs = fetched_view(fetched@);
                let outs = poll_outcomes(old(self)@, rs, now);
                &&& final(self)@ == list_after_poll(old(self)@, rs, now)
                &&& strings_view(report.replied@) == ids_with(rs, outs, PollOutcome::Replied)
                &&& strings_view(report.ni_cleared@) == ids_with(rs, outs, PollOutcome::NiCleared)
                &&& strings_view(report.stale@) == ids_with(rs, outs, PollOutcome::Stale)
                &&& strings_view(report.auto_removed@) == ids_with(rs, outs, PollOutcome::AutoRemoved)
                &&& strings_view(report.inaccessible@) == ids_with(rs, outs, PollOutcome::Inaccessible)
            }),
    {
        let ghost m = self@;
        let ghost rs = fetched_view(fetched@);
        let mut report = PollReport::new();
        let mut i: usize = 0;
        assert(rs.take(0) =~= Seq::<(Seq<char>, Option<JsonV>)>::empty());
        assert(strings_view(report.replied@) =~= Seq::<Seq<char>>::empty());
        assert(strings_view(report.ni_cleared@) =~= Seq::<Seq<char>>::empty());
        assert(strings_view(report.stale@) =~= Seq::<Seq<char>>::empty());
        assert(strings_view(report.auto_removed@) =~= Seq::<Seq<char>>::empty());
        assert(strings_view(report.inaccessible@) =~= Seq::<Seq<char>>::empty());
        while i < fetched.len()
            invariant
                i <= fetched@.len(),
                m == old(self)@,
                rs == fetched_view(fetched@),
                self@ == list_after_poll(m, rs.take(i as int), now),
                strings_view(report.replied@) == ids_with(rs.take(i as int), poll_outcomes(m, rs.take(i as int), now), PollOutcome::Replied),
                strings_view(report.ni_cleared@) == ids_with(rs.take(i as int), poll_outcomes(m, rs.take(i as int), now), PollOutcome::NiCleared),
                strings_view(report.stale@) == ids_with(rs.take(i as int), poll_outcomes(m, rs.take(i as int), now), PollOutcome::Stale),
                strings_view(report.auto_removed@) == ids_with(rs.take(i as int), poll_outcomes(m, rs.take(i as int), now), PollOutcome::AutoRemoved),
                strings_view(report.inaccessible@) == ids_with(rs.take(i as int), poll_outcomes(m, rs.take(i as int), now), PollOutcome::Inaccessible),
            decreases fetched@.len() - i,
        {
            let ghost pre = rs.take(i as int);
            let ghost post = rs.take(i + 1);
            assert(post.drop_last() =~= pre);
            assert(post.last() == rs[i as int]);
            let ghost before = *self;
            let o = self.record_poll(fetched[i].0.as_str(), fetched[i].1.as_ref(), now, &mut report);
            proof {
                lemma_poll_outcomes_len(m, post, now);
                let outs = poll_outcomes(m, post, now);
                assert(outs.last() == o);
                assert(outs.drop_last() =~= poll_outcomes(m, pre, now));
            }
            i = i + 1;
        }
        assert(rs.take(fetched@.len() as int) =~= rs);
        report
    }
}

// ---------------------------------------------------------------------
// Laws
// ---------------------------------------------------------------------

/// After `add`, the bug is watched with the entry just stored, and every
/// other bug is watched as before.
pub proof fn law_add_then_lookup(
    w: WatchList,
    bug_id: Seq<char>,
    title: Seq<char>,
    targets: Seq<Seq<char>>,
    ni_set_date: Seq<char>,
    other: Seq<char>,
)
    requires
        other != bug_id,
    ensures
        ({
            let after = w@.insert(bug_id, watch_entry(title, targets, ni_set_date));
            &&& after.dom().contains(bug_id)
            &&& after[bug_id] == watch_entry(title, targets, ni_set_date)
            &&& after.dom().contains(other) == w@.dom().contains(other)
            &&& w@.dom().contains(other) ==> after[other] == w@[other]
        }),
{
}

/// Removing a bug just added reports that it was watched and leaves the list
/// as it was without that bug.
pub proof fn law_add_then_remove(w: WatchList, bug_id: Seq<char>, entry: JsonV)
    ensures
        w@.insert(bug_id, entry).dom().contains(bug_id),
        w@.insert(bug_id, entry).remove(bug_id) == w@.remove(bug_id),
{
    assert(w@.insert(bug_id, entry).remove(bug_id) =~= w@.remove(bug_id));
}

/// Removing a bug twice: the second removal reports that it was not watched
/// and changes nothing.
pub proof fn law_remove_twice(w: WatchList, bug_id: Seq<char>)
    ensures
        !w@.remove(bug_id).dom().contains(bug_id),
        w@.remove(bug_id).remove(bug_id) == w@.remove(bug_id),
{
    assert(w@.remove(bug_id).remove(bug_id) =~= w@.remove(bug_id));
}

/// Saving and loading: the document `to_json` makes reads back (by
/// `from_json`) as the same list.
pub proof fn law_save_then_load(w: WatchList)
    ensures
        pairs_map(w.pairs()) == w@,
{
}

/// A bug watched under its decimal number (as the commands store it) is
/// fetched, under that number, by the next poll.
pub proof fn law_watched_bug_is_polled(w: WatchList, n: u64)
    requires
        w@.dom().contains(decimal(n as nat)),
    ensures
        poll_ids(w.pairs()).contains((decimal(n as nat), n)),
{
    let ps = w.pairs();
    lemma_pairs_map_dom(ps, decimal(n as nat));
    let i = choose|i: int| 0 <= i < ps.len() && (#[trigger] ps[i]).0 == decimal(n as nat);
    lemma_decimal_round_trip(n as nat);
    lemma_poll_ids_has(ps, i, n);
}

/// Loading reads each bug's entry as the document's member of that id (the
/// last one, where an id occurs twice): a list loaded from an object holds
/// `k` exactly when the object has a member `k`, with that member's value.
pub proof fn law_loaded_entry_is_member(ms: Seq<(Seq<char>, JsonV)>, k: Seq<char>)
    ensures
        JsonV::Object(ms).member(k) == (if pairs_map(ms).dom().contains(k) {
            Some(pairs_map(ms)[k])
        } else {
            None::<JsonV>
        }),
    decreases ms.len(),
{
    if ms.len() > 0 {
        law_loaded_entry_is_member(ms.drop_last(), k);
    }
}

/// Whether no two fetched bugs share an id.
pub open spec fn ids_distinct(rs: Seq<(Seq<char>, Option<JsonV>)>) -> bool {
    forall|i: int, j: int| 0 <= i < j < rs.len() ==> (#[trigger] rs[i]).0 != (#[trigger] rs[j]).0
}

/// Whether a poll of `rs` finds an outcome that drops the bug `k`, each bug
/// classified against its own entry in `m`.
pub open spec fn dropped_in(m: Map<Seq<char>, JsonV>, rs: Seq<(Seq<char>, Option<JsonV>)>, now: Instant, k: Seq<char>) -> bool {
    exists|i: int| 0 <= i < rs.len() && (#[trigger] rs[i]).0 == k && drops(step_outcome(m, rs[i].0, rs[i].1, now))
}

proof fn lemma_poll_run_steps(m: Map<Seq<char>, JsonV>, rs: Seq<(Seq<char>, Option<JsonV>)>, now: Instant)
    requires
        ids_distinct(rs),
    ensures
        poll_outcomes(m, rs, now).len() == rs.len(),
        forall|i: int| 0 <= i < rs.len() ==> #[trigger] poll_outcomes(m, rs, now)[i] == step_outcome(m, rs[i].0, rs[i].1, now),
        forall|k: Seq<char>|
            #[trigger] list_after_poll(m, rs, now).dom().contains(k) <==> (m.dom().contains(k) && !dropped_in(m, rs, now, k)),
        forall|k: Seq<char>| list_after_poll(m, rs, now).dom().contains(k) ==> #[trigger] list_after_poll(m, rs, now)[k] == m[k],
    decreases rs.len(),
{
    lemma_poll_outcomes_len(m, rs, now);
    if rs.len() > 0 {
        let p = rs.drop_last();
        assert forall|i: int, j: int| 0 <= i < j < p.len() implies (#[trigger] p[i]).0 != (#[trigger] p[j]).0 by {
            assert(p[i] == rs[i] && p[j] == rs[j]);
        }
        lemma_poll_run_steps(m, p, now);
        let n = rs.len() - 1;
        let id = rs[n].0;
        let f = rs[n].1;
        assert(rs.last() == rs[n]);
        let m0 = list_after_poll(m, p, now);
        assert(!dropped_in(m, p, now, id)) by {
            if dropped_in(m, p, now, id) {
                let i = choose|i: int| 0 <= i < p.len() && (#[trigger] p[i]).0 == id && drops(step_outcome(m, p[i].0, p[i].1, now));
                assert(p[i] == rs[i]);
            }
        }
        assert(m0.dom().contains(id) == m.dom().contains(id));
        let o = step_outcome(m0, id, f, now);
        assert(o == step_outcome(m, id, f, now));
        let outs = poll_outcomes(m, rs, now);
        assert(outs == poll_outcomes(m, p, now).push(o));
        assert forall|i: int| 0 <= i < rs.len() implies #[trigger] poll_outcomes(m, rs, now)[i] == step_outcome(
            m,
            rs[i].0,
            rs[i].1,
            now,
        ) by {
            if i < n {
                assert(outs[i] == poll_outcomes(m, p, now)[i]);
                assert(rs[i] == p[i]);
            }
        }
        let m1 = list_after_poll(m, rs, now);
        assert(m1 == step_list(m0, id, o));
        assert forall|k: Seq<char>| #[trigger] m1.dom().contains(k) <==> (m.dom().contains(k) && !dropped_in(m, rs, now, k)) by {
            if dropped_in(m, p, now, k) {
                let i = choose|i: int| 0 <= i < p.len() && (#[trigger] p[i]).0 == k && drops(step_outcome(m, p[i].0, p[i].1, now));
                assert(p[i] == rs[i]);
                assert(dropped_in(m, rs, now, k));
            }
            if k == id && drops(o) {
                assert(dropped_in(m, rs, now, k));
            }
            if dropped_in(m, rs, now, k) {
                let i = choose|i: int| 0 <= i < rs.len() && (#[trigger] rs[i]).0 == k && drops(step_outcome(m, rs[i].0, rs[i].1, now));
                if i < n {
                    assert(p[i] == rs[i]);
                    assert(dropped_in(m, p, now, k));
                }
            }
        }
        assert forall|k: Seq<char>| m1.dom().contains(k) implies #[trigger] m1[k] == m[k] by {
            assert(m0.dom().contains(k));
        }
    }
}

proof fn lemma_ids_with_has(
    rs: Seq<(Seq<char>, Option<JsonV>)>,
    outs: Seq<PollOutcome>,
    which: PollOutcome,
    k: Seq<char>,
)
    requires
        outs.len() == rs.len(),
    ensures
        ids_with(rs, outs, which).contains(k) <==> exists|i: int|
            0 <= i < rs.len() && (#[trigger] rs[i]).0 == k && outs[i] == which,
    decreases rs.len(),
{
    if rs.len() > 0 {
        let p = rs.drop_last();
        let po = outs.drop_last();
        let n = rs.len() - 1;
        lemma_ids_with_has(p, po, which, k);
        let r = ids_with(p, po, which);
        let w = ids_with(rs, outs, which);
        if w.contains(k) {
            let j = choose|j: int| 0 <= j < w.len() && w[j] == k;
            if j < r.len() {
                assert(r.contains(k)) by {
                    assert(r[j] == w[j]);
                }
                let i = choose|i: int| 0 <= i < p.len() && (#[trigger] p[i]).0 == k && po[i] == which;
                assert(rs[i] == p[i] && outs[i] == po[i]);
            } else {
                assert(outs[n] == which && rs[n].0 == k);
            }
        }
        if exists|i: int| 0 <= i < rs.len() && (#[trigger] rs[i]).0 == k && outs[i] == which {
            let i = choose|i: int| 0 <= i < rs.len() && (#[trigger] rs[i]).0 == k && outs[i] == which;
            if i < n {
                assert(rs[i] == p[i] && outs[i] == po[i]);
                let j = choose|j: int| 0 <= j < r.len() && r[j] == k;
                assert(w[j] == r[j]);
            } else {
                assert(w[w.len() - 1] == k);
            }
        }
    }
}

/// A whole poll, when no bug is fetched twice (as `poll_queue` guarantees):
/// each bug's outcome is the one its own entry gives; the list afterwards is
/// the list before without the bugs whose outcome drops them, every kept
/// entry unchanged; and no bug is reported under two outcomes.
pub proof fn law_poll_run(m: Map<Seq<char>, JsonV>, rs: Seq<(Seq<char>, Option<JsonV>)>, now: Instant)
    requires
        ids_distinct(rs),
    ensures
        ({
            let outs = poll_outcomes(m, rs, now);
            let after = list_after_poll(m, rs, now);
            &&& outs.len() == rs.len()
            &&& forall|i: int| 0 <= i < rs.len() ==> #[trigger] outs[i] == step_outcome(m, rs[i].0, rs[i].1, now)
            &&& forall|k: Seq<char>| #[trigger] after.dom().contains(k) <==> (m.dom().contains(k) && !dropped_in(m, rs, now, k))
            &&& forall|k: Seq<char>| after.dom().contains(k) ==> #[trigger] after[k] == m[k]
            &&& forall|k: Seq<char>, a: PollOutcome, b: PollOutcome|
                a != b && #[trigger] ids_with(rs, outs, a).contains(k) ==> !(#[trigger] ids_with(rs, outs, b).contains(k))
        }),
{
    lemma_poll_run_steps(m, rs, now);
    let outs = poll_outcomes(m, rs, now);
    assert forall|k: Seq<char>, a: PollOutcome, b: PollOutcome|
        a != b && #[trigger] ids_with(rs, outs, a).contains(k) implies !(#[trigger] ids_with(rs, outs, b).contains(k)) by {
        lemma_ids_with_has(rs, outs, a, k);
        lemma_ids_with_has(rs, outs, b, k);
        if ids_with(rs, outs, b).contains(k) {
            let i = choose|i: int| 0 <= i < rs.len() && (#[trigger] rs[i]).0 == k && outs[i] == a;
            let j = choose|j: int| 0 <= j < rs.len() && (#[trigger] rs[j]).0 == k && outs[j] == b;
            if i < j {
                assert(rs[i].0 != rs[j].0);
            } else if j < i {
                assert(rs[j].0 != rs[i].0);
            }
        }
    }
}

proof fn lemma_poll_ids_from(s: Seq<(Seq<char>, JsonV)>, a: int)
    requires
        0 <= a < poll_ids(s).len(),
    ensures
        exists|i: int| 0 <= i < s.len() && (#[trigger] s[i]).0 == poll_ids(s)[a].0,
    decreases s.len(),
{
    let p = s.drop_last();
    let r = poll_ids(p);
    let n = s.len() - 1;
    assert(s.last() == s[n]);
    if a < r.len() {
        assert(poll_ids(s)[a] == r[a]);
        lemma_poll_ids_from(p, a);
        let i = choose|i: int| 0 <= i < p.len() && (#[trigger] p[i]).0 == r[a].0;
        assert(s[i] == p[i]);
    } else {
        assert(poll_ids(s)[a].0 == s[n].0);
    }
}

proof fn lemma_poll_ids_distinct(s: Seq<(Seq<char>, JsonV)>)
    requires
        keys_unique(s),
    ensures
        forall|a: int, b: int| 0 <= a < b < poll_ids(s).len() ==> (#[trigger] poll_ids(s)[a]).0 != (#[trigger] poll_ids(s)[b]).0,
    decreases s.len(),
{
    if s.len() > 0 {
        let p = s.drop_last();
        let n = s.len() - 1;
        assert(s.last() == s[n]);
        assert forall|i: int, j: int| 0 <= i < p.len() && 0 <= j < p.len() && i != j implies #[trigger] p[i].0 != #[trigger] p[j].0 by {
            assert(p[i] == s[i] && p[j] == s[j]);
        }
        lemma_poll_ids_distinct(p);
        let r = poll_ids(p);
        let q = poll_ids(s);
        assert forall|a: int, b: int| 0 <= a < b < q.len() implies (#[trigger] q[a]).0 != (#[trigger] q[b]).0 by {
            if b < r.len() {
                assert(q[a] == r[a] && q[b] == r[b]);
            } else {
                assert(q[a] == r[a]);
                assert(q[b].0 == s[n].0);
                lemma_poll_ids_from(p, a);
                let i = choose|i: int| 0 <= i < p.len() && (#[trigger] p[i]).0 == r[a].0;
                assert(p[i] == s[i]);
            }
        }
    }
}

/// The bugs a poll fetches are distinct: `poll_queue` (whose ids come from
/// a list with distinct ids, as every `WatchList` has) names no bug twice.
pub proof fn law_poll_queue_distinct(w: WatchList)
    requires
        keys_unique(w.pairs()),
    ensures
        forall|a: int, b: int|
            0 <= a < b < poll_ids(w.pairs()).len() ==> (#[trigger] poll_ids(w.pairs())[a]).0 != (#[trigger] poll_ids(
                w.pairs(),
            )[b]).0,
{
    lemma_poll_ids_distinct(w.pairs());
}

/// A comment counts as a reply wherever it stands in the thread: the thread
/// has a reply exactly when some comment, at any place, is by one of the
/// targets and made after the needinfo was set.
pub proof fn law_reply_anywhere(comments: Seq<JsonV>, targets: Seq<Seq<char>>, ni_date: Instant)
    ensures
        forall|i: int|
            0 <= i < comments.len() && targets.contains(creator_of(#[trigger] comments[i])) && (match comment_time(
                comments[i],
            ) {
                Some(w) => later_than(w, ni_date),
                None => false,
            }) ==> replied(comments, targets, ni_date),
        replied(comments, targets, ni_date) ==> exists|i: int|
            0 <= i < comments.len() && targets.contains(creator_of(#[trigger] comments[i])) && (match comment_time(
                comments[i],
            ) {
                Some(w) => later_than(w, ni_date),
                None => false,
            }),
{
    assert forall|i: int|
        0 <= i < comments.len() && targets.contains(creator_of(#[trigger] comments[i])) && (match comment_time(
            comments[i],
        ) {
            Some(w) => later_than(w, ni_date),
            None => false,
        }) implies replied(comments, targets, ni_date) by {
        assert(is_reply(comments[i], targets, ni_date));
    }
}

/// A poll classifies a watched bug as replied whenever one of its comments,
/// at any place in the thread, is by a target and made after the needinfo
/// date that the entry records.
pub proof fn law_poll_sees_any_reply(entry: JsonV, data: JsonV, now: Instant, i: int)
    requires
        parsed_instant(entry_date_text(entry)) is Some,
        0 <= i < data.get("comments"@).array_or_empty().len(),
        entry_targets(entry).contains(creator_of(data.get("comments"@).array_or_empty()[i])),
        match comment_time(data.get("comments"@).array_or_empty()[i]) {
            Some(w) => later_than(w, parsed_instant(entry_date_text(entry)).unwrap()),
            None => false,
        },
    ensures
        poll_outcome(entry, Some(data), now) == PollOutcome::Replied,
{
    let cs = data.get("comments"@).array_or_empty();
    let ni = parsed_instant(entry_date_text(entry)).unwrap();
    law_reply_anywhere(cs, entry_targets(entry), ni);
    assert(replied(cs, entry_targets(entry), ni));
}

/// An entry that `add` stores reads back as what was given: a poll finds in
/// it all the needinfo targets, in order, and the needinfo date, and its
/// title is the title given.
pub proof fn law_entry_reads_back(title: Seq<char>, targets: Seq<Seq<char>>, ni_set_date: Seq<char>)
    ensures
        entry_targets(watch_entry(title, targets, ni_set_date)) == targets,
        entry_date_text(watch_entry(title, targets, ni_set_date)) == ni_set_date,
        watch_entry(title, targets, ni_set_date).get("title"@).as_str() == Some(title),
{
    reveal_strlit("ni_set_date");
    reveal_strlit("ni_targets");
    reveal_strlit("title");
    assert("ni_set_date"@.len() == 11 && "ni_targets"@.len() == 10 && "title"@.len() == 5);
    let e = watch_entry(title, targets, ni_set_date);
    let ms = e->Object_0;
    let arr = targets.map_values(|t: Seq<char>| JsonV::Str(t));
    assert(ms.drop_last().drop_last().drop_last() =~= Seq::<(Seq<char>, JsonV)>::empty());
    assert(ms.drop_last().drop_last() =~= seq![("ni_set_date"@, JsonV::Str(ni_set_date))]);
    assert(ms.drop_last() =~= seq![("ni_set_date"@, JsonV::Str(ni_set_date)), ("ni_targets"@, JsonV::Array(arr))]);
    assert(e.get("title"@) == JsonV::Str(title));
    assert(crate::json::last_member(ms.drop_last(), "ni_targets"@) == Some(JsonV::Array(arr)));
    assert(e.get("ni_targets"@) == JsonV::Array(arr));
    assert(crate::json::last_member(ms.drop_last().drop_last(), "ni_set_date"@) == Some(JsonV::Str(ni_set_date)));
    assert(crate::json::last_member(ms.drop_last(), "ni_set_date"@) == Some(JsonV::Str(ni_set_date)));
    assert(e.get("ni_set_date"@) == JsonV::Str(ni_set_date));
    assert forall|k: int| 0 <= k < arr.len() implies (#[trigger] arr[k]) is Str by {}
    lemma_strings_in_all(arr);
    assert(strings_in(arr) =~= targets) by {
        assert forall|k: int| 0 <= k < targets.len() implies #[trigger] strings_in(arr)[k] == targets[k] by {
            assert(arr[k] == JsonV::Str(strings_in(arr)[k]));
        }
    }
}

/// With no targets, the needinfo counts as cleared and no comment counts as
/// a reply; with no comments, there is no reply.
pub proof fn law_no_targets_or_comments(flags: Seq<JsonV>, comments: Seq<JsonV>, ni_date: Instant)
    ensures
        ni_cleared(flags, Seq::empty()),
        !replied(comments, Seq::empty(), ni_date),
        !replied(Seq::empty(), entry_targets(JsonV::Null), ni_date),
{
    assert forall|i: int| 0 <= i < comments.len() implies !is_reply(#[trigger] comments[i], Seq::empty(), ni_date) by {
        assert(!Seq::<Seq<char>>::empty().contains(creator_of(comments[i])));
    }
}

/// A needinfo flag still open to one of the targets means the needinfo is
/// not cleared.
pub proof fn law_open_flag_not_cleared(flags: Seq<JsonV>, targets: Seq<Seq<char>>, i: int, t: int)
    requires
        0 <= i < flags.len(),
        0 <= t < targets.len(),
        open_ni_for(flags[i], targets[t]),
    ensures
        !ni_cleared(flags, targets),
{
}

/// A reply beats a cleared flag and any age; an unreplied, uncleared
/// needinfo is dropped at 30 days, stale from 14 days, pending before.
pub proof fn law_poll_precedence(entry: JsonV, data: JsonV, ni: Instant, now: Instant)
    ensures
        ({
            let o = fetched_outcome(entry, data, Some(ni), now);
            let targets = entry_targets(entry);
            let comments = data.get("comments"@).array_or_empty();
            let flags = data.get("bug"@).get("flags"@).array_or_empty();
            &&& replied(comments, targets, ni) ==> o == PollOutcome::Replied
            &&& !replied(comments, targets, ni) && ni_cleared(flags, targets) ==> o == PollOutcome::NiCleared
            &&& !replied(comments, targets, ni) && !ni_cleared(flags, targets) ==> {
                &&& whole_days(now, ni) >= 30 <==> o == PollOutcome::AutoRemoved
                &&& (14 <= whole_days(now, ni) < 30) <==> o == PollOutcome::Stale
                &&& whole_days(now, ni) < 14 <==> o == PollOutcome::Pending
            }
            &&& drops(o) <==> o != PollOutcome::Stale && o != PollOutcome::Pending
        }),
{
}

} // verus!
