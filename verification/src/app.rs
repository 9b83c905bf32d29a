//! The state of the dashboard: which sessions are shown, which one is selected, and what
//! they add up to.
use vstd::prelude::*;

use crate::clock::{Moment, is_clock_reading};
use crate::model::{RateLimit, SessionRecord, TokenUsage, effective_usage_of, fits_i64};
use crate::text::{
    chars_of, contains_chars, decimal, lowercase, occurs_in, push_chars, push_decimal, push_str,
    string_from, string_of, to_lowercase, trim_chars, trimmed,
};

verus! {

/// How far back the dashboard looks.
#[derive(Debug, Clone, Copy, PartialEq, Eq, Structural)]
pub enum DateRange {
    Today,
    Week,
    All,
}

/// The name of a range, as the summary shows it.
pub open spec fn range_label(range: DateRange) -> Seq<char> {
    match range {
        DateRange::Today => "today"@,
        DateRange::Week => "week"@,
        DateRange::All => "all"@,
    }
}

impl DateRange {
    pub fn label(self) -> (r: &'static str)
        ensures
            r@ == range_label(self),
    {
        match self {
            DateRange::Today => "today",
            DateRange::Week => "week",
            DateRange::All => "all",
        }
    }
}

/// Whether the dashboard hides what identifies a session.
#[derive(Debug, Clone, Copy, PartialEq, Eq, Structural)]
pub enum PrivacyMode {
    Off,
    On,
}

impl PrivacyMode {
    pub fn enabled(self) -> (r: bool)
        ensures
            r == (self == PrivacyMode::On),
    {
        match self {
            PrivacyMode::On => true,
            PrivacyMode::Off => false,
        }
    }
}

/// Seconds in seven days.
pub const WEEK_SECONDS: i64 = 604800;

/// Whether a session last updated at `updated_at` lies in `range`, seen at `now`: today means
/// from the start of the local day of `now` on, week means from seven days before `now` on.
pub open spec fn in_range(updated_at: i64, range: DateRange, now: Moment) -> bool {
    match range {
        DateRange::All => true,
        DateRange::Today => updated_at >= now.day_start,
        DateRange::Week => updated_at >= now.timestamp - WEEK_SECONDS,
    }
}

fn record_in_range(updated_at: i64, range: DateRange, now: Moment) -> (r: bool)
    ensures
        r == in_range(updated_at, range, now),
{
    match range {
        DateRange::All => true,
        DateRange::Today => updated_at >= now.day_start,
        DateRange::Week => (updated_at as i128) >= (now.timestamp as i128) - (WEEK_SECONDS as i128),
    }
}

/// The text a query is looked for in: title, working directory, model (empty where there is
/// none) and id, separated by single spaces.
pub open spec fn search_text(r: SessionRecord) -> Seq<char> {
    let model = match r.summary.model {
        Some(m) => m@,
        None => Seq::<char>::empty(),
    };
    r.summary.title@ + seq![' '] + r.summary.cwd@ + seq![' '] + model + seq![' '] + r.summary.id@
}

/// What a search query is matched as: trimmed and in lower case.
pub open spec fn needle_of(query: Seq<char>) -> Seq<char> {
    lowercase(trimmed(query))
}

/// A record matches a needle when the needle is empty or occurs in its lower-cased search text.
pub open spec fn matches_needle(r: SessionRecord, needle: Seq<char>) -> bool {
    needle.len() == 0 || occurs_in(lowercase(search_text(r)), needle)
}

/// Whether a record is shown for a range, a query and a moment.
pub open spec fn keeps(r: SessionRecord, range: DateRange, query: Seq<char>, now: Moment) -> bool {
    in_range(r.summary.updated_at, range, now) && matches_needle(r, needle_of(query))
}

/// The records shown for a range, a query and a moment, in their order.
pub open spec fn shown(
    records: Seq<SessionRecord>,
    range: DateRange,
    query: Seq<char>,
    now: Moment,
) -> Seq<SessionRecord> {
    records.filter(|r: SessionRecord| keeps(r, range, query, now))
}

/// The records a sequence of references points to.
pub open spec fn deref_all(s: Seq<&SessionRecord>) -> Seq<SessionRecord> {
    s.map_values(|p: &SessionRecord| *p)
}

fn search_text_of(r: &SessionRecord) -> (s: String)
    ensures
        s@ == search_text(*r),
{
    let mut s = string_from(r.summary.title.as_str());
    push_str(&mut s, " ");
    push_str(&mut s, r.summary.cwd.as_str());
    push_str(&mut s, " ");
    match &r.summary.model {
        Some(m) => push_str(&mut s, m.as_str()),
        None => {},
    }
    push_str(&mut s, " ");
    push_str(&mut s, r.summary.id.as_str());
    proof {
        reveal_strlit(" ");
    }
    assert(s@ =~= search_text(*r));
    s
}

/// Whether a record's lower-cased search text holds `needle`; an empty needle matches all.
pub fn record_matches(r: &SessionRecord, needle: &Vec<char>) -> (b: bool)
    ensures
        b == matches_needle(*r, needle@),
{
    if needle.len() == 0 {
        return true;
    }
    let text = search_text_of(r);
    let lowered = to_lowercase(text.as_str());
    let hay = chars_of(lowered.as_str());
    contains_chars(&hay, needle)
}

/// A search query as it is matched: trimmed and in lower case.
pub fn needle(query: &str) -> (r: String)
    ensures
        r@ == needle_of(query@),
{
    let query_chars = chars_of(query);
    let trimmed_query = trim_chars(&query_chars);
    let trimmed_text = string_of(&trimmed_query);
    to_lowercase(trimmed_text.as_str())
}

/// The records updated within `range` of `now` whose title, working directory, model or id
/// contain `query` (trimmed, and compared in lower case), in their order.
pub fn filter_records<'a>(
    records: &'a [SessionRecord],
    range: DateRange,
    query: &str,
    now: Moment,
) -> (r: Vec<&'a SessionRecord>)
    ensures
        deref_all(r@) == shown(records@, range, query@, now),
{
    let lowered = needle(query);
    let needle_chars = chars_of(lowered.as_str());
    assert(needle_chars@ == needle_of(query@));
    let ghost pred = |x: SessionRecord| keeps(x, range, query@, now);
    let mut out: Vec<&'a SessionRecord> = Vec::new();
    for i in 0..records.len()
        invariant
            needle_chars@ == needle_of(query@),
            pred == (|x: SessionRecord| keeps(x, range, query@, now)),
            deref_all(out@) == records@.take(i as int).filter(pred),
    {
        let rec = &records[i];
        let keep = record_in_range(rec.summary.updated_at, range, now) && record_matches(
            rec,
            &needle_chars,
        );
        proof {
            reveal_with_fuel(Seq::<_>::filter, 1);
            assert(records@.take(i + 1).drop_last() =~= records@.take(i as int));
            assert(keep == pred(records@[i as int]));
        }
        let ghost before = out@;
        if keep {
            out.push(rec);
            assert(deref_all(out@) =~= deref_all(before).push(records@[i as int]));
        }
    }
    assert(records@.take(records@.len() as int) =~= records@);
    out
}

/// Counter `k` of a usage: 0 input, 1 cached input, 2 output, 3 reasoning output, 4 total.
pub open spec fn counter(u: TokenUsage, k: int) -> int {
    if k == 0 {
        u.input_tokens as int
    } else if k == 1 {
        u.cached_input_tokens as int
    } else if k == 2 {
        u.output_tokens as int
    } else if k == 3 {
        u.reasoning_output_tokens as int
    } else {
        u.total_tokens as int
    }
}

/// The sum of counter `k` over a sequence of usages.
pub open spec fn sum_counter(us: Seq<TokenUsage>, k: int) -> int
    decreases us.len(),
{
    if us.len() == 0 {
        0
    } else {
        sum_counter(us.drop_last(), k) + counter(us.last(), k)
    }
}

/// The usages counted for a sequence of records.
pub open spec fn usages_of(records: Seq<SessionRecord>) -> Seq<TokenUsage> {
    records.map_values(|r: SessionRecord| effective_usage_of(r))
}

/// Every running sum of every counter over `us`, taken in order, fits in an `i64`.
pub open spec fn sums_fit(us: Seq<TokenUsage>) -> bool {
    forall|n: int, k: int|
        0 <= n <= us.len() && 0 <= k < 5 ==> fits_i64(#[trigger] sum_counter(us.take(n), k))
}

/// The counter-by-counter sum of a sequence of usages.
pub open spec fn usage_total(us: Seq<TokenUsage>) -> TokenUsage {
    TokenUsage {
        input_tokens: sum_counter(us, 0) as i64,
        cached_input_tokens: sum_counter(us, 1) as i64,
        output_tokens: sum_counter(us, 2) as i64,
        reasoning_output_tokens: sum_counter(us, 3) as i64,
        total_tokens: sum_counter(us, 4) as i64,
    }
}

/// The first rate limit reported by a record of `records`, in their order.
pub open spec fn first_rate_limit(records: Seq<SessionRecord>) -> Option<RateLimit>
    decreases records.len(),
{
    if records.len() == 0 {
        None
    } else {
        match records[0].rate_limit {
            Some(r) => Some(r),
            None => first_rate_limit(records.drop_first()),
        }
    }
}

} // verus!

verus! {

/// The selection kept for a list of `len` items: the old one where it is still in the list,
/// else the last item, or 0 for an empty list.
pub open spec fn clamp_selection(selected: usize, len: nat) -> usize {
    if len == 0 {
        0
    } else if selected >= len {
        (len - 1) as usize
    } else {
        selected
    }
}

/// The dashboard: all sessions read, those shown, and the selection among them.
#[derive(Debug, Clone)]
pub struct App {
    pub all_records: Vec<SessionRecord>,
    pub visible: Vec<SessionRecord>,
    pub selected: usize,
    pub range: DateRange,
    pub search: String,
    pub search_mode: bool,
    pub status: String,
    pub privacy: PrivacyMode,
}

fn usage_checked_sum(a: TokenUsage, b: TokenUsage) -> (r: Option<TokenUsage>)
    ensures
        r is Some <==> crate::model::can_combine(a, b),
        r matches Some(u) ==> u == crate::model::combine(a, b),
{
    let input_tokens = match a.input_tokens.checked_add(b.input_tokens) {
        Some(x) => x,
        None => return None,
    };
    let cached_input_tokens = match a.cached_input_tokens.checked_add(b.cached_input_tokens) {
        Some(x) => x,
        None => return None,
    };
    let output_tokens = match a.output_tokens.checked_add(b.output_tokens) {
        Some(x) => x,
        None => return None,
    };
    let reasoning_output_tokens = match a.reasoning_output_tokens.checked_add(
        b.reasoning_output_tokens,
    ) {
        Some(x) => x,
        None => return None,
    };
    let total_tokens = match a.total_tokens.checked_add(b.total_tokens) {
        Some(x) => x,
        None => return None,
    };
    Some(TokenUsage {
        input_tokens,
        cached_input_tokens,
        output_tokens,
        reasoning_output_tokens,
        total_tokens,
    })
}

proof fn lemma_usages_step(records: Seq<SessionRecord>, i: int)
    requires
        0 <= i < records.len(),
    ensures
        usages_of(records).take(i + 1).drop_last() == usages_of(records).take(i),
        usages_of(records).take(i + 1).last() == effective_usage_of(records[i]),
        forall|k: int|
            #[trigger] sum_counter(usages_of(records).take(i + 1), k) == sum_counter(
                usages_of(records).take(i),
                k,
            ) + counter(effective_usage_of(records[i]), k),
{
    assert(usages_of(records).take(i + 1).drop_last() =~= usages_of(records).take(i));
}

fn clone_all(refs: &Vec<&SessionRecord>) -> (r: Vec<SessionRecord>)
    ensures
        r@ == deref_all(refs@),
{
    let mut r: Vec<SessionRecord> = Vec::new();
    for i in 0..refs.len()
        invariant
            r@ == deref_all(refs@).take(i as int),
    {
        let c = refs[i].clone();
        r.push(c);
        assert(r@ =~= deref_all(refs@).take(i + 1));
    }
    assert(deref_all(refs@).take(refs@.len() as int) =~= deref_all(refs@));
    r
}

impl App {
    /// The selection points into the shown sessions, or is 0 when none is shown.
    pub open spec fn wf(self) -> bool {
        if self.visible@.len() == 0 {
            self.selected == 0
        } else {
            self.selected < self.visible@.len()
        }
    }

    /// A dashboard over `records`, with an empty search, filtered at the current moment.
    pub fn new(records: Vec<SessionRecord>, range: DateRange, privacy: PrivacyMode) -> (r: App)
        ensures
            r.wf(),
            r.all_records@ == records@,
            r.range == range,
            r.privacy == privacy,
            r.search@.len() == 0,
            !r.search_mode,
            r.status@.len() == 0,
            r.selected == 0,
            exists|now: Moment| is_clock_reading(now) && r.visible@ == #[trigger] shown(records@, range, seq![], now),
    {
        let mut app = App {
            all_records: records,
            visible: Vec::new(),
            selected: 0,
            range,
            search: String::new(),
            search_mode: false,
            status: String::new(),
            privacy,
        };
        app.recompute();
        assert(app.search@ =~= seq![]);
        app
    }

    /// Replaces all sessions and filters them anew at the current moment.
    pub fn replace_records(&mut self, records: Vec<SessionRecord>)
        ensures
            final(self).wf(),
            final(self).all_records@ == records@,
            final(self).selected == clamp_selection(old(self).selected, final(self).visible@.len()),
            final(self).range == old(self).range,
            final(self).search == old(self).search,
            final(self).search_mode == old(self).search_mode,
            final(self).status == old(self).status,
            final(self).privacy == old(self).privacy,
            exists|now: Moment|
                is_clock_reading(now) && final(self).visible@ == #[trigger] shown(records@, old(self).range, old(self).search@, now),
    {
        self.all_records = records;
        self.recompute();
    }

    /// Filters the sessions anew at the current moment.
    pub fn recompute(&mut self)
        ensures
            final(self).wf(),
            final(self).selected == clamp_selection(old(self).selected, final(self).visible@.len()),
            final(self).all_records == old(self).all_records,
            final(self).range == old(self).range,
            final(self).search == old(self).search,
            final(self).search_mode == old(self).search_mode,
            final(self).status == old(self).status,
            final(self).privacy == old(self).privacy,
            exists|now: Moment|
                is_clock_reading(now) && final(self).visible@ == #[trigger] shown(
                    old(self).all_records@,
                    old(self).range,
                    old(self).search@,
                    now,
                ),
    {
        let now = Moment::now();
        self.recompute_at(now);
    }

    /// Filters the sessions anew, as seen at `now`, and keeps the selection in the list.
    pub fn recompute_at(&mut self, now: Moment)
        ensures
            final(self).wf(),
            final(self).visible@ == shown(old(self).all_records@, old(self).range, old(self).search@, now),
            final(self).selected == clamp_selection(old(self).selected, final(self).visible@.len()),
            final(self).all_records == old(self).all_records,
            final(self).range == old(self).range,
            final(self).search == old(self).search,
            final(self).search_mode == old(self).search_mode,
            final(self).status == old(self).status,
            final(self).privacy == old(self).privacy,
    {
        let refs = filter_records(self.all_records.as_slice(), self.range, self.search.as_str(), now);
        let visible = clone_all(&refs);
        self.visible = visible;
        if self.visible.len() == 0 {
            self.selected = 0;
        } else if self.selected >= self.visible.len() {
            self.selected = self.visible.len() - 1;
        }
    }

    /// The selected session, if the selection points into the shown ones.
    pub fn selected_record(&self) -> (r: Option<&SessionRecord>)
        ensures
            r is Some <==> self.selected < self.visible@.len(),
            r matches Some(x) ==> *x == self.visible@[self.selected as int],
    {
        if self.selected < self.visible.len() {
            Some(&self.visible[self.selected])
        } else {
            None
        }
    }

    /// Moves the selection one down, stopping at the last shown session.
    pub fn move_next(&mut self)
        requires
            old(self).visible@.len() == 0 || old(self).selected < usize::MAX,
        ensures
            old(self).wf() ==> final(self).wf(),
            final(self).selected == if old(self).visible@.len() == 0 {
                old(self).selected
            } else if old(self).selected + 1 <= old(self).visible@.len() - 1 {
                (old(self).selected + 1) as usize
            } else {
                (old(self).visible@.len() - 1) as usize
            },
            final(self).visible == old(self).visible,
            final(self).all_records == old(self).all_records,
            final(self).range == old(self).range,
            final(self).search == old(self).search,
            final(self).search_mode == old(self).search_mode,
            final(self).status == old(self).status,
            final(self).privacy == old(self).privacy,
    {
        if self.visible.len() > 0 {
            let next = self.selected + 1;
            let last = self.visible.len() - 1;
            self.selected = if next <= last { next } else { last };
        }
    }

    /// Moves the selection one up, stopping at the first session.
    pub fn move_previous(&mut self)
        ensures
            old(self).wf() ==> final(self).wf(),
            final(self).selected == if old(self).selected == 0 {
                0
            } else {
                (old(self).selected - 1) as usize
            },
            final(self).visible == old(self).visible,
            final(self).all_records == old(self).all_records,
            final(self).range == old(self).range,
            final(self).search == old(self).search,
            final(self).search_mode == old(self).search_mode,
            final(self).status == old(self).status,
            final(self).privacy == old(self).privacy,
    {
        self.selected = self.selected.saturating_sub(1);
    }

    /// The usage of the shown sessions added up, or `None` where a running sum of some
    /// counter leaves `i64`.
    pub fn checked_totals(&self) -> (r: Option<TokenUsage>)
        ensures
            r is Some <==> sums_fit(usages_of(self.visible@)),
            r matches Some(t) ==> t == usage_total(usages_of(self.visible@)),
    {
        let ghost us = usages_of(self.visible@);
        let mut total = TokenUsage::default();
        assert(us.take(0) =~= Seq::<TokenUsage>::empty());
        for i in 0..self.visible.len()
            invariant
                us == usages_of(self.visible@),
                us.len() == self.visible@.len(),
                forall|n: int, k: int|
                    0 <= n <= i && 0 <= k < 5 ==> fits_i64(#[trigger] sum_counter(us.take(n), k)),
                total.input_tokens == sum_counter(us.take(i as int), 0),
                total.cached_input_tokens == sum_counter(us.take(i as int), 1),
                total.output_tokens == sum_counter(us.take(i as int), 2),
                total.reasoning_output_tokens == sum_counter(us.take(i as int), 3),
                total.total_tokens == sum_counter(us.take(i as int), 4),
        {
            proof {
                lemma_usages_step(self.visible@, i as int);
            }
            let u = self.visible[i].effective_usage();
            match usage_checked_sum(total, u) {
                Some(t) => {
                    total = t;
                },
                None => {
                    assert(!fits_i64(sum_counter(us.take(i + 1), 0)) || !fits_i64(sum_counter(us.take(i + 1), 1))
                        || !fits_i64(sum_counter(us.take(i + 1), 2)) || !fits_i64(sum_counter(us.take(i + 1), 3))
                        || !fits_i64(sum_counter(us.take(i + 1), 4)));
                    return None;
                },
            }
        }
        assert(us.take(us.len() as int) =~= us);
        Some(total)
    }

    /// The usage of the shown sessions added up, counter by counter.
    pub fn totals(&self) -> (r: TokenUsage)
        requires
            sums_fit(usages_of(self.visible@)),
        ensures
            r == usage_total(usages_of(self.visible@)),
    {
        let ghost us = usages_of(self.visible@);
        let mut total = TokenUsage::default();
        assert(us.take(0) =~= Seq::<TokenUsage>::empty());
        for i in 0..self.visible.len()
            invariant
                us == usages_of(self.visible@),
                us.len() == self.visible@.len(),
                sums_fit(us),
                total.input_tokens == sum_counter(us.take(i as int), 0),
                total.cached_input_tokens == sum_counter(us.take(i as int), 1),
                total.output_tokens == sum_counter(us.take(i as int), 2),
                total.reasoning_output_tokens == sum_counter(us.take(i as int), 3),
                total.total_tokens == sum_counter(us.take(i as int), 4),
        {
            proof {
                lemma_usages_step(self.visible@, i as int);
                assert(fits_i64(sum_counter(us.take(i + 1), 0)));
                assert(fits_i64(sum_counter(us.take(i + 1), 1)));
                assert(fits_i64(sum_counter(us.take(i + 1), 2)));
                assert(fits_i64(sum_counter(us.take(i + 1), 3)));
                assert(fits_i64(sum_counter(us.take(i + 1), 4)));
            }
            let u = self.visible[i].effective_usage();
            let t = total.combined_with(u);
            total = t;
        }
        assert(us.take(us.len() as int) =~= us);
        total
    }

    /// The rate limit of the first shown session that has one.
    pub fn latest_rate_limit(&self) -> (r: Option<RateLimit>)
        ensures
            r == first_rate_limit(self.visible@),
            r is None <==> forall|i: int|
                0 <= i < self.visible@.len() ==> (#[trigger] self.visible@[i]).rate_limit is None,
            forall|i: int|
                0 <= i < self.visible@.len() && (#[trigger] self.visible@[i]).rate_limit is Some
                    && (forall|j: int| 0 <= j < i ==> (#[trigger] self.visible@[j]).rate_limit is None)
                    ==> r == self.visible@[i].rate_limit,
    {
        proof {
            law_first_rate_limit(self.visible@);
        }
        let mut i: usize = 0;
        assert(self.visible@.skip(0) =~= self.visible@);
        while i < self.visible.len()
            invariant
                i <= self.visible@.len(),
                first_rate_limit(self.visible@) == first_rate_limit(self.visible@.skip(i as int)),
            decreases self.visible@.len() - i,
        {
            assert(self.visible@.skip(i as int).drop_first() =~= self.visible@.skip(i + 1));
            if let Some(limit) = self.visible[i].rate_limit {
                proof {
                    law_first_rate_limit(self.visible@);
                }
                return Some(limit);
            }
            i += 1;
        }
        None
    }
}

} // verus!

verus! {

/// What privacy mode shows in place of a value it hides.
pub open spec fn hidden_text() -> Seq<char> {
    "hidden in privacy mode"@
}

/// `s` without its trailing slashes.
pub open spec fn strip_trailing_slashes(s: Seq<char>) -> Seq<char>
    decreases s.len(),
{
    if s.len() > 0 && s.last() == '/' {
        strip_trailing_slashes(s.drop_last())
    } else {
        s
    }
}

/// The characters of `s` after its last slash (all of `s` where it has none).
pub open spec fn after_last_slash(s: Seq<char>) -> Seq<char>
    decreases s.len(),
{
    if s.len() == 0 {
        s
    } else if s.last() == '/' {
        Seq::empty()
    } else {
        after_last_slash(s.drop_last()).push(s.last())
    }
}

/// The last component of a path: what follows its last slash once trailing slashes are gone.
pub open spec fn last_component(path: Seq<char>) -> Seq<char> {
    after_last_slash(strip_trailing_slashes(path))
}

/// A session's title as shown: in privacy mode "Session " and its 1-based position.
pub open spec fn shown_title(r: SessionRecord, index: usize, privacy: PrivacyMode) -> Seq<char> {
    match privacy {
        PrivacyMode::On => "Session "@ + decimal((index + 1) as nat),
        PrivacyMode::Off => r.summary.title@,
    }
}

/// A session id as shown: in privacy mode an id longer than 8 characters is cut to its first
/// 4 and last 4, joined by "...".
pub open spec fn shown_id(r: SessionRecord, privacy: PrivacyMode) -> Seq<char> {
    let id = r.summary.id@;
    match privacy {
        PrivacyMode::On => if id.len() <= 8 {
            id
        } else {
            id.take(4) + "..."@ + id.skip(id.len() - 4)
        },
        PrivacyMode::Off => id,
    }
}

/// A working directory as shown: in privacy mode only its last component, or the hidden text
/// where it has none.
pub open spec fn shown_cwd(r: SessionRecord, privacy: PrivacyMode) -> Seq<char> {
    match privacy {
        PrivacyMode::On => if last_component(r.summary.cwd@).len() == 0 {
            hidden_text()
        } else {
            last_component(r.summary.cwd@)
        },
        PrivacyMode::Off => r.summary.cwd@,
    }
}

/// A rollout path as shown: in privacy mode the hidden text.
pub open spec fn shown_rollout(r: SessionRecord, privacy: PrivacyMode) -> Seq<char> {
    match privacy {
        PrivacyMode::On => hidden_text(),
        PrivacyMode::Off => r.summary.rollout_path@,
    }
}

/// The title shown for the session at position `index` of the list.
pub fn display_title(record: &SessionRecord, index: usize, privacy: PrivacyMode) -> (r: String)
    requires
        privacy == PrivacyMode::On ==> index < usize::MAX,
    ensures
        r@ == shown_title(*record, index, privacy),
{
    match privacy {
        PrivacyMode::On => {
            let mut cs = chars_of("Session ");
            push_decimal(&mut cs, (index + 1) as u64);
            string_of(&cs)
        },
        PrivacyMode::Off => record.summary.title.clone(),
    }
}

/// The session id shown.
pub fn display_id(record: &SessionRecord, privacy: PrivacyMode) -> (r: String)
    ensures
        r@ == shown_id(*record, privacy),
{
    match privacy {
        PrivacyMode::Off => record.summary.id.clone(),
        PrivacyMode::On => {
            let id = chars_of(record.summary.id.as_str());
            if id.len() <= 8 {
                string_of(&id)
            } else {
                let head = crate::text::prefix_of(&id, 4);
                let tail = crate::text::suffix_from(&id, id.len() - 4);
                let mut s = string_of(&head);
                push_str(&mut s, "...");
                push_chars(&mut s, &tail);
                s
            }
        },
    }
}

/// The last component of a path, as characters.
pub fn last_component_chars(path: &Vec<char>) -> (r: Vec<char>)
    ensures
        r@ == last_component(path@),
{
    let mut end: usize = path.len();
    assert(path@.take(path.len() as int) =~= path@);
    while end > 0 && path[end - 1] == '/'
        invariant
            end <= path@.len(),
            strip_trailing_slashes(path@) == strip_trailing_slashes(path@.take(end as int)),
        decreases end,
    {
        assert(path@.take(end as int).drop_last() =~= path@.take(end - 1));
        end -= 1;
    }
    let ghost stripped = path@.take(end as int);
    assert(strip_trailing_slashes(path@) == stripped);
    let mut start: usize = end;
    assert(stripped.take(end as int) =~= stripped);
    while start > 0 && path[start - 1] != '/'
        invariant
            start <= end,
            end <= path@.len(),
            end == stripped.len(),
            stripped == path@.take(end as int),
            after_last_slash(stripped) == after_last_slash(stripped.take(start as int))
                + stripped.subrange(start as int, end as int),
        decreases start,
    {
        assert(stripped.take(start as int).drop_last() =~= stripped.take(start - 1));
        assert(stripped.take(start as int).last() == path@[start - 1]);
        assert(stripped.subrange(start - 1, end as int) =~= seq![path@[start - 1]]
            + stripped.subrange(start as int, end as int));
        assert(after_last_slash(stripped.take(start - 1)).push(path@[start - 1])
            + stripped.subrange(start as int, end as int) =~= after_last_slash(
            stripped.take(start - 1),
        ) + stripped.subrange(start - 1, end as int));
        start -= 1;
    }
    assert(after_last_slash(stripped.take(start as int)) =~= Seq::<char>::empty());
    let mut r: Vec<char> = Vec::new();
    let mut i = start;
    while i < end
        invariant
            start <= i <= end <= path@.len(),
            r@ == path@.subrange(start as int, i as int),
        decreases end - i,
    {
        r.push(path[i]);
        i += 1;
        assert(r@ =~= path@.subrange(start as int, i as int));
    }
    assert(stripped.subrange(start as int, end as int) =~= path@.subrange(start as int, end as int));
    assert(Seq::<char>::empty() + path@.subrange(start as int, end as int) =~= path@.subrange(start as int, end as int));
    r
}

/// The working directory shown.
pub fn display_cwd(record: &SessionRecord, privacy: PrivacyMode) -> (r: String)
    ensures
        r@ == shown_cwd(*record, privacy),
{
    match privacy {
        PrivacyMode::Off => record.summary.cwd.clone(),
        PrivacyMode::On => {
            let path = chars_of(record.summary.cwd.as_str());
            let name = last_component_chars(&path);
            if name.len() == 0 {
                string_from("hidden in privacy mode")
            } else {
                string_of(&name)
            }
        },
    }
}

/// The rollout path shown.
pub fn display_rollout(record: &SessionRecord, privacy: PrivacyMode) -> (r: String)
    ensures
        r@ == shown_rollout(*record, privacy),
{
    match privacy {
        PrivacyMode::Off => record.summary.rollout_path.clone(),
        PrivacyMode::On => string_from("hidden in privacy mode"),
    }
}

} // verus!

verus! {

proof fn lemma_filter_all(records: Seq<SessionRecord>, pred: spec_fn(SessionRecord) -> bool)
    requires
        forall|i: int| 0 <= i < records.len() ==> #[trigger] pred(records[i]),
    ensures
        records.filter(pred) == records,
    decreases records.len(),
{
    reveal_with_fuel(Seq::<_>::filter, 1);
    if records.len() > 0 {
        let p = records.drop_last();
        assert forall|i: int| 0 <= i < p.len() implies #[trigger] pred(p[i]) by {
            assert(pred(records[i]));
        }
        lemma_filter_all(p, pred);
        assert(pred(records[records.len() - 1]));
        assert(p.push(records.last()) =~= records);
    }
}

/// A query that is blank once trimmed and lower-cased filters nothing: the records shown are
/// those of the range. With the range `All` they are all records, in their order.
pub proof fn law_blank_query_shows_range(
    records: Seq<SessionRecord>,
    range: DateRange,
    query: Seq<char>,
    now: Moment,
)
    requires
        needle_of(query).len() == 0,
    ensures
        shown(records, range, query, now) == records.filter(
            |r: SessionRecord| in_range(r.summary.updated_at, range, now),
        ),
        range == DateRange::All ==> shown(records, range, query, now) == records,
{
    let p1 = |r: SessionRecord| keeps(r, range, query, now);
    let p2 = |r: SessionRecord| in_range(r.summary.updated_at, range, now);
    assert(p1 =~= p2);
    if range == DateRange::All {
        lemma_filter_all(records, p2);
    }
}

proof fn lemma_after_last_slash_has_no_slash(s: Seq<char>)
    ensures
        !after_last_slash(s).contains('/'),
    decreases s.len(),
{
    if s.len() > 0 && s.last() != '/' {
        lemma_after_last_slash_has_no_slash(s.drop_last());
        let a = after_last_slash(s.drop_last());
        assert forall|i: int| 0 <= i < a.push(s.last()).len() implies a.push(s.last())[i] != '/' by {
            if i < a.len() {
                assert(a[i] != '/');
            }
        }
    }
}

/// Privacy mode shows nothing of a session's title but its position, no directory of its
/// working directory (no slash at all), and nothing of its rollout path.
pub proof fn law_privacy_hides_paths(r: SessionRecord, other: SessionRecord, index: usize)
    ensures
        shown_title(r, index, PrivacyMode::On) == shown_title(other, index, PrivacyMode::On),
        !shown_cwd(r, PrivacyMode::On).contains('/'),
        shown_rollout(r, PrivacyMode::On) == shown_rollout(other, PrivacyMode::On),
        !shown_rollout(r, PrivacyMode::On).contains('/'),
{
    reveal_strlit("hidden in privacy mode");
    lemma_after_last_slash_has_no_slash(strip_trailing_slashes(r.summary.cwd@));
    let h = hidden_text();
    assert forall|i: int| 0 <= i < h.len() implies h[i] != '/' by {}
}

} // verus!

verus! {

/// A key pressed in the dashboard.
#[derive(Debug, Clone, Copy, PartialEq, Eq, Structural)]
pub enum Key {
    Char(char),
    Esc,
    Enter,
    Backspace,
    Up,
    Down,
    Other,
}

/// What a key asks of the dashboard.
#[derive(Debug, Clone, Copy, PartialEq, Eq, Structural)]
pub enum Command {
    Quit,
    StartSearch,
    ClearSearch,
    EndSearch,
    DeleteChar,
    TypeChar(char),
    MoveDown,
    MoveUp,
    SetRange(DateRange),
    Refresh,
    Nothing,
}

/// What the event loop does after a key: go on, stop, or read the sessions again.
#[derive(Debug, Clone, Copy, PartialEq, Eq, Structural)]
pub enum KeyOutcome {
    Continue,
    Quit,
    Refresh,
}

/// The command of a key. While a search is typed every character goes into it; otherwise
/// `q` quits, `/` starts a search, `j`/`k` move, `d`/`w`/`a` pick today, week or all, and `r`
/// reads the sessions again. Esc clears the search, Enter ends typing it.
pub open spec fn command_of(key: Key, search_mode: bool) -> Command {
    match key {
        Key::Char(c) => if !search_mode && c == 'q' {
            Command::Quit
        } else if !search_mode && c == '/' {
            Command::StartSearch
        } else if search_mode {
            Command::TypeChar(c)
        } else if c == 'j' {
            Command::MoveDown
        } else if c == 'k' {
            Command::MoveUp
        } else if c == 'd' {
            Command::SetRange(DateRange::Today)
        } else if c == 'w' {
            Command::SetRange(DateRange::Week)
        } else if c == 'a' {
            Command::SetRange(DateRange::All)
        } else if c == 'r' {
            Command::Refresh
        } else {
            Command::Nothing
        },
        Key::Esc => Command::ClearSearch,
        Key::Enter => Command::EndSearch,
        Key::Backspace => if search_mode {
            Command::DeleteChar
        } else {
            Command::Nothing
        },
        Key::Down => Command::MoveDown,
        Key::Up => Command::MoveUp,
        Key::Other => Command::Nothing,
    }
}

/// The command of a key, given whether a search is being typed.
pub fn command_for(key: Key, search_mode: bool) -> (c: Command)
    ensures
        c == command_of(key, search_mode),
{
    match key {
        Key::Char(c) => {
            if !search_mode && c == 'q' {
                Command::Quit
            } else if !search_mode && c == '/' {
                Command::StartSearch
            } else if search_mode {
                Command::TypeChar(c)
            } else if c == 'j' {
                Command::MoveDown
            } else if c == 'k' {
                Command::MoveUp
            } else if c == 'd' {
                Command::SetRange(DateRange::Today)
            } else if c == 'w' {
                Command::SetRange(DateRange::Week)
            } else if c == 'a' {
                Command::SetRange(DateRange::All)
            } else if c == 'r' {
                Command::Refresh
            } else {
                Command::Nothing
            }
        },
        Key::Esc => Command::ClearSearch,
        Key::Enter => Command::EndSearch,
        Key::Backspace => {
            if search_mode {
                Command::DeleteChar
            } else {
                Command::Nothing
            }
        },
        Key::Down => Command::MoveDown,
        Key::Up => Command::MoveUp,
        Key::Other => Command::Nothing,
    }
}

/// Whether a command filters the sessions anew.
pub open spec fn refilters(c: Command) -> bool {
    match c {
        Command::ClearSearch | Command::DeleteChar | Command::TypeChar(_) | Command::SetRange(_) => true,
        _ => false,
    }
}

/// The search text after a command.
pub open spec fn search_after(c: Command, search: Seq<char>) -> Seq<char> {
    match c {
        Command::ClearSearch => Seq::empty(),
        Command::DeleteChar => if search.len() == 0 {
            search
        } else {
            search.drop_last()
        },
        Command::TypeChar(ch) => search.push(ch),
        _ => search,
    }
}

/// Whether a search is being typed after a command.
pub open spec fn search_mode_after(c: Command, search_mode: bool) -> bool {
    match c {
        Command::StartSearch => true,
        Command::ClearSearch | Command::EndSearch => false,
        _ => search_mode,
    }
}

/// The range after a command.
pub open spec fn range_after(c: Command, range: DateRange) -> DateRange {
    match c {
        Command::SetRange(r) => r,
        _ => range,
    }
}

/// What the event loop does after a command.
pub open spec fn outcome_of(c: Command) -> KeyOutcome {
    match c {
        Command::Quit => KeyOutcome::Quit,
        Command::Refresh => KeyOutcome::Refresh,
        _ => KeyOutcome::Continue,
    }
}

impl App {
    /// Acts on a key at `now`: changes the search, the range or the selection as its command
    /// says, filters anew where the search or range changed, and tells the event loop whether
    /// to go on, stop or read the sessions again.
    pub fn handle_key(&mut self, key: Key, now: Moment) -> (r: KeyOutcome)
        requires
            command_of(key, old(self).search_mode) == Command::MoveDown ==> (
            old(self).visible@.len() == 0 || old(self).selected < usize::MAX),
        ensures
            ({
                let c = command_of(key, old(self).search_mode);
                &&& r == outcome_of(c)
                &&& final(self).search@ == search_after(c, old(self).search@)
                &&& final(self).search_mode == search_mode_after(c, old(self).search_mode)
                &&& final(self).range == range_after(c, old(self).range)
                &&& final(self).all_records == old(self).all_records
                &&& final(self).status == old(self).status
                &&& final(self).privacy == old(self).privacy
                &&& refilters(c) ==> final(self).visible@ == shown(
                    old(self).all_records@,
                    final(self).range,
                    final(self).search@,
                    now,
                ) && final(self).selected == clamp_selection(
                    old(self).selected,
                    final(self).visible@.len(),
                ) && final(self).wf()
                &&& !refilters(c) ==> final(self).visible == old(self).visible
                &&& c == Command::MoveDown ==> final(self).selected == if old(self).visible@.len()
                    == 0 {
                    old(self).selected
                } else if old(self).selected + 1 <= old(self).visible@.len() - 1 {
                    (old(self).selected + 1) as usize
                } else {
                    (old(self).visible@.len() - 1) as usize
                }
                &&& c == Command::MoveUp ==> final(self).selected == if old(self).selected == 0 {
                    0
                } else {
                    (old(self).selected - 1) as usize
                }
                &&& !refilters(c) && c != Command::MoveDown && c != Command::MoveUp
                    ==> final(self).selected == old(self).selected
                &&& old(self).wf() ==> final(self).wf()
            }),
    {
        let c = command_for(key, self.search_mode);
        match c {
            Command::Quit => KeyOutcome::Quit,
            Command::StartSearch => {
                self.search_mode = true;
                KeyOutcome::Continue
            },
            Command::ClearSearch => {
                self.search_mode = false;
                self.search = String::new();
                self.recompute_at(now);
                KeyOutcome::Continue
            },
            Command::EndSearch => {
                self.search_mode = false;
                KeyOutcome::Continue
            },
            Command::DeleteChar => {
                let mut cs = chars_of(self.search.as_str());
                if cs.len() > 0 {
                    cs.pop();
                }
                self.search = string_of(&cs);
                self.recompute_at(now);
                KeyOutcome::Continue
            },
            Command::TypeChar(ch) => {
                crate::text::push_char(&mut self.search, ch);
                self.recompute_at(now);
                KeyOutcome::Continue
            },
            Command::MoveDown => {
                self.move_next();
                KeyOutcome::Continue
            },
            Command::MoveUp => {
                self.move_previous();
                KeyOutcome::Continue
            },
            Command::SetRange(range) => {
                self.range = range;
                self.recompute_at(now);
                KeyOutcome::Continue
            },
            Command::Refresh => KeyOutcome::Refresh,
            Command::Nothing => KeyOutcome::Continue,
        }
    }
}

} // verus!

verus! {

proof fn lemma_occurs_transitive(h: Seq<char>, m: Seq<char>, n: Seq<char>)
    requires
        occurs_in(h, m),
        occurs_in(m, n),
    ensures
        occurs_in(h, n),
{
    let i = choose|i: int| 0 <= i <= h.len() - m.len() && #[trigger] crate::text::block_at(h, i, m.len() as int) == m;
    let j = choose|j: int| 0 <= j <= m.len() - n.len() && #[trigger] crate::text::block_at(m, j, n.len() as int) == n;
    assert(crate::text::block_at(h, i + j, n.len() as int) =~= n) by {
        assert forall|k: int| 0 <= k < n.len() implies crate::text::block_at(h, i + j, n.len() as int)[k] == n[k] by {
            assert(crate::text::block_at(m, j, n.len() as int)[k] == m[j + k]);
            assert(crate::text::block_at(h, i, m.len() as int)[j + k] == h[i + j + k]);
        }
    }
}

/// Searching for more narrows the list: a record that matches a needle matches every needle
/// that occurs in it.
pub proof fn law_longer_needle_narrows(r: SessionRecord, needle: Seq<char>, part: Seq<char>)
    requires
        occurs_in(needle, part),
        matches_needle(r, needle),
    ensures
        matches_needle(r, part),
{
    if part.len() > 0 {
        assert(needle.len() > 0);
        lemma_occurs_transitive(lowercase(search_text(r)), needle, part);
    }
}

} // verus!

verus! {

proof fn lemma_block_in_concat(a: Seq<char>, b: Seq<char>, c: Seq<char>)
    ensures
        occurs_in(a + b + c, b),
{
    assert(crate::text::block_at(a + b + c, a.len() as int, b.len() as int) =~= b);
}

/// The text a query is searched in holds each of the four fields whole: the title, the
/// working directory, the model where there is one, and the session id.
pub proof fn law_search_text_holds_fields(r: SessionRecord)
    ensures
        occurs_in(search_text(r), r.summary.title@),
        occurs_in(search_text(r), r.summary.cwd@),
        r.summary.model matches Some(m) ==> occurs_in(search_text(r), m@),
        occurs_in(search_text(r), r.summary.id@),
{
    let t = r.summary.title@;
    let c = r.summary.cwd@;
    let i = r.summary.id@;
    let m = match r.summary.model {
        Some(m) => m@,
        None => Seq::<char>::empty(),
    };
    let sp = seq![' '];
    let s = search_text(r);
    assert(s == t + sp + c + sp + m + sp + i);
    lemma_block_in_concat(Seq::empty(), t, sp + c + sp + m + sp + i);
    assert(Seq::<char>::empty() + t + (sp + c + sp + m + sp + i) =~= s);
    lemma_block_in_concat(t + sp, c, sp + m + sp + i);
    assert(t + sp + c + (sp + m + sp + i) =~= s);
    lemma_block_in_concat(t + sp + c + sp, m, sp + i);
    assert(t + sp + c + sp + m + (sp + i) =~= s);
    lemma_block_in_concat(t + sp + c + sp + m + sp, i, Seq::empty());
    assert(t + sp + c + sp + m + sp + i + Seq::<char>::empty() =~= s);
}

/// Matching is case-insensitive search in that text: a needle matches a record exactly when
/// it is empty or occurs in the record's lower-cased search text, and a needle found in the
/// text as it is found in any text that holds it.
pub proof fn law_needle_found_in_search_text(r: SessionRecord, needle: Seq<char>, text: Seq<char>)
    requires
        occurs_in(text, needle),
        occurs_in(lowercase(search_text(r)), text),
    ensures
        matches_needle(r, needle),
{
    if needle.len() > 0 {
        lemma_occurs_transitive(lowercase(search_text(r)), text, needle);
    }
}

/// Outside a search the keys do what the help line says, whatever the state: `d`, `w` and `a`
/// pick today, the week and all, `j`/`k` and the arrows move, `q` quits, `r` reads again, `/`
/// starts a search. While a search is typed every character goes into it, and Backspace
/// takes the last one off. Esc clears the search and Enter ends typing it, in either mode.
pub proof fn law_keys_follow_the_help(range: DateRange, search: Seq<char>, ch: char)
    ensures
        range_after(command_of(Key::Char('d'), false), range) == DateRange::Today,
        range_after(command_of(Key::Char('w'), false), range) == DateRange::Week,
        range_after(command_of(Key::Char('a'), false), range) == DateRange::All,
        command_of(Key::Char('j'), false) == Command::MoveDown,
        command_of(Key::Down, false) == Command::MoveDown,
        command_of(Key::Char('k'), false) == Command::MoveUp,
        command_of(Key::Up, false) == Command::MoveUp,
        outcome_of(command_of(Key::Char('q'), false)) == KeyOutcome::Quit,
        outcome_of(command_of(Key::Char('r'), false)) == KeyOutcome::Refresh,
        search_mode_after(command_of(Key::Char('/'), false), false),
        search_after(command_of(Key::Char(ch), true), search) == search.push(ch),
        range_after(command_of(Key::Char(ch), true), range) == range,
        outcome_of(command_of(Key::Char(ch), true)) == KeyOutcome::Continue,
        search.len() > 0 ==> search_after(command_of(Key::Backspace, true), search)
            == search.drop_last(),
        search_after(command_of(Key::Esc, false), search).len() == 0,
        search_after(command_of(Key::Esc, true), search).len() == 0,
        !search_mode_after(command_of(Key::Esc, true), true),
        !search_mode_after(command_of(Key::Enter, true), true),
        search_after(command_of(Key::Enter, true), search) == search,
{
}

/// The rate limit shown is that of the first shown session that has one: where the session
/// at index `i` has one and none before it does, it is that one; there is none exactly when
/// no shown session has one.
pub proof fn law_first_rate_limit(records: Seq<SessionRecord>)
    ensures
        first_rate_limit(records) is None <==> forall|i: int|
            0 <= i < records.len() ==> (#[trigger] records[i]).rate_limit is None,
        forall|i: int|
            0 <= i < records.len() && (#[trigger] records[i]).rate_limit is Some && (forall|j: int|
                0 <= j < i ==> (#[trigger] records[j]).rate_limit is None) ==> first_rate_limit(records)
                == records[i].rate_limit,
    decreases records.len(),
{
    if records.len() > 0 {
        let rest = records.drop_first();
        law_first_rate_limit(rest);
        assert forall|i: int| 0 < i < records.len() implies records[i] == #[trigger] rest[i - 1] by {}
        if records[0].rate_limit is None {
            assert((forall|i: int| 0 <= i < records.len() ==> (#[trigger] records[i]).rate_limit is None)
                <==> (forall|i: int| 0 <= i < rest.len() ==> (#[trigger] rest[i]).rate_limit is None)) by {
                if forall|i: int| 0 <= i < rest.len() ==> (#[trigger] rest[i]).rate_limit is None {
                    assert forall|i: int| 0 <= i < records.len() implies (
                    #[trigger] records[i]).rate_limit is None by {
                        if i > 0 {
                            assert(records[i] == rest[i - 1]);
                        }
                    }
                }
                if forall|i: int| 0 <= i < records.len() ==> (#[trigger] records[i]).rate_limit is None {
                    assert forall|i: int| 0 <= i < rest.len() implies (#[trigger] rest[i]).rate_limit is None by {
                        assert(records[i + 1] == rest[i]);
                    }
                }
            }
            assert forall|i: int|
                0 <= i < records.len() && (#[trigger] records[i]).rate_limit is Some && (forall|j: int|
                    0 <= j < i ==> (#[trigger] records[j]).rate_limit is None) implies first_rate_limit(
                records,
            ) == records[i].rate_limit by {
                assert(i > 0);
                assert(rest[i - 1] == records[i]);
                assert forall|j: int| 0 <= j < i - 1 implies (#[trigger] rest[j]).rate_limit is None by {
                    assert(records[j + 1] == rest[j]);
                }
            }
        } else {
            assert(records[0].rate_limit is Some);
        }
    }
}

} // verus!
