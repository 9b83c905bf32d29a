//! The text pieces of the dashboard: numbers, names, trends, shortened to fit.
use vstd::prelude::*;

use crate::clock::{
    UNIX_EPOCH_DAY,
    local_day_near, local_day_number, local_time_text, utc_day_number, utc_now,
    utc_timestamp_in_range,
};
use crate::app::PrivacyMode;
use crate::model::{RateLimit, SessionRecord, effective_usage_of, fits_i64};
use crate::text::{
    chars_of, decimal, has_prefix, join, lowercase, prefix_of, push_chars, push_decimal,
    push_str, single_line_chars, starts_with, string_from, string_of, suffix_from, to_lowercase,
    words,
};

verus! {

/// The digits `d` with a comma before every group of three, counted from the right.
pub open spec fn grouped(d: Seq<char>) -> Seq<char>
    decreases d.len(),
{
    if d.len() <= 3 {
        d
    } else {
        grouped(d.take(d.len() - 3)) + seq![','] + d.skip(d.len() - 3)
    }
}

/// `value` written in decimal with thousands separators, and a minus sign when negative.
pub open spec fn formatted_number(value: int) -> Seq<char> {
    if value < 0 {
        seq!['-'] + grouped(decimal((-value) as nat))
    } else {
        grouped(decimal(value as nat))
    }
}

fn push_grouped(out: &mut Vec<char>, d: &Vec<char>, end: usize)
    requires
        end <= d@.len(),
    ensures
        final(out)@ == old(out)@ + grouped(d@.take(end as int)),
    decreases end,
{
    let ghost t = d@.take(end as int);
    if end <= 3 {
        let mut i: usize = 0;
        while i < end
            invariant
                i <= end <= d@.len(),
                out@ == old(out)@ + d@.take(i as int),
            decreases end - i,
        {
            out.push(d[i]);
            i += 1;
            assert(out@ =~= old(out)@ + d@.take(i as int));
        }
    } else {
        push_grouped(out, d, end - 3);
        out.push(',');
        let ghost mid = out@;
        let mut i: usize = end - 3;
        while i < end
            invariant
                end > 3,
                end - 3 <= i <= end <= d@.len(),
                out@ == mid + d@.subrange(end - 3, i as int),
            decreases end - i,
        {
            out.push(d[i]);
            i += 1;
            assert(out@ =~= mid + d@.subrange(end - 3, i as int));
        }
        assert(t.take(t.len() - 3) =~= d@.take(end - 3));
        assert(t.skip(t.len() - 3) =~= d@.subrange(end - 3, end as int));
        assert(out@ =~= old(out)@ + grouped(t));
    }
}

/// A number with thousands separators: 1234567 is "1,234,567".
pub fn format_number(value: i64) -> (r: String)
    requires
        value != i64::MIN,
    ensures
        r@ == formatted_number(value as int),
{
    let magnitude: u64 = if value < 0 {
        (-value) as u64
    } else {
        value as u64
    };
    let mut digits: Vec<char> = Vec::new();
    push_decimal(&mut digits, magnitude);
    assert(digits@ =~= decimal(magnitude as nat));
    let mut out: Vec<char> = Vec::new();
    if value < 0 {
        out.push('-');
    }
    push_grouped(&mut out, &digits, digits.len());
    assert(digits@.take(digits@.len() as int) =~= digits@);
    proof {
        if value < 0 {
            assert(out@ =~= seq!['-'] + grouped(decimal((-value) as nat)));
        } else {
            assert(out@ =~= grouped(decimal(value as nat)));
        }
    }
    string_of(&out)
}

/// `s` cut to `max` characters, with "…" after it where something was cut.
pub open spec fn truncated(s: Seq<char>, max: nat) -> Seq<char> {
    if s.len() <= max {
        s
    } else {
        s.take(max as int).push('…')
    }
}

fn truncate_vec(value: &Vec<char>, max_chars: usize) -> (r: String)
    ensures
        r@ == truncated(value@, max_chars as nat),
{
    let mut head = prefix_of(value, max_chars);
    if value.len() > max_chars {
        head.push('…');
    } else {
        assert(value@.take(value@.len() as int) =~= value@);
    }
    string_of(&head)
}

/// At most `max_chars` characters of `value`, ending in "…" where it had more.
pub fn truncate_chars(value: &str, max_chars: usize) -> (r: String)
    ensures
        r@ == truncated(value@, max_chars as nat),
{
    let cs = chars_of(value);
    truncate_vec(&cs, max_chars)
}

/// A model name without its "codex-" prefix ("codex-auto-" becomes "auto-").
pub open spec fn compact_model(m: Seq<char>) -> Seq<char> {
    if starts_with(m, "codex-auto-"@) {
        "auto-"@ + m.skip("codex-auto-"@.len() as int)
    } else if starts_with(m, "codex-"@) {
        m.skip("codex-"@.len() as int)
    } else {
        m
    }
}

/// A model name shortened for the session list: prefix dropped, at most 8 characters.
pub fn short_model(model: &str) -> (r: String)
    ensures
        r@ == truncated(compact_model(model@), 8),
{
    let m = chars_of(model);
    let auto_prefix = chars_of("codex-auto-");
    let plain_prefix = chars_of("codex-");
    let compact = if has_prefix(&m, &auto_prefix) {
        let rest = suffix_from(&m, auto_prefix.len());
        let mut c = chars_of("auto-");
        let ghost before = c@;
        let mut i: usize = 0;
        while i < rest.len()
            invariant
                i <= rest@.len(),
                c@ == before + rest@.take(i as int),
            decreases rest@.len() - i,
        {
            c.push(rest[i]);
            i += 1;
            assert(c@ =~= before + rest@.take(i as int));
        }
        assert(rest@.take(rest@.len() as int) =~= rest@);
        c
    } else if has_prefix(&m, &plain_prefix) {
        suffix_from(&m, plain_prefix.len())
    } else {
        m
    };
    truncate_vec(&compact, 8)
}

/// A rate-limit line shortened for the trend line.
pub open spec fn compacted_rate(rate: Seq<char>) -> Seq<char> {
    if starts_with(rate, "rate limit: "@) {
        "rate "@ + rate.skip("rate limit: "@.len() as int)
    } else if starts_with(rate, "RATE LIMIT "@) {
        "rate "@ + lowercase(rate.skip("RATE LIMIT "@.len() as int))
    } else {
        rate
    }
}

/// "rate limit: x" becomes "rate x"; "RATE LIMIT X" becomes "rate " and X in lower case.
pub fn compact_rate(rate: &str) -> (r: String)
    ensures
        r@ == compacted_rate(rate@),
{
    let cs = chars_of(rate);
    let lower_prefix = chars_of("rate limit: ");
    let upper_prefix = chars_of("RATE LIMIT ");
    if has_prefix(&cs, &lower_prefix) {
        let rest = suffix_from(&cs, lower_prefix.len());
        let mut out = crate::text::string_from("rate ");
        push_chars(&mut out, &rest);
        out
    } else if has_prefix(&cs, &upper_prefix) {
        let rest = suffix_from(&cs, upper_prefix.len());
        let rest_text = string_of(&rest);
        let lowered = to_lowercase(rest_text.as_str());
        let mut out = crate::text::string_from("rate ");
        crate::text::push_str(&mut out, lowered.as_str());
        out
    } else {
        string_of(&cs)
    }
}

/// A timestamp as local "month-day hour:minute", or "invalid" where chrono cannot represent
/// the instant.
pub fn format_time(timestamp: i64) -> (r: String)
    ensures
        utc_timestamp_in_range(timestamp as int) ==> r@.len() == 11 && r@[2] == '-' && r@[5]
            == ' ' && r@[8] == ':',
        !utc_timestamp_in_range(timestamp as int) ==> r@ == "invalid"@,
{
    match local_time_text(timestamp) {
        Some(text) => text,
        None => crate::text::string_from("invalid"),
    }
}

/// The words of `value` on one line, separated by single spaces.
pub fn single_line(value: &str) -> (r: String)
    ensures
        r@ == join(words(value@), seq![' ']),
{
    let cs = chars_of(value);
    let line = single_line_chars(&cs);
    string_of(&line)
}

} // verus!

verus! {

/// The largest of a nonempty sequence of values.
pub open spec fn seq_max(vs: Seq<i64>) -> int
    decreases vs.len(),
{
    if vs.len() <= 1 {
        vs[0] as int
    } else {
        let m = seq_max(vs.drop_last());
        if vs.last() > m {
            vs.last() as int
        } else {
            m
        }
    }
}

/// The largest value, or 0 for none.
pub open spec fn peak_of(vs: Seq<i64>) -> int {
    if vs.len() == 0 {
        0
    } else {
        seq_max(vs)
    }
}

/// The block level 0..=7 of `v` against a positive `peak`: `7 * v / peak`, clamped to
/// 0..=7 and rounded to the nearest level, halves up.
pub open spec fn block_level(v: int, peak: int) -> int {
    if v <= 0 {
        0
    } else if v >= peak {
        7
    } else {
        (14 * v + peak) / (2 * peak)
    }
}

/// The block character of level `k`, from "▁" (0) to "█" (7).
pub open spec fn block_char(k: int) -> char {
    if k <= 0 {
        '▁'
    } else if k == 1 {
        '▂'
    } else if k == 2 {
        '▃'
    } else if k == 3 {
        '▄'
    } else if k == 4 {
        '▅'
    } else if k == 5 {
        '▆'
    } else if k == 6 {
        '▇'
    } else {
        '█'
    }
}

/// One block per value, scaled against the largest value; all lowest blocks when no value is
/// positive.
pub open spec fn sparkline_of(vs: Seq<i64>) -> Seq<char> {
    let peak = peak_of(vs);
    if peak <= 0 {
        Seq::new(vs.len(), |i: int| '▁')
    } else {
        Seq::new(vs.len(), |i: int| block_char(block_level(vs[i] as int, peak)))
    }
}

fn block(k: u64) -> (c: char)
    requires
        k <= 7,
    ensures
        c == block_char(k as int),
{
    match k {
        0 => '▁',
        1 => '▂',
        2 => '▃',
        3 => '▄',
        4 => '▅',
        5 => '▆',
        6 => '▇',
        _ => '█',
    }
}

fn level(v: i64, peak: i64) -> (k: u64)
    requires
        peak > 0,
    ensures
        k == block_level(v as int, peak as int),
        k <= 7,
{
    if v <= 0 {
        0
    } else if v >= peak {
        7
    } else {
        let num: i128 = 14 * (v as i128) + (peak as i128);
        let den: i128 = 2 * (peak as i128);
        let q = num / den;
        assert(0 <= q <= 7) by (nonlinear_arith)
            requires
                q == num / den,
                num == 14 * v + peak,
                den == 2 * peak,
                0 < v < peak,
        ;
        q as u64
    }
}

/// The largest value, or 0 for none.
pub fn peak_value(values: &[i64]) -> (p: i64)
    ensures
        p == peak_of(values@),
{
    if values.len() == 0 {
        return 0;
    }
    let mut m = values[0];
    let mut i: usize = 1;
    assert(values@.take(1).drop_last() =~= Seq::<i64>::empty());
    while i < values.len()
        invariant
            1 <= i <= values@.len(),
            m == seq_max(values@.take(i as int)),
        decreases values@.len() - i,
    {
        assert(values@.take(i + 1).drop_last() =~= values@.take(i as int));
        if values[i] > m {
            m = values[i];
        }
        i += 1;
    }
    assert(values@.take(values@.len() as int) =~= values@);
    m
}

/// A one-line bar chart of `values`: "▁" to "█", each value scaled against the largest.
pub fn sparkline(values: &[i64]) -> (r: String)
    ensures
        r@ == sparkline_of(values@),
{
    let peak = peak_value(values);
    let mut out: Vec<char> = Vec::new();
    for i in 0..values.len()
        invariant
            peak == peak_of(values@),
            out@ == sparkline_of(values@).take(i as int),
    {
        let c = if peak <= 0 {
            '▁'
        } else {
            block(level(values[i], peak))
        };
        out.push(c);
        assert(out@ =~= sparkline_of(values@).take(i + 1));
    }
    assert(sparkline_of(values@).take(values@.len() as int) =~= sparkline_of(values@));
    string_of(&out)
}

/// The sum of the counted totals of the first `n` records whose local day is `day`.
pub open spec fn day_sum(records: Seq<SessionRecord>, days_of: Seq<Option<i32>>, day: int, n: int) -> int
    decreases n,
{
    if n <= 0 {
        0
    } else {
        day_sum(records, days_of, day, n - 1) + if days_of[n - 1] == Some(day as i32) && i32::MIN <= day <= i32::MAX {
            effective_usage_of(records[n - 1]).total_tokens as int
        } else {
            0
        }
    }
}

/// The first day of a window of `days` days that ends with day `today`.
pub open spec fn window_start(today: int, days: int) -> int {
    today - (days - 1)
}

/// Every running sum of every day of the window, over the records in order, fits in `i64`.
pub open spec fn day_sums_fit(
    records: Seq<SessionRecord>,
    days_of: Seq<Option<i32>>,
    today: int,
    days: int,
) -> bool {
    forall|k: int, n: int|
        0 <= k < days && 0 <= n <= records.len() ==> fits_i64(
            #[trigger] day_sum(records, days_of, window_start(today, days) + k, n),
        )
}

/// The total tokens per local day, for the `days` days ending with day number `today`, of
/// records whose local days are `days_of`; `None` where a running sum leaves `i64`.
pub fn daily_totals(
    records: &[SessionRecord],
    days: usize,
    today: i32,
    days_of: &Vec<Option<i32>>,
) -> (r: Option<Vec<i64>>)
    requires
        days_of@.len() == records@.len(),
    ensures
        r is Some <==> day_sums_fit(records@, days_of@, today as int, days as int),
        r matches Some(v) ==> v@.len() == days && forall|k: int|
            0 <= k < days ==> #[trigger] v@[k] == day_sum(
                records@,
                days_of@,
                window_start(today as int, days as int) + k,
                records@.len() as int,
            ),
{
    let start: i128 = (today as i128) - ((days as i128) - 1);
    let mut totals: Vec<i64> = Vec::new();
    for k in 0..days
        invariant
            totals@.len() == k,
            forall|m: int| 0 <= m < k ==> #[trigger] totals@[m] == 0,
    {
        totals.push(0);
    }
    let ghost rs = records@;
    let ghost ds = days_of@;
    for j in 0..records.len()
        invariant
            rs == records@,
            ds == days_of@,
            ds.len() == rs.len(),
            start == window_start(today as int, days as int),
            totals@.len() == days,
            forall|k: int| 0 <= k < days ==> #[trigger] totals@[k] == day_sum(rs, ds, start + k, j as int),
            forall|k: int, n: int|
                0 <= k < days && 0 <= n <= j ==> fits_i64(#[trigger] day_sum(rs, ds, start + k, n)),
    {
        match days_of[j] {
            Some(d) => {
                let offset: i128 = (d as i128) - start;
                if 0 <= offset && offset < days as i128 {
                    let idx = offset as usize;
                    let amount = records[j].effective_usage().total_tokens;
                    match totals[idx].checked_add(amount) {
                        Some(t) => {
                            totals.set(idx, t);
                        },
                        None => {
                            assert(day_sum(rs, ds, start + idx, j + 1) == totals@[idx as int] + amount);
                            assert(!fits_i64(day_sum(rs, ds, start + idx, j + 1)));
                            return None;
                        },
                    }
                }
            },
            None => {},
        }
        assert forall|k: int| 0 <= k < days implies #[trigger] totals@[k] == day_sum(
            rs,
            ds,
            start + k,
            j + 1,
        ) by {
            assert(day_sum(rs, ds, start + k, j + 1) == day_sum(rs, ds, start + k, j as int) + if ds[j as int] == Some((start + k) as i32) && i32::MIN <= start + k <= i32::MAX {
                effective_usage_of(rs[j as int]).total_tokens as int
            } else {
                0
            });
        }
        assert forall|k: int, n: int| 0 <= k < days && 0 <= n <= j + 1 implies fits_i64(
            #[trigger] day_sum(rs, ds, start + k, n),
        ) by {
            if n == j + 1 {
                assert(totals@[k] == day_sum(rs, ds, start + k, j + 1));
            }
        }
    }
    Some(totals)
}

} // verus!

verus! {

/// Whether `r` is what `daily_totals` gives for these records, day numbers and window.
pub open spec fn daily_result(
    r: Option<Vec<i64>>,
    records: Seq<SessionRecord>,
    days_of: Seq<Option<i32>>,
    today: int,
    days: int,
) -> bool {
    &&& (r is Some <==> day_sums_fit(records, days_of, today, days))
    &&& (r matches Some(v) ==> v@.len() == days && forall|k: int|
        0 <= k < days ==> #[trigger] v@[k] == day_sum(
            records,
            days_of,
            window_start(today, days) + k,
            records.len() as int,
        ))
}

proof fn lemma_utc_day_fits(ts: int)
    requires
        utc_timestamp_in_range(ts),
    ensures
        i32::MIN <= utc_day_number(ts) <= i32::MAX,
{
    vstd::arithmetic::div_mod::lemma_fundamental_div_mod(ts, 86400);
    assert(ts / 86400 >= -96465292);
    assert(ts / 86400 <= 95026237);
}

/// The local days that chrono gave for the records' last updates: one per record, each as
/// `local_day_number` gives it for the record's `updated_at`.
pub open spec fn days_of_updates(records: Seq<SessionRecord>, days_of: Seq<Option<i32>>) -> bool {
    &&& days_of.len() == records.len()
    &&& forall|j: int|
        0 <= j < records.len() ==> local_day_near(
            #[trigger] days_of[j],
            records[j].summary.updated_at as int,
        )
}

/// Day `today` is the local day of a reading of the clock: of an instant at or after the Unix
/// epoch.
pub open spec fn is_today(today: i32) -> bool {
    exists|now: int| now >= 0 && #[trigger] local_day_near(Some(today), now)
}

/// The total tokens per local day over the `days` days that end today, oldest first, each
/// record counted on the local day of its last update. `None` where a running sum leaves
/// `i64`.
pub fn recent_daily_totals(records: &[SessionRecord], days: usize) -> (r: Option<Vec<i64>>)
    ensures
        days == 0 ==> (r matches Some(v) && v@.len() == 0),
        exists|today: i32, days_of: Seq<Option<i32>>|
            is_today(today) && days_of_updates(records@, days_of) && #[trigger] daily_result(
                r,
                records@,
                days_of,
                today as int,
                days as int,
            ),
{
    if days == 0 {
        let r = Some(Vec::new());
        proof {
            let ds = Seq::new(
                records@.len(),
                |j: int|
                    if utc_timestamp_in_range(records@[j].summary.updated_at as int) {
                        Some(utc_day_number(records@[j].summary.updated_at as int) as i32)
                    } else {
                        None
                    },
            );
            assert forall|j: int| 0 <= j < records@.len() implies local_day_near(
                #[trigger] ds[j],
                records@[j].summary.updated_at as int,
            ) by {
                let ts = records@[j].summary.updated_at as int;
                if utc_timestamp_in_range(ts) {
                    lemma_utc_day_fits(ts);
                }
            }
            assert(days_of_updates(records@, ds));
            assert(daily_result(r, records@, ds, UNIX_EPOCH_DAY as int, 0));
            assert(local_day_near(Some(UNIX_EPOCH_DAY as i32), 0)) by {
                assert(utc_day_number(0) == UNIX_EPOCH_DAY);
            }
            assert(is_today(UNIX_EPOCH_DAY as i32));
        }
        return r;
    }
    let now = utc_now();
    let today = match local_day_number(now) {
        Some(d) => d,
        None => {
            assert(false);
            0
        },
    };
    assert(is_today(today)) by {
        assert(local_day_near(Some(today), now as int));
    }
    let mut days_of: Vec<Option<i32>> = Vec::new();
    for j in 0..records.len()
        invariant
            days_of@.len() == j,
            forall|i: int|
                0 <= i < j ==> local_day_near(
                    #[trigger] days_of@[i],
                    records@[i].summary.updated_at as int,
                ),
    {
        days_of.push(local_day_number(records[j].summary.updated_at));
    }
    let r = daily_totals(records, days, today, &days_of);
    assert(days_of_updates(records@, days_of@));
    assert(daily_result(r, records@, days_of@, today as int, days as int));
    r
}

/// The seven-day trend: its bar chart, its largest day and today's total.
#[derive(Debug, Clone, PartialEq, Eq)]
pub struct TrendSummary {
    pub sparkline: String,
    pub peak: i64,
    pub today: i64,
}

/// The trend of a sequence of daily totals: chart, largest (0 for none), last (0 for none).
pub open spec fn trend_matches(t: TrendSummary, totals: Seq<i64>) -> bool {
    &&& t.sparkline@ == sparkline_of(totals)
    &&& t.peak == peak_of(totals)
    &&& t.today == if totals.len() == 0 {
        0
    } else {
        totals.last() as int
    }
}

/// The trend of a sequence of daily totals.
pub fn trend_of(totals: &Vec<i64>) -> (t: TrendSummary)
    ensures
        trend_matches(t, totals@),
{
    let sparkline = sparkline(totals.as_slice());
    let peak = peak_value(totals.as_slice());
    let today = if totals.len() == 0 {
        0
    } else {
        totals[totals.len() - 1]
    };
    TrendSummary { sparkline, peak, today }
}

/// The daily totals of the seven-day window that ends with day number `today`, for records
/// whose local days are `days_of`.
pub open spec fn week_totals(records: Seq<SessionRecord>, days_of: Seq<Option<i32>>, today: int) -> Seq<i64> {
    Seq::new(
        7,
        |k: int| day_sum(records, days_of, window_start(today, 7) + k, records.len() as int) as i64,
    )
}

/// Whether `r` is the trend of the week ending with day `today`, for records whose local days
/// are `days_of`: absent exactly where a running daily sum leaves `i64`, else the trend of the
/// seven daily totals.
pub open spec fn trend_result(
    r: Option<TrendSummary>,
    records: Seq<SessionRecord>,
    days_of: Seq<Option<i32>>,
    today: int,
) -> bool {
    &&& (r is Some <==> day_sums_fit(records, days_of, today, 7))
    &&& (r matches Some(t) ==> trend_matches(t, week_totals(records, days_of, today)))
}

/// The seven-day trend of the records' daily totals, the last day being today; `None` where
/// a running daily sum leaves `i64`.
pub fn trend_summary(records: &[SessionRecord]) -> (r: Option<TrendSummary>)
    ensures
        exists|today: i32, days_of: Seq<Option<i32>>|
            is_today(today) && days_of_updates(records@, days_of) && #[trigger] trend_result(
                r,
                records@,
                days_of,
                today as int,
            ),
{
    let res = recent_daily_totals(records, 7);
    let ghost (today, ds) = choose|today: i32, ds: Seq<Option<i32>>|
        is_today(today) && days_of_updates(records@, ds) && #[trigger] daily_result(res, records@, ds, today as int, 7);
    match res {
        Some(totals) => {
            proof {
                assert(totals@.len() == 7);
                assert forall|k: int| 0 <= k < 7 implies totals@[k] == #[trigger] week_totals(
                    records@,
                    ds,
                    today as int,
                )[k] by {
                    assert(totals@[k] == day_sum(
                        records@,
                        ds,
                        window_start(today as int, 7) + k,
                        records@.len() as int,
                    ));
                }
                assert(totals@ =~= week_totals(records@, ds, today as int));
            }
            let t = trend_of(&totals);
            let ghost snapshot = t;
            let out = Some(t);
            assert(out->0 == snapshot);
            assert(trend_result(out, records@, ds, today as int));
            out
        },
        None => {
            assert(trend_result(None, records@, ds, today as int));
            None
        },
    }
}

} // verus!

verus! {

/// `s` with its commas removed.
pub open spec fn without_commas(s: Seq<char>) -> Seq<char>
    decreases s.len(),
{
    if s.len() == 0 {
        s
    } else if s.last() == ',' {
        without_commas(s.drop_last())
    } else {
        without_commas(s.drop_last()).push(s.last())
    }
}

proof fn lemma_without_commas_concat(a: Seq<char>, b: Seq<char>)
    ensures
        without_commas(a + b) == without_commas(a) + without_commas(b),
    decreases b.len(),
{
    if b.len() == 0 {
        assert(a + b =~= a);
    } else {
        lemma_without_commas_concat(a, b.drop_last());
        assert((a + b).drop_last() =~= a + b.drop_last());
    }
}

proof fn lemma_without_commas_plain(s: Seq<char>)
    requires
        !s.contains(','),
    ensures
        without_commas(s) == s,
    decreases s.len(),
{
    if s.len() > 0 {
        assert(!s.drop_last().contains(',')) by {
            if s.drop_last().contains(',') {
                let i = choose|i: int| 0 <= i < s.drop_last().len() && s.drop_last()[i] == ',';
                assert(s[i] == ',');
            }
        }
        lemma_without_commas_plain(s.drop_last());
        assert(s.last() != ',') by {
            assert(s[s.len() - 1] == s.last());
        }
        assert(s.drop_last().push(s.last()) =~= s);
    }
}

proof fn lemma_decimal_has_no_comma(n: nat)
    ensures
        !decimal(n).contains(','),
    decreases n,
{
    if n >= 10 {
        lemma_decimal_has_no_comma(n / 10);
        let d = decimal(n / 10);
        let c = crate::text::digit_char((n % 10) as int);
        assert forall|i: int| 0 <= i < d.push(c).len() implies d.push(c)[i] != ',' by {
            if i < d.len() {
                assert(d[i] != ',');
            }
        }
    }
}

proof fn lemma_grouped_without_commas(d: Seq<char>)
    requires
        !d.contains(','),
    ensures
        without_commas(grouped(d)) == d,
    decreases d.len(),
{
    if d.len() > 3 {
        let head = d.take(d.len() - 3);
        let tail = d.skip(d.len() - 3);
        assert(!head.contains(',')) by {
            if head.contains(',') {
                let i = choose|i: int| 0 <= i < head.len() && head[i] == ',';
                assert(d[i] == ',');
            }
        }
        assert(!tail.contains(',')) by {
            if tail.contains(',') {
                let i = choose|i: int| 0 <= i < tail.len() && tail[i] == ',';
                assert(d[d.len() - 3 + i] == ',');
            }
        }
        lemma_grouped_without_commas(head);
        lemma_without_commas_plain(tail);
        lemma_without_commas_concat(grouped(head) + seq![','], tail);
        lemma_without_commas_concat(grouped(head), seq![',']);
        assert(without_commas(seq![',']) =~= Seq::<char>::empty()) by {
            reveal_with_fuel(without_commas, 2);
            assert(seq![','].drop_last() =~= Seq::<char>::empty());
            assert(seq![','].last() == ',');
        }
        assert(head + tail =~= d);
    } else {
        lemma_without_commas_plain(d);
    }
}

/// Removing the thousands separators from a formatted number gives back its plain decimal
/// numeral, with the minus sign of a negative number.
pub proof fn law_separators_only_group(value: int)
    ensures
        without_commas(formatted_number(value)) == if value < 0 {
            seq!['-'] + decimal((-value) as nat)
        } else {
            decimal(value as nat)
        },
{
    let m: nat = if value < 0 { (-value) as nat } else { value as nat };
    lemma_decimal_has_no_comma(m);
    lemma_grouped_without_commas(decimal(m));
    if value < 0 {
        lemma_without_commas_concat(seq!['-'], grouped(decimal(m)));
        assert(without_commas(seq!['-']) =~= seq!['-']) by {
            reveal_with_fuel(without_commas, 2);
            assert(seq!['-'].drop_last() =~= Seq::<char>::empty());
            assert(seq!['-'].last() == '-');
            assert(Seq::<char>::empty().push('-') =~= seq!['-']);
        }
    }
}

/// Bars grow with their values: a larger value never gets a lower block, no value gets more
/// than the full block, the peak gets the full block, and a value of zero or less the lowest.
pub proof fn law_sparkline_levels(v1: int, v2: int, peak: int)
    requires
        peak > 0,
        v1 <= v2,
    ensures
        block_level(v1, peak) <= block_level(v2, peak),
        0 <= block_level(v1, peak) <= 7,
        block_level(peak, peak) == 7,
        v1 <= 0 ==> block_level(v1, peak) == 0,
{
    if 0 < v1 && v2 < peak {
        assert((14 * v1 + peak) / (2 * peak) <= (14 * v2 + peak) / (2 * peak)) by (nonlinear_arith)
            requires
                v1 <= v2,
                peak > 0,
        ;
    }
    if 0 < v1 && v1 < peak {
        assert(0 <= (14 * v1 + peak) / (2 * peak) <= 7) by (nonlinear_arith)
            requires
                0 < v1 < peak,
        ;
    }
    if 0 < v1 && v1 < peak && v2 >= peak {
        assert((14 * v1 + peak) / (2 * peak) <= 7) by (nonlinear_arith)
            requires
                0 < v1 < peak,
        ;
    }
}

} // verus!

verus! {

/// The sum over the window's `count` days, from day `start`, of the first `n` records' day sums.
pub open spec fn window_total(
    records: Seq<SessionRecord>,
    days_of: Seq<Option<i32>>,
    start: int,
    count: int,
    n: int,
) -> int
    decreases count,
{
    if count <= 0 {
        0
    } else {
        window_total(records, days_of, start, count - 1, n) + day_sum(
            records,
            days_of,
            start + count - 1,
            n,
        )
    }
}

/// The counted total of record `j` where its local day lies in the window, else 0.
pub open spec fn in_window_amount(
    records: Seq<SessionRecord>,
    days_of: Seq<Option<i32>>,
    start: int,
    count: int,
    j: int,
) -> int {
    match days_of[j] {
        Some(d) => if start <= d < start + count {
            effective_usage_of(records[j]).total_tokens as int
        } else {
            0
        },
        None => 0,
    }
}

/// The sum of the counted totals of the first `n` records whose local day lies in the window.
pub open spec fn in_window_sum(
    records: Seq<SessionRecord>,
    days_of: Seq<Option<i32>>,
    start: int,
    count: int,
    n: int,
) -> int
    decreases n,
{
    if n <= 0 {
        0
    } else {
        in_window_sum(records, days_of, start, count, n - 1) + in_window_amount(
            records,
            days_of,
            start,
            count,
            n - 1,
        )
    }
}

proof fn lemma_window_total_step(
    records: Seq<SessionRecord>,
    days_of: Seq<Option<i32>>,
    start: int,
    count: int,
    n: int,
)
    requires
        n > 0,
        count >= 0,
    ensures
        window_total(records, days_of, start, count, n) == window_total(
            records,
            days_of,
            start,
            count,
            n - 1,
        ) + in_window_amount(records, days_of, start, count, n - 1),
    decreases count,
{
    if count > 0 {
        lemma_window_total_step(records, days_of, start, count - 1, n);
        let day = start + count - 1;
        match days_of[n - 1] {
            Some(d) => {
                if d == day {
                    assert(days_of[n - 1] == Some(day as i32));
                } else {
                    assert(!(days_of[n - 1] == Some(day as i32) && i32::MIN <= day <= i32::MAX));
                }
            },
            None => {},
        }
    }
}

/// Each record counts on one day at most: the daily totals of a window add up to the totals
/// of the records whose local day lies in it, and records outside it count nowhere.
pub proof fn law_daily_totals_partition(
    records: Seq<SessionRecord>,
    days_of: Seq<Option<i32>>,
    today: int,
    days: int,
    n: int,
)
    requires
        days >= 0,
        0 <= n <= records.len(),
    ensures
        window_total(records, days_of, window_start(today, days), days, n) == in_window_sum(
            records,
            days_of,
            window_start(today, days),
            days,
            n,
        ),
    decreases n,
{
    let start = window_start(today, days);
    if n == 0 {
        assert forall|c: int| 0 <= c <= days implies #[trigger] window_total(records, days_of, start, c, 0) == 0 by {
            lemma_window_total_zero(records, days_of, start, c);
        }
    } else {
        law_daily_totals_partition(records, days_of, today, days, n - 1);
        lemma_window_total_step(records, days_of, start, days, n);
    }
}

proof fn lemma_window_total_zero(records: Seq<SessionRecord>, days_of: Seq<Option<i32>>, start: int, count: int)
    ensures
        window_total(records, days_of, start, count, 0) == 0,
    decreases count,
{
    if count > 0 {
        lemma_window_total_zero(records, days_of, start, count - 1);
    }
}

} // verus!

verus! {

/// The session list names each session only when its rows are at least this wide.
pub const SESSION_NAME_MIN_WIDTH: u16 = 44;

/// Whether rows of the session list of width `width` have room for the session's name.
pub fn shows_session_name(width: u16) -> (r: bool)
    ensures
        r == (width >= SESSION_NAME_MIN_WIDTH),
{
    width >= SESSION_NAME_MIN_WIDTH
}

/// The widths, in characters, of the title and of the clipped fields in a details panel of
/// width `width`: the title gets the width less 16, at most 36; a field the width less 20, at
/// least 12 (a width less than the margin counting as 0).
pub fn detail_widths(width: u16) -> (r: (usize, usize))
    ensures
        r.0 == if width >= 16 {
            if width - 16 <= 36 { width - 16 } else { 36 }
        } else {
            0
        },
        r.1 == if width >= 20 {
            if width - 20 >= 12 { width - 20 } else { 12 }
        } else {
            12
        },
{
    let title_room: u16 = width.saturating_sub(16);
    let field_room: u16 = width.saturating_sub(20);
    let title = if title_room <= 36 { title_room as usize } else { 36 };
    let field = if field_room >= 12 { field_room as usize } else { 12 };
    (title, field)
}

/// Where the usage of a record comes from: its rollout's `token_count` events, or only the
/// state database's total.
pub fn usage_source(record: &SessionRecord) -> (r: &'static str)
    ensures
        record.usage is Some ==> r@ == "JSONL token_count"@,
        record.usage is None ==> r@ == "SQLite total only"@,
{
    if record.usage.is_some() {
        "JSONL token_count"
    } else {
        "SQLite total only"
    }
}

} // verus!

verus! {

/// A rate-limit text: fixed words, or a rate limit whose percentages are to be written out.
#[derive(Debug, PartialEq, Eq)]
pub enum RateText {
    Fixed(String),
    Measured(RateLimit),
}

/// The rate-limit text of the summary line: hidden in privacy mode, else the latest rate
/// limit, or "unavailable" where there is none.
pub fn summary_rate_text(privacy: PrivacyMode, latest: Option<RateLimit>) -> (r: RateText)
    ensures
        privacy == PrivacyMode::On ==> (r matches RateText::Fixed(s) && s@
            == "RATE LIMIT hidden in privacy mode"@),
        privacy == PrivacyMode::Off && latest is None ==> (r matches RateText::Fixed(s) && s@
            == "RATE LIMIT unavailable"@),
        privacy == PrivacyMode::Off && latest is Some ==> r == RateText::Measured(latest->0),
{
    match privacy {
        PrivacyMode::On => RateText::Fixed(string_from("RATE LIMIT hidden in privacy mode")),
        PrivacyMode::Off => match latest {
            Some(limit) => RateText::Measured(limit),
            None => RateText::Fixed(string_from("RATE LIMIT unavailable")),
        },
    }
}

/// The rate-limit text of a session's details: hidden in privacy mode, else its rate limit,
/// or "unavailable" where it has none.
pub fn detail_rate_text(privacy: PrivacyMode, rate: Option<RateLimit>) -> (r: RateText)
    ensures
        privacy == PrivacyMode::On ==> (r matches RateText::Fixed(s) && s@
            == "hidden in privacy mode"@),
        privacy == PrivacyMode::Off && rate is None ==> (r matches RateText::Fixed(s) && s@
            == "rate limit: unavailable"@),
        privacy == PrivacyMode::Off && rate is Some ==> r == RateText::Measured(rate->0),
{
    match privacy {
        PrivacyMode::On => RateText::Fixed(string_from("hidden in privacy mode")),
        PrivacyMode::Off => match rate {
            Some(limit) => RateText::Measured(limit),
            None => RateText::Fixed(string_from("rate limit: unavailable")),
        },
    }
}

/// What the footer shows: the search being typed (with its leading slash), the key help, or
/// the search that filters the list.
#[derive(Debug, PartialEq, Eq)]
pub enum FooterPrompt {
    Search(String),
    Help,
    Filter(String),
}

/// The footer's prompt: while a search is typed, "/" and the search; else the key help where
/// there is no search, or the search that filters the list.
pub fn footer_prompt(search_mode: bool, search: &str) -> (r: FooterPrompt)
    ensures
        search_mode ==> (r matches FooterPrompt::Search(s) && s@ == seq!['/'] + search@),
        !search_mode && search@.len() == 0 ==> r == FooterPrompt::Help,
        !search_mode && search@.len() > 0 ==> (r matches FooterPrompt::Filter(s) && s@
            == search@),
{
    if search_mode {
        let mut text = string_from("/");
        push_str(&mut text, search);
        proof {
            reveal_strlit("/");
        }
        assert(text@ =~= seq!['/'] + search@);
        FooterPrompt::Search(text)
    } else if search.is_empty() {
        FooterPrompt::Help
    } else {
        FooterPrompt::Filter(string_from(search))
    }
}

/// The badge that marks privacy mode in the footer.
pub fn privacy_suffix(privacy: PrivacyMode) -> (r: &'static str)
    ensures
        privacy == PrivacyMode::On ==> r@ == "  PRIVACY"@,
        privacy == PrivacyMode::Off ==> r@ == ""@,
{
    match privacy {
        PrivacyMode::On => "  PRIVACY",
        PrivacyMode::Off => "",
    }
}

} // verus!
