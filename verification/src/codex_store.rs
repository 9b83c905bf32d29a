//! Where the Codex state lives, and what a session's rollout file says of its token usage.
use vstd::prelude::*;

use crate::model::{RateLimit, TokenUsage};
use crate::text::{chars_of, has_prefix, starts_with, string_of, suffix_from};

verus! {

/// `base` extended by `rest` as std's `Path::join` does on Unix: an absolute `rest` replaces
/// `base`; otherwise a slash goes between them unless `base` is empty or already ends in one.
pub open spec fn join_path(base: Seq<char>, rest: Seq<char>) -> Seq<char> {
    if rest.len() > 0 && rest[0] == '/' {
        rest
    } else if base.len() == 0 || base.last() == '/' {
        base + rest
    } else {
        base + seq!['/'] + rest
    }
}

/// A path with a leading `~` read as the home directory: `~` alone is the home directory,
/// `~/rest` is `rest` joined to it, anything else is left as it is.
pub open spec fn tilde_expanded(path: Seq<char>, home: Seq<char>) -> Seq<char> {
    if path == seq!['~'] {
        home
    } else if starts_with(path, seq!['~', '/']) {
        join_path(home, path.skip(2))
    } else {
        path
    }
}

/// The Codex home chosen from a command-line value, an environment value and the home
/// directory: the command line first, then the environment, then `.codex` in the home
/// directory.
pub open spec fn chosen_codex_home(
    cli_value: Option<Seq<char>>,
    env_value: Option<Seq<char>>,
    home: Seq<char>,
) -> Seq<char> {
    match cli_value {
        Some(p) => tilde_expanded(p, home),
        None => match env_value {
            Some(p) => tilde_expanded(p, home),
            None => join_path(home, ".codex"@),
        },
    }
}

/// `base` joined with `rest`, as `Path::join` does on Unix.
pub fn join_path_chars(base: &Vec<char>, rest: &Vec<char>) -> (r: Vec<char>)
    ensures
        r@ == join_path(base@, rest@),
{
    if rest.len() > 0 && rest[0] == '/' {
        return suffix_from(rest, 0);
    }
    let mut r = suffix_from(base, 0);
    if !(base.len() == 0 || base[base.len() - 1] == '/') {
        r.push('/');
    }
    let mut i: usize = 0;
    let ghost start = r@;
    while i < rest.len()
        invariant
            i <= rest@.len(),
            r@ == start + rest@.take(i as int),
        decreases rest@.len() - i,
    {
        r.push(rest[i]);
        i += 1;
        assert(r@ =~= start + rest@.take(i as int));
    }
    assert(rest@.take(rest@.len() as int) =~= rest@);
    assert(base@.skip(0) =~= base@);
    assert(rest@.skip(0) =~= rest@);
    r
}

fn expand_tilde(path: String, home_dir: &str) -> (r: String)
    ensures
        r@ == tilde_expanded(path@, home_dir@),
{
    let text = chars_of(path.as_str());
    if text.len() == 1 && text[0] == '~' {
        assert(text@ =~= seq!['~']);
        return crate::text::string_from(home_dir);
    }
    assert(text@.len() == 1 && text@[0] == '~' <==> text@ == seq!['~']);
    let mut marker: Vec<char> = Vec::new();
    marker.push('~');
    marker.push('/');
    assert(marker@ =~= seq!['~', '/']);
    if has_prefix(&text, &marker) {
        let rest = suffix_from(&text, 2);
        let home = chars_of(home_dir);
        let joined = join_path_chars(&home, &rest);
        return string_of(&joined);
    }
    path
}

/// The Codex home: the command-line value, else the environment value, else `.codex` in the
/// home directory; a leading `~` in either value stands for the home directory.
pub fn resolve_codex_home_from(
    cli_value: Option<String>,
    env_value: Option<&str>,
    home_dir: &str,
) -> (r: String)
    ensures
        r@ == chosen_codex_home(
            match cli_value {
                Some(p) => Some(p@),
                None => None,
            },
            match env_value {
                Some(p) => Some(p@),
                None => None,
            },
            home_dir@,
        ),
{
    match cli_value {
        Some(path) => expand_tilde(path, home_dir),
        None => match env_value {
            Some(path) => expand_tilde(crate::text::string_from(path), home_dir),
            None => {
                let home = chars_of(home_dir);
                let name = chars_of(".codex");
                let joined = join_path_chars(&home, &name);
                string_of(&joined)
            },
        },
    }
}

/// The cumulative usage that a `token_count` event carries.
#[derive(Debug, Clone, Copy, PartialEq, Eq, Structural)]
pub struct TokenInfo {
    pub total_token_usage: TokenUsage,
}

/// One rate-limit window of a `token_count` event; the used percentage is carried by the
/// bit pattern of its `f64`.
#[derive(Debug, Clone, Copy, PartialEq, Eq, Structural)]
pub struct RateLimitWindow {
    pub used_percent_bits: Option<u64>,
    pub resets_at: Option<i64>,
}

/// The rate limits of a `token_count` event.
#[derive(Debug, Clone, Copy, PartialEq, Eq, Structural)]
pub struct RateLimits {
    pub primary: Option<RateLimitWindow>,
    pub secondary: Option<RateLimitWindow>,
}

/// The payload of a rollout event.
#[derive(Debug, PartialEq, Eq)]
pub struct EventPayload {
    pub kind: String,
    pub info: Option<TokenInfo>,
    pub rate_limits: Option<RateLimits>,
}

/// One line of a rollout file that reads as an event.
#[derive(Debug, PartialEq, Eq)]
pub struct RolloutEvent {
    pub kind: String,
    pub payload: EventPayload,
}

/// What a session's rollout reported last.
#[derive(Debug, Clone, Copy, PartialEq, Eq, Structural)]
pub struct ParsedSession {
    pub usage: Option<TokenUsage>,
    pub rate_limit: Option<RateLimit>,
}

impl Default for ParsedSession {
    fn default() -> (r: Self)
        ensures
            r.usage is None,
            r.rate_limit is None,
    {
        ParsedSession { usage: None, rate_limit: None }
    }
}

/// The rate limit that a `token_count` event's windows describe.
pub open spec fn rate_limit_of(v: RateLimits) -> RateLimit {
    RateLimit {
        primary_used_percent_bits: match v.primary {
            Some(w) => w.used_percent_bits,
            None => None,
        },
        primary_resets_at: match v.primary {
            Some(w) => w.resets_at,
            None => None,
        },
        secondary_used_percent_bits: match v.secondary {
            Some(w) => w.used_percent_bits,
            None => None,
        },
        secondary_resets_at: match v.secondary {
            Some(w) => w.resets_at,
            None => None,
        },
    }
}

impl From<RateLimits> for RateLimit {
    fn from(value: RateLimits) -> (r: RateLimit) {
        RateLimit {
            primary_used_percent_bits: match value.primary {
                Some(w) => w.used_percent_bits,
                None => None,
            },
            primary_resets_at: match value.primary {
                Some(w) => w.resets_at,
                None => None,
            },
            secondary_used_percent_bits: match value.secondary {
                Some(w) => w.used_percent_bits,
                None => None,
            },
            secondary_resets_at: match value.secondary {
                Some(w) => w.resets_at,
                None => None,
            },
        }
    }
}

impl vstd::std_specs::convert::FromSpecImpl<RateLimits> for RateLimit {
    open spec fn obeys_from_spec() -> bool {
        true
    }

    open spec fn from_spec(v: RateLimits) -> RateLimit {
        rate_limit_of(v)
    }
}

/// An event of type `event_msg` whose payload is of type `token_count`.
pub open spec fn is_token_count(e: RolloutEvent) -> bool {
    e.kind@ == "event_msg"@ && e.payload.kind@ == "token_count"@
}

/// The cumulative usage of the last `token_count` event of `events` that carries one.
pub open spec fn last_usage(events: Seq<RolloutEvent>) -> Option<TokenUsage>
    decreases events.len(),
{
    if events.len() == 0 {
        None
    } else {
        let e = events.last();
        if is_token_count(e) && e.payload.info is Some {
            Some(e.payload.info.unwrap().total_token_usage)
        } else {
            last_usage(events.drop_last())
        }
    }
}

/// The rate limit of the last `token_count` event of `events` that carries one.
pub open spec fn last_rate_limit(events: Seq<RolloutEvent>) -> Option<RateLimit>
    decreases events.len(),
{
    if events.len() == 0 {
        None
    } else {
        let e = events.last();
        if is_token_count(e) && e.payload.rate_limits is Some {
            Some(rate_limit_of(e.payload.rate_limits.unwrap()))
        } else {
            last_rate_limit(events.drop_last())
        }
    }
}

/// What the events of a rollout, in file order, report last: the usage of the last
/// `token_count` event with usage, and the rate limit of the last one with rate limits.
pub fn last_token_count(events: &Vec<RolloutEvent>) -> (r: ParsedSession)
    ensures
        r.usage == last_usage(events@),
        r.rate_limit == last_rate_limit(events@),
        r.usage is None <==> forall|i: int|
            0 <= i < events@.len() ==> !reports_usage(#[trigger] events@[i]),
        forall|i: int|
            0 <= i < events@.len() && reports_usage(#[trigger] events@[i]) && (forall|j: int|
                i < j < events@.len() ==> !reports_usage(#[trigger] events@[j])) ==> r.usage
                == Some(events@[i].payload.info.unwrap().total_token_usage),
        r.rate_limit is None <==> forall|i: int|
            0 <= i < events@.len() ==> !reports_rate_limit(#[trigger] events@[i]),
        forall|i: int|
            0 <= i < events@.len() && reports_rate_limit(#[trigger] events@[i]) && (forall|j: int|
                i < j < events@.len() ==> !reports_rate_limit(#[trigger] events@[j]))
                ==> r.rate_limit == Some(rate_limit_of(events@[i].payload.rate_limits.unwrap())),
{
    proof {
        law_reported_usage_is_latest(events@);
        law_reported_rate_limit_is_latest(events@);
    }
    let event_msg = crate::text::string_from("event_msg");
    let token_count = crate::text::string_from("token_count");
    let mut parsed = ParsedSession::default();
    for i in 0..events.len()
        invariant
            event_msg@ == "event_msg"@,
            token_count@ == "token_count"@,
            parsed.usage == last_usage(events@.take(i as int)),
            parsed.rate_limit == last_rate_limit(events@.take(i as int)),
    {
        let e = &events[i];
        proof {
            assert(events@.take(i + 1).drop_last() =~= events@.take(i as int));
            assert(events@.take(i + 1).last() == events@[i as int]);
        }
        if e.kind == event_msg && e.payload.kind == token_count {
            if let Some(limits) = e.payload.rate_limits {
                parsed.rate_limit = Some(RateLimit::from(limits));
            }
            if let Some(info) = e.payload.info {
                parsed.usage = Some(info.total_token_usage);
            }
        }
    }
    assert(events@.take(events@.len() as int) =~= events@);
    parsed
}

} // verus!

verus! {

/// A later `token_count` event decides: appending one with usage makes its usage the one
/// reported, appending one with rate limits makes those the ones reported, and appending an
/// event of another kind changes nothing.
pub proof fn law_last_event_wins(events: Seq<RolloutEvent>, e: RolloutEvent)
    ensures
        is_token_count(e) && e.payload.info is Some ==> last_usage(events.push(e)) == Some(
            e.payload.info.unwrap().total_token_usage,
        ),
        is_token_count(e) && e.payload.rate_limits is Some ==> last_rate_limit(events.push(e))
            == Some(rate_limit_of(e.payload.rate_limits.unwrap())),
        !is_token_count(e) ==> last_usage(events.push(e)) == last_usage(events)
            && last_rate_limit(events.push(e)) == last_rate_limit(events),
        e.payload.info is None ==> last_usage(events.push(e)) == last_usage(events),
        e.payload.rate_limits is None ==> last_rate_limit(events.push(e)) == last_rate_limit(
            events,
        ),
{
    assert(events.push(e).drop_last() =~= events);
}

/// A `token_count` event that carries usage.
pub open spec fn reports_usage(e: RolloutEvent) -> bool {
    is_token_count(e) && e.payload.info is Some
}

/// A `token_count` event that carries rate limits.
pub open spec fn reports_rate_limit(e: RolloutEvent) -> bool {
    is_token_count(e) && e.payload.rate_limits is Some
}

/// The usage reported for a rollout is that of its last event reporting usage, whatever
/// follows it; there is none exactly when no event reports usage.
pub proof fn law_reported_usage_is_latest(events: Seq<RolloutEvent>)
    ensures
        last_usage(events) is None <==> forall|i: int|
            0 <= i < events.len() ==> !reports_usage(#[trigger] events[i]),
        forall|i: int|
            0 <= i < events.len() && reports_usage(#[trigger] events[i]) && (forall|j: int|
                i < j < events.len() ==> !reports_usage(#[trigger] events[j])) ==> last_usage(events)
                == Some(events[i].payload.info.unwrap().total_token_usage),
    decreases events.len(),
{
    if events.len() > 0 {
        let p = events.drop_last();
        law_reported_usage_is_latest(p);
        let n = events.len() - 1;
        assert forall|i: int| 0 <= i < n implies events[i] == #[trigger] p[i] by {}
        if !reports_usage(events[n]) {
            assert((forall|i: int| 0 <= i < events.len() ==> !reports_usage(#[trigger] events[i]))
                <==> (forall|i: int| 0 <= i < p.len() ==> !reports_usage(#[trigger] p[i]))) by {
                if forall|i: int| 0 <= i < p.len() ==> !reports_usage(#[trigger] p[i]) {
                    assert forall|i: int| 0 <= i < events.len() implies !reports_usage(
                        #[trigger] events[i],
                    ) by {
                        if i < n {
                            assert(events[i] == p[i]);
                        }
                    }
                }
            }
            assert forall|i: int|
                0 <= i < events.len() && reports_usage(#[trigger] events[i]) && (forall|j: int|
                    i < j < events.len() ==> !reports_usage(#[trigger] events[j])) implies last_usage(
                events,
            ) == Some(events[i].payload.info.unwrap().total_token_usage) by {
                assert(i < n);
                assert(p[i] == events[i]);
                assert forall|j: int| i < j < p.len() implies !reports_usage(#[trigger] p[j]) by {
                    assert(p[j] == events[j]);
                }
            }
        } else {
            assert(!(forall|i: int| 0 <= i < events.len() ==> !reports_usage(#[trigger] events[i])))
                by {
                assert(reports_usage(events[n]));
            }
            assert forall|i: int|
                0 <= i < events.len() && reports_usage(#[trigger] events[i]) && (forall|j: int|
                    i < j < events.len() ==> !reports_usage(#[trigger] events[j])) implies last_usage(
                events,
            ) == Some(events[i].payload.info.unwrap().total_token_usage) by {
                if i < n {
                    assert(!reports_usage(events[n]));
                }
            }
        }
    }
}

/// The rate limit reported for a rollout is that of its last event reporting rate limits,
/// whatever follows it; there is none exactly when no event reports rate limits.
pub proof fn law_reported_rate_limit_is_latest(events: Seq<RolloutEvent>)
    ensures
        last_rate_limit(events) is None <==> forall|i: int|
            0 <= i < events.len() ==> !reports_rate_limit(#[trigger] events[i]),
        forall|i: int|
            0 <= i < events.len() && reports_rate_limit(#[trigger] events[i]) && (forall|j: int|
                i < j < events.len() ==> !reports_rate_limit(#[trigger] events[j]))
                ==> last_rate_limit(events) == Some(
                rate_limit_of(events[i].payload.rate_limits.unwrap()),
            ),
    decreases events.len(),
{
    if events.len() > 0 {
        let p = events.drop_last();
        law_reported_rate_limit_is_latest(p);
        let n = events.len() - 1;
        assert forall|i: int| 0 <= i < n implies events[i] == #[trigger] p[i] by {}
        if !reports_rate_limit(events[n]) {
            assert((forall|i: int| 0 <= i < events.len() ==> !reports_rate_limit(#[trigger] events[i]))
                <==> (forall|i: int| 0 <= i < p.len() ==> !reports_rate_limit(#[trigger] p[i]))) by {
                if forall|i: int| 0 <= i < p.len() ==> !reports_rate_limit(#[trigger] p[i]) {
                    assert forall|i: int| 0 <= i < events.len() implies !reports_rate_limit(
                        #[trigger] events[i],
                    ) by {
                        if i < n {
                            assert(events[i] == p[i]);
                        }
                    }
                }
            }
            assert forall|i: int|
                0 <= i < events.len() && reports_rate_limit(#[trigger] events[i]) && (forall|j: int|
                    i < j < events.len() ==> !reports_rate_limit(#[trigger] events[j]))
                    implies last_rate_limit(events) == Some(
                rate_limit_of(events[i].payload.rate_limits.unwrap()),
            ) by {
                assert(i < n);
                assert(p[i] == events[i]);
                assert forall|j: int| i < j < p.len() implies !reports_rate_limit(#[trigger] p[j]) by {
                    assert(p[j] == events[j]);
                }
            }
        } else {
            assert(!(forall|i: int| 0 <= i < events.len() ==> !reports_rate_limit(#[trigger] events[i])))
                by {
                assert(reports_rate_limit(events[n]));
            }
            assert forall|i: int|
                0 <= i < events.len() && reports_rate_limit(#[trigger] events[i]) && (forall|j: int|
                    i < j < events.len() ==> !reports_rate_limit(#[trigger] events[j]))
                    implies last_rate_limit(events) == Some(
                rate_limit_of(events[i].payload.rate_limits.unwrap()),
            ) by {
                if i < n {
                    assert(!reports_rate_limit(events[n]));
                }
            }
        }
    }
}

/// The command-line value decides whenever it is given, whatever the environment holds; the
/// environment decides only without it; `.codex` in the home directory only without both.
pub proof fn law_codex_home_order(
    cli: Seq<char>,
    env: Option<Seq<char>>,
    other_env: Option<Seq<char>>,
    home: Seq<char>,
)
    ensures
        chosen_codex_home(Some(cli), env, home) == chosen_codex_home(Some(cli), other_env, home),
        chosen_codex_home(Some(cli), env, home) == tilde_expanded(cli, home),
        env matches Some(e) ==> chosen_codex_home(None, env, home) == tilde_expanded(e, home),
        chosen_codex_home(None, None, home) == join_path(home, ".codex"@),
{
}

} // verus!
