use std::path::{Path, PathBuf};

use tempfile::TempDir;
use tokidex::app::{
    DateRange, PrivacyMode, display_cwd, display_id, display_rollout, display_title, filter_records,
};
use tokidex::clock::Moment;
use tokidex::codex_store::{
    EventPayload, RateLimitWindow, RateLimits, RolloutEvent, TokenInfo, last_token_count,
    resolve_codex_home_from,
};
use tokidex::model::{RateLimit, SessionRecord, ThreadSummary, TokenUsage};

fn path_text(path: &Path) -> String {
    path.to_string_lossy().to_string()
}

fn thread(
    id: &str,
    rollout_path: &Path,
    created_at: i64,
    updated_at: i64,
    tokens_used: i64,
    model: &str,
    title: &str,
    cwd: &str,
) -> SessionRecord {
    SessionRecord {
        summary: ThreadSummary {
            id: id.to_string(),
            title: title.to_string(),
            cwd: cwd.to_string(),
            model: Some(model.to_string()),
            created_at,
            updated_at,
            tokens_used,
            rollout_path: path_text(rollout_path),
        },
        usage: None,
        rate_limit: None,
    }
}

#[test]
fn filter_records_matches_query_and_date_ranges() {
    let temp = TempDir::new().unwrap();
    let codex_home = temp.path();

    let first = codex_home.join("first.jsonl");
    let second = codex_home.join("second.jsonl");
    // As the state database lists them: most recently updated first.
    let records = vec![
        thread(
            "second",
            &second,
            1_700_086_400,
            1_700_086_400,
            20,
            "codex-auto-review",
            "Token tui",
            "/work/tokidex",
        ),
        thread(
            "first",
            &first,
            1_700_000_000,
            1_700_000_000,
            10,
            "gpt-5.5",
            "Raycast review",
            "/work/raycast",
        ),
    ];

    let filtered = filter_records(
        &records,
        DateRange::All,
        "raycast",
        Moment::from_timestamp(1_700_086_400).unwrap(),
    );

    assert_eq!(filtered.len(), 1);
    assert_eq!(filtered[0].summary.title, "Raycast review");

    let today_only = filter_records(
        &records,
        DateRange::Today,
        "",
        Moment::from_timestamp(1_700_086_500).unwrap(),
    );
    assert_eq!(today_only.len(), 1);
    assert_eq!(today_only[0].summary.id, "second");

    let week = filter_records(
        &records,
        DateRange::Week,
        "",
        Moment::from_timestamp(1_700_086_500).unwrap(),
    );
    assert_eq!(week.len(), 2);
}

#[test]
fn resolve_codex_home_prefers_cli_then_env_then_home_default() {
    let home = tempfile::tempdir().unwrap();
    let env_home = tempfile::tempdir().unwrap();
    let cli_home = tempfile::tempdir().unwrap();

    assert_eq!(
        PathBuf::from(resolve_codex_home_from(
            Some(path_text(cli_home.path())),
            Some(&path_text(env_home.path())),
            &path_text(home.path())
        )),
        cli_home.path()
    );
    assert_eq!(
        PathBuf::from(resolve_codex_home_from(
            None,
            Some(&path_text(env_home.path())),
            &path_text(home.path())
        )),
        env_home.path()
    );
    assert_eq!(
        PathBuf::from(resolve_codex_home_from(None, None, &path_text(home.path()))),
        home.path().join(".codex")
    );
}

#[test]
fn resolve_codex_home_expands_tilde() {
    assert_eq!(resolve_codex_home_from(Some("~".to_string()), None, "/Users/me"), "/Users/me");
    assert_eq!(
        resolve_codex_home_from(Some("~/.codex-alt".to_string()), None, "/Users/me"),
        "/Users/me/.codex-alt"
    );
    assert_eq!(
        resolve_codex_home_from(None, Some("~/x"), "/Users/me/"),
        "/Users/me/x"
    );
    assert_eq!(resolve_codex_home_from(None, Some("~//abs"), "/Users/me"), "/abs");
    assert_eq!(resolve_codex_home_from(None, Some("~x/y"), "/Users/me"), "~x/y");
    assert_eq!(resolve_codex_home_from(None, None, "/Users/me/"), "/Users/me/.codex");
    assert_eq!(resolve_codex_home_from(None, None, ""), ".codex");
}

#[test]
fn privacy_display_redacts_sensitive_session_fields() {
    let temp = TempDir::new().unwrap();
    let codex_home = temp.path();

    let rollout = codex_home.join("sessions/2026/05/14/rollout-019e-secret.jsonl");
    let records = vec![thread(
        "019e1f50-9388-7cb2-9825-6a1eea43f79c",
        &rollout,
        1_700_000_000,
        1_700_000_000,
        10,
        "gpt-5.5",
        "Private client roadmap",
        "/Users/example/Documents/Codex/private-client",
    )];
    let record = &records[0];

    assert_eq!(display_title(record, 0, PrivacyMode::On), "Session 1");
    assert_eq!(
        display_id(record, PrivacyMode::On),
        "019e...f79c".to_string()
    );
    assert_eq!(display_cwd(record, PrivacyMode::On), "private-client");
    assert_eq!(
        display_rollout(record, PrivacyMode::On),
        "hidden in privacy mode"
    );
    assert!(!display_cwd(record, PrivacyMode::On).contains("/Users/example"));
    assert!(!display_rollout(record, PrivacyMode::On).contains("/Users/example"));
}

#[test]
fn display_without_privacy_shows_everything() {
    let record = thread("abc", Path::new("/r.jsonl"), 1, 2, 3, "m", "T", "/a/b/");
    assert_eq!(display_title(&record, 41, PrivacyMode::Off), "T");
    assert_eq!(display_title(&record, 41, PrivacyMode::On), "Session 42");
    assert_eq!(display_id(&record, PrivacyMode::Off), "abc");
    assert_eq!(display_id(&record, PrivacyMode::On), "abc");
    assert_eq!(display_cwd(&record, PrivacyMode::Off), "/a/b/");
    assert_eq!(display_cwd(&record, PrivacyMode::On), "b");
    assert_eq!(display_rollout(&record, PrivacyMode::Off), "/r.jsonl");
    let root = thread("abc", Path::new("/r.jsonl"), 1, 2, 3, "m", "T", "/");
    assert_eq!(display_cwd(&root, PrivacyMode::On), "hidden in privacy mode");
}

fn token_count(usage: Option<TokenUsage>, primary_percent: Option<f64>) -> RolloutEvent {
    RolloutEvent {
        kind: "event_msg".to_string(),
        payload: EventPayload {
            kind: "token_count".to_string(),
            info: usage.map(|u| TokenInfo { total_token_usage: u }),
            rate_limits: primary_percent.map(|p| RateLimits {
                primary: Some(RateLimitWindow {
                    used_percent_bits: Some(p.to_bits()),
                    resets_at: Some(1_778_786_097),
                }),
                secondary: None,
            }),
        },
    }
}

fn usage(input: i64, total: i64) -> TokenUsage {
    TokenUsage {
        input_tokens: input,
        cached_input_tokens: 1,
        output_tokens: 2,
        reasoning_output_tokens: 3,
        total_tokens: total,
    }
}

#[test]
fn last_token_count_keeps_the_latest_report() {
    let other = RolloutEvent {
        kind: "response_item".to_string(),
        payload: EventPayload {
            kind: "token_count".to_string(),
            info: Some(TokenInfo { total_token_usage: usage(99, 99) }),
            rate_limits: None,
        },
    };
    let events = vec![
        token_count(None, Some(10.0)),
        token_count(Some(usage(10, 12)), Some(14.0)),
        token_count(Some(usage(20, 23)), None),
        other,
    ];
    let parsed = last_token_count(&events);
    assert_eq!(parsed.usage, Some(usage(20, 23)));
    let rate: RateLimit = parsed.rate_limit.unwrap();
    assert_eq!(rate.primary_used_percent_bits.map(f64::from_bits), Some(14.0));
    assert_eq!(rate.primary_resets_at, Some(1_778_786_097));
    assert_eq!(rate.secondary_used_percent_bits, None);

    let none = last_token_count(&vec![]);
    assert_eq!(none.usage, None);
    assert_eq!(none.rate_limit, None);
}
