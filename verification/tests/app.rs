use tokidex::app::{
    App, Command, DateRange, Key, KeyOutcome, PrivacyMode, command_for, filter_records, needle,
};
use tokidex::clock::{MAX_UTC_TIMESTAMP, MIN_UTC_TIMESTAMP, Moment};
use tokidex::model::{RateLimit, SessionRecord, ThreadSummary, TokenUsage};

fn record(id: &str, updated_at: i64, tokens_used: i64, usage: Option<TokenUsage>) -> SessionRecord {
    SessionRecord {
        summary: ThreadSummary {
            id: id.to_string(),
            title: format!("Title {id}"),
            cwd: "/work".to_string(),
            model: None,
            created_at: updated_at,
            updated_at,
            tokens_used,
            rollout_path: format!("/work/{id}.jsonl"),
        },
        usage,
        rate_limit: None,
    }
}

fn usage(input: i64, cached: i64, output: i64, reasoning: i64, total: i64) -> TokenUsage {
    TokenUsage {
        input_tokens: input,
        cached_input_tokens: cached,
        output_tokens: output,
        reasoning_output_tokens: reasoning,
        total_tokens: total,
    }
}

#[test]
fn date_range_labels() {
    assert_eq!(DateRange::Today.label(), "today");
    assert_eq!(DateRange::Week.label(), "week");
    assert_eq!(DateRange::All.label(), "all");
    assert!(PrivacyMode::On.enabled());
    assert!(!PrivacyMode::Off.enabled());
}

#[test]
fn combined_with_adds_each_counter() {
    let a = usage(1, 2, 3, 4, 10);
    let b = usage(10, 20, 30, 40, 100);
    assert_eq!(a.combined_with(b), usage(11, 22, 33, 44, 110));
    assert_eq!(a.combined_with(TokenUsage::default()), a);
}

#[test]
fn effective_usage_falls_back_to_database_total() {
    let without = record("a", 0, 99, None);
    assert_eq!(without.effective_usage(), usage(0, 0, 0, 0, 99));
    let with = record("b", 0, 99, Some(usage(1, 2, 3, 4, 5)));
    assert_eq!(with.effective_usage(), usage(1, 2, 3, 4, 5));
}

fn app_with(records: Vec<SessionRecord>) -> App {
    let mut app = App::new(Vec::new(), DateRange::All, PrivacyMode::Off);
    app.all_records = records;
    app.recompute_at(Moment::from_timestamp(1_700_000_000).unwrap());
    app
}

#[test]
fn totals_add_up_shown_sessions() {
    let app = app_with(vec![
        record("a", 10, 7, None),
        record("b", 20, 0, Some(usage(1, 2, 3, 4, 10))),
    ]);
    assert_eq!(app.totals(), usage(1, 2, 3, 4, 17));
    assert_eq!(app.checked_totals(), Some(usage(1, 2, 3, 4, 17)));

    let overflowing = app_with(vec![record("a", 10, i64::MAX, None), record("b", 10, 1, None)]);
    assert_eq!(overflowing.checked_totals(), None);
}

#[test]
fn selection_moves_and_stays_in_the_list() {
    let mut app = app_with(vec![record("a", 1, 1, None), record("b", 2, 2, None), record("c", 3, 3, None)]);
    assert_eq!(app.selected, 0);
    app.move_previous();
    assert_eq!(app.selected, 0);
    app.move_next();
    app.move_next();
    app.move_next();
    assert_eq!(app.selected, 2);
    assert_eq!(app.selected_record().unwrap().summary.id, "c");
    app.move_previous();
    assert_eq!(app.selected_record().unwrap().summary.id, "b");

    app.search = "title a".to_string();
    app.recompute_at(Moment::from_timestamp(1_700_000_000).unwrap());
    assert_eq!(app.visible.len(), 1);
    assert_eq!(app.selected, 0);

    app.search = "nothing".to_string();
    app.recompute_at(Moment::from_timestamp(1_700_000_000).unwrap());
    assert!(app.visible.is_empty());
    assert_eq!(app.selected, 0);
    assert!(app.selected_record().is_none());
    app.move_next();
    assert_eq!(app.selected, 0);
}

#[test]
fn latest_rate_limit_is_the_first_shown_one() {
    let limit = |bits: u64| RateLimit {
        primary_used_percent_bits: Some(bits),
        primary_resets_at: None,
        secondary_used_percent_bits: None,
        secondary_resets_at: None,
    };
    let mut a = record("a", 3, 1, None);
    let mut b = record("b", 2, 1, None);
    let c = record("c", 1, 1, None);
    a.rate_limit = None;
    b.rate_limit = Some(limit(7));
    let mut d = record("d", 0, 1, None);
    d.rate_limit = Some(limit(9));
    let app = app_with(vec![a, b, c, d]);
    assert_eq!(app.latest_rate_limit(), Some(limit(7)));
    assert_eq!(app_with(vec![]).latest_rate_limit(), None);
}

#[test]
fn filter_matches_every_searched_field_case_insensitively() {
    let mut r = record("ID-42", 100, 1, None);
    r.summary.model = Some("GPT-5.5".to_string());
    let records = vec![r];
    let now = Moment { timestamp: 200, day_start: 150 };
    assert_eq!(filter_records(&records, DateRange::All, "  gpt-5 ", now).len(), 1);
    assert_eq!(filter_records(&records, DateRange::All, "id-42", now).len(), 1);
    assert_eq!(filter_records(&records, DateRange::All, "/WORK", now).len(), 1);
    assert_eq!(filter_records(&records, DateRange::All, "title id-42 /work gpt", now).len(), 1);
    assert_eq!(filter_records(&records, DateRange::All, "missing", now).len(), 0);
    assert_eq!(filter_records(&records, DateRange::All, " \t ", now).len(), 1);
    assert_eq!(filter_records(&records, DateRange::Today, "", now).len(), 0);
    assert_eq!(filter_records(&records, DateRange::Week, "", now).len(), 1);
    let far = Moment { timestamp: 100 + 604_800, day_start: 0 };
    assert_eq!(filter_records(&records, DateRange::Week, "", far).len(), 1);
    let further = Moment { timestamp: 101 + 604_800, day_start: 0 };
    assert_eq!(filter_records(&records, DateRange::Week, "", further).len(), 0);
}

#[test]
fn moment_from_timestamp_keeps_the_instant() {
    let m = Moment::from_timestamp(1_700_086_500).unwrap();
    assert_eq!(m.timestamp, 1_700_086_500);
    assert!(m.day_start <= m.timestamp);
    assert!(Moment::from_timestamp(i64::MAX).is_none());
    assert!(Moment::from_timestamp(MAX_UTC_TIMESTAMP).is_some());
    assert!(Moment::from_timestamp(MAX_UTC_TIMESTAMP + 1).is_none());
    assert!(Moment::from_timestamp(MIN_UTC_TIMESTAMP).is_some());
    assert!(Moment::from_timestamp(MIN_UTC_TIMESTAMP - 1).is_none());
    let now = Moment::now();
    assert!(now.timestamp >= 0);
    assert!((now.timestamp - now.day_start).abs() < 3 * 86_400);
    assert!((m.timestamp - m.day_start).abs() < 3 * 86_400);
}

#[test]
fn combining_usages_is_order_free() {
    let a = usage(1, 2, 3, 4, 10);
    let b = usage(-5, 6, 7, 8, 20);
    assert_eq!(a.combined_with(b), b.combined_with(a));
    let c = usage(100, 0, 0, 0, 1);
    assert_eq!(a.combined_with(b).combined_with(c), a.combined_with(b.combined_with(c)));
}

#[test]
fn blank_query_with_all_range_shows_every_record() {
    let records = vec![record("a", -5, 1, None), record("b", i64::MAX, 2, None)];
    let now = Moment { timestamp: 0, day_start: 0 };
    let shown = filter_records(&records, DateRange::All, "   ", now);
    assert_eq!(shown.len(), 2);
    assert_eq!(shown[0].summary.id, "a");
    assert_eq!(shown[1].summary.id, "b");
}

#[test]
fn keys_drive_search_range_and_selection() {
    let now = Moment { timestamp: 1_000_000, day_start: 999_000 };
    let mut app = App::new(Vec::new(), DateRange::Today, PrivacyMode::Off);
    app.all_records = vec![record("alpha", 999_500, 1, None), record("beta", 10, 2, None)];
    app.recompute_at(now);
    assert_eq!(app.visible.len(), 1);

    assert_eq!(command_for(Key::Char('q'), false), Command::Quit);
    assert_eq!(command_for(Key::Char('q'), true), Command::TypeChar('q'));
    assert_eq!(command_for(Key::Backspace, false), Command::Nothing);
    assert_eq!(command_for(Key::Char('r'), false), Command::Refresh);

    assert_eq!(app.handle_key(Key::Char('a'), now), KeyOutcome::Continue);
    assert_eq!(app.range, DateRange::All);
    assert_eq!(app.visible.len(), 2);
    assert_eq!(app.handle_key(Key::Char('j'), now), KeyOutcome::Continue);
    assert_eq!(app.selected, 1);
    assert_eq!(app.handle_key(Key::Char('/'), now), KeyOutcome::Continue);
    assert!(app.search_mode);
    app.handle_key(Key::Char('b'), now);
    app.handle_key(Key::Char('x'), now);
    assert_eq!(app.search, "bx");
    assert!(app.visible.is_empty());
    assert_eq!(app.selected, 0);
    app.handle_key(Key::Backspace, now);
    assert_eq!(app.search, "b");
    assert_eq!(app.visible.len(), 1);
    assert_eq!(app.visible[0].summary.id, "beta");
    assert_eq!(app.handle_key(Key::Char('q'), now), KeyOutcome::Continue);
    assert_eq!(app.search, "bq");
    app.handle_key(Key::Enter, now);
    assert!(!app.search_mode);
    assert_eq!(app.search, "bq");
    app.handle_key(Key::Esc, now);
    assert_eq!(app.search, "");
    assert_eq!(app.visible.len(), 2);
    assert_eq!(app.handle_key(Key::Char('w'), now), KeyOutcome::Continue);
    assert_eq!(app.range, DateRange::Week);
    assert_eq!(app.visible.len(), 1);
    assert_eq!(app.handle_key(Key::Char('r'), now), KeyOutcome::Refresh);
    assert_eq!(app.handle_key(Key::Char('q'), now), KeyOutcome::Quit);
}

#[test]
fn longer_queries_only_narrow() {
    let records = vec![record("raycast", 1, 1, None), record("ray", 1, 1, None), record("cast", 1, 1, None)];
    let now = Moment { timestamp: 0, day_start: 0 };
    let wide = filter_records(&records, DateRange::All, "ray", now);
    let narrow = filter_records(&records, DateRange::All, "raycast", now);
    assert_eq!(wide.len(), 2);
    assert_eq!(narrow.len(), 1);
    assert!(narrow.iter().all(|r| wide.iter().any(|w| w.summary.id == r.summary.id)));
}

#[test]
fn needle_is_the_trimmed_lower_cased_query() {
    assert_eq!(needle("  Raycast Review\t"), "raycast review");
    assert_eq!(needle(" \n "), "");
    assert_eq!(needle("ÀÉ"), "àé");
}
