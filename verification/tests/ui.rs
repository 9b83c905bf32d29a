use chrono::{Duration, Local};
use tokidex::model::{SessionRecord, ThreadSummary};
use tokidex::app::PrivacyMode;
use tokidex::clock::{MAX_UTC_TIMESTAMP, MIN_UTC_TIMESTAMP};
use tokidex::model::{RateLimit, TokenUsage};
use tokidex::ui::{
    FooterPrompt, RateText, compact_rate, daily_totals, detail_rate_text, detail_widths,
    footer_prompt, privacy_suffix, summary_rate_text, format_number, format_time, recent_daily_totals,
    short_model, shows_session_name, single_line, sparkline, trend_of, truncate_chars,
    usage_source,
};

fn record_at(updated_at: i64, total_tokens: i64) -> SessionRecord {
    SessionRecord {
        summary: ThreadSummary {
            id: "id".to_string(),
            title: "title".to_string(),
            cwd: "/tmp".to_string(),
            model: Some("gpt-5.5".to_string()),
            created_at: updated_at,
            updated_at,
            tokens_used: total_tokens,
            rollout_path: "/tmp/session.jsonl".to_string(),
        },
        usage: None,
        rate_limit: None,
    }
}

#[test]
fn sparkline_scales_values_to_blocks() {
    assert_eq!(sparkline(&[0, 50, 100]), "▁▅█");
    assert_eq!(sparkline(&[0, 0, 0]), "▁▁▁");
}

#[test]
fn recent_daily_totals_groups_by_local_updated_day() {
    let today = Local::now().date_naive();
    let yesterday = today - Duration::days(1);
    let older = today - Duration::days(8);
    let records = vec![
        record_at(
            today
                .and_hms_opt(9, 0, 0)
                .unwrap()
                .and_local_timezone(Local)
                .unwrap()
                .timestamp(),
            10,
        ),
        record_at(
            today
                .and_hms_opt(18, 0, 0)
                .unwrap()
                .and_local_timezone(Local)
                .unwrap()
                .timestamp(),
            15,
        ),
        record_at(
            yesterday
                .and_hms_opt(12, 0, 0)
                .unwrap()
                .and_local_timezone(Local)
                .unwrap()
                .timestamp(),
            20,
        ),
        record_at(
            older
                .and_hms_opt(12, 0, 0)
                .unwrap()
                .and_local_timezone(Local)
                .unwrap()
                .timestamp(),
            99,
        ),
    ];

    let totals = recent_daily_totals(&records, 7).unwrap();

    assert_eq!(totals[5], 20);
    assert_eq!(totals[6], 25);
    assert_eq!(totals.iter().sum::<i64>(), 45);
}

#[test]
fn compact_rate_shortens_status_line() {
    assert_eq!(
        compact_rate("rate limit: primary 14%, secondary 35%"),
        "rate primary 14%, secondary 35%"
    );
    assert_eq!(
        compact_rate("RATE LIMIT hidden in privacy mode"),
        "rate hidden in privacy mode"
    );
}

#[test]
fn compact_rate_leaves_other_text() {
    assert_eq!(compact_rate("rate: n/a"), "rate: n/a");
    assert_eq!(compact_rate("RATE LIMIT ÀB"), "rate àb");
}

#[test]
fn sparkline_rounds_halves_up_and_clamps() {
    // 7 * 1 / 14 = 0.5 rounds up to the second block.
    assert_eq!(sparkline(&[1, 14]), "▂█");
    assert_eq!(sparkline(&[-5, 3, 6]), "▁▅█");
    assert_eq!(sparkline(&[]), "");
    assert_eq!(sparkline(&[-1, -2]), "▁▁");
}

#[test]
fn sparkline_agrees_with_floating_point_scaling() {
    const BLOCKS: &[char] = &['▁', '▂', '▃', '▄', '▅', '▆', '▇', '█'];
    let mut seed: u64 = 0x2545_f491_4f6c_dd1d;
    for round in 0..2000 {
        let mut values = Vec::new();
        for _ in 0..(1 + round % 9) {
            seed ^= seed << 13;
            seed ^= seed >> 7;
            seed ^= seed << 17;
            let bound = 1i64 << (1 + (seed % 40));
            values.push((seed % (bound as u64)) as i64 - bound / 8);
        }
        let peak = values.iter().copied().max().unwrap_or_default();
        let expected: String = if peak <= 0 {
            "▁".repeat(values.len())
        } else {
            values
                .iter()
                .map(|value| {
                    let ratio = (*value as f64 / peak as f64).clamp(0.0, 1.0);
                    BLOCKS[(ratio * (BLOCKS.len() - 1) as f64).round() as usize]
                })
                .collect()
        };
        assert_eq!(sparkline(&values), expected, "values {values:?}");
    }
}

#[test]
fn format_number_groups_thousands() {
    assert_eq!(format_number(0), "0");
    assert_eq!(format_number(999), "999");
    assert_eq!(format_number(1000), "1,000");
    assert_eq!(format_number(1234567), "1,234,567");
    assert_eq!(format_number(-1234567), "-1,234,567");
    assert_eq!(format_number(-12), "-12");
    assert_eq!(format_number(i64::MAX), "9,223,372,036,854,775,807");
}

#[test]
fn truncate_chars_marks_cut_text() {
    assert_eq!(truncate_chars("abcdef", 3), "abc…");
    assert_eq!(truncate_chars("abc", 3), "abc");
    assert_eq!(truncate_chars("", 0), "");
    assert_eq!(truncate_chars("äöü", 2), "äö…");
}

#[test]
fn short_model_drops_codex_prefix() {
    assert_eq!(short_model("codex-auto-review"), "auto-rev…");
    assert_eq!(short_model("codex-mini"), "mini");
    assert_eq!(short_model("gpt-5.5"), "gpt-5.5");
    assert_eq!(short_model("gpt-5.5-codex-max"), "gpt-5.5-…");
}

#[test]
fn single_line_collapses_whitespace() {
    assert_eq!(single_line("  Fix\tthe\n\nbug  "), "Fix the bug");
    assert_eq!(single_line(""), "");
    assert_eq!(single_line(" \u{3000} "), "");
    assert_eq!(single_line("one"), "one");
}

#[test]
fn daily_totals_sum_per_day_and_detect_overflow() {
    let records = vec![record_at(0, 5), record_at(0, 7), record_at(0, 11), record_at(0, 13)];
    let days = vec![Some(100), Some(99), Some(100), Some(90)];
    let totals = daily_totals(&records, 3, 100, &days).unwrap();
    assert_eq!(totals, vec![0, 7, 16]);

    let big = vec![record_at(0, i64::MAX), record_at(0, 1)];
    assert_eq!(daily_totals(&big, 1, 5, &vec![Some(5), Some(5)]), None);
    assert_eq!(daily_totals(&big, 1, 5, &vec![Some(5), Some(4)]), Some(vec![i64::MAX]));
    assert_eq!(daily_totals(&big, 0, 5, &vec![Some(5), Some(5)]), Some(vec![]));
}

#[test]
fn recent_daily_totals_handles_every_update_time() {
    let records = vec![record_at(0, 1)];
    assert_eq!(recent_daily_totals(&records, 0), Some(vec![]));
    let edges = vec![
        record_at(MAX_UTC_TIMESTAMP, 1),
        record_at(MIN_UTC_TIMESTAMP, 2),
        record_at(i64::MAX, 3),
        record_at(i64::MIN, 4),
    ];
    let totals = recent_daily_totals(&edges, 7).unwrap();
    assert_eq!(totals, vec![0; 7]);
}

#[test]
fn daily_totals_take_long_windows() {
    let records = vec![record_at(0, 5), record_at(0, 6)];
    let days = vec![Some(i32::MIN), Some(100)];
    let totals = daily_totals(&records, 3, 100, &days).unwrap();
    assert_eq!(totals, vec![0, 0, 6]);
}

#[test]
fn trend_reports_peak_and_today() {
    let t = trend_of(&vec![0, 40, 80, 20, 0, 0, 60]);
    assert_eq!(t.sparkline, "▁▅█▃▁▁▆");
    assert_eq!(t.peak, 80);
    assert_eq!(t.today, 60);
    let empty = trend_of(&vec![]);
    assert_eq!(empty.sparkline, "");
    assert_eq!(empty.peak, 0);
    assert_eq!(empty.today, 0);
}

#[test]
fn single_line_twice_is_single_line_once() {
    for text in ["  a  b\t\tc ", "x", "", "\u{2003}wide\u{2003}space\u{85}"] {
        let once = single_line(text);
        assert_eq!(single_line(&once), once);
    }
    assert_eq!(single_line("\u{2003}wide\u{2003}space\u{85}"), "wide space");
}

#[test]
fn separators_only_group_digits() {
    for value in [0i64, 7, 999, 1000, 65_536, -1_000_000, 9_876_543_210, -i64::MAX] {
        let formatted = format_number(value);
        let plain: String = formatted.chars().filter(|c| *c != ',').collect();
        assert_eq!(plain, value.to_string());
    }
}

#[test]
fn daily_totals_count_each_record_once() {
    let records = vec![record_at(0, 3), record_at(0, 4), record_at(0, 5), record_at(0, 6)];
    let days = vec![Some(10), Some(8), None, Some(11)];
    let totals = daily_totals(&records, 3, 10, &days).unwrap();
    assert_eq!(totals, vec![4, 0, 3]);
    assert_eq!(totals.iter().sum::<i64>(), 7);
}

#[test]
fn format_time_is_local_month_day_and_clock() {
    let text = format_time(1_700_000_000);
    let expected = chrono::TimeZone::timestamp_opt(&Local, 1_700_000_000, 0)
        .single()
        .unwrap()
        .format("%m-%d %H:%M")
        .to_string();
    assert_eq!(text, expected);
    assert_eq!(text.chars().count(), 11);
    assert_eq!(format_time(i64::MAX), "invalid");
    assert_eq!(format_time(MAX_UTC_TIMESTAMP + 1), "invalid");
    assert_eq!(format_time(MIN_UTC_TIMESTAMP - 1), "invalid");
    assert_eq!(format_time(MAX_UTC_TIMESTAMP).chars().count(), 11);
    assert_eq!(format_time(MIN_UTC_TIMESTAMP).chars().count(), 11);
}

#[test]
fn layout_widths_follow_the_panel() {
    assert!(shows_session_name(44));
    assert!(!shows_session_name(43));
    assert_eq!(detail_widths(10), (0, 12));
    assert_eq!(detail_widths(30), (14, 12));
    assert_eq!(detail_widths(100), (36, 80));
}

#[test]
fn usage_source_names_where_counts_come_from() {
    let mut r = record_at(0, 1);
    assert_eq!(usage_source(&r), "SQLite total only");
    r.usage = Some(TokenUsage::default());
    assert_eq!(usage_source(&r), "JSONL token_count");
}

#[test]
fn rate_text_hides_in_privacy_mode() {
    let limit = RateLimit {
        primary_used_percent_bits: Some(14.0f64.to_bits()),
        primary_resets_at: None,
        secondary_used_percent_bits: None,
        secondary_resets_at: None,
    };
    assert_eq!(
        summary_rate_text(PrivacyMode::On, Some(limit)),
        RateText::Fixed("RATE LIMIT hidden in privacy mode".to_string())
    );
    assert_eq!(
        summary_rate_text(PrivacyMode::Off, None),
        RateText::Fixed("RATE LIMIT unavailable".to_string())
    );
    assert_eq!(summary_rate_text(PrivacyMode::Off, Some(limit)), RateText::Measured(limit));
    assert_eq!(
        detail_rate_text(PrivacyMode::On, None),
        RateText::Fixed("hidden in privacy mode".to_string())
    );
    assert_eq!(
        detail_rate_text(PrivacyMode::Off, None),
        RateText::Fixed("rate limit: unavailable".to_string())
    );
    assert_eq!(detail_rate_text(PrivacyMode::Off, Some(limit)), RateText::Measured(limit));
}

#[test]
fn footer_prompt_follows_the_search() {
    assert_eq!(footer_prompt(true, "ab"), FooterPrompt::Search("/ab".to_string()));
    assert_eq!(footer_prompt(true, ""), FooterPrompt::Search("/".to_string()));
    assert_eq!(footer_prompt(false, ""), FooterPrompt::Help);
    assert_eq!(footer_prompt(false, "ab"), FooterPrompt::Filter("ab".to_string()));
    assert_eq!(privacy_suffix(PrivacyMode::On), "  PRIVACY");
    assert_eq!(privacy_suffix(PrivacyMode::Off), "");
}
