use serde_json::Value;
use tokidex::codex_store::{
    EventPayload, RateLimitWindow, RateLimits, RolloutEvent, TokenInfo, last_token_count,
};
use tokidex::model::TokenUsage;

const ROLLOUT: &str = r#"{"timestamp":"2026-05-14T15:00:00Z","type":"event_msg","payload":{"type":"token_count","info":null,"rate_limits":{"primary":{"used_percent":10.0},"secondary":{"used_percent":20.0}}}}
{"this is":"bad enough"}
not json
{"timestamp":"2026-05-14T15:01:00Z","type":"event_msg","payload":{"type":"token_count","info":{"total_token_usage":{"input_tokens":10,"cached_input_tokens":4,"output_tokens":2,"reasoning_output_tokens":1,"total_tokens":12},"last_token_usage":{"input_tokens":10,"cached_input_tokens":4,"output_tokens":2,"reasoning_output_tokens":1,"total_tokens":12},"model_context_window":258400},"rate_limits":{"primary":{"used_percent":14.0,"window_minutes":300,"resets_at":1778786097},"secondary":{"used_percent":19.0,"window_minutes":10080,"resets_at":1779197553}}}}
{"timestamp":"2026-05-14T15:02:00Z","type":"event_msg","payload":{"type":"token_count","info":{"total_token_usage":{"input_tokens":20,"cached_input_tokens":8,"output_tokens":3,"reasoning_output_tokens":2,"total_tokens":23}},"rate_limits":{"primary":{"used_percent":16.0},"secondary":{"used_percent":21.0}}}}"#;

fn window(v: &Value) -> Option<RateLimitWindow> {
    if v.is_null() {
        return None;
    }
    Some(RateLimitWindow {
        used_percent_bits: v.get("used_percent").and_then(Value::as_f64).map(f64::to_bits),
        resets_at: v.get("resets_at").and_then(Value::as_i64),
    })
}

fn usage(v: &Value) -> Option<TokenUsage> {
    Some(TokenUsage {
        input_tokens: v.get("input_tokens")?.as_i64()?,
        cached_input_tokens: v.get("cached_input_tokens")?.as_i64()?,
        output_tokens: v.get("output_tokens")?.as_i64()?,
        reasoning_output_tokens: v.get("reasoning_output_tokens")?.as_i64()?,
        total_tokens: v.get("total_tokens")?.as_i64()?,
    })
}

/// Reads a line the way the rollout reader does: lines that are no event are skipped.
fn event(line: &str) -> Option<RolloutEvent> {
    let v: Value = serde_json::from_str(line).ok()?;
    let payload = v.get("payload")?;
    let info = match payload.get("info") {
        None | Some(Value::Null) => None,
        Some(info) => Some(TokenInfo { total_token_usage: usage(info.get("total_token_usage")?)? }),
    };
    let rate_limits = match payload.get("rate_limits") {
        None | Some(Value::Null) => None,
        Some(r) => Some(RateLimits {
            primary: r.get("primary").and_then(window),
            secondary: r.get("secondary").and_then(window),
        }),
    };
    Some(RolloutEvent {
        kind: v.get("type")?.as_str()?.to_string(),
        payload: EventPayload {
            kind: payload.get("type")?.as_str()?.to_string(),
            info,
            rate_limits,
        },
    })
}

#[test]
fn token_count_detail_comes_from_the_last_token_count_event() {
    let events: Vec<RolloutEvent> = ROLLOUT.lines().filter_map(event).collect();
    assert_eq!(events.len(), 3);
    let parsed = last_token_count(&events);
    let usage = parsed.usage.unwrap();
    assert_eq!(usage.input_tokens, 20);
    assert_eq!(usage.cached_input_tokens, 8);
    assert_eq!(usage.output_tokens, 3);
    assert_eq!(usage.reasoning_output_tokens, 2);
    assert_eq!(usage.total_tokens, 23);
    let rate = parsed.rate_limit.unwrap();
    assert_eq!(rate.primary_used_percent_bits.map(f64::from_bits), Some(16.0));
    assert_eq!(rate.secondary_used_percent_bits.map(f64::from_bits), Some(21.0));
    assert_eq!(rate.primary_resets_at, None);
}
