use dsh_desktop::usage::{
    api_key_from, balance_from, bearer, caller_check, get, http_status_message,
    key_from_credentials, number, row, session_from, sessions_from, snapshot_of, Balance,
    BalanceCache, Breakdown, Credentials, Json, Number, Session, Stats, Tokens,
};
use serde_json::Value;

fn to_json(v: &Value) -> Json {
    match v {
        Value::Null => Json::Null,
        Value::Bool(b) => Json::Bool(*b),
        Value::Number(n) => Json::Number(Number {
            as_u64: n.as_u64(),
            f64_bits: n.as_f64().map(f64::to_bits),
        }),
        Value::String(s) => Json::Str(s.clone()),
        Value::Array(items) => Json::Array(items.iter().map(to_json).collect()),
        Value::Object(map) => {
            Json::Object(map.iter().map(|(k, v)| (k.clone(), to_json(v))).collect())
        }
    }
}

fn doc(text: &str) -> Json {
    to_json(&serde_json::from_str::<Value>(text).expect("fixture parses"))
}

/// The shape the harness actually writes, trimmed to what is read here.
const FIXTURE: &str = r#"{
  "tables": { "sessions": {
    "session-old": { "rows": {
      "title": { "val": "Older" },
      "sessionListMetadata": { "val": { "lastPromptAt": 100.0 } },
      "tokenUsage": { "val": { "totals": { "uncachedInputTokens": 1, "outputTokens": 2,
                                           "cacheReadTokens": 3, "cacheWriteTokens": 4 } } }
    }},
    "session-new": { "rows": {
      "title": { "val": "Newer" },
      "sessionListMetadata": { "val": { "lastPromptAt": 900.0 } },
      "tokenUsage": { "val": { "totals": { "uncachedInputTokens": 56861, "outputTokens": 61338,
                                           "cacheReadTokens": 6653440, "cacheWriteTokens": 0 } } },
      "contextPressure": { "val": { "surfaceTokens": 90549, "contextWindow": 1000000,
                                    "pressureTokens": 112151 } },
      "contextBreakdown": { "val": { "systemTokens": 1574, "toolsTokens": 6475,
                                     "messageTokens": 90549 } },
      "sessionStats": { "val": { "turns": 3, "steps": 83, "llmMs": 875772,
                                 "toolMs": 685584, "decodeTokens": 61338 } }
    }}
  }}
}"#;

fn parse(text: &str) -> Vec<Session> {
    sessions_from(&doc(text)).expect("sessions")
}

#[test]
fn reads_the_numbers_the_harness_records() {
    let newest = &parse(FIXTURE)[0];
    assert_eq!(newest.title.as_deref(), Some("Newer"));
    assert_eq!(newest.tokens.cache_read, 6_653_440);
    assert_eq!(newest.tokens.output, 61_338);
    assert_eq!(newest.context.surface, 90_549);
    assert_eq!(newest.context.window, 1_000_000);
    assert_eq!(newest.stats.steps, 83);
}

#[test]
fn orders_sessions_by_most_recent_prompt() {
    let sessions = parse(FIXTURE);
    let ids: Vec<&str> = sessions.iter().map(|s| s.id.as_str()).collect();
    assert_eq!(ids, ["new", "old"]);
}

#[test]
fn missing_fields_read_as_zero_rather_than_failing() {
    let oldest = &parse(FIXTURE)[1];
    assert_eq!(oldest.context.window, 0);
    assert_eq!(oldest.stats.turns, 0);
    assert_eq!(oldest.tokens.uncached_input, 1);
}

// ---- further cases ----------------------------------------------------------

#[test]
fn reads_every_metric_of_a_session() {
    let newest = &parse(FIXTURE)[0];
    assert_eq!(
        newest.tokens,
        Tokens { uncached_input: 56861, output: 61338, cache_read: 6653440, cache_write: 0 }
    );
    assert_eq!(newest.breakdown, Breakdown { system: 1574, tools: 6475, messages: 90549 });
    assert_eq!(
        newest.stats,
        Stats {
            turns: 3,
            steps: 83,
            llm_ms: 875772,
            tool_ms: 685584,
            ttft_ms: 0,
            decode_ms: 0,
            decode_tokens: 61338
        }
    );
    assert_eq!(newest.context.pressure, 112151);
    assert_eq!(newest.last_prompt_bits.map(f64::from_bits), Some(900.0));
    assert_eq!(Stats::default().turns, 0);
    assert_eq!(Breakdown::default(), Breakdown { system: 0, tools: 0, messages: 0 });
}

#[test]
fn no_table_is_an_error() {
    assert_eq!(sessions_from(&doc("{}")).err().as_deref(), Some("no sessions recorded yet"));
    assert_eq!(
        sessions_from(&doc(r#"{"tables": {"sessions": []}}"#)).err().as_deref(),
        Some("no sessions recorded yet")
    );
    assert!(sessions_from(&doc(r#"{"tables": {"sessions": {}}}"#)).unwrap().is_empty());
}

#[test]
fn entries_without_rows_are_skipped_and_unprompted_sessions_sort_as_zero() {
    let text = r#"{"tables": {"sessions": {
        "a": { "rows": {} },
        "b": { "nothing": 1 },
        "c": { "rows": { "sessionListMetadata": { "val": { "lastPromptAt": -5.0 } } } },
        "d": { "rows": { "sessionListMetadata": { "lastPromptAt": 7 } } },
        "session-session-e": { "rows": { "title": "plain" } }
    }}}"#;
    let sessions = parse(text);
    let ids: Vec<&str> = sessions.iter().map(|s| s.id.as_str()).collect();
    assert_eq!(ids, ["d", "a", "e", "c"]);
    assert_eq!(sessions[2].title.as_deref(), Some("plain"));
    assert_eq!(sessions[1].title, None);
}

#[test]
fn rows_and_numbers() {
    let d = doc(r#"{"x": {"val": {"n": 5, "f": 1.5, "s": "t"}}, "y": {"n": -1}}"#);
    let x = row(&d, "x");
    assert_eq!(number(x, "n"), 5);
    assert_eq!(number(x, "f"), 0);
    assert_eq!(number(x, "s"), 0);
    assert_eq!(number(x, "missing"), 0);
    assert_eq!(number(row(&d, "y"), "n"), 0);
    assert_eq!(number(None, "n"), 0);
    assert!(row(&d, "z").is_none());
    assert!(get(&Json::Null, "x").is_none());
    assert!(matches!(get(&d, "y"), Some(Json::Object(_))));
    assert!(session_from("s", &Json::Null).is_none());
}

#[test]
fn reads_the_balance() {
    let body = doc(
        r#"{"is_available": true, "balance_infos": [
            {"currency": "CNY", "total_balance": "110.00", "granted_balance": "10.00",
             "topped_up_balance": "100.00"}, {"currency": "USD"}]}"#,
    );
    let b = balance_from(&body).unwrap();
    assert_eq!(
        (b.currency.as_str(), b.total.as_str(), b.granted.as_str(), b.topped_up.as_str(), b.available),
        ("CNY", "110.00", "10.00", "100.00", true)
    );
    let b = balance_from(&doc(r#"{"balance_infos": [{"total_balance": 3}]}"#)).unwrap();
    assert_eq!(b.total, "\u{2014}");
    assert_eq!(b.currency, "\u{2014}");
    assert!(!b.available);
    assert_eq!(
        balance_from(&doc(r#"{"balance_infos": []}"#)).err().as_deref(),
        Some("DeepSeek reported no balance")
    );
    assert_eq!(balance_from(&doc("{}")).err().as_deref(), Some("DeepSeek reported no balance"));
}

#[test]
fn balance_request_messages() {
    assert_eq!(http_status_message(401), "the DeepSeek API key was rejected");
    assert_eq!(http_status_message(503), "DeepSeek returned HTTP 503");
    assert_eq!(http_status_message(0), "DeepSeek returned HTTP 0");
    assert_eq!(bearer("sk-1"), "Bearer sk-1");
}

#[test]
fn reads_the_key_from_the_credentials_file() {
    let text = "providers:\n  OTHER: x\n  DEEPSEEK_API_KEY: \"sk-abc\"\r\n  DEEPSEEK_API_KEY: later\n";
    assert_eq!(key_from_credentials(text).as_deref(), Some("sk-abc"));
    assert_eq!(key_from_credentials("DEEPSEEK_API_KEY: ''\nDEEPSEEK_API_KEY:'k2'").as_deref(), Some("k2"));
    assert_eq!(key_from_credentials("DEEPSEEK_API_KEY_2: x").as_deref(), None);
    assert_eq!(key_from_credentials("DEEPSEEK_API_KEY a:b").as_deref(), None);
    assert_eq!(key_from_credentials("  DEEPSEEK_API_KEY :  a:b  ").as_deref(), Some("a:b"));
    assert_eq!(key_from_credentials("").as_deref(), None);
}

#[test]
fn key_errors() {
    assert_eq!(api_key_from(Credentials::NoHome).err().as_deref(), Some("could not locate the home directory"));
    assert_eq!(
        api_key_from(Credentials::Unreadable).err().as_deref(),
        Some("no DeepSeek API key found; sign in through the harness first")
    );
    assert_eq!(
        api_key_from(Credentials::Text("nothing".to_string())).err().as_deref(),
        Some("no DeepSeek API key found in the harness credentials")
    );
    assert_eq!(
        api_key_from(Credentials::Text("DEEPSEEK_API_KEY: k".to_string())).ok().as_deref(),
        Some("k")
    );
}

fn balance(total: &str) -> Balance {
    Balance {
        currency: "CNY".to_string(),
        total: total.to_string(),
        granted: "0".to_string(),
        topped_up: "0".to_string(),
        available: true,
    }
}

#[test]
fn cached_balance_lives_for_the_ttl() {
    let mut cache = BalanceCache::new();
    assert!(cache.lookup(0).is_none());
    cache.store(1_000_000, &Ok(balance("5")));
    assert_eq!(cache.lookup(1_000_000).unwrap().unwrap().total, "5");
    assert_eq!(cache.lookup(300_000_999_999).unwrap().unwrap().total, "5");
    assert!(cache.lookup(300_001_000_000).is_none());
    cache.store(400_000_000_000, &Err("offline".to_string()));
    assert_eq!(cache.lookup(400_000_000_001).unwrap().err().as_deref(), Some("offline"));
}

#[test]
fn only_the_panel_may_read_usage() {
    assert!(caller_check("panel").is_ok());
    assert_eq!(
        caller_check("harness").err().as_deref(),
        Some("usage data is only available to the status panel")
    );
}

#[test]
fn snapshot_combines_both_sources() {
    let s = snapshot_of(Ok((parse(FIXTURE), "/home/u/.dsh/x.json".to_string())), Ok(balance("1")));
    assert_eq!(s.sessions.len(), 2);
    assert_eq!(s.source.as_deref(), Some("/home/u/.dsh/x.json"));
    assert_eq!(s.balance.unwrap().total, "1");
    assert!(s.balance_error.is_none());
    let s = snapshot_of(Err("no".to_string()), Err("offline".to_string()));
    assert!(s.sessions.is_empty() && s.source.is_none() && s.balance.is_none());
    assert_eq!(s.balance_error.as_deref(), Some("offline"));
}
