use nagare::config::TadokuConfig;
use nagare::mining::{
    parse_episode_number, plan_tadoku_batches, tadoku_batch_description, tadoku_duration_seconds,
    TadokuCandidate, TadokuCandidateRow,
};
use nagare::json::{JsonNumber, JsonValue};
use nagare::tadoku::{
    connection_info, cookie_from_header, eligible_registration_ids, extract_cookie_value, login_form,
    tadoku_minute_tenths, Activity, ConfigurationOptions, CookieError, Language, ListeningSetupError,
    LoginFlowError, Registration, RegistrationContest, Unit,
};

#[test]
fn extracts_cookie_values_and_headers() {
    assert_eq!(extract_cookie_value("abc").unwrap(), "abc");
    assert_eq!(extract_cookie_value("ory_kratos_session=abc").unwrap(), "abc");
    assert!(extract_cookie_value("abc\ndef").is_err());
}

#[test]
fn cookie_errors_and_headers() {
    assert_eq!(extract_cookie_value("   ").unwrap_err(), CookieError::Empty);
    assert_eq!(extract_cookie_value("a\r\nb").unwrap_err(), CookieError::Newline);
    assert_eq!(
        cookie_from_header("csrf=1; ory_kratos_session=xyz; Path=/").as_deref(),
        Some("xyz")
    );
    assert_eq!(cookie_from_header("ory_kratos_session=; other=1"), None);
    assert_eq!(CookieError::Empty.message(), "Tadoku session cookie is empty");
}

#[test]
fn migrates_obsolete_tadoku_api_urls() {
    for obsolete in [
        "https://tadoku.app/api/immersion",
        "https://tadoku.app/api/immersion/",
        "https://tadoku.app/api/internal",
    ] {
        let mut config = TadokuConfig {
            api_url: obsolete.to_string(),
            ..TadokuConfig::default()
        };
        config.normalize();
        assert_eq!(config.api_url, "https://tadoku.app/api/internal/immersion");
    }
}

#[test]
fn normalize_tidies_the_other_settings() {
    let mut config = TadokuConfig {
        username: "  reader ".to_string(),
        api_url: " https://example.test/api// ".to_string(),
        session_url: "   ".to_string(),
        language_code: " JPN ".to_string(),
        export_hour_eastern: 99,
        ..TadokuConfig::default()
    };
    config.normalize();
    assert_eq!(config.username, "reader");
    assert_eq!(config.api_url, "https://example.test/api");
    assert_eq!(config.session_url, "https://account.tadoku.app/kratos/sessions/whoami");
    assert_eq!(config.language_code, "jpn");
    assert_eq!(config.export_hour_eastern, 23);
    assert!(!config.has_credentials());
    config.password = "pw".to_string();
    assert!(config.has_credentials());
}

#[test]
fn includes_every_contest_that_allows_the_language_and_listening() {
    let registration = |id: &str, language: &str, activity_id: i32| Registration {
        id: id.to_string(),
        languages: vec![Language { code: language.to_string() }],
        contest: Some(RegistrationContest {
            allowed_activities: vec![Activity { id: activity_id, name: "Listening".to_string() }],
        }),
    };
    let registrations = vec![
        registration("official", "jpn", 2),
        registration("private", "jpn", 2),
        registration("reading-only", "jpn", 1),
        registration("other-language", "deu", 2),
    ];
    assert_eq!(
        eligible_registration_ids(&registrations, "jpn", 2),
        vec!["official".to_string(), "private".to_string()]
    );
}

#[test]
fn minutes_are_rounded_up_to_tenths() {
    assert_eq!(tadoku_minute_tenths(1_410), 235);
    assert_eq!(tadoku_minute_tenths(1_415), 236);
    assert_eq!(tadoku_minute_tenths(0), 1);
}

#[test]
fn tadoku_description_collapses_consecutive_episode_numbers() {
    let description = tadoku_batch_description(
        "NARUTO 疾風伝",
        &[
            "NARUTO 疾風伝 S10E10 - Title 10",
            "NARUTO 疾風伝 S10E11 - Title 11",
            "NARUTO 疾風伝 S10E12 - Title 12",
            "NARUTO 疾風伝 S10E13 - Title 13",
        ],
    );
    assert_eq!(description, "NARUTO 疾風伝 S10E10-13");
    assert!(!description.contains("Nagare:"));
}

#[test]
fn descriptions_group_seasons_and_fall_back_to_titles() {
    assert_eq!(
        tadoku_batch_description("Show", &["Show S02E05", "Show S01E03", "Show S01E01", "Show S01E02", "Show S01E03"]),
        "Show S01E01-03, S02E05"
    );
    assert_eq!(
        tadoku_batch_description("Show", &["Show - Pilot", "Other"]),
        "Show — - Pilot; Other"
    );
    assert_eq!(parse_episode_number("Show", "Show  S1E002x"), Some((1, 2)));
    assert_eq!(parse_episode_number("Show", "Show S1E"), None);
    assert_eq!(parse_episode_number("Show", "Movie S1E1"), None);
}

#[test]
fn durations_are_whole_seconds_at_least_one() {
    assert_eq!(tadoku_duration_seconds(1_389_999), 1_389);
    assert_eq!(tadoku_duration_seconds(10), 1);
    assert_eq!(tadoku_duration_seconds(-5_000), 1);
    assert_eq!(tadoku_duration_seconds(i128::MAX), i32::MAX);
}

fn row(id: &str, series: &str, title: &str, duration_ms: i64) -> TadokuCandidateRow {
    TadokuCandidateRow {
        candidate: TadokuCandidate {
            history_id: format!("plex|{id}"),
            series_name: series.to_string(),
            title: title.to_string(),
            watched_at: "2026-07-12T00:00:00Z".to_string(),
            duration_seconds: 100,
            pending_retry: false,
            last_error: None,
        },
        duration_ms,
    }
}

#[test]
fn completed_episodes_are_grouped_by_series_with_titles() {
    let rows = vec![
        row("1", "Frieren", "Episode 1", 100_000),
        row("2", "Frieren", "Episode 2", 100_000),
    ];
    let batches = plan_tadoku_batches(&rows, None);
    assert_eq!(batches.len(), 1);
    assert_eq!(batches[0].series_name, "Frieren");
    assert_eq!(batches[0].duration_seconds, 200);
    assert_eq!(batches[0].description, "Frieren — Episode 1; Episode 2");
    assert_eq!(batches[0].items, vec![0, 1]);
}

#[test]
fn selected_episodes_form_batches_in_series_order() {
    let rows = vec![
        row("1", "Frieren", "Episode 1", 100_000),
        row("2", "Apothecary", "Apothecary S01E02", 1_500),
        row("3", "Frieren", "Episode 3", 99_999),
        row("4", "Apothecary", "Apothecary S01E03", 90_000),
    ];
    let all = plan_tadoku_batches(&rows, None);
    assert_eq!(all.len(), 2);
    assert_eq!(all[0].series_name, "Apothecary");
    assert_eq!(all[0].items, vec![1, 3]);
    assert_eq!(all[0].duration_seconds, 91);
    assert_eq!(all[0].description, "Apothecary S01E02-03");
    assert_eq!(all[1].series_name, "Frieren");
    assert_eq!(all[1].items, vec![0, 2]);
    assert_eq!(all[1].duration_seconds, 199);

    let selected = vec!["plex|1".to_string()];
    let some = plan_tadoku_batches(&rows, Some(selected.as_slice()));
    assert_eq!(some.len(), 1);
    assert_eq!(some[0].series_name, "Frieren");
    assert_eq!(some[0].duration_seconds, 100);
    assert_eq!(some[0].items, vec![0]);

    assert!(plan_tadoku_batches(&rows, Some(&[][..])).is_empty());
    assert!(plan_tadoku_batches(&[], None).is_empty());
}

#[test]
fn short_batches_count_at_least_one_second() {
    let rows = vec![row("1", "Short", "Clip", 10)];
    assert_eq!(plan_tadoku_batches(&rows, None)[0].duration_seconds, 1);
}

fn convert(v: &serde_json::Value) -> JsonValue {
    match v {
        serde_json::Value::Null => JsonValue::Null,
        serde_json::Value::Bool(b) => JsonValue::Bool(*b),
        serde_json::Value::Number(n) => JsonValue::Number(if let Some(u) = n.as_u64() {
            JsonNumber::PosInt(u)
        } else if let Some(i) = n.as_i64() {
            JsonNumber::NegInt(i)
        } else {
            JsonNumber::Float
        }),
        serde_json::Value::String(s) => JsonValue::String(s.clone()),
        serde_json::Value::Array(a) => JsonValue::Array(a.iter().map(convert).collect()),
        serde_json::Value::Object(o) => JsonValue::Object(o.iter().map(|(k, v)| (k.clone(), convert(v))).collect()),
    }
}

fn json(text: &str) -> JsonValue {
    convert(&serde_json::from_str::<serde_json::Value>(text).unwrap())
}

const AUTH: &str = "https://account.example/kratos/";

#[test]
fn login_form_takes_the_csrf_token_of_a_trusted_flow() {
    let flow = json(r#"{"ui":{"action":"https://account.example/kratos/self-service/login?flow=1","nodes":[
        {"attributes":{"name":"identifier","value":""}},
        {"attributes":{"name":"csrf_token","value":"token-1"}},
        {"attributes":{"name":"csrf_token","value":"token-2"}}]}}"#);
    let form = login_form(&flow, AUTH).ok().unwrap();
    assert_eq!(form.action, "https://account.example/kratos/self-service/login?flow=1");
    assert_eq!(form.csrf_token, "token-1");
}

#[test]
fn login_form_rejects_an_untrusted_action() {
    let flow = json(r#"{"ui":{"action":"https://evil.example/self-service/login?flow=1","nodes":[
        {"attributes":{"name":"csrf_token","value":"t"}}]}}"#);
    assert_eq!(login_form(&flow, AUTH).err(), Some(LoginFlowError::InvalidFlow));
    let missing_query = json(r#"{"ui":{"action":"https://account.example/kratos/self-service/login","nodes":[]}}"#);
    assert_eq!(login_form(&missing_query, AUTH).err(), Some(LoginFlowError::InvalidFlow));
    assert_eq!(login_form(&json(r#"{"ui":{}}"#), AUTH).err(), Some(LoginFlowError::InvalidFlow));
    assert_eq!(LoginFlowError::InvalidFlow.message(), "Tadoku returned an invalid login flow");
}

#[test]
fn login_form_needs_a_csrf_token() {
    let action = "https://account.example/kratos/self-service/login?flow=1";
    let no_nodes = json(&format!(r#"{{"ui":{{"action":"{action}"}}}}"#));
    assert_eq!(login_form(&no_nodes, AUTH).err(), Some(LoginFlowError::MissingCsrfToken));
    let empty = json(&format!(r#"{{"ui":{{"action":"{action}","nodes":[{{"attributes":{{"name":"csrf_token","value":""}}}}]}}}}"#));
    assert_eq!(login_form(&empty, AUTH).err(), Some(LoginFlowError::MissingCsrfToken));
    let numeric = json(&format!(r#"{{"ui":{{"action":"{action}","nodes":[{{"attributes":{{"name":"csrf_token","value":5}}}}]}}}}"#));
    assert_eq!(login_form(&numeric, AUTH).err(), Some(LoginFlowError::MissingCsrfToken));
    let bad_node = json(&format!(r#"{{"ui":{{"action":"{action}","nodes":[{{"attributes":{{"name":7}}}}]}}}}"#));
    assert_eq!(login_form(&bad_node, AUTH).err(), Some(LoginFlowError::InvalidFlow));
    assert_eq!(LoginFlowError::MissingCsrfToken.message(), "Tadoku did not return a CSRF token");
}

fn unit(id: &str, activity: i32, name: &str, language: Option<&str>) -> Unit {
    Unit { id: id.to_string(), log_activity_id: activity, name: name.to_string(), language_code: language.map(str::to_string) }
}

fn options() -> ConfigurationOptions {
    ConfigurationOptions {
        activities: vec![
            Activity { id: 1, name: "Reading".to_string() },
            Activity { id: 4, name: "LISTENING".to_string() },
        ],
        languages: vec![Language { code: "jpn".to_string() }, Language { code: "kor".to_string() }],
        units: vec![
            unit("pages", 1, "Page", None),
            unit("generic-minute", 4, "minute", None),
            unit("jpn-minute", 4, "Minute", Some("JPN")),
        ],
    }
}

#[test]
fn connection_info_prefers_the_language_minute_unit() {
    let info = connection_info("user-1".to_string(), Some("Alice".to_string()), &options(), "jpn").ok().unwrap();
    assert_eq!(info.user_id, "user-1");
    assert_eq!(info.display_name.as_deref(), Some("Alice"));
    assert_eq!(info.listening_activity_id, 4);
    assert_eq!(info.listening_minutes_unit_id, "jpn-minute");
    let korean = connection_info("u".to_string(), None, &options(), "KOR").ok().unwrap();
    assert_eq!(korean.listening_minutes_unit_id, "generic-minute");
}

#[test]
fn connection_info_errors() {
    let err = connection_info("u".to_string(), None, &options(), "fra").err().unwrap();
    assert_eq!(err, ListeningSetupError::LanguageNotOffered);
    assert_eq!(err.message("fra"), "Tadoku does not offer language code 'fra'");
    let mut no_listening = options();
    no_listening.activities.remove(1);
    assert_eq!(connection_info("u".to_string(), None, &no_listening, "jpn").err(), Some(ListeningSetupError::NoListeningActivity));
    let mut no_minutes = options();
    no_minutes.units.truncate(1);
    let err = connection_info("u".to_string(), None, &no_minutes, "jpn").err().unwrap();
    assert_eq!(err, ListeningSetupError::NoMinuteUnit);
    assert_eq!(err.message("jpn"), "Tadoku did not return a Minute unit for Listening");
}
