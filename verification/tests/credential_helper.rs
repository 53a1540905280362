use std::sync::Arc;

use buck2_telemetry::credential_helper::default_cache_duration;
use buck2_telemetry::credential_helper::default_timeout;
use buck2_telemetry::credential_helper::parse_expires;
use buck2_telemetry::credential_helper::parse_headers;
use buck2_telemetry::credential_helper::system_time_from_unix_secs;
use buck2_telemetry::credential_helper::trim;
use buck2_telemetry::credential_helper::BuildError;
use buck2_telemetry::credential_helper::CommandError;
use buck2_telemetry::credential_helper::CredentialHelper;
use buck2_telemetry::credential_helper::CredentialHelperSettings;
use buck2_telemetry::credential_helper::Credentials;
use buck2_telemetry::credential_helper::GetCredentialsResponse;
use buck2_telemetry::credential_helper::GetError;
use buck2_telemetry::credential_helper::Outcome;
use buck2_telemetry::credential_helper::ResponseError;
use buck2_telemetry::header_map::HeaderMap;
use buck2_telemetry::time::Duration;
use buck2_telemetry::time::SystemTime;

fn owned(s: &str) -> String {
    s.to_owned()
}

fn map(headers: &[(&str, &[&str])]) -> HeaderMap {
    let mut map = HeaderMap::new();
    for (name, values) in headers {
        map = map.with(owned(name), values.iter().map(|v| owned(v)).collect());
    }
    map
}

fn answer(headers: &[(&str, &[&str])], expires: Option<&str>) -> Outcome {
    Outcome::Answered(Ok(GetCredentialsResponse {
        headers: map(headers),
        expires: expires.map(owned),
    }))
}

fn helper(cache: Option<Duration>) -> CredentialHelper {
    CredentialHelper::new(
        vec![owned("/bin/sh"), owned("helper.sh")],
        Some(Duration::from_secs(5)),
        cache,
    )
    .unwrap()
}

fn pairs(credentials: &Credentials) -> Vec<(String, String)> {
    credentials
        .headers()
        .iter()
        .map(|h| (h.name.clone(), String::from_utf8(h.value.clone()).unwrap()))
        .collect()
}

/// The credentials for `uri` at `now`; a run of the helper has the given outcome, and is
/// counted.
fn fetch(
    helper: &mut CredentialHelper,
    uri: &str,
    now: SystemTime,
    calls: &mut usize,
    outcome: fn() -> Outcome,
) -> Result<Vec<(String, String)>, String> {
    if let Some(kept) = helper.get(uri, now) {
        return Ok(pairs(&kept));
    }
    *calls += 1;
    match helper.get_at(uri, now, outcome()) {
        Ok(credentials) => Ok(pairs(&credentials)),
        Err(e) => Err(e.message()),
    }
}

#[test]
fn test_get_headers_and_request() {
    let mut helper = helper(None);
    let uri = "https://cas.example.com:443/";
    let now = system_time_from_unix_secs(0);
    assert!(helper.get(uri, now).is_none());
    let run = helper.invoke(uri);
    assert_eq!(run.program, "/bin/sh");
    assert_eq!(run.args, vec!["helper.sh", "get"]);
    assert_eq!(run.request, r#"{"uri":"https://cas.example.com:443/"}"#);
    assert_eq!(run.timeout, Duration::from_secs(5));
    let outcome = answer(&[("Authorization", &["Bearer t"]), ("x-multi", &["a", "b"])], None);
    assert!(helper.get_at(uri, now, outcome).is_ok());
    assert_eq!(
        pairs(&helper.get(uri, now).unwrap()),
        vec![
            (owned("authorization"), owned("Bearer t")),
            (owned("x-multi"), owned("a")),
            (owned("x-multi"), owned("b")),
        ],
    );
}

#[test]
fn test_caches_until_expiry() {
    let mut helper = helper(None);
    let mut calls = 0;
    let run = || answer(&[], Some("2000-01-01T00:00:00+01:00"));

    let before = system_time_from_unix_secs(946_681_200 - 10);
    let first = helper.get_at("https://a/", before, run()).ok().unwrap();
    calls += 1;
    assert_eq!(calls, 1);
    let again = helper.get("https://a/", before).unwrap();
    assert!(Arc::ptr_eq(&first, &again));
    fetch(&mut helper, "https://a/", before, &mut calls, run).unwrap();
    assert_eq!(calls, 1);

    // A different URI is fetched separately.
    fetch(&mut helper, "https://b/", before, &mut calls, run).unwrap();
    assert_eq!(calls, 2);

    // Expired (2000-01-01T00:00:00+01:00 is 946681200): fetched again.
    let after = system_time_from_unix_secs(946_681_200);
    fetch(&mut helper, "https://a/", after, &mut calls, run).unwrap();
    assert_eq!(calls, 3);

    // Explicit invalidation.
    helper.invalidate();
    fetch(&mut helper, "https://a/", before, &mut calls, run).unwrap();
    assert_eq!(calls, 4);
}

#[test]
fn test_default_cache_duration_without_expires() {
    let mut helper = helper(Some(Duration::from_secs(100)));
    let mut calls = 0;
    let run = || answer(&[], None);
    let start = SystemTime::unix_epoch().plus(Duration::from_secs(1_000_000));
    fetch(&mut helper, "https://a/", start, &mut calls, run).unwrap();
    fetch(&mut helper, "https://a/", start.plus(Duration::from_secs(99)), &mut calls, run).unwrap();
    assert_eq!(calls, 1);
    fetch(&mut helper, "https://a/", start.plus(Duration::from_secs(100)), &mut calls, run).unwrap();
    assert_eq!(calls, 2);
}

#[test]
fn test_failures_are_reported_and_not_cached() {
    let now = system_time_from_unix_secs(5);
    let mut helper = helper(None);
    let mut calls = 0;
    let fails = || Outcome::Failed {
        status: owned("exit status: 1"),
        stderr: b"please log in\n".to_vec(),
    };
    let message = fetch(&mut helper, "https://a/", now, &mut calls, fails).unwrap_err();
    assert!(message.contains("please log in"), "{message}");
    assert!(message.contains("https://a/"), "{message}");
    assert_eq!(
        message,
        "Error getting credentials for `https://a/` from credential helper `/bin/sh`: \
         Credential helper failed with exit status: 1: please log in",
    );
    assert!(helper.get("https://a/", now).is_none());
    fetch(&mut helper, "https://a/", now, &mut calls, fails).unwrap_err();
    assert_eq!(calls, 2);

    let not_json = || {
        let e = serde_json::from_slice::<serde_json::Value>(b"not json\n").unwrap_err();
        Outcome::Answered(Err(e.to_string()))
    };
    let message = fetch(&mut helper, "https://a/", now, &mut calls, not_json).unwrap_err();
    assert!(message.contains("JSON"), "{message}");
}

#[test]
fn test_timeout() {
    let mut helper =
        CredentialHelper::new(vec![owned("/bin/sh")], Some(Duration::from_millis(200)), None).unwrap();
    let e = helper
        .get_at("https://a/", system_time_from_unix_secs(0), Outcome::TimedOut)
        .err()
        .unwrap();
    assert!(e.message().contains("did not respond within"), "{}", e.message());
    assert!(e.message().ends_with("did not respond within 200ms"), "{}", e.message());
}

#[test]
fn test_missing_helper() {
    let mut helper =
        CredentialHelper::new(vec![owned("/nonexistent/buck2-helper")], None, None).unwrap();
    let outcome = Outcome::NotStarted(owned("No such file or directory (os error 2)"));
    let e = helper
        .get_at("https://a/", system_time_from_unix_secs(0), outcome)
        .err()
        .unwrap();
    assert_eq!(
        e.message(),
        "Error getting credentials for `https://a/` from credential helper \
         `/nonexistent/buck2-helper`: Error spawning `/nonexistent/buck2-helper`: \
         No such file or directory (os error 2)",
    );
    assert!(CredentialHelper::new(vec![], None, None).is_err());
    assert!(CredentialHelper::from_command_line("", None, None).is_err());
}

#[test]
fn test_from_command_line_splits_arguments() {
    let helper =
        CredentialHelper::from_command_line("/bin/helper --flag 'a b'", None, None).unwrap();
    assert_eq!(*helper.command(), vec!["/bin/helper", "--flag", "a b"]);
    assert_eq!(helper.timeout(), default_timeout());
    assert_eq!(helper.default_cache_duration(), default_cache_duration());
}

#[test]
fn test_settings_build_substitutes_env_vars() {
    let settings =
        CredentialHelperSettings::from_options(Some("$HOME/helper --flag"), Some(3), None).unwrap();
    assert_eq!(settings.command_line, "$HOME/helper --flag");
    let helper = settings.build(Ok(owned("/home/me/helper --flag"))).ok().unwrap();
    assert_eq!(*helper.command(), vec!["/home/me/helper", "--flag"]);
    assert_eq!(helper.timeout(), Duration::from_secs(3));
    assert_eq!(helper.default_cache_duration(), default_cache_duration());

    assert!(CredentialHelperSettings::from_options(None, Some(3), Some(4)).is_none());
    let unset = CredentialHelperSettings::from_options(
        Some("/bin/helper $BUCK2_CREDENTIAL_HELPER_TEST_UNSET_VAR"),
        None,
        None,
    )
    .unwrap();
    let e = unset.build(Err(owned("not set"))).err().unwrap();
    assert!(matches!(e, BuildError::Substitution(_)));
    assert_eq!(e.message(), "Invalid `credential_helper`: not set");
    let e = unset.build(Ok(owned("'open"))).err().unwrap();
    assert_eq!(
        e.message(),
        "Invalid `credential_helper`: Invalid credential helper command line: `'open`",
    );
}

#[test]
fn test_invalid_responses() {
    let helper = CredentialHelper::new(vec![owned("helper")], None, None).unwrap();
    let now = SystemTime::from_parts(1_700_000_000, 0);

    let bad_expires = GetCredentialsResponse {
        expires: Some(owned("tomorrow")),
        ..Default::default()
    };
    assert!(helper.parse_response(&bad_expires, now).is_err());

    let bad_header = GetCredentialsResponse {
        headers: map(&[("bad header", &["v"])]),
        ..Default::default()
    };
    assert!(helper.parse_response(&bad_header, now).is_err());
}

#[test]
fn default_times() {
    assert_eq!(default_timeout(), Duration::from_secs(10));
    assert_eq!(default_cache_duration(), Duration::from_secs(30 * 60));
}

#[test]
fn command_lines_need_a_program() {
    let refused = |line: &str| CredentialHelper::from_command_line(line, None, None).err();
    assert_eq!(refused(""), Some(CommandError::Empty));
    assert_eq!(refused("''"), Some(CommandError::Empty));
    assert_eq!(refused("'a"), Some(CommandError::InvalidCommandLine(owned("'a"))));
    assert_eq!(CommandError::Empty.message(), "Credential helper command must not be empty");
    let words = CredentialHelper::from_words("x", Some(vec![owned("p"), owned("")]), None, None);
    assert_eq!(*words.unwrap().command(), vec!["p", ""]);
    assert_eq!(
        CredentialHelper::from_words("x", None, None, None).err(),
        Some(CommandError::InvalidCommandLine(owned("x"))),
    );
}

#[test]
fn requests_are_json() {
    let helper = helper(None);
    assert_eq!(
        helper.invoke("a\"b\\c\n\t\r\u{8}\u{c}\u{1f}\u{7f}é").request,
        "{\"uri\":\"a\\\"b\\\\c\\n\\t\\r\\b\\f\\u001f\u{7f}é\"}",
    );
}

#[test]
fn headers_come_in_the_order_of_their_names() {
    let headers = parse_headers(&map(&[("b", &["1"]), ("A", &["2"]), ("a", &["3"]), ("B", &[])])).unwrap_or_default();
    let seen: Vec<(&str, &[u8])> = headers.iter().map(|h| (h.name.as_str(), h.value.as_slice())).collect();
    assert_eq!(seen, vec![("a", &b"2"[..]), ("a", &b"3"[..]), ("b", &b"1"[..])]);
}

#[test]
fn a_later_header_replaces_an_earlier_one() {
    let m = map(&[("b", &["1"]), ("a", &["2"]), ("b", &["3", "4"])]);
    let seen: Vec<(&str, usize)> = m.entries().iter().map(|e| (e.name.as_str(), e.values.len())).collect();
    assert_eq!(seen, vec![("a", 1), ("b", 2)]);
}

#[test]
fn header_names_are_tokens() {
    let name_of = |name: &str| {
        parse_headers(&map(&[(name, &["v"])])).map(|h| h[0].name.clone()).ok()
    };
    assert_eq!(name_of("X-A1!#$%&'*+-.^_`|~"), Some(owned("x-a1!#$%&'*+-.^_`|~")));
    for bad in ["", "a b", "a:b", "é", "a\n", "x-bin", "X-BIN", "-bin", "a/b", "a\"b"] {
        assert_eq!(name_of(bad), None, "{bad}");
    }
    let long = "a".repeat(65_535);
    assert_eq!(name_of(&long), Some(long.clone()));
    assert_eq!(name_of(&format!("{long}a")), None);
    let e = parse_headers(&map(&[("a b", &["v"])])).err().unwrap();
    assert!(matches!(e, ResponseError::HeaderName { .. }));
    assert_eq!(e.message(), "Invalid header name: `a b`: invalid gRPC metadata key name");
}

#[test]
fn header_values_have_no_control_characters() {
    let value_of = |value: &str| {
        parse_headers(&map(&[("n", &[value])])).map(|h| h[0].value.clone()).ok()
    };
    assert_eq!(value_of("a\tb é"), Some("a\tb é".as_bytes().to_vec()));
    assert_eq!(value_of(""), Some(vec![]));
    for bad in ["a\nb", "\r", "\u{0}", "\u{7f}", "\u{1f}"] {
        assert_eq!(value_of(bad), None, "{bad:?}");
    }
    let e = parse_headers(&map(&[("n", &["ok", "\n"])])).err().unwrap();
    assert!(matches!(e, ResponseError::HeaderValue { .. }));
    assert_eq!(e.message(), "Invalid value for header `n`: failed to parse metadata value");
}

#[test]
fn expiries_are_timestamps() {
    let secs = |s: &str| parse_expires(s).map(|t| t.nanos_from_epoch()).ok();
    assert_eq!(secs("2000-01-01T00:00:00+01:00"), Some(946_681_200_000_000_000));
    assert_eq!(secs("1970-01-01T00:00:09.9Z"), Some(9_000_000_000));
    assert_eq!(secs("1969-12-31T23:59:59Z"), Some(0));
    let e = parse_expires("tomorrow").unwrap_err();
    assert!(matches!(e, ResponseError::Expires { .. }));
    let words = "tomorrow".parse::<jiff::Timestamp>().unwrap_err().to_string();
    assert_eq!(
        e.message(),
        format!("Invalid RFC 3339 timestamp in `expires`: `tomorrow`: {words}"),
    );
    assert_eq!(system_time_from_unix_secs(-1), SystemTime::unix_epoch());
    assert_eq!(system_time_from_unix_secs(7), SystemTime::from_parts(7, 0));
}

#[test]
fn bad_expiries_come_before_bad_headers() {
    let helper = helper(None);
    let response = GetCredentialsResponse {
        headers: map(&[("a b", &["v"])]),
        expires: Some(owned("tomorrow")),
    };
    let now = SystemTime::unix_epoch();
    assert!(matches!(
        helper.parse_response(&response, now).err(),
        Some(ResponseError::Expires { .. })
    ));
    let until = SystemTime::from_parts(3, 0);
    assert!(matches!(
        helper.parse_headers_until(Some(Ok(until)), &response, now).err(),
        Some(ResponseError::HeaderName { .. })
    ));
    let fine = GetCredentialsResponse::default();
    let entry = helper.parse_headers_until(Some(Ok(until)), &fine, now).ok().unwrap();
    assert_eq!(entry.refresh_at, until);
    let entry = helper.parse_headers_until(None, &fine, until).ok().unwrap();
    assert_eq!(entry.refresh_at, SystemTime::from_parts(1_803, 0));
}

#[test]
fn unusable_answers_leave_what_was_kept() {
    let mut helper = helper(None);
    let now = system_time_from_unix_secs(10);
    assert!(helper.get_at("u", now, answer(&[("a", &["1"])], None)).is_ok());
    let e = helper.get_at("u", now, answer(&[("a b", &["1"])], None)).err().unwrap();
    assert!(matches!(e, GetError::Response { .. }));
    assert_eq!(
        e.message(),
        "Invalid response from credential helper `/bin/sh` for `u`: \
         Invalid header name: `a b`: invalid gRPC metadata key name",
    );
    assert_eq!(pairs(&helper.get("u", now).unwrap()), vec![(owned("a"), owned("1"))]);
}

#[test]
fn expired_credentials_are_handed_out_once() {
    let mut helper = helper(None);
    let now = system_time_from_unix_secs(10);
    let outcome = answer(&[("a", &["1"])], Some("1970-01-01T00:00:10Z"));
    let credentials = helper.get_at("u", now, outcome).ok().unwrap();
    assert_eq!(pairs(&credentials), vec![(owned("a"), owned("1"))]);
    assert!(helper.get("u", now).is_none());
}

#[test]
fn each_end_of_a_run_has_its_words() {
    let helper = helper(None);
    let words = |o: Outcome| helper.outcome(o).err().unwrap().message();
    assert_eq!(words(Outcome::NotStarted(owned("x"))), "Error spawning `/bin/sh`: x");
    assert_eq!(words(Outcome::NoInput), "stdin was not captured");
    assert_eq!(words(Outcome::TimedOut), "Credential helper did not respond within 5s");
    assert_eq!(
        words(Outcome::NotObserved(owned("x"))),
        "Error waiting for the credential helper: x",
    );
    assert_eq!(
        words(Outcome::Failed {
            status: owned("signal: 9"),
            stderr: b" \t\xffno\n \r\n".to_vec(),
        }),
        "Credential helper failed with signal: 9: \u{fffd}no",
    );
    assert_eq!(
        words(Outcome::Answered(Err(owned("x")))),
        "Error parsing the credential helper's output as JSON: x",
    );
}

#[test]
fn every_whitespace_character_is_dropped() {
    for c in '\0'..=char::MAX {
        let s = c.to_string();
        assert_eq!(trim(&s), s.trim(), "{c:?}");
        let listed = matches!(
            c,
            '\t'..='\r' | ' ' | '\u{85}' | '\u{a0}' | '\u{1680}' | '\u{2000}'..='\u{200a}'
                | '\u{2028}' | '\u{2029}' | '\u{202f}' | '\u{205f}' | '\u{3000}'
        );
        assert_eq!(trim(&s).is_empty(), listed, "{c:?}");
    }
}

#[test]
fn values_are_not_shown() {
    let mut helper = helper(None);
    let now = system_time_from_unix_secs(0);
    let shown = |helper: &mut CredentialHelper, outcome| {
        helper.get_at("u", now, outcome).ok().unwrap().debug_text()
    };
    let one = answer(&[("Authorization", &["Bearer t"]), ("x-multi", &["a", "b"])], None);
    let other = answer(&[("Authorization", &["Bearer u"]), ("x-multi", &["c", "d"])], None);
    let text = shown(&mut helper, one);
    let names = ["authorization", "x-multi", "x-multi"];
    assert_eq!(text, format!("Credentials {{ headers: {names:?} }}"));
    assert_eq!(shown(&mut helper, other), text);
    assert_eq!(shown(&mut helper, answer(&[], None)), "Credentials { headers: [] }");
}

#[test]
fn trim_drops_whitespace_around() {
    for s in ["", " ", "a", " a b \n", "\u{a0}\u{2003}é\u{3000}", "\t\u{b}\u{c}\r\n", "\u{200b}x"] {
        assert_eq!(trim(s), s.trim());
    }
}
