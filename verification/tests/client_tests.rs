use brewmble::client::{
    status_body,
    duration_within_limit,
    error_body, request_error_status, resolve_config_path, resolve_url, status_report,
    status_summary, status_url, timeout_from_parsed, timeout_from_setting, unknown_upgrade_response, upgrade_report,
    upgrade_url, warn_missing_config,
};
use brewmble::rest::{StatusResponse, UpgradeResponse};

#[test]
fn test_resolve_url() {
    assert_eq!(resolve_url("1.2.3.4:8080"), "http://1.2.3.4:8080");
    assert_eq!(resolve_url("http://1.2.3.4:8080"), "http://1.2.3.4:8080");
    assert_eq!(resolve_url("https://example.com"), "https://example.com");
    assert_eq!(resolve_url("example.com:80"), "http://example.com:80");
    assert_eq!(resolve_url("::1:8080"), "http://[::1]:8080");
    assert_eq!(resolve_url("[::1]:8080"), "http://[::1]:8080");
    assert_eq!(resolve_url("localhost"), "http://localhost");
    assert_eq!(resolve_url("1.2.3.4:8080/"), "http://1.2.3.4:8080");
}

#[test]
fn resolve_url_edge_cases() {
    assert_eq!(resolve_url("http://host//"), "http://host");
    assert_eq!(resolve_url("host:"), "http://host:");
    assert_eq!(resolve_url(""), "http://");
    assert_eq!(resolve_url("host///"), "http://host");
}

#[test]
fn request_urls() {
    assert_eq!(status_url("1.2.3.4:8080"), "http://1.2.3.4:8080/status");
    assert_eq!(
        upgrade_url("https://node/"),
        "https://node/packages/full-upgrade"
    );
}

#[test]
fn test_get_default_timeout() {
    assert_eq!(timeout_from_setting(Some("15".to_string())), (15, 0));
    assert_eq!(timeout_from_setting(Some("1m".to_string())), (60, 0));
    assert_eq!(timeout_from_setting(None), (60, 0));
}

#[test]
fn timeout_settings_beyond_whole_seconds() {
    assert_eq!(timeout_from_setting(Some("+7".to_string())), (7, 0));
    assert_eq!(timeout_from_setting(Some("1h 30s".to_string())), (3630, 0));
    assert_eq!(timeout_from_setting(Some("250ms".to_string())), (0, 250_000_000));
    assert_eq!(timeout_from_setting(Some("soon".to_string())), (60, 0));
    assert_eq!(
        timeout_from_setting(Some("18446744073709551615s 1000000000ns".to_string())),
        (60, 0)
    );
    assert_eq!(timeout_from_setting(Some("99999999999s".to_string())), (99_999_999_999, 0));
    assert_eq!(timeout_from_setting(Some("1000000000ns 5s".to_string())), (6, 0));
    assert_eq!(
        timeout_from_setting(Some("123456789012s".to_string())),
        (123_456_789_012, 0)
    );
    assert_eq!(timeout_from_setting(Some("1 000 000 000 000 s".to_string())), (60, 0));
    assert!(duration_within_limit("2h 30m"));
    assert!(duration_within_limit("499999999999y"));
    assert!(!duration_within_limit("500000000000y"));
    assert!(!duration_within_limit("5 0000 0000 0000y"));
    assert_eq!(timeout_from_setting(Some("".to_string())), (60, 0));
}

#[test]
fn test_resolve_config_path() {
    let (path, exists) = resolve_config_path(Some("custom.yaml".to_string()), false);
    assert_eq!(path, "custom.yaml");
    assert!(exists);

    let (path, _) = resolve_config_path(None, false);
    assert_eq!(path, ".cobbler.yaml");
}

#[test]
fn config_path_is_local_without_explicit_path() {
    assert_eq!(
        resolve_config_path(None, true),
        (".cobbler.yaml".to_string(), true)
    );
    assert_eq!(
        resolve_config_path(None, false),
        (".cobbler.yaml".to_string(), false)
    );
    assert_eq!(
        resolve_config_path(Some("/etc/x.yaml".to_string()), false),
        ("/etc/x.yaml".to_string(), true)
    );
}

fn status(message: &str, updates: &[&str], upgrading: bool) -> StatusResponse {
    StatusResponse {
        message: message.to_string(),
        updates: updates.iter().map(|u| u.to_string()).collect(),
        is_upgrading: upgrading,
        daemon_version: None,
        allow_reboot: false,
        auto_clean: false,
        auto_remove: false,
    }
}

#[test]
fn status_summaries() {
    assert_eq!(
        status_summary(&status("System has 2 outdated packages", &["a", "b"], false)),
        "Message: System has 2 outdated packages\nUpgrading: false\nUpdates:\n  - a\n  - b\n"
    );
    assert_eq!(
        status_summary(&status("System is up to date", &[], true)),
        "Message: System is up to date\nUpgrading: true\nNo updates available.\n"
    );
}

#[test]
fn reports() {
    assert_eq!(
        status_report("n:1", "200 OK", "a\nb\n"),
        "n:1\t200 OK\n\ta\n\tb\n\t\n"
    );
    assert_eq!(status_report("n:1", "Error: refused", ""), "n:1\tError: refused\n");
    let resp = UpgradeResponse {
        message: "dry-run completed".to_string(),
        updates: Some(vec!["a".to_string(), "b".to_string()]),
    };
    assert_eq!(
        upgrade_report("n:1", "200 OK", &resp),
        "n:1\t200 OK\n\tdry-run completed\n\tUpdates (2): a, b\n"
    );
    let none = unknown_upgrade_response();
    assert_eq!(none.message, "Unknown response");
    assert_eq!(
        upgrade_report("n:1", "500", &none),
        "n:1\t500\n\tUnknown response\n"
    );
    assert_eq!(request_error_status("timed out"), "Error: timed out");
}

#[test]
fn error_bodies() {
    assert_eq!(error_body(None), "Could not parse response as JSON");
    assert_eq!(error_body(Some(None)), "Failed to pretty-print JSON");
    assert_eq!(error_body(Some(Some("{}".to_string()))), "{}");
}

#[test]
fn missing_config_notice() {
    assert!(warn_missing_config(false, false, false));
    assert!(!warn_missing_config(true, false, false));
    assert!(!warn_missing_config(false, true, false));
    assert!(!warn_missing_config(false, false, true));
}

#[test]
fn timeout_from_parsed_settings() {
    assert_eq!(timeout_from_parsed(&None, Some((5, 0))), (60, 0));
    assert_eq!(timeout_from_parsed(&Some("9".to_string()), Some((5, 0))), (9, 0));
    assert_eq!(timeout_from_parsed(&Some("2m".to_string()), Some((120, 0))), (120, 0));
    assert_eq!(timeout_from_parsed(&Some("later".to_string()), None), (60, 0));
}

#[test]
fn status_body_by_answer() {
    let sr = status("ok", &[], false);
    assert_eq!(status_body(true, Some(sr.clone()), None), status_summary(&sr));
    assert_eq!(status_body(true, None, None), "Could not parse StatusResponse");
    assert_eq!(
        status_body(false, None, Some(Some("{}".to_string()))),
        "{}"
    );
    assert_eq!(status_body(false, None, None), "Could not parse response as JSON");
}
