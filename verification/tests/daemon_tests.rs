use brewmble::daemon::{
    authorize, dry_run_reply, first_label, health_reply, mdns_host_name, mdns_instance_name,
    next_port, normalize_hostname, status_reply, DaemonSettings, UpdatesProbe, UpgradeLock,
    UpgradeStep, STATUS_FORBIDDEN, STATUS_INTERNAL_SERVER_ERROR, STATUS_LOCKED, STATUS_OK,
    STATUS_PRECONDITION_FAILED,
};
use brewmble::rest::{PATH_HEALTH, PATH_STATUS};

fn settings(allow_reboot: bool, auto_clean: bool, auto_remove: bool) -> DaemonSettings {
    DaemonSettings {
        daemon_version: "0.1.0".to_string(),
        allow_reboot,
        auto_clean,
        auto_remove,
    }
}

#[test]
fn test_auth_middleware() {
    let api_key = "test-key";
    // No API key
    assert!(!authorize(PATH_STATUS, None, api_key));
    // Wrong API key
    assert!(!authorize(PATH_STATUS, Some("wrong-key"), api_key));
    // Correct API key
    assert!(authorize(PATH_STATUS, Some(api_key), api_key));
    // The health check is public
    assert!(authorize(PATH_HEALTH, None, api_key));
}

#[test]
fn test_status_handler_non_linux() {
    let (code, status) = status_reply(
        UpdatesProbe::Checked(Ok(vec!["pkg1".to_string()])),
        "mock",
        false,
        &settings(false, false, false),
    );
    assert_eq!(code, STATUS_OK);
    assert_eq!(status.updates.len(), 1);
    assert_eq!(status.updates[0], "pkg1");
    assert_eq!(status.message, "System has 1 outdated packages");
}

#[test]
fn test_status_handler_unavailable() {
    let (code, status) = status_reply(
        UpdatesProbe::Unavailable,
        "mock",
        false,
        &settings(false, false, false),
    );
    assert_eq!(code, STATUS_PRECONDITION_FAILED);
    assert_eq!(status.message, "the system is not a mock system");
}

#[test]
fn status_replies_for_no_updates_and_failures() {
    let (code, status) =
        status_reply(UpdatesProbe::Checked(Ok(Vec::new())), "apt", true, &settings(false, false, false));
    assert_eq!(code, STATUS_OK);
    assert_eq!(status.message, "System is up to date");
    assert!(status.is_upgrading);
    assert_eq!(status.daemon_version, Some("0.1.0".to_string()));
    let (code, status) = status_reply(
        UpdatesProbe::Checked(Err("lock held".to_string())),
        "apt",
        false,
        &settings(false, false, false),
    );
    assert_eq!(code, STATUS_INTERNAL_SERVER_ERROR);
    assert_eq!(status.message, "Failed to check for updates: lock held");
    assert!(status.updates.is_empty());
}

#[test]
fn test_health_handler() {
    let health = health_reply("mock", "1.0.0".to_string(), false);
    assert_eq!(health.status, "ok");
    assert_eq!(health.package_manager, "mock");
    assert_eq!(health.package_manager_version, "1.0.0");
    assert!(!health.is_upgrading);
}

#[test]
fn test_full_upgrade_handler_mock() {
    let mut lock = UpgradeLock::new();
    match lock.on_upgrade_request(true, "mock", false) {
        UpgradeStep::Start(code, resp) => {
            assert_eq!(code, STATUS_OK);
            assert_eq!(resp.message, "full upgrade triggered");
        }
        _ => panic!("upgrade should start"),
    }
}

#[test]
fn test_full_upgrade_flow() {
    let mut lock = UpgradeLock::new();

    // 1. Start upgrade
    assert!(matches!(
        lock.on_upgrade_request(true, "apt", false),
        UpgradeStep::Start(200, _)
    ));
    assert!(lock.is_upgrading);

    // 2. Try starting upgrade again while one is running
    match lock.on_upgrade_request(true, "apt", false) {
        UpgradeStep::Refuse(code, resp) => {
            assert_eq!(code, STATUS_PRECONDITION_FAILED);
            assert_eq!(resp.message, "a full upgrade is currently running");
        }
        _ => panic!("second upgrade should be refused"),
    }

    // 3. Status reflects is_upgrading: true
    let (_, status) = status_reply(
        UpdatesProbe::Checked(Ok(Vec::new())),
        "apt",
        lock.is_upgrading,
        &settings(false, false, false),
    );
    assert!(status.is_upgrading);

    // 4. Once finished, a new upgrade may start
    lock.on_upgrade_finished();
    assert!(matches!(
        lock.on_upgrade_request(true, "apt", false),
        UpgradeStep::Start(200, _)
    ));
}

#[test]
fn upgrade_requests_on_unavailable_and_dry_run() {
    let mut lock = UpgradeLock::new();
    match lock.on_upgrade_request(false, "mock", false) {
        UpgradeStep::Refuse(code, resp) => {
            assert_eq!(code, STATUS_PRECONDITION_FAILED);
            assert_eq!(resp.message, "the system is not a mock system");
        }
        _ => panic!("should refuse"),
    }
    assert!(matches!(lock.on_upgrade_request(true, "mock", true), UpgradeStep::DryRun));
    assert!(!lock.is_upgrading);
    let (code, resp) = dry_run_reply(Ok(vec!["pkg1".to_string()]));
    assert_eq!(code, STATUS_OK);
    assert_eq!(resp.message, "dry-run completed");
    assert_eq!(resp.updates, Some(vec!["pkg1".to_string()]));
    let (code, resp) = dry_run_reply(Err("boom".to_string()));
    assert_eq!(code, STATUS_INTERNAL_SERVER_ERROR);
    assert_eq!(resp.message, "dry-run failed: boom");
}

#[test]
fn test_reboot_handler_allowed() {
    let lock = UpgradeLock::new();
    let (code, resp, start) = lock.on_reboot_request(true, "mock", true);
    assert_eq!(code, STATUS_OK);
    assert_eq!(resp.message, "reboot triggered");
    assert!(start);
}

#[test]
fn test_reboot_handler_disabled() {
    let lock = UpgradeLock::new();
    let (code, resp, start) = lock.on_reboot_request(true, "mock", false);
    assert_eq!(code, STATUS_FORBIDDEN);
    assert_eq!(resp.message, "reboot is not enabled on this daemon");
    assert!(!start);
}

#[test]
fn test_reboot_handler_blocked_while_upgrading() {
    let lock = UpgradeLock { is_upgrading: true };
    let (code, _, start) = lock.on_reboot_request(true, "mock", true);
    assert_eq!(code, STATUS_LOCKED);
    assert!(!start);
}

#[test]
fn test_status_handler_exposes_config_flags() {
    let (code, status) = status_reply(
        UpdatesProbe::Checked(Ok(vec!["pkg1".to_string()])),
        "mock",
        false,
        &settings(true, true, false),
    );
    assert_eq!(code, STATUS_OK);
    assert!(status.allow_reboot);
    assert!(status.auto_clean);
    assert!(!status.auto_remove);
}

#[test]
fn mdns_identity() {
    assert_eq!(normalize_hostname("pi.lan.."), "pi.lan");
    assert_eq!(first_label("pi.lan"), "pi");
    assert_eq!(first_label("pi"), "pi");
    assert_eq!(mdns_instance_name("pi.lan"), "brewmbled-pi");
    assert_eq!(mdns_host_name("pi.lan"), "pi.local.");
    assert_eq!(mdns_host_name(""), ".local.");
}

#[test]
fn port_hunting_steps() {
    assert_eq!(next_port(8080), Some(8081));
    assert_eq!(next_port(u16::MAX), None);
}
