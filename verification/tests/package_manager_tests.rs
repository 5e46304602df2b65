use std::cell::{Cell, RefCell};
use std::rc::Rc;

use brewmble::package_manager::{
    apt_command, apt_updates_from, brew_command, brew_updates_from, choose_backend,
    get_package_manager, refresh_interval_secs, should_refresh, version_from, Apt, AptCommand,
    Backend, BackendKind, Brew, BrewCommand, Clock, CommandLine, CommandLog, CommandOutput, CommandRunner,
    PackageManager,
};

struct MockRunner {
    success: bool,
    stdout: String,
    stderr: String,
}

impl CommandRunner for MockRunner {
    fn log(&self) -> CommandLog {
        unreachable!()
    }

    fn run(&mut self, command: &CommandLine) -> Result<CommandOutput, String> {
        if command.program == "brew" && command.args.iter().any(|a| a == "outdated") {
            if self.success {
                return Ok(CommandOutput {
                    success: true,
                    status: "exit status: 0".to_string(),
                    stdout: self.stdout.clone(),
                    stderr: String::new(),
                });
            } else {
                return Ok(CommandOutput {
                    success: false,
                    status: "exit status: 1".to_string(),
                    stdout: String::new(),
                    stderr: self.stderr.clone(),
                });
            }
        }
        Ok(CommandOutput {
            success: self.success,
            status: if self.success { "exit status: 0" } else { "exit status: 1" }.to_string(),
            stdout: self.stdout.clone(),
            stderr: self.stderr.clone(),
        })
    }
}

fn mock(success: bool, stdout: &str, stderr: &str) -> MockRunner {
    MockRunner {
        success,
        stdout: stdout.to_string(),
        stderr: stderr.to_string(),
    }
}

#[derive(Default)]
struct ManualClock {
    now: Cell<u64>,
}

impl Clock for ManualClock {
    fn now_nanos(&self) -> u64 {
        self.now.get()
    }
}

fn apt<R: CommandRunner>(runner: R) -> Apt<R, ManualClock> {
    Apt::new(runner, ManualClock::default(), true, 360 * 60, false, false)
}

fn brew<R: CommandRunner>(runner: R, ttl_secs: u64) -> Brew<R, ManualClock> {
    Brew::new(runner, ManualClock::default(), ttl_secs, false, false)
}

#[test]
fn test_apt_name() {
    let apt = apt(mock(true, "", ""));
    assert_eq!(apt.name(), "apt");
}

#[test]
fn test_apt_version() {
    let mut apt = apt(mock(true, "apt 2.0.2 (amd64)\n", ""));
    assert_eq!(apt.version(), "apt 2.0.2 (amd64)");
}

#[test]
fn test_apt_is_available() {
    let mut apt = apt(mock(true, "", ""));
    assert!(apt.is_available());
}

#[test]
fn test_apt_dry_run_upgrade_success() {
    let mut apt = apt(mock(true, "", ""));
    assert!(apt.dry_run_upgrade().is_ok());
}

#[test]
fn test_apt_full_upgrade_success() {
    let mut apt = apt(mock(true, "", ""));
    assert!(apt.full_upgrade().is_ok());
}

#[test]
fn test_apt_full_upgrade_failure() {
    let mut apt = apt(mock(false, "", "dpkg error"));
    let result = apt.full_upgrade();
    assert!(result.is_err());
    assert!(result.unwrap_err().contains("dpkg error"));
}

#[test]
fn test_apt_get_updates_success() {
    let mut apt = apt(mock(true, "Inst pkg1 (1.0)\nInst pkg2 (2.0)\n", ""));
    let result = apt.get_updates();
    assert!(result.is_ok());
    let updates = result.unwrap();
    assert_eq!(updates.len(), 2);
    assert_eq!(updates[0], "pkg1");
    assert_eq!(updates[1], "pkg2");
}

#[test]
fn test_apt_get_updates_permission_denied() {
    let mut apt = apt(mock(
        false,
        "",
        "E: Could not open lock file /var/lib/apt/lists/lock - open (13: Permission denied)",
    ));
    let result = apt.get_updates();
    assert!(result.is_err());
    assert!(result.unwrap_err().contains("Permission denied"));
}

#[test]
fn test_apt_get_updates_other_failure() {
    let mut apt = apt(mock(false, "", "network error"));
    let result = apt.get_updates();
    assert!(result.is_err());
    assert!(result.unwrap_err().contains("Failed to update apt cache"));
}

#[test]
fn apt_messages_are_exact() {
    let apt_err = apt(mock(false, "", "network error")).get_updates().unwrap_err();
    assert_eq!(
        apt_err,
        "Failed to update apt cache: exit status: 1. stderr: network error"
    );
    let up = apt(mock(false, "", "dpkg error")).full_upgrade().unwrap_err();
    assert_eq!(up, "full upgrade failed with status: exit status: 1. stderr: dpkg error");
    let root = apt(mock(false, "", "Are you root?")).get_updates().unwrap_err();
    assert_eq!(
        root,
        "Permission denied when updating apt cache. Are you running as root? stderr: Are you root?"
    );
}

#[test]
fn apt_off_linux_has_no_updates() {
    let mut apt = Apt::new(mock(false, "", "boom"), ManualClock::default(), false, 0, false, false);
    assert_eq!(apt.get_updates(), Ok(Vec::new()));
}

#[test]
fn apt_simulation_parsing() {
    let out = "Reading package lists...\r\nInst  libc6  [2.31] (2.32)\r\nConf libc6\nInst\nInst x\n";
    assert_eq!(apt_updates_from(out), vec!["libc6".to_string(), "x".to_string()]);
    assert_eq!(apt_updates_from(""), Vec::<String>::new());
}

#[test]
fn version_lines() {
    let ok = Ok(CommandOutput {
        success: true,
        status: String::new(),
        stdout: "Homebrew 4.0\nmore\n".to_string(),
        stderr: String::new(),
    });
    assert_eq!(version_from(&ok), "Homebrew 4.0");
    let empty = Ok(CommandOutput {
        success: true,
        status: String::new(),
        stdout: String::new(),
        stderr: String::new(),
    });
    assert_eq!(version_from(&empty), "unknown");
    assert_eq!(version_from(&Err("not found".to_string())), "unknown");
}

#[test]
fn test_brew_name() {
    let brew = brew(mock(true, "", ""), 360 * 60);
    assert_eq!(brew.name(), "brew");
}

#[test]
fn test_brew_version() {
    let mut brew = brew(mock(true, "Homebrew 3.3.16\n", ""), 360 * 60);
    assert_eq!(brew.version(), "Homebrew 3.3.16");
}

#[test]
fn test_brew_get_updates_success() {
    let mut brew = brew(mock(true, "pkg1\npkg2\n", ""), 360 * 60);
    let updates = brew.get_updates().unwrap();
    assert_eq!(updates, vec!["pkg1", "pkg2"]);
}

#[test]
fn test_brew_get_updates_failure() {
    let mut brew = brew(mock(false, "", "brew error"), 360 * 60);
    let result = brew.get_updates();
    assert!(result.is_err());
    assert!(result.unwrap_err().contains("brew error"));
}

#[test]
fn test_brew_dry_run_upgrade_success() {
    let mut brew = brew(mock(true, "pkg1\npkg2\n", ""), 360 * 60);
    let updates = brew.dry_run_upgrade().unwrap();
    assert_eq!(updates, vec!["pkg1", "pkg2"]);
}

#[test]
fn test_brew_full_upgrade_success() {
    let mut brew = brew(mock(true, "", ""), 360 * 60);
    assert!(brew.full_upgrade().is_ok());
}

struct TrackingRunner {
    calls: Rc<RefCell<Vec<String>>>,
}

impl CommandRunner for TrackingRunner {
    fn log(&self) -> CommandLog {
        unreachable!()
    }

    fn run(&mut self, command: &CommandLine) -> Result<CommandOutput, String> {
        self.calls
            .borrow_mut()
            .push(format!("{} {}", command.program, command.args.join(" ")));
        Ok(CommandOutput {
            success: true,
            status: "exit status: 0".to_string(),
            stdout: "pkg1\n".to_string(),
            stderr: String::new(),
        })
    }
}

#[test]
fn test_brew_get_updates_caching() {
    let calls = Rc::new(RefCell::new(Vec::new()));
    let mut brew = brew(TrackingRunner { calls: calls.clone() }, 60);

    // First call - should run update
    let _ = brew.get_updates().unwrap();
    {
        let c = calls.borrow();
        assert!(c.iter().any(|s| s.contains("brew update")));
        assert_eq!(c.len(), 2); // update and outdated
    }

    // Second call - should NOT run update
    calls.borrow_mut().clear();
    let _ = brew.get_updates().unwrap();
    {
        let c = calls.borrow();
        assert!(!c.iter().any(|s| s.contains("brew update")));
        assert!(c.iter().any(|s| s.contains("outdated")));
        assert_eq!(c.len(), 1);
    }

    // Force update with TTL 0
    let calls2 = Rc::new(RefCell::new(Vec::new()));
    let mut brew2 = self::brew(TrackingRunner { calls: calls2.clone() }, 0);
    let _ = brew2.get_updates().unwrap();
    {
        let c = calls2.borrow();
        assert!(c.iter().any(|s| s.contains("brew update")));
    }
}

#[test]
fn brew_refresh_after_interval() {
    let calls = Rc::new(RefCell::new(Vec::new()));
    let mut brew = brew(TrackingRunner { calls: calls.clone() }, 60);
    let _ = brew.get_updates().unwrap();
    brew.clock.now.set(59_999_999_999);
    calls.borrow_mut().clear();
    let _ = brew.get_updates().unwrap();
    assert_eq!(calls.borrow().len(), 1);
    brew.clock.now.set(60_000_000_000);
    calls.borrow_mut().clear();
    let _ = brew.get_updates().unwrap();
    assert_eq!(calls.borrow().len(), 2);
}

#[test]
fn refresh_decisions() {
    assert!(should_refresh(None, 5, 60));
    assert!(should_refresh(Some(5), 5, 0));
    assert!(!should_refresh(Some(10), 5, 60));
    assert!(should_refresh(Some(0), 60_000_000_000, 60));
    assert!(!should_refresh(Some(1), 60_000_000_000, 60));
}

#[test]
fn refresh_interval_setting() {
    assert_eq!(refresh_interval_secs(None), 360 * 60);
    assert_eq!(refresh_interval_secs(Some("5".to_string())), 300);
    assert_eq!(refresh_interval_secs(Some("five".to_string())), 360 * 60);
    assert_eq!(
        refresh_interval_secs(Some(u64::MAX.to_string())),
        u64::MAX
    );
}

#[test]
fn brew_outdated_parsing() {
    assert_eq!(
        brew_updates_from("a\n\nb\r\n"),
        vec!["a".to_string(), "b".to_string()]
    );
}

struct PathRunner;

impl CommandRunner for PathRunner {
    fn log(&self) -> CommandLog {
        unreachable!()
    }

    fn run(&mut self, command: &CommandLine) -> Result<CommandOutput, String> {
        if command.program == "/usr/local/bin/brew" {
            Ok(CommandOutput {
                success: true,
                status: "exit status: 0".to_string(),
                stdout: "Homebrew 4.1\n".to_string(),
                stderr: String::new(),
            })
        } else {
            Err(format!("{} not found", command.program))
        }
    }
}

struct NothingRuns;

impl CommandRunner for NothingRuns {
    fn log(&self) -> CommandLog {
        unreachable!()
    }

    fn run(&mut self, command: &CommandLine) -> Result<CommandOutput, String> {
        Err(format!("{} not found", command.program))
    }
}

#[test]
fn brew_is_looked_for_in_known_places() {
    let mut b = brew(PathRunner, 60);
    assert!(b.is_available());
    assert_eq!(b.version(), "Homebrew 4.1");
    let mut none = brew(NothingRuns, 60);
    assert!(!none.is_available());
    assert_eq!(
        none.run_brew(BrewCommand::Version).unwrap_err(),
        "/usr/local/bin/brew not found"
    );
    assert_eq!(
        none.full_upgrade().unwrap_err(),
        "failed to execute brew upgrade: /usr/local/bin/brew not found"
    );
}

#[test]
fn backend_choice() {
    assert_eq!(choose_backend(true, false), BackendKind::Brew);
    assert_eq!(choose_backend(false, true), BackendKind::Brew);
    assert_eq!(choose_backend(false, false), BackendKind::Apt);
    let chosen = get_package_manager(
        brew(NothingRuns, 60),
        apt(NothingRuns),
        false,
    );
    assert!(matches!(chosen, Backend::Apt(_)));
    let chosen = get_package_manager(
        brew(NothingRuns, 60),
        apt(NothingRuns),
        true,
    );
    assert!(matches!(chosen, Backend::Brew(_)));
}

#[test]
fn cleanup_runs_after_successful_upgrade() {
    let calls = Rc::new(RefCell::new(Vec::new()));
    let mut b = Brew::new(
        TrackingRunner { calls: calls.clone() },
        ManualClock::default(),
        60,
        true,
        true,
    );
    assert!(b.full_upgrade().is_ok());
    assert_eq!(
        *calls.borrow(),
        vec![
            "brew upgrade".to_string(),
            "brew cleanup".to_string(),
            "brew autoremove".to_string()
        ]
    );
    let calls = Rc::new(RefCell::new(Vec::new()));
    let mut a = Apt::new(
        TrackingRunner { calls: calls.clone() },
        ManualClock::default(),
        true,
        0,
        true,
        false,
    );
    assert!(a.full_upgrade().is_ok());
    assert_eq!(
        *calls.borrow(),
        vec![
            "sudo apt full-upgrade -y".to_string(),
            "sudo apt-get autoclean".to_string()
        ]
    );
}

struct FailingRunner {
    calls: Rc<RefCell<Vec<String>>>,
}

impl CommandRunner for FailingRunner {
    fn log(&self) -> CommandLog {
        unreachable!()
    }

    fn run(&mut self, command: &CommandLine) -> Result<CommandOutput, String> {
        self.calls
            .borrow_mut()
            .push(format!("{} {}", command.program, command.args.join(" ")));
        Ok(CommandOutput {
            success: false,
            status: "exit status: 1".to_string(),
            stdout: String::new(),
            stderr: "boom".to_string(),
        })
    }
}

struct Recording {
    calls: Rc<RefCell<Vec<String>>>,
}

impl CommandRunner for Recording {
    fn log(&self) -> CommandLog {
        unreachable!()
    }

    fn run(&mut self, command: &CommandLine) -> Result<CommandOutput, String> {
        self.calls.borrow_mut().push(command.program.clone());
        Err("missing".to_string())
    }
}

fn call_log() -> Rc<RefCell<Vec<String>>> {
    Rc::new(RefCell::new(Vec::new()))
}

#[test]
fn command_lines_are_exact() {
    let c = apt_command(AptCommand::Simulate);
    assert_eq!(c.program, "sudo");
    assert_eq!(c.args, vec!["apt-get", "-s", "dist-upgrade"]);
    let c = apt_command(AptCommand::Upgrade);
    assert_eq!(c.args, vec!["apt", "full-upgrade", "-y"]);
    let c = brew_command(1, BrewCommand::Outdated);
    assert_eq!(c.program, "/opt/homebrew/bin/brew");
    assert_eq!(c.args, vec!["outdated", "--quiet"]);
}

#[test]
fn apt_failed_refresh_skips_simulation() {
    let calls = call_log();
    let mut a = apt(FailingRunner { calls: calls.clone() });
    let err = a.get_updates().unwrap_err();
    assert_eq!(err, "Failed to update apt cache: exit status: 1. stderr: boom");
    assert_eq!(*calls.borrow(), vec!["sudo apt-get update".to_string()]);
    assert_eq!(a.last_refresh, None);
}

#[test]
fn apt_refresh_interval() {
    let calls = call_log();
    let mut a = Apt::new(
        TrackingRunner { calls: calls.clone() },
        ManualClock::default(),
        true,
        60,
        false,
        false,
    );
    assert_eq!(a.get_updates(), Ok(Vec::new()));
    assert_eq!(
        *calls.borrow(),
        vec!["sudo apt-get update".to_string(), "sudo apt-get -s dist-upgrade".to_string()]
    );
    calls.borrow_mut().clear();
    let _ = a.dry_run_upgrade().unwrap();
    assert_eq!(*calls.borrow(), vec!["sudo apt-get -s dist-upgrade".to_string()]);
    a.clock.now.set(60_000_000_000);
    calls.borrow_mut().clear();
    let _ = a.get_updates().unwrap();
    assert_eq!(calls.borrow().len(), 2);

    let calls = call_log();
    let mut always = apt(TrackingRunner { calls: calls.clone() });
    always.update_interval_secs = 0;
    let _ = always.get_updates().unwrap();
    let _ = always.get_updates().unwrap();
    assert_eq!(calls.borrow().len(), 4);
}

#[test]
fn apt_runs_exact_upgrade_command() {
    let calls = call_log();
    let mut a = apt(TrackingRunner { calls: calls.clone() });
    assert!(a.full_upgrade().is_ok());
    assert_eq!(*calls.borrow(), vec!["sudo apt full-upgrade -y".to_string()]);
}

#[test]
fn failed_upgrade_runs_no_cleanup() {
    let calls = call_log();
    let mut a = Apt::new(
        FailingRunner { calls: calls.clone() },
        ManualClock::default(),
        true,
        0,
        true,
        true,
    );
    assert!(a.full_upgrade().is_err());
    assert_eq!(*calls.borrow(), vec!["sudo apt full-upgrade -y".to_string()]);
    let calls = call_log();
    let mut b = Brew::new(FailingRunner { calls: calls.clone() }, ManualClock::default(), 0, true, true);
    assert_eq!(
        b.full_upgrade().unwrap_err(),
        "brew upgrade failed with status: exit status: 1. stderr: boom"
    );
    assert_eq!(*calls.borrow(), vec!["brew upgrade".to_string()]);
}

#[test]
fn brew_failed_refresh_skips_outdated() {
    let calls = call_log();
    let mut b = brew(FailingRunner { calls: calls.clone() }, 360 * 60);
    let err = b.get_updates().unwrap_err();
    assert_eq!(err, "brew update failed with status: exit status: 1. stderr: boom");
    assert_eq!(*calls.borrow(), vec!["brew update".to_string()]);
    assert_eq!(b.last_refresh, None);
}

#[test]
fn brew_upgrade_runs_only_upgrade() {
    let calls = call_log();
    let mut b = brew(TrackingRunner { calls: calls.clone() }, 360 * 60);
    assert!(b.full_upgrade().is_ok());
    assert_eq!(*calls.borrow(), vec!["brew upgrade".to_string()]);
}

#[test]
fn dry_run_makes_the_same_runs() {
    let calls = call_log();
    let mut b = brew(TrackingRunner { calls: calls.clone() }, 360 * 60);
    assert_eq!(b.dry_run_upgrade(), Ok(vec!["pkg1".to_string()]));
    assert_eq!(
        *calls.borrow(),
        vec!["brew update".to_string(), "brew outdated --quiet".to_string()]
    );
}

#[test]
fn apt_availability_tries_both_programs() {
    let calls = call_log();
    let mut a = apt(Recording { calls: calls.clone() });
    assert!(!a.is_available());
    assert_eq!(*calls.borrow(), vec!["apt".to_string(), "apt-get".to_string()]);
    assert_eq!(a.version(), "unknown");
}

#[test]
fn refresh_is_due_by_the_clock_reading() {
    let calls = call_log();
    let mut a = Apt::new(
        TrackingRunner { calls: calls.clone() },
        ManualClock::default(),
        true,
        refresh_interval_secs(Some("1".to_string())),
        false,
        false,
    );
    let _ = a.updates_at(0).unwrap();
    assert_eq!(a.last_refresh, Some(0));
    calls.borrow_mut().clear();
    let _ = a.updates_at(59_999_999_999).unwrap();
    assert_eq!(*calls.borrow(), vec!["sudo apt-get -s dist-upgrade".to_string()]);
    calls.borrow_mut().clear();
    let _ = a.updates_at(60_000_000_000).unwrap();
    assert_eq!(calls.borrow()[0], "sudo apt-get update");

    let calls = call_log();
    let mut b = brew(TrackingRunner { calls: calls.clone() }, 60);
    let _ = b.updates_at(5).unwrap();
    calls.borrow_mut().clear();
    let _ = b.updates_at(30_000_000_000).unwrap();
    assert_eq!(*calls.borrow(), vec!["brew outdated --quiet".to_string()]);
}
