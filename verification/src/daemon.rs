//! The daemon's decisions: who may call it, what it answers, and when an
//! upgrade or a reboot may start.
use vstd::prelude::*;

use crate::rest::{
    HealthResponse, RebootResponse, StatusResponse, UpgradeResponse, INSTANCE_PREFIX, PATH_HEALTH,
};
use crate::text::{
    chars_of, decimal, owned, push_decimal, push_str, same_text, split_on, string_of_range,
    trim_end_char, trim_end_matches,
};

verus! {

/// The first port tried when none is configured.
pub const DEFAULT_HTTP_PORT: u16 = 8080;

/// HTTP status codes that the daemon answers with.
pub const STATUS_OK: u16 = 200;
pub const STATUS_UNAUTHORIZED: u16 = 401;
pub const STATUS_FORBIDDEN: u16 = 403;
pub const STATUS_PRECONDITION_FAILED: u16 = 412;
pub const STATUS_LOCKED: u16 = 423;
pub const STATUS_INTERNAL_SERVER_ERROR: u16 = 500;

/// A request passes when it asks for the health check, or carries the API key.
pub open spec fn authorized(path: Seq<char>, key_header: Option<Seq<char>>, api_key: Seq<char>) -> bool {
    path == PATH_HEALTH@ || key_header == Some(api_key)
}

/// Whether a request may proceed; `key_header` is the API-key header when it
/// is present and readable as text.
pub fn authorize(path: &str, key_header: Option<&str>, api_key: &str) -> (r: bool)
    ensures
        r == authorized(path@, match key_header {
            Some(k) => Some(k@),
            None => None,
        }, api_key@),
{
    if same_text(path, PATH_HEALTH) {
        return true;
    }
    match key_header {
        Some(k) => same_text(k, api_key),
        None => false,
    }
}

/// The answer to a health check.
pub fn health_reply(pm_name: &str, pm_version: String, is_upgrading: bool) -> (r: HealthResponse)
    ensures
        r.status@ == "ok"@,
        r.package_manager@ == pm_name@,
        r.package_manager_version@ == pm_version@,
        r.is_upgrading == is_upgrading,
{
    HealthResponse {
        status: owned("ok"),
        package_manager: owned(pm_name),
        package_manager_version: pm_version,
        is_upgrading,
    }
}

/// The daemon's configuration that its answers show.
#[derive(Debug, Clone)]
pub struct DaemonSettings {
    pub daemon_version: String,
    pub allow_reboot: bool,
    pub auto_clean: bool,
    pub auto_remove: bool,
}

/// `the system is not a <name> system`.
pub open spec fn unavailable_text(pm_name: Seq<char>) -> Seq<char> {
    "the system is not a "@ + pm_name + " system"@
}

/// Says that the package manager cannot run here.
pub fn unavailable_message(pm_name: &str) -> (r: String)
    ensures
        r@ == unavailable_text(pm_name@),
{
    let mut r = owned("the system is not a ");
    push_str(&mut r, pm_name);
    push_str(&mut r, " system");
    r
}

/// What the daemon learned before answering a status query.
pub enum UpdatesProbe {
    /// The package manager cannot run here.
    Unavailable,
    /// The package manager was asked for updates.
    Checked(Result<Vec<String>, String>),
}

/// The message of a status answer for a number of updates.
pub open spec fn updates_text(count: nat) -> Seq<char> {
    if count == 0 {
        "System is up to date"@
    } else {
        "System has "@ + decimal(count) + " outdated packages"@
    }
}

/// The answer to a status query: 412 when the package manager cannot run,
/// 200 with the updates, or 500 when they could not be determined. Every
/// answer shows whether an upgrade runs and the daemon's settings.
pub fn status_reply(
    probe: UpdatesProbe,
    pm_name: &str,
    is_upgrading: bool,
    settings: &DaemonSettings,
) -> (r: (u16, StatusResponse))
    ensures
        r.1.is_upgrading == is_upgrading,
        r.1.daemon_version.deep_view() == Some(settings.daemon_version@),
        r.1.allow_reboot == settings.allow_reboot,
        r.1.auto_clean == settings.auto_clean,
        r.1.auto_remove == settings.auto_remove,
        match probe {
            UpdatesProbe::Unavailable => r.0 == STATUS_PRECONDITION_FAILED && r.1.message@
                == unavailable_text(pm_name@) && r.1.updates@.len() == 0,
            UpdatesProbe::Checked(Ok(u)) => r.0 == STATUS_OK && r.1.message@ == updates_text(
                u@.len(),
            ) && r.1.updates@ == u@,
            UpdatesProbe::Checked(Err(e)) => r.0 == STATUS_INTERNAL_SERVER_ERROR && r.1.message@
                == "Failed to check for updates: "@ + e@ && r.1.updates@.len() == 0,
        },
{
    let (code, message, updates) = match probe {
        UpdatesProbe::Unavailable => (
            STATUS_PRECONDITION_FAILED,
            unavailable_message(pm_name),
            Vec::new(),
        ),
        UpdatesProbe::Checked(Ok(u)) => {
            let message = if u.len() == 0 {
                owned("System is up to date")
            } else {
                let mut m = owned("System has ");
                push_decimal(&mut m, u.len() as u64);
                push_str(&mut m, " outdated packages");
                m
            };
            (STATUS_OK, message, u)
        },
        UpdatesProbe::Checked(Err(e)) => {
            let mut m = owned("Failed to check for updates: ");
            push_str(&mut m, e.as_str());
            (STATUS_INTERNAL_SERVER_ERROR, m, Vec::new())
        },
    };
    (
        code,
        StatusResponse {
            message,
            updates,
            is_upgrading,
            daemon_version: Some(owned(settings.daemon_version.as_str())),
            allow_reboot: settings.allow_reboot,
            auto_clean: settings.auto_clean,
            auto_remove: settings.auto_remove,
        },
    )
}

/// The answer to a dry run: 200 with the packages, or 500 with the reason.
pub fn dry_run_reply(result: Result<Vec<String>, String>) -> (r: (u16, UpgradeResponse))
    ensures
        match result {
            Ok(u) => r.0 == STATUS_OK && r.1.message@ == "dry-run completed"@ && r.1.updates
                == Some(u),
            Err(e) => r.0 == STATUS_INTERNAL_SERVER_ERROR && r.1.message@ == "dry-run failed: "@
                + e@ && r.1.updates is None,
        },
{
    match result {
        Ok(u) => (
            STATUS_OK,
            UpgradeResponse { message: owned("dry-run completed"), updates: Some(u) },
        ),
        Err(e) => {
            let mut m = owned("dry-run failed: ");
            push_str(&mut m, e.as_str());
            (STATUS_INTERNAL_SERVER_ERROR, UpgradeResponse { message: m, updates: None })
        },
    }
}

/// What to do about an upgrade request.
pub enum UpgradeStep {
    /// Answer at once; nothing runs.
    Refuse(u16, UpgradeResponse),
    /// Simulate the upgrade and answer with [`dry_run_reply`].
    DryRun,
    /// Start the upgrade in the background and answer at once.
    Start(u16, UpgradeResponse),
}

/// The kind of an upgrade step, with the answer's code where there is one.
pub enum StepKind {
    Refuse(u16),
    DryRun,
    Start,
}

/// What an upgrade request leads to, and whether an upgrade runs afterwards.
pub open spec fn upgrade_decision(upgrading: bool, available: bool, dry_run: bool) -> (StepKind, bool) {
    if !available {
        (StepKind::Refuse(STATUS_PRECONDITION_FAILED), upgrading)
    } else if dry_run {
        (StepKind::DryRun, upgrading)
    } else if upgrading {
        (StepKind::Refuse(STATUS_PRECONDITION_FAILED), upgrading)
    } else {
        (StepKind::Start, true)
    }
}

/// The kind of a step.
pub open spec fn step_kind(s: UpgradeStep) -> StepKind {
    match s {
        UpgradeStep::Refuse(code, _) => StepKind::Refuse(code),
        UpgradeStep::DryRun => StepKind::DryRun,
        UpgradeStep::Start(_, _) => StepKind::Start,
    }
}

/// What a reboot request leads to: the answer's code, and whether the reboot starts.
pub open spec fn reboot_decision(upgrading: bool, available: bool, allow_reboot: bool) -> (u16, bool) {
    if !available {
        (STATUS_PRECONDITION_FAILED, false)
    } else if upgrading {
        (STATUS_LOCKED, false)
    } else if !allow_reboot {
        (STATUS_FORBIDDEN, false)
    } else {
        (STATUS_OK, true)
    }
}

/// Whether a full upgrade is running; at most one runs at a time.
#[derive(Debug)]
pub struct UpgradeLock {
    pub is_upgrading: bool,
}

impl UpgradeLock {
    /// No upgrade runs.
    pub fn new() -> (r: UpgradeLock)
        ensures
            !r.is_upgrading,
    {
        UpgradeLock { is_upgrading: false }
    }

    /// Decides an upgrade request: refused with 412 when the package manager
    /// cannot run or an upgrade already runs, simulated for a dry run, else
    /// started and marked as running.
    pub fn on_upgrade_request(&mut self, available: bool, pm_name: &str, dry_run: bool) -> (r:
        UpgradeStep)
        ensures
            (step_kind(r), final(self).is_upgrading) == upgrade_decision(
                old(self).is_upgrading,
                available,
                dry_run,
            ),
            r matches UpgradeStep::Refuse(_, resp) ==> resp.updates is None && resp.message@ == (
            if !available {
                unavailable_text(pm_name@)
            } else {
                "a full upgrade is currently running"@
            }),
            r matches UpgradeStep::Start(code, resp) ==> code == STATUS_OK && resp.message@
                == "full upgrade triggered"@ && resp.updates is None,
    {
        if !available {
            return UpgradeStep::Refuse(
                STATUS_PRECONDITION_FAILED,
                UpgradeResponse { message: unavailable_message(pm_name), updates: None },
            );
        }
        if dry_run {
            return UpgradeStep::DryRun;
        }
        if self.is_upgrading {
            return UpgradeStep::Refuse(
                STATUS_PRECONDITION_FAILED,
                UpgradeResponse { message: owned("a full upgrade is currently running"), updates: None },
            );
        }
        self.is_upgrading = true;
        UpgradeStep::Start(
            STATUS_OK,
            UpgradeResponse { message: owned("full upgrade triggered"), updates: None },
        )
    }

    /// The background upgrade ended, however it went.
    pub fn on_upgrade_finished(&mut self)
        ensures
            !final(self).is_upgrading,
    {
        self.is_upgrading = false;
    }

    /// Decides a reboot request: 412 when the package manager cannot run, 423
    /// while an upgrade runs, 403 when reboots are not allowed, else 200 and
    /// the reboot starts. The third part tells whether to start it.
    pub fn on_reboot_request(&self, available: bool, pm_name: &str, allow_reboot: bool) -> (r: (
        u16,
        RebootResponse,
        bool,
    ))
        ensures
            (r.0, r.2) == reboot_decision(self.is_upgrading, available, allow_reboot),
            r.1.message@ == (if !available {
                unavailable_text(pm_name@)
            } else if self.is_upgrading {
                "a full upgrade is currently running"@
            } else if !allow_reboot {
                "reboot is not enabled on this daemon"@
            } else {
                "reboot triggered"@
            }),
    {
        if !available {
            return (
                STATUS_PRECONDITION_FAILED,
                RebootResponse { message: unavailable_message(pm_name) },
                false,
            );
        }
        if self.is_upgrading {
            return (
                STATUS_LOCKED,
                RebootResponse { message: owned("a full upgrade is currently running") },
                false,
            );
        }
        if !allow_reboot {
            return (
                STATUS_FORBIDDEN,
                RebootResponse { message: owned("reboot is not enabled on this daemon") },
                false,
            );
        }
        (STATUS_OK, RebootResponse { message: owned("reboot triggered") }, true)
    }
}

/// At most one full upgrade runs: once one has started, every further
/// request for one is refused with 412 until it has finished, and then one
/// may start again.
pub proof fn lemma_upgrades_exclusive(available: bool)
    requires
        available,
    ensures
        upgrade_decision(false, available, false) == (StepKind::Start, true),
        upgrade_decision(true, available, false) == (
            StepKind::Refuse(STATUS_PRECONDITION_FAILED),
            true,
        ),
{
}

/// A dry run never starts or stops an upgrade.
pub proof fn lemma_dry_run_keeps_state(upgrading: bool, available: bool)
    ensures
        upgrade_decision(upgrading, available, true).1 == upgrading,
        upgrade_decision(upgrading, available, true).0 != StepKind::Start,
{
}

/// A reboot never starts while an upgrade runs, nor on a daemon that does not
/// allow reboots.
pub proof fn lemma_reboot_guarded(upgrading: bool, available: bool, allow_reboot: bool)
    ensures
        reboot_decision(upgrading, available, allow_reboot).1 ==> !upgrading && allow_reboot
            && available,
        reboot_decision(upgrading, available, allow_reboot).1 <==> reboot_decision(
            upgrading,
            available,
            allow_reboot,
        ).0 == STATUS_OK,
{
}

/// Without the API key only the health check passes; with it every path does.
pub proof fn lemma_only_health_is_public(path: Seq<char>, api_key: Seq<char>, other: Option<Seq<char>>)
    requires
        other != Some(api_key),
    ensures
        authorized(path, other, api_key) <==> path == PATH_HEALTH@,
        authorized(path, Some(api_key), api_key),
{
}

// ---------------------------------------------------------------------------
// Identity on the network
// ---------------------------------------------------------------------------

/// A host name without trailing dots.
pub fn normalize_hostname(hostname: &str) -> (r: String)
    ensures
        r@ == trim_end_char(hostname@, '.'),
{
    trim_end_matches(hostname, '.')
}

/// The first label of a host name: the part before the first dot.
pub fn first_label(hostname: &str) -> (r: String)
    ensures
        r@ == split_on(hostname@, '.')[0],
{
    let cs = chars_of(hostname);
    let mut i: usize = 0;
    while i < cs.len() && cs[i] != '.'
        invariant
            i <= cs@.len(),
            cs@ == hostname@,
            forall|k: int| 0 <= k < i ==> cs@[k] != '.',
        decreases cs@.len() - i,
    {
        i = i + 1;
    }
    proof {
        lemma_split_first(hostname@, '.', i as int);
    }
    string_of_range(&cs, 0, i)
}

/// A text without the separator splits into itself alone.
pub proof fn lemma_split_whole(s: Seq<char>, sep: char)
    requires
        forall|k: int| 0 <= k < s.len() ==> s[k] != sep,
    ensures
        split_on(s, sep) == seq![s],
    decreases s.len(),
{
    if s.len() > 0 {
        let d = s.drop_last();
        lemma_split_whole(d, sep);
        assert(d.push(s.last()) =~= s);
        assert(split_on(s, sep) =~= seq![s]);
    } else {
        assert(s =~= Seq::<char>::empty());
    }
}

/// A text with the separator splits into at least two pieces.
pub proof fn lemma_split_many(s: Seq<char>, sep: char, j: int)
    requires
        0 <= j < s.len(),
        s[j] == sep,
    ensures
        split_on(s, sep).len() >= 2,
    decreases s.len(),
{
    let d = s.drop_last();
    if s.last() == sep {
        lemma_split_len(d, sep);
    } else {
        assert(d[j] == sep);
        lemma_split_many(d, sep, j);
    }
}

/// The first piece of a split is the text up to the first separator.
pub proof fn lemma_split_first(s: Seq<char>, sep: char, i: int)
    requires
        0 <= i <= s.len(),
        forall|k: int| 0 <= k < i ==> s[k] != sep,
        i < s.len() ==> s[i] == sep,
    ensures
        split_on(s, sep)[0] == s.subrange(0, i),
        split_on(s, sep).len() >= 1,
    decreases s.len(),
{
    lemma_split_len(s, sep);
    if i == s.len() {
        lemma_split_whole(s, sep);
        assert(s.subrange(0, i) =~= s);
    } else {
        let d = s.drop_last();
        if i == s.len() - 1 {
            assert forall|k: int| 0 <= k < d.len() implies d[k] != sep by {
                assert(d[k] == s[k]);
            }
            lemma_split_whole(d, sep);
            assert(d =~= s.subrange(0, i));
        } else {
            assert(d[i] == sep);
            assert forall|k: int| 0 <= k < i implies d[k] != sep by {
                assert(d[k] == s[k]);
            }
            lemma_split_first(d, sep, i);
            lemma_split_many(d, sep, i);
            assert(d.subrange(0, i) =~= s.subrange(0, i));
        }
    }
}

/// A split has at least one piece.
pub proof fn lemma_split_len(s: Seq<char>, sep: char)
    ensures
        split_on(s, sep).len() >= 1,
    decreases s.len(),
{
    if s.len() > 0 {
        lemma_split_len(s.drop_last(), sep);
    }
}

/// The mDNS instance name of a daemon: the prefix and the host's first label.
pub fn mdns_instance_name(hostname: &str) -> (r: String)
    ensures
        r@ == INSTANCE_PREFIX@ + split_on(hostname@, '.')[0],
{
    let mut r = owned(INSTANCE_PREFIX);
    let label = first_label(hostname);
    push_str(&mut r, label.as_str());
    r
}

/// The mDNS host name of a daemon: the host's first label in the `local.` domain.
pub fn mdns_host_name(hostname: &str) -> (r: String)
    ensures
        r@ == split_on(hostname@, '.')[0] + ".local."@,
{
    let mut r = first_label(hostname);
    push_str(&mut r, ".local.");
    r
}

/// The port to try after `port` when it is taken, if any is left.
pub fn next_port(port: u16) -> (r: Option<u16>)
    ensures
        r == (if port == u16::MAX {
            None
        } else {
            Some((port + 1) as u16)
        }),
{
    if port == u16::MAX {
        None
    } else {
        Some(port + 1)
    }
}

} // verus!
