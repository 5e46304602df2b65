//! The package-manager back ends of the daemon: APT and Homebrew.
//!
//! A back end hands command lines to a [`CommandRunner`] and makes its answers
//! from what the commands print. A runner keeps a log of the command lines it
//! is given and of what each run gave back, so that the contracts say which
//! commands run, in which order, and what is made of the replies they got. What a command
//! prints is outside the library: the contracts hold for every outcome, and
//! the functions that read outcomes state exactly what they give.
use vstd::prelude::*;

use crate::text::{
    contains, has_infix, has_prefix, lines, lines_of, owned, push_str, starts_with, views, words,
    words_of,
};

verus! {

/// What a finished command left behind.
#[derive(Debug, Clone)]
pub struct CommandOutput {
    /// The command exited successfully.
    pub success: bool,
    /// The exit status as shown to the user (such as `exit status: 1`).
    pub status: String,
    /// Standard output, as text.
    pub stdout: String,
    /// Standard error, as text.
    pub stderr: String,
}

/// A program and its arguments.
#[derive(Debug, Clone)]
pub struct CommandLine {
    pub program: String,
    pub args: Vec<String>,
}

impl View for CommandLine {
    type V = (Seq<char>, Seq<Seq<char>>);

    open spec fn view(&self) -> (Seq<char>, Seq<Seq<char>>) {
        (self.program@, views(self.args@))
    }
}

/// Appends one argument.
fn with_arg(args: Vec<String>, arg: &str) -> (r: Vec<String>)
    ensures
        views(r@) == views(args@).push(arg@),
{
    let mut args = args;
    let ghost before = args@;
    args.push(owned(arg));
    assert(views(args@) =~= views(before).push(arg@));
    args
}

/// The command lines that a runner has been given, in order, each as its
/// program and arguments, with what the run gave back.
pub type CommandLog = Seq<((Seq<char>, Seq<Seq<char>>), Result<CommandOutput, String>)>;

/// Runs command lines and collects their output; an error is a command that
/// could not be run, with its reason.
pub trait CommandRunner {
    /// The command lines this runner has been given, in order, with what it
    /// gave back for each. It is a specification only: compiled code never calls it.
    spec fn log(&self) -> CommandLog;

    /// Runs one command line; the log records it with what the run gave back.
    fn run(&mut self, command: &CommandLine) -> (r: Result<CommandOutput, String>)
        ensures
            final(self).log() == old(self).log().push((command@, r)),
    ;
}

/// Monotonic time, in nanoseconds.
pub trait Clock {
    fn now_nanos(&self) -> u64;
}

/// What a daemon needs of a package manager.
pub trait PackageManager {
    /// The back end's name.
    fn name(&self) -> &'static str;

    /// The package manager's version line, or `unknown`.
    fn version(&mut self) -> String;

    /// Whether the package manager can be run here.
    fn is_available(&mut self) -> bool;

    /// The packages that an upgrade would change.
    fn get_updates(&mut self) -> Result<Vec<String>, String>;

    /// The packages that a full upgrade would change, without changing them.
    fn dry_run_upgrade(&mut self) -> Result<Vec<String>, String>;

    /// Upgrades every package.
    fn full_upgrade(&mut self) -> Result<(), String>;

    /// Removes downloaded package files.
    fn auto_clean(&mut self) -> Result<(), String>;

    /// Removes packages that nothing needs any more.
    fn auto_remove(&mut self) -> Result<(), String>;
}

/// The run started and the command succeeded.
pub open spec fn succeeded(run: Result<CommandOutput, String>) -> bool {
    run matches Ok(o) && o.success
}

/// The first run when it started, else the second.
pub open spec fn chosen(
    first: Result<CommandOutput, String>,
    second: Result<CommandOutput, String>,
) -> Result<CommandOutput, String> {
    if first is Ok {
        first
    } else {
        second
    }
}

// ---------------------------------------------------------------------------
// Reading command output
// ---------------------------------------------------------------------------
// ---------------------------------------------------------------------------

/// The first line of a text, or `unknown` when it has none.
pub open spec fn first_line_or_unknown(text: Seq<char>) -> Seq<char> {
    if lines_of(text).len() > 0 {
        lines_of(text)[0]
    } else {
        "unknown"@
    }
}

/// The version that a `--version` run shows: its first output line, or
/// `unknown` when it printed nothing or could not run.
pub open spec fn version_text(run: Result<CommandOutput, String>) -> Seq<char> {
    match run {
        Ok(o) => first_line_or_unknown(o.stdout@),
        Err(_) => "unknown"@,
    }
}

/// The version that a `--version` run shows.
pub fn version_from(run: &Result<CommandOutput, String>) -> (r: String)
    ensures
        r@ == version_text(*run),
{
    match run {
        Ok(o) => {
            let ls = lines(o.stdout.as_str());
            if ls.len() > 0 {
                assert(views(ls@)[0] == ls@[0]@);
                owned(ls[0].as_str())
            } else {
                owned("unknown")
            }
        },
        Err(_) => owned("unknown"),
    }
}

/// The packages that an APT simulation lists: the second word of each line
/// that begins with `Inst `.
pub open spec fn apt_packages(ls: Seq<Seq<char>>) -> Seq<Seq<char>>
    decreases ls.len(),
{
    if ls.len() == 0 {
        Seq::<Seq<char>>::empty()
    } else {
        let rest = apt_packages(ls.drop_last());
        let l = ls.last();
        if has_prefix(l, "Inst "@) && words_of(l).len() >= 2 {
            rest.push(words_of(l)[1])
        } else {
            rest
        }
    }
}

/// The packages that an APT simulation's output lists.
pub fn apt_updates_from(stdout: &str) -> (r: Vec<String>)
    ensures
        views(r@) == apt_packages(lines_of(stdout@)),
{
    let ls = lines(stdout);
    let ghost lv = views(ls@);
    let mut r: Vec<String> = Vec::new();
    let mut i: usize = 0;
    while i < ls.len()
        invariant
            i <= ls@.len(),
            lv == views(ls@),
            views(r@) == apt_packages(lv.take(i as int)),
        decreases ls@.len() - i,
    {
        assert(lv.take(i + 1).drop_last() =~= lv.take(i as int));
        assert(lv.take(i + 1).last() == ls@[i as int]@);
        if starts_with(ls[i].as_str(), "Inst ") {
            let ws = words(ls[i].as_str());
            if ws.len() >= 2 {
                let ghost before = r@;
                let w = owned(ws[1].as_str());
                r.push(w);
                assert(views(ws@)[1] == ws@[1]@);
                assert(views(r@) =~= views(before).push(w@));
            }
        }
        i = i + 1;
    }
    assert(lv.take(lv.len() as int) =~= lv);
    r
}

/// The packages that `brew outdated --quiet` lists: its non-empty lines.
pub open spec fn brew_packages(ls: Seq<Seq<char>>) -> Seq<Seq<char>>
    decreases ls.len(),
{
    if ls.len() == 0 {
        Seq::<Seq<char>>::empty()
    } else if ls.last().len() > 0 {
        brew_packages(ls.drop_last()).push(ls.last())
    } else {
        brew_packages(ls.drop_last())
    }
}

/// The packages that `brew outdated --quiet` printed.
pub fn brew_updates_from(stdout: &str) -> (r: Vec<String>)
    ensures
        views(r@) == brew_packages(lines_of(stdout@)),
{
    let ls = lines(stdout);
    let ghost lv = views(ls@);
    let mut r: Vec<String> = Vec::new();
    let mut i: usize = 0;
    while i < ls.len()
        invariant
            i <= ls@.len(),
            lv == views(ls@),
            views(r@) == brew_packages(lv.take(i as int)),
        decreases ls@.len() - i,
    {
        assert(lv.take(i + 1).drop_last() =~= lv.take(i as int));
        assert(lv.take(i + 1).last() == ls@[i as int]@);
        if !ls[i].as_str().is_empty() {
            let ghost before = r@;
            let w = owned(ls[i].as_str());
            r.push(w);
            assert(views(r@) =~= views(before).push(w@));
        }
        i = i + 1;
    }
    assert(lv.take(lv.len() as int) =~= lv);
    r
}

/// `<prefix><status>. stderr: <stderr>`: how a failed command is reported.
pub open spec fn failure_text(prefix: Seq<char>, o: CommandOutput) -> Seq<char> {
    prefix + o.status@ + ". stderr: "@ + o.stderr@
}

/// Reports a failed command.
pub fn failure_message(prefix: &str, o: &CommandOutput) -> (r: String)
    ensures
        r@ == failure_text(prefix@, *o),
{
    let mut r = owned(prefix);
    push_str(&mut r, o.status.as_str());
    push_str(&mut r, ". stderr: ");
    push_str(&mut r, o.stderr.as_str());
    r
}

/// `<prefix><reason>`: how a command that could not run is reported.
pub fn prefixed(prefix: &str, reason: &str) -> (r: String)
    ensures
        r@ == prefix@ + reason@,
{
    let mut r = owned(prefix);
    push_str(&mut r, reason);
    r
}

/// How a failed refresh of the APT package lists is reported: a hint about
/// privileges when the error says permission was denied.
pub open spec fn apt_update_failure_text(o: CommandOutput) -> Seq<char> {
    if has_infix(o.stderr@, "Permission denied"@) || has_infix(o.stderr@, "Are you root"@) {
        "Permission denied when updating apt cache. Are you running as root? stderr: "@ + o.stderr@
    } else {
        failure_text("Failed to update apt cache: "@, o)
    }
}

/// Reports a failed refresh of the APT package lists.
pub fn apt_update_failure(o: &CommandOutput) -> (r: String)
    ensures
        r@ == apt_update_failure_text(*o),
{
    if contains(o.stderr.as_str(), "Permission denied") || contains(
        o.stderr.as_str(),
        "Are you root",
    ) {
        prefixed(
            "Permission denied when updating apt cache. Are you running as root? stderr: ",
            o.stderr.as_str(),
        )
    } else {
        failure_message("Failed to update apt cache: ", o)
    }
}

/// The outcome of a step that runs one command and needs it to succeed:
/// a command that did not run gives `<run_prefix><reason>` (no prefix keeps
/// the reason as it is), a failed one `<fail_prefix><status>. stderr: <stderr>`.
pub open spec fn step_result(
    run: Result<CommandOutput, String>,
    run_prefix: Seq<char>,
    fail_prefix: Seq<char>,
) -> Result<(), Seq<char>> {
    match run {
        Err(e) => Err(run_prefix + e@),
        Ok(o) => if o.success {
            Ok(())
        } else {
            Err(failure_text(fail_prefix, o))
        },
    }
}

/// Judges one command run.
pub fn step_outcome(run: &Result<CommandOutput, String>, run_prefix: &str, fail_prefix: &str) -> (r:
    Result<(), String>)
    ensures
        unit_view(r) == step_result(*run, run_prefix@, fail_prefix@),
{
    match run {
        Err(e) => Err(prefixed(run_prefix, e.as_str())),
        Ok(o) => if o.success {
            Ok(())
        } else {
            Err(failure_message(fail_prefix, o))
        },
    }
}

/// The abstract value of a package list or a failure.
pub open spec fn list_view(r: Result<Vec<String>, String>) -> Result<Seq<Seq<char>>, Seq<char>> {
    match r {
        Ok(v) => Ok(views(v@)),
        Err(e) => Err(e@),
    }
}

/// The abstract value of a success or a failure.
pub open spec fn unit_view(r: Result<(), String>) -> Result<(), Seq<char>> {
    match r {
        Ok(()) => Ok(()),
        Err(e) => Err(e@),
    }
}


/// What APT reports for an optional refresh of its package lists and a
/// simulated upgrade: the simulation's package list, or the first failure (a
/// command that did not run is reported with its reason as it is).
pub open spec fn apt_updates_spec(
    refresh: Option<Result<CommandOutput, String>>,
    simulate: Result<CommandOutput, String>,
) -> Result<Seq<Seq<char>>, Seq<char>> {
    match refresh {
        Some(Err(e)) => Err(e@),
        Some(Ok(u)) if !u.success => Err(apt_update_failure_text(u)),
        _ => match simulate {
            Err(e) => Err(e@),
            Ok(o) => if o.success {
                Ok(apt_packages(lines_of(o.stdout@)))
            } else {
                Err(failure_text("Failed to determine available updates: "@, o))
            },
        },
    }
}

/// What Homebrew reports for an optional refresh of its package lists and a
/// listing of outdated packages: the listing, or the first failure.
pub open spec fn brew_updates_spec(
    refresh: Option<Result<CommandOutput, String>>,
    outdated: Result<CommandOutput, String>,
) -> Result<Seq<Seq<char>>, Seq<char>> {
    match refresh {
        Some(Err(e)) => Err(e@),
        Some(Ok(u)) if !u.success => Err(failure_text("brew update failed with status: "@, u)),
        _ => match outdated {
            Err(e) => Err(e@),
            Ok(o) => if o.success {
                Ok(brew_packages(lines_of(o.stdout@)))
            } else {
                Err(failure_text("brew outdated failed with status: "@, o))
            },
        },
    }
}

// ---------------------------------------------------------------------------
// Refreshing package lists
// ---------------------------------------------------------------------------

/// How often package lists are refreshed when nothing is set, in minutes.
pub const DEFAULT_REFRESH_MINUTES: u64 = 360;

/// The minutes that a refresh-interval setting asks for: its whole number, or
/// six hours when unset or unreadable.
pub open spec fn setting_minutes(setting: Option<Seq<char>>) -> u64 {
    match setting {
        Some(v) => match crate::text::parse_u64_spec(v) {
            Some(m) => m,
            None => DEFAULT_REFRESH_MINUTES,
        },
        None => DEFAULT_REFRESH_MINUTES,
    }
}

/// An interval of `minutes` in seconds; one too long for a `u64` of seconds
/// is held as the longest, which no clock of nanoseconds can see pass either.
pub open spec fn interval_from_minutes(minutes: u64) -> u64 {
    if minutes * 60 <= u64::MAX {
        (minutes * 60) as u64
    } else {
        u64::MAX
    }
}

/// The refresh interval of the package lists, in seconds, for the value of
/// its setting.
pub fn refresh_interval_secs(setting: Option<String>) -> (r: u64)
    ensures
        r == interval_from_minutes(setting_minutes(setting.deep_view())),
{
    let minutes = match setting {
        Some(v) => match crate::text::parse_u64(v.as_str()) {
            Some(m) => m,
            None => DEFAULT_REFRESH_MINUTES,
        },
        None => DEFAULT_REFRESH_MINUTES,
    };
    match minutes.checked_mul(60) {
        Some(secs) => secs,
        None => u64::MAX,
    }
}

/// With the interval that a setting of `minutes` gives, a refresh after one
/// at `last` is due exactly when `minutes` is 0 or at least that many minutes
/// have passed on the clock.
pub proof fn lemma_interval_in_minutes(minutes: u64, last: u64, now: u64)
    ensures
        refresh_due(Some(last), now, interval_from_minutes(minutes)) <==> (minutes == 0 || (now
            >= last && now - last >= minutes * 60_000_000_000)),
{
}

/// Whether the package lists must be refreshed: always without an interval
/// or a previous refresh, else once the interval has passed since it (time
/// that seems to run backwards counts as none passed).
pub open spec fn refresh_due(last: Option<u64>, now: u64, interval_secs: u64) -> bool {
    match last {
        Some(t) => if interval_secs > 0 {
            (if now >= t {
                now - t
            } else {
                0
            }) >= interval_secs * 1_000_000_000
        } else {
            true
        },
        None => true,
    }
}

/// Decides whether the package lists must be refreshed.
pub fn should_refresh(last: Option<u64>, now: u64, interval_secs: u64) -> (r: bool)
    ensures
        r == refresh_due(last, now, interval_secs),
{
    match last {
        Some(t) => if interval_secs > 0 {
            let elapsed: u64 = if now >= t {
                now - t
            } else {
                0
            };
            (elapsed as u128) >= (interval_secs as u128) * 1_000_000_000
        } else {
            true
        },
        None => true,
    }
}

/// When the package lists count as refreshed after a round that read the
/// clock at `now` before and at `at` after a refresh: at `at` when a refresh
/// was due and succeeded, else as before.
pub open spec fn refreshed_at(
    last: Option<u64>,
    due: bool,
    refresh: Result<CommandOutput, String>,
    at: u64,
) -> Option<u64> {
    if due && succeeded(refresh) {
        Some(at)
    } else {
        last
    }
}

// ---------------------------------------------------------------------------
// Command lines
// ---------------------------------------------------------------------------

/// A command line with one argument.
fn line1(program: &str, a: &str) -> (r: CommandLine)
    ensures
        r@ == (program@, seq![a@]),
{
    let args = with_arg(Vec::new(), a);
    assert(views(args@) =~= seq![a@]);
    CommandLine { program: owned(program), args }
}

/// A command line with two arguments.
fn line2(program: &str, a: &str, b: &str) -> (r: CommandLine)
    ensures
        r@ == (program@, seq![a@, b@]),
{
    let args = with_arg(with_arg(Vec::new(), a), b);
    assert(views(args@) =~= seq![a@, b@]);
    CommandLine { program: owned(program), args }
}

/// A command line with three arguments.
fn line3(program: &str, a: &str, b: &str, c: &str) -> (r: CommandLine)
    ensures
        r@ == (program@, seq![a@, b@, c@]),
{
    let args = with_arg(with_arg(with_arg(Vec::new(), a), b), c);
    assert(views(args@) =~= seq![a@, b@, c@]);
    CommandLine { program: owned(program), args }
}

// ---------------------------------------------------------------------------
// APT
// ---------------------------------------------------------------------------

/// The commands of the APT back end.
#[derive(Debug, Clone, Copy, PartialEq, Eq, Structural)]
pub enum AptCommand {
    Version,
    GetVersion,
    Update,
    Simulate,
    Upgrade,
    Clean,
    Remove,
}

/// The command line of each APT command.
pub open spec fn apt_line(which: AptCommand) -> (Seq<char>, Seq<Seq<char>>) {
    match which {
        AptCommand::Version => ("apt"@, seq!["--version"@]),
        AptCommand::GetVersion => ("apt-get"@, seq!["--version"@]),
        AptCommand::Update => ("sudo"@, seq!["apt-get"@, "update"@]),
        AptCommand::Simulate => ("sudo"@, seq!["apt-get"@, "-s"@, "dist-upgrade"@]),
        AptCommand::Upgrade => ("sudo"@, seq!["apt"@, "full-upgrade"@, "-y"@]),
        AptCommand::Clean => ("sudo"@, seq!["apt-get"@, "autoclean"@]),
        AptCommand::Remove => ("sudo"@, seq!["apt-get"@, "autoremove"@, "-y"@]),
    }
}

/// Builds the command line of an APT command.
pub fn apt_command(which: AptCommand) -> (r: CommandLine)
    ensures
        r@ == apt_line(which),
{
    match which {
        AptCommand::Version => line1("apt", "--version"),
        AptCommand::GetVersion => line1("apt-get", "--version"),
        AptCommand::Update => line2("sudo", "apt-get", "update"),
        AptCommand::Simulate => line3("sudo", "apt-get", "-s", "dist-upgrade"),
        AptCommand::Upgrade => line3("sudo", "apt", "full-upgrade", "-y"),
        AptCommand::Clean => line2("sudo", "apt-get", "autoclean"),
        AptCommand::Remove => line3("sudo", "apt-get", "autoremove", "-y"),
    }
}

/// The command lines of a log.
pub open spec fn commands_of(log: CommandLog) -> Seq<(Seq<char>, Seq<Seq<char>>)> {
    log.map_values(|e: ((Seq<char>, Seq<Seq<char>>), Result<CommandOutput, String>)| e.0)
}

/// The clean-up commands that follow an upgrade: each one whose setting is on,
/// and none after a failed upgrade.
pub open spec fn apt_cleanup_lines(upgraded: bool, clean: bool, remove: bool) -> Seq<
    (Seq<char>, Seq<Seq<char>>),
> {
    (if upgraded && clean {
        seq![apt_line(AptCommand::Clean)]
    } else {
        Seq::empty()
    }) + (if upgraded && remove {
        seq![apt_line(AptCommand::Remove)]
    } else {
        Seq::empty()
    })
}

/// The commands of one look for updates: the simulation, after a refresh
/// when one is due, and nothing more after a refresh that failed.
pub open spec fn apt_update_lines(due: bool, refreshed: bool) -> Seq<(Seq<char>, Seq<Seq<char>>)> {
    if !due {
        seq![apt_line(AptCommand::Simulate)]
    } else if refreshed {
        seq![apt_line(AptCommand::Update), apt_line(AptCommand::Simulate)]
    } else {
        seq![apt_line(AptCommand::Update)]
    }
}

/// The clean-up runs that follow an upgrade, with what they gave back: each
/// one whose setting is on, and none after a failed upgrade.
pub open spec fn apt_cleanup_entries(
    upgraded: bool,
    clean: bool,
    remove: bool,
    clean_run: Result<CommandOutput, String>,
    remove_run: Result<CommandOutput, String>,
) -> CommandLog {
    (if upgraded && clean {
        seq![(apt_line(AptCommand::Clean), clean_run)]
    } else {
        Seq::empty()
    }) + (if upgraded && remove {
        seq![(apt_line(AptCommand::Remove), remove_run)]
    } else {
        Seq::empty()
    })
}

/// The runs of one look for updates, with what they gave back: the
/// simulation, after a refresh when one is due, and nothing more after a
/// refresh that failed.
pub open spec fn apt_update_entries(
    due: bool,
    update: Result<CommandOutput, String>,
    simulate: Result<CommandOutput, String>,
) -> CommandLog {
    if !due {
        seq![(apt_line(AptCommand::Simulate), simulate)]
    } else if succeeded(update) {
        seq![(apt_line(AptCommand::Update), update), (apt_line(AptCommand::Simulate), simulate)]
    } else {
        seq![(apt_line(AptCommand::Update), update)]
    }
}

/// The APT back end.
pub struct Apt<R: CommandRunner, C: Clock> {
    pub runner: R,
    pub clock: C,
    /// Whether the host runs Linux; elsewhere there is nothing to update.
    pub on_linux: bool,
    /// How long refreshed package lists stay valid, in seconds; 0 refreshes
    /// them on every look for updates.
    pub update_interval_secs: u64,
    /// When the package lists were last refreshed, if ever.
    pub last_refresh: Option<u64>,
    /// Remove downloaded package files after a successful upgrade.
    pub clean_after_upgrade: bool,
    /// Remove unneeded packages after a successful upgrade.
    pub remove_after_upgrade: bool,
}

impl<R: CommandRunner, C: Clock> Apt<R, C> {
    /// An APT back end.
    pub fn new(
        runner: R,
        clock: C,
        on_linux: bool,
        update_interval_secs: u64,
        clean_after_upgrade: bool,
        remove_after_upgrade: bool,
    ) -> (r: Apt<R, C>)
        ensures
            r.runner == runner,
            r.clock == clock,
            r.on_linux == on_linux,
            r.update_interval_secs == update_interval_secs,
            r.last_refresh is None,
            r.clean_after_upgrade == clean_after_upgrade,
            r.remove_after_upgrade == remove_after_upgrade,
    {
        Apt {
            runner,
            clock,
            on_linux,
            update_interval_secs,
            last_refresh: None,
            clean_after_upgrade,
            remove_after_upgrade,
        }
    }

    /// The settings are as in `before`.
    pub open spec fn keeps(self, before: Self) -> bool {
        &&& self.clock == before.clock
        &&& self.on_linux == before.on_linux
        &&& self.update_interval_secs == before.update_interval_secs
        &&& self.clean_after_upgrade == before.clean_after_upgrade
        &&& self.remove_after_upgrade == before.remove_after_upgrade
    }

    /// Hands one command to the runner.
    fn run_line(&mut self, which: AptCommand) -> (r: Result<CommandOutput, String>)
        ensures
            final(self).keeps(*old(self)),
            final(self).last_refresh == old(self).last_refresh,
            final(self).runner.log() == old(self).runner.log().push((apt_line(which), r)),
    {
        let c = apt_command(which);
        let r = self.runner.run(&c);
        r
    }

    /// A version query: `apt --version`, then `apt-get --version` when the
    /// first could not run.
    pub open spec fn version_round(
        self,
        after: Self,
        first: Result<CommandOutput, String>,
        second: Result<CommandOutput, String>,
    ) -> bool {
        &&& after.keeps(self)
        &&& after.last_refresh == self.last_refresh
        &&& after.runner.log() == (if first is Ok {
            self.runner.log().push((apt_line(AptCommand::Version), first))
        } else {
            self.runner.log().push((apt_line(AptCommand::Version), first)).push(
                (apt_line(AptCommand::GetVersion), second),
            )
        })
    }

    /// One look for updates, with the clock read at `now` before and at `at`
    /// after a refresh.
    pub open spec fn updates_round(
        self,
        after: Self,
        now: u64,
        at: u64,
        update: Result<CommandOutput, String>,
        simulate: Result<CommandOutput, String>,
        r: Result<Vec<String>, String>,
    ) -> bool {
        let due = refresh_due(self.last_refresh, now, self.update_interval_secs);
        &&& after.keeps(self)
        &&& after.last_refresh == refreshed_at(self.last_refresh, due, update, at)
        &&& after.runner.log() == self.runner.log() + apt_update_entries(due, update, simulate)
        &&& list_view(r) == apt_updates_spec(
            if due {
                Some(update)
            } else {
                None
            },
            simulate,
        )
    }

    /// What a look for updates with the clock at `now` does: nothing off
    /// Linux, where there are none; on Linux one round for some outcome of each
    /// command and some reading of the clock after the refresh.
    pub open spec fn updates_done_at(
        self,
        after: Self,
        now: u64,
        r: Result<Vec<String>, String>,
    ) -> bool {
        if !self.on_linux {
            &&& after == self
            &&& (r matches Ok(v) && v@.len() == 0)
        } else {
            exists|at: u64, update: Result<CommandOutput, String>, simulate: Result<
                CommandOutput,
                String,
            >| #[trigger] self.updates_round(after, now, at, update, simulate, r)
        }
    }

    /// What a look for updates does, for some reading of the clock.
    pub open spec fn updates_done(self, after: Self, r: Result<Vec<String>, String>) -> bool {
        exists|now: u64| #[trigger] self.updates_done_at(after, now, r)
    }

    /// A full upgrade and the clean-up that its settings ask for, with what
    /// each run gave back.
    pub open spec fn upgrade_round(
        self,
        after: Self,
        upgrade: Result<CommandOutput, String>,
        clean_run: Result<CommandOutput, String>,
        remove_run: Result<CommandOutput, String>,
        r: Result<(), String>,
    ) -> bool {
        &&& after.keeps(self)
        &&& after.last_refresh == self.last_refresh
        &&& after.runner.log() == self.runner.log().push((apt_line(AptCommand::Upgrade), upgrade))
            + apt_cleanup_entries(
            succeeded(upgrade),
            self.clean_after_upgrade,
            self.remove_after_upgrade,
            clean_run,
            remove_run,
        )
        &&& unit_view(r) == step_result(
            upgrade,
            "failed to execute full upgrade: "@,
            "full upgrade failed with status: "@,
        )
    }

    /// The refresh and the simulation, judged: the simulation's package list,
    /// or the first failure.
    pub fn updates_after(
        refresh: &Option<Result<CommandOutput, String>>,
        simulate: &Result<CommandOutput, String>,
    ) -> (r: Result<Vec<String>, String>)
        ensures
            list_view(r) == apt_updates_spec(*refresh, *simulate),
    {
        match refresh {
            Some(Err(e)) => return Err(owned(e.as_str())),
            Some(Ok(u)) => if !u.success {
                return Err(apt_update_failure(u));
            },
            None => {},
        }
        match simulate {
            Err(e) => Err(owned(e.as_str())),
            Ok(s) => if s.success {
                Ok(apt_updates_from(s.stdout.as_str()))
            } else {
                Err(failure_message("Failed to determine available updates: ", s))
            },
        }
    }

    /// Looks for updates with the clock at `now`: refreshes the package lists
    /// when a refresh is due at `now`, then simulates an upgrade.
    pub fn updates_at(&mut self, now: u64) -> (r: Result<Vec<String>, String>)
        ensures
            old(self).updates_done_at(*final(self), now, r),
    {
        if !self.on_linux {
            return Ok(Vec::new());
        }
        let ghost before = *self;
        let due = should_refresh(self.last_refresh, now, self.update_interval_secs);
        if !due {
            let simulate = self.run_line(AptCommand::Simulate);
            let r = Self::updates_after(&None, &simulate);
            assert(self.runner.log() =~= before.runner.log() + apt_update_entries(
                false,
                simulate,
                simulate,
            ));
            assert(before.updates_round(*self, now, now, simulate, simulate, r));
            return r;
        }
        let update = self.run_line(AptCommand::Update);
        let ghost u = update;
        let refreshed = match &update {
            Ok(o) => o.success,
            Err(_) => false,
        };
        if !refreshed {
            let not_run: Result<CommandOutput, String> = Err(String::new());
            let r = Self::updates_after(&Some(update), &not_run);
            assert(self.runner.log() =~= before.runner.log() + apt_update_entries(true, u, not_run));
            assert(before.updates_round(*self, now, now, u, not_run, r));
            return r;
        }
        let at = self.clock.now_nanos();
        self.last_refresh = Some(at);
        let simulate = self.run_line(AptCommand::Simulate);
        let r = Self::updates_after(&Some(update), &simulate);
        assert(self.runner.log() =~= before.runner.log() + apt_update_entries(true, u, simulate));
        assert(before.updates_round(*self, now, at, u, simulate, r));
        r
    }
}

impl<R: CommandRunner, C: Clock> PackageManager for Apt<R, C> {
    fn name(&self) -> (r: &'static str)
        ensures
            r@ == "apt"@,
    {
        "apt"
    }

    fn version(&mut self) -> (r: String)
        ensures
            exists|first: Result<CommandOutput, String>, second: Result<CommandOutput, String>|
                #[trigger] old(self).version_round(*final(self), first, second) && r@
                    == version_text(chosen(first, second)),
    {
        let ghost before = *self;
        let first = self.run_line(AptCommand::Version);
        if first.is_ok() {
            let v = version_from(&first);
            assert(before.version_round(*self, first, first) && v@ == version_text(
                chosen(first, first),
            ));
            return v;
        }
        let second = self.run_line(AptCommand::GetVersion);
        let v = version_from(&second);
        assert(before.version_round(*self, first, second) && v@ == version_text(
            chosen(first, second),
        ));
        v
    }

    fn is_available(&mut self) -> (r: bool)
        ensures
            exists|first: Result<CommandOutput, String>, second: Result<CommandOutput, String>|
                #[trigger] old(self).version_round(*final(self), first, second) && r == (first is Ok
                    || second is Ok),
    {
        let ghost before = *self;
        let first = self.run_line(AptCommand::Version);
        if first.is_ok() {
            assert(before.version_round(*self, first, first));
            return true;
        }
        let second = self.run_line(AptCommand::GetVersion);
        let r = second.is_ok();
        assert(before.version_round(*self, first, second));
        r
    }

    fn get_updates(&mut self) -> (r: Result<Vec<String>, String>)
        ensures
            old(self).updates_done(*final(self), r),
    {
        let ghost before = *self;
        if !self.on_linux {
            let r = Ok(Vec::new());
            assert(before.updates_done_at(*self, 0, r));
            return r;
        }
        let now = self.clock.now_nanos();
        let r = self.updates_at(now);
        assert(before.updates_done_at(*self, now, r));
        r
    }

    fn dry_run_upgrade(&mut self) -> (r: Result<Vec<String>, String>)
        ensures
            old(self).updates_done(*final(self), r),
    {
        self.get_updates()
    }

    fn full_upgrade(&mut self) -> (r: Result<(), String>)
        ensures
            exists|
                upgrade: Result<CommandOutput, String>,
                clean_run: Result<CommandOutput, String>,
                remove_run: Result<CommandOutput, String>,
            | #[trigger] old(self).upgrade_round(*final(self), upgrade, clean_run, remove_run, r),
    {
        let ghost before = *self;
        let run = self.run_line(AptCommand::Upgrade);
        let r = step_outcome(
            &run,
            "failed to execute full upgrade: ",
            "full upgrade failed with status: ",
        );
        let ghost upgraded = self.runner.log();
        let ghost mut clean_run = run;
        let ghost mut remove_run = run;
        if r.is_ok() && self.clean_after_upgrade {
            let c = self.run_line(AptCommand::Clean);
            proof {
                clean_run = c;
            }
        }
        let ghost cleaned = self.runner.log();
        if r.is_ok() && self.remove_after_upgrade {
            let m = self.run_line(AptCommand::Remove);
            proof {
                remove_run = m;
            }
        }
        assert(cleaned =~= upgraded + (if succeeded(run) && before.clean_after_upgrade {
            seq![(apt_line(AptCommand::Clean), clean_run)]
        } else {
            Seq::empty()
        }));
        assert(self.runner.log() =~= before.runner.log().push((apt_line(AptCommand::Upgrade), run))
            + apt_cleanup_entries(
            succeeded(run),
            before.clean_after_upgrade,
            before.remove_after_upgrade,
            clean_run,
            remove_run,
        ));
        assert(before.upgrade_round(*self, run, clean_run, remove_run, r));
        r
    }

    fn auto_clean(&mut self) -> (r: Result<(), String>)
        ensures
            final(self).keeps(*old(self)),
            final(self).last_refresh == old(self).last_refresh,
            exists|run: Result<CommandOutput, String>| #[trigger]
                step_result(
                    run,
                    "failed to execute apt-get autoclean: "@,
                    "apt-get autoclean failed with status: "@,
                ) == unit_view(r) && final(self).runner.log() == old(self).runner.log().push(
                    (apt_line(AptCommand::Clean), run),
                ),
    {
        let run = self.run_line(AptCommand::Clean);
        step_outcome(
            &run,
            "failed to execute apt-get autoclean: ",
            "apt-get autoclean failed with status: ",
        )
    }

    fn auto_remove(&mut self) -> (r: Result<(), String>)
        ensures
            final(self).keeps(*old(self)),
            final(self).last_refresh == old(self).last_refresh,
            exists|run: Result<CommandOutput, String>| #[trigger]
                step_result(
                    run,
                    "failed to execute apt-get autoremove: "@,
                    "apt-get autoremove failed with status: "@,
                ) == unit_view(r) && final(self).runner.log() == old(self).runner.log().push(
                    (apt_line(AptCommand::Remove), run),
                ),
    {
        let run = self.run_line(AptCommand::Remove);
        step_outcome(
            &run,
            "failed to execute apt-get autoremove: ",
            "apt-get autoremove failed with status: ",
        )
    }
}


// ---------------------------------------------------------------------------
// Homebrew
// ---------------------------------------------------------------------------

/// The commands of the Homebrew back end.
#[derive(Debug, Clone, Copy, PartialEq, Eq, Structural)]
pub enum BrewCommand {
    Version,
    Update,
    Outdated,
    Upgrade,
    Cleanup,
    Autoremove,
}

/// The arguments of each Homebrew command.
pub open spec fn brew_args(which: BrewCommand) -> Seq<Seq<char>> {
    match which {
        BrewCommand::Version => seq!["--version"@],
        BrewCommand::Update => seq!["update"@],
        BrewCommand::Outdated => seq!["outdated"@, "--quiet"@],
        BrewCommand::Upgrade => seq!["upgrade"@],
        BrewCommand::Cleanup => seq!["cleanup"@],
        BrewCommand::Autoremove => seq!["autoremove"@],
    }
}

/// The places where the `brew` program is looked for, in order.
pub open spec fn brew_path(i: int) -> Seq<char> {
    if i == 0 {
        "brew"@
    } else if i == 1 {
        "/opt/homebrew/bin/brew"@
    } else {
        "/usr/local/bin/brew"@
    }
}

/// A Homebrew command run from the `i`-th place.
pub open spec fn brew_line(i: int, which: BrewCommand) -> (Seq<char>, Seq<Seq<char>>) {
    (brew_path(i), brew_args(which))
}

/// Builds the command line of a Homebrew command run from the `i`-th place.
pub fn brew_command(i: usize, which: BrewCommand) -> (r: CommandLine)
    requires
        i < 3,
    ensures
        r@ == brew_line(i as int, which),
{
    let program: &str = if i == 0 {
        "brew"
    } else if i == 1 {
        "/opt/homebrew/bin/brew"
    } else {
        "/usr/local/bin/brew"
    };
    match which {
        BrewCommand::Version => line1(program, "--version"),
        BrewCommand::Update => line1(program, "update"),
        BrewCommand::Outdated => line2(program, "outdated", "--quiet"),
        BrewCommand::Upgrade => line1(program, "upgrade"),
        BrewCommand::Cleanup => line1(program, "cleanup"),
        BrewCommand::Autoremove => line1(program, "autoremove"),
    }
}

/// The outcomes of trying the places in order: one to three of them, every
/// one but the last could not run, and the last ran or was the third.
pub open spec fn brew_tried(attempts: Seq<Result<CommandOutput, String>>) -> bool {
    &&& 1 <= attempts.len() <= 3
    &&& forall|k: int| 0 <= k < attempts.len() - 1 ==> (#[trigger] attempts[k]) is Err
    &&& (attempts.last() is Ok || attempts.len() == 3)
}

/// A Homebrew command run from each of the first `n` places.
pub open spec fn brew_lines(which: BrewCommand, n: int) -> Seq<(Seq<char>, Seq<Seq<char>>)> {
    Seq::new(n as nat, |i: int| brew_line(i, which))
}

/// A Homebrew command run from each of the first places in turn, with what
/// each attempt gave back.
pub open spec fn brew_entries(which: BrewCommand, attempts: Seq<Result<CommandOutput, String>>) -> CommandLog {
    Seq::new(attempts.len(), |i: int| (brew_line(i, which), attempts[i]))
}

/// Running a Homebrew command took the record of commands from `before` to
/// `after` and gave `r`: the first run that started, else the last failure.
pub open spec fn brew_ran(
    before: CommandLog,
    after: CommandLog,
    which: BrewCommand,
    r: Result<CommandOutput, String>,
) -> bool {
    exists|attempts: Seq<Result<CommandOutput, String>>| #[trigger]
        brew_tried(attempts) && r == attempts.last() && after == before + brew_entries(
            which,
            attempts,
        )
}

/// The Homebrew back end.
pub struct Brew<R: CommandRunner, C: Clock> {
    pub runner: R,
    pub clock: C,
    /// How long refreshed package lists stay valid, in seconds; 0 refreshes
    /// them on every look for updates.
    pub cache_ttl_secs: u64,
    /// When the package lists were last refreshed, if ever.
    pub last_refresh: Option<u64>,
    /// Remove old downloads after a successful upgrade.
    pub clean_after_upgrade: bool,
    /// Remove unneeded packages after a successful upgrade.
    pub remove_after_upgrade: bool,
}

impl<R: CommandRunner, C: Clock> Brew<R, C> {
    /// A Homebrew back end.
    pub fn new(
        runner: R,
        clock: C,
        cache_ttl_secs: u64,
        clean_after_upgrade: bool,
        remove_after_upgrade: bool,
    ) -> (r: Brew<R, C>)
        ensures
            r.runner == runner,
            r.clock == clock,
            r.cache_ttl_secs == cache_ttl_secs,
            r.last_refresh is None,
            r.clean_after_upgrade == clean_after_upgrade,
            r.remove_after_upgrade == remove_after_upgrade,
    {
        Brew {
            runner,
            clock,
            cache_ttl_secs,
            last_refresh: None,
            clean_after_upgrade,
            remove_after_upgrade,
        }
    }

    /// The settings are as in `before`.
    pub open spec fn keeps(self, before: Self) -> bool {
        &&& self.clock == before.clock
        &&& self.cache_ttl_secs == before.cache_ttl_secs
        &&& self.clean_after_upgrade == before.clean_after_upgrade
        &&& self.remove_after_upgrade == before.remove_after_upgrade
    }

    /// Runs a Homebrew command, trying each known place in turn; gives the
    /// first run that started, else the reason of the last attempt.
    pub fn run_brew(&mut self, which: BrewCommand) -> (r: Result<CommandOutput, String>)
        ensures
            final(self).keeps(*old(self)),
            final(self).last_refresh == old(self).last_refresh,
            brew_ran(old(self).runner.log(), final(self).runner.log(), which, r),
    {
        let ghost before = *self;
        let ghost mut attempts: Seq<Result<CommandOutput, String>> = Seq::empty();
        let mut i: usize = 0;
        assert(brew_entries(which, attempts) =~= CommandLog::empty());
        assert(self.runner.log() =~= before.runner.log() + brew_entries(which, attempts));
        loop
            invariant
                i < 3,
                attempts.len() == i,
                forall|k: int| 0 <= k < i ==> (#[trigger] attempts[k]) is Err,
                self.runner.log() == before.runner.log() + brew_entries(which, attempts),
                before == *old(self),
                self.keeps(before),
                self.last_refresh == before.last_refresh,
            decreases 3 - i,
        {
            let c = brew_command(i, which);
            let run = self.runner.run(&c);
                proof {
                let prev = attempts;
                attempts = attempts.push(run);
                assert(brew_entries(which, attempts) =~= brew_entries(which, prev).push(
                    (brew_line(i as int, which), run),
                ));
                assert(self.runner.log() =~= before.runner.log() + brew_entries(which, attempts));
            }
            if run.is_ok() || i == 2 {
                assert(brew_tried(attempts) && run == attempts.last());
                return run;
            }
            i = i + 1;
        }
    }

    /// A version query.
    pub open spec fn version_round(self, after: Self, run: Result<CommandOutput, String>) -> bool {
        &&& after.keeps(self)
        &&& after.last_refresh == self.last_refresh
        &&& brew_ran(self.runner.log(), after.runner.log(), BrewCommand::Version, run)
    }

    /// One look for updates, with the clock read at `now` before and at `at`
    /// after a refresh, and the record of commands at `mid` after the refresh.
    pub open spec fn updates_round(
        self,
        after: Self,
        now: u64,
        at: u64,
        mid: CommandLog,
        refresh: Result<CommandOutput, String>,
        outdated: Result<CommandOutput, String>,
        r: Result<Vec<String>, String>,
    ) -> bool {
        let due = refresh_due(self.last_refresh, now, self.cache_ttl_secs);
        &&& after.keeps(self)
        &&& after.last_refresh == refreshed_at(self.last_refresh, due, refresh, at)
        &&& if due {
            &&& brew_ran(self.runner.log(), mid, BrewCommand::Update, refresh)
            &&& if succeeded(refresh) {
                brew_ran(mid, after.runner.log(), BrewCommand::Outdated, outdated)
            } else {
                after.runner.log() == mid
            }
        } else {
            brew_ran(self.runner.log(), after.runner.log(), BrewCommand::Outdated, outdated)
        }
        &&& list_view(r) == brew_updates_spec(
            if due {
                Some(refresh)
            } else {
                None
            },
            outdated,
        )
    }

    /// What a look for updates with the clock at `now` does: one round for
    /// some outcome of each command and some reading of the clock after the refresh.
    pub open spec fn updates_done_at(
        self,
        after: Self,
        now: u64,
        r: Result<Vec<String>, String>,
    ) -> bool {
        exists|
            at: u64,
            mid: CommandLog,
            refresh: Result<CommandOutput, String>,
            outdated: Result<CommandOutput, String>,
        | #[trigger] self.updates_round(after, now, at, mid, refresh, outdated, r)
    }

    /// What a look for updates does, for some reading of the clock.
    pub open spec fn updates_done(self, after: Self, r: Result<Vec<String>, String>) -> bool {
        exists|now: u64| #[trigger] self.updates_done_at(after, now, r)
    }

    /// An upgrade and the clean-up that its settings ask for, with the record
    /// of commands at `mid` after the upgrade and at `cleaned` after `brew cleanup`.
    pub open spec fn upgrade_round(
        self,
        after: Self,
        mid: CommandLog,
        cleaned: CommandLog,
        upgrade: Result<CommandOutput, String>,
        cleanup: Result<CommandOutput, String>,
        autoremove: Result<CommandOutput, String>,
        r: Result<(), String>,
    ) -> bool {
        let upgraded = succeeded(upgrade);
        &&& after.keeps(self)
        &&& after.last_refresh == self.last_refresh
        &&& brew_ran(self.runner.log(), mid, BrewCommand::Upgrade, upgrade)
        &&& if upgraded && self.clean_after_upgrade {
            brew_ran(mid, cleaned, BrewCommand::Cleanup, cleanup)
        } else {
            cleaned == mid
        }
        &&& if upgraded && self.remove_after_upgrade {
            brew_ran(cleaned, after.runner.log(), BrewCommand::Autoremove, autoremove)
        } else {
            after.runner.log() == cleaned
        }
        &&& unit_view(r) == step_result(
            upgrade,
            "failed to execute brew upgrade: "@,
            "brew upgrade failed with status: "@,
        )
    }

    /// The package list after an optional refresh, judged: the outdated
    /// packages, or the first failure.
    pub fn updates_after(
        refresh: &Option<Result<CommandOutput, String>>,
        outdated: &Result<CommandOutput, String>,
    ) -> (r: Result<Vec<String>, String>)
        ensures
            list_view(r) == brew_updates_spec(*refresh, *outdated),
    {
        match refresh {
            Some(Err(e)) => return Err(owned(e.as_str())),
            Some(Ok(u)) => if !u.success {
                return Err(failure_message("brew update failed with status: ", u));
            },
            None => {},
        }
        match outdated {
            Err(e) => Err(owned(e.as_str())),
            Ok(o) => if o.success {
                Ok(brew_updates_from(o.stdout.as_str()))
            } else {
                Err(failure_message("brew outdated failed with status: ", o))
            },
        }
    }

    /// Looks for updates with the clock at `now`: refreshes the package lists
    /// when a refresh is due at `now`, then lists the outdated packages.
    pub fn updates_at(&mut self, now: u64) -> (r: Result<Vec<String>, String>)
        ensures
            old(self).updates_done_at(*final(self), now, r),
    {
        let ghost before = *self;
        let due = should_refresh(self.last_refresh, now, self.cache_ttl_secs);
        if !due {
            let outdated = self.run_brew(BrewCommand::Outdated);
            let r = Self::updates_after(&None, &outdated);
            assert(before.updates_round(*self, now, now, before.runner.log(), outdated, outdated, r));
            return r;
        }
        let refresh = self.run_brew(BrewCommand::Update);
        let ghost u = refresh;
        let ghost mid = self.runner.log();
        let refreshed = match &refresh {
            Ok(o) => o.success,
            Err(_) => false,
        };
        if !refreshed {
            let not_run: Result<CommandOutput, String> = Err(String::new());
            let r = Self::updates_after(&Some(refresh), &not_run);
            assert(before.updates_round(*self, now, now, mid, u, not_run, r));
            return r;
        }
        let at = self.clock.now_nanos();
        self.last_refresh = Some(at);
        let outdated = self.run_brew(BrewCommand::Outdated);
        let r = Self::updates_after(&Some(refresh), &outdated);
        assert(before.updates_round(*self, now, at, mid, u, outdated, r));
        r
    }
}

impl<R: CommandRunner, C: Clock> PackageManager for Brew<R, C> {
    fn name(&self) -> (r: &'static str)
        ensures
            r@ == "brew"@,
    {
        "brew"
    }

    fn version(&mut self) -> (r: String)
        ensures
            exists|run: Result<CommandOutput, String>| #[trigger]
                old(self).version_round(*final(self), run) && r@ == version_text(run),
    {
        let ghost before = *self;
        let run = self.run_brew(BrewCommand::Version);
        let v = version_from(&run);
        assert(before.version_round(*self, run));
        v
    }

    fn is_available(&mut self) -> (r: bool)
        ensures
            exists|run: Result<CommandOutput, String>| #[trigger]
                old(self).version_round(*final(self), run) && r == run is Ok,
    {
        let ghost before = *self;
        let run = self.run_brew(BrewCommand::Version);
        assert(before.version_round(*self, run));
        run.is_ok()
    }

    fn get_updates(&mut self) -> (r: Result<Vec<String>, String>)
        ensures
            old(self).updates_done(*final(self), r),
    {
        let ghost before = *self;
        let now = self.clock.now_nanos();
        let r = self.updates_at(now);
        assert(before.updates_done_at(*self, now, r));
        r
    }

    fn dry_run_upgrade(&mut self) -> (r: Result<Vec<String>, String>)
        ensures
            old(self).updates_done(*final(self), r),
    {
        self.get_updates()
    }

    fn full_upgrade(&mut self) -> (r: Result<(), String>)
        ensures
            exists|
                mid: CommandLog,
                cleaned: CommandLog,
                upgrade: Result<CommandOutput, String>,
                cleanup: Result<CommandOutput, String>,
                autoremove: Result<CommandOutput, String>,
            | #[trigger]
                old(self).upgrade_round(*final(self), mid, cleaned, upgrade, cleanup, autoremove, r),
    {
        let ghost before = *self;
        let run = self.run_brew(BrewCommand::Upgrade);
        let ghost mid = self.runner.log();
        let r = step_outcome(
            &run,
            "failed to execute brew upgrade: ",
            "brew upgrade failed with status: ",
        );
        let ghost mut cleanup = run;
        let ghost mut autoremove = run;
        if r.is_ok() && self.clean_after_upgrade {
            let c = self.run_brew(BrewCommand::Cleanup);
            proof {
                cleanup = c;
            }
        }
        let ghost cleaned = self.runner.log();
        if r.is_ok() && self.remove_after_upgrade {
            let a = self.run_brew(BrewCommand::Autoremove);
            proof {
                autoremove = a;
            }
        }
        assert(before.upgrade_round(*self, mid, cleaned, run, cleanup, autoremove, r));
        r
    }

    fn auto_clean(&mut self) -> (r: Result<(), String>)
        ensures
            final(self).keeps(*old(self)),
            final(self).last_refresh == old(self).last_refresh,
            exists|run: Result<CommandOutput, String>| #[trigger]
                brew_ran(old(self).runner.log(), final(self).runner.log(), BrewCommand::Cleanup, run)
                    && unit_view(r) == step_result(
                    run,
                    "failed to execute brew cleanup: "@,
                    "brew cleanup failed with status: "@,
                ),
    {
        let run = self.run_brew(BrewCommand::Cleanup);
        step_outcome(&run, "failed to execute brew cleanup: ", "brew cleanup failed with status: ")
    }

    fn auto_remove(&mut self) -> (r: Result<(), String>)
        ensures
            final(self).keeps(*old(self)),
            final(self).last_refresh == old(self).last_refresh,
            exists|run: Result<CommandOutput, String>| #[trigger]
                brew_ran(old(self).runner.log(), final(self).runner.log(), BrewCommand::Autoremove, run)
                    && unit_view(r) == step_result(
                    run,
                    "failed to execute brew autoremove: "@,
                    "brew autoremove failed with status: "@,
                ),
    {
        let run = self.run_brew(BrewCommand::Autoremove);
        step_outcome(
            &run,
            "failed to execute brew autoremove: ",
            "brew autoremove failed with status: ",
        )
    }
}

// ---------------------------------------------------------------------------
// The refresh intervals and what a look for updates or an upgrade reports
// ---------------------------------------------------------------------------

/// The entries that a runner's log gained between `before` and `after`.
pub open spec fn new_entries(before: CommandLog, after: CommandLog) -> CommandLog {
    after.skip(before.len() as int)
}

/// What a look for updates with APT found, with the clock at `now`.
proof fn lemma_apt_round_of<R: CommandRunner, C: Clock>(
    before: Apt<R, C>,
    after: Apt<R, C>,
    now: u64,
    r: Result<Vec<String>, String>,
) -> (w: (u64, Result<CommandOutput, String>, Result<CommandOutput, String>))
    requires
        before.on_linux,
        before.updates_done_at(after, now, r),
    ensures
        before.updates_round(after, now, w.0, w.1, w.2, r),
        new_entries(before.runner.log(), after.runner.log()) == apt_update_entries(
            refresh_due(before.last_refresh, now, before.update_interval_secs),
            w.1,
            w.2,
        ),
        after.runner.log().take(before.runner.log().len() as int) == before.runner.log(),
{
    let (at, update, simulate) = choose|
        at: u64,
        update: Result<CommandOutput, String>,
        simulate: Result<CommandOutput, String>,
    | #[trigger] before.updates_round(after, now, at, update, simulate, r);
    let due = refresh_due(before.last_refresh, now, before.update_interval_secs);
    assert(new_entries(before.runner.log(), after.runner.log()) =~= apt_update_entries(
        due,
        update,
        simulate,
    ));
    assert(after.runner.log().take(before.runner.log().len() as int) =~= before.runner.log());
    (at, update, simulate)
}

/// The refresh interval of APT: a look for updates that starts less than the
/// interval after the last refresh runs only the simulation; with an interval
/// of 0, or before any refresh, it starts by refreshing the package lists; and
/// a look that refreshed them and simulated records when it did.
pub proof fn lemma_apt_refresh_interval<R: CommandRunner, C: Clock>(
    before: Apt<R, C>,
    after: Apt<R, C>,
    now: u64,
    r: Result<Vec<String>, String>,
)
    requires
        before.on_linux,
        before.updates_done_at(after, now, r),
    ensures
        ({
            let added = new_entries(before.runner.log(), after.runner.log());
            &&& (before.last_refresh matches Some(t) && before.update_interval_secs > 0 && t <= now
                && now - t < before.update_interval_secs * 1_000_000_000) ==> added.len() == 1
                && added[0].0 == apt_line(AptCommand::Simulate)
            &&& (before.last_refresh is None || before.update_interval_secs == 0) ==> added.len() > 0
                && added[0].0 == apt_line(AptCommand::Update)
            &&& (added.len() == 2 ==> after.last_refresh is Some)
            &&& after.runner.log().take(before.runner.log().len() as int) == before.runner.log()
            &&& commands_of(added) == apt_update_lines(
                refresh_due(before.last_refresh, now, before.update_interval_secs),
                added.len() == 2,
            )
        }),
{
    let w = lemma_apt_round_of(before, after, now, r);
    let due = refresh_due(before.last_refresh, now, before.update_interval_secs);
    let added = new_entries(before.runner.log(), after.runner.log());
    assert(commands_of(added) =~= apt_update_lines(due, added.len() == 2));
}

/// What a look for updates through APT reports (for `get_updates` and
/// `dry_run_upgrade` alike) comes from what the runner gave back: off Linux
/// nothing runs and there are no updates; on Linux the log only grows, by a
/// refresh that failed and nothing after it, or by the simulation, after a
/// refresh that succeeded when one ran; a refresh that failed gives its
/// failure (with a hint about privileges where it says so) or the reason it
/// could not run; when the simulation ran, the result is
/// the packages of the `Inst ` lines it printed, its failure, or the reason it
/// could not run.
pub proof fn lemma_apt_updates_from_simulation<R: CommandRunner, C: Clock>(
    before: Apt<R, C>,
    after: Apt<R, C>,
    r: Result<Vec<String>, String>,
)
    requires
        before.updates_done(after, r),
    ensures
        ({
            let added = new_entries(before.runner.log(), after.runner.log());
            &&& !before.on_linux ==> after.runner.log() == before.runner.log() && (r matches Ok(v)
                && v@.len() == 0)
            &&& before.on_linux ==> {
                &&& after.runner.log().take(before.runner.log().len() as int) == before.runner.log()
                &&& 1 <= added.len() <= 2
                &&& added.len() == 2 ==> added[0].0 == apt_line(AptCommand::Update) && succeeded(
                    added[0].1,
                )
                &&& added.last().0 == apt_line(AptCommand::Update) ==> match added.last().1 {
                    Ok(o) => !o.success && list_view(r) == Err::<Seq<Seq<char>>, Seq<char>>(
                        apt_update_failure_text(o),
                    ),
                    Err(e) => list_view(r) == Err::<Seq<Seq<char>>, Seq<char>>(e@),
                }
                &&& added.last().0 == apt_line(AptCommand::Simulate) ==> match added.last().1 {
                    Ok(o) => if o.success {
                        list_view(r) == Ok::<Seq<Seq<char>>, Seq<char>>(apt_packages(lines_of(o.stdout@)))
                    } else {
                        list_view(r) == Err::<Seq<Seq<char>>, Seq<char>>(
                            failure_text("Failed to determine available updates: "@, o),
                        )
                    },
                    Err(e) => list_view(r) == Err::<Seq<Seq<char>>, Seq<char>>(e@),
                }
            }
        }),
{
    let now = choose|now: u64| #[trigger] before.updates_done_at(after, now, r);
    if before.on_linux {
        let (at, update, simulate) = lemma_apt_round_of(before, after, now, r);
        assert(apt_line(AptCommand::Update) != apt_line(AptCommand::Simulate)) by {
            assert(apt_line(AptCommand::Update).1.len() != apt_line(AptCommand::Simulate).1.len());
        }
    }
}

/// Two looks for updates through APT from the same state, whose runners
/// logged the same runs with the same replies, report the same: the result
/// depends on nothing else.
pub proof fn lemma_apt_updates_same_replies<R: CommandRunner, C: Clock>(
    before: Apt<R, C>,
    after1: Apt<R, C>,
    r1: Result<Vec<String>, String>,
    after2: Apt<R, C>,
    r2: Result<Vec<String>, String>,
)
    requires
        before.updates_done(after1, r1),
        before.updates_done(after2, r2),
        after1.runner.log() == after2.runner.log(),
    ensures
        list_view(r1) == list_view(r2),
{
    lemma_apt_updates_from_simulation(before, after1, r1);
    lemma_apt_updates_from_simulation(before, after2, r2);
    if before.on_linux {
        let added = new_entries(before.runner.log(), after1.runner.log());
        assert(added == new_entries(before.runner.log(), after2.runner.log()));
        assert(apt_line(AptCommand::Update) != apt_line(AptCommand::Simulate)) by {
            assert(apt_line(AptCommand::Update).1.len() != apt_line(AptCommand::Simulate).1.len());
        }
    } else {
        if let (Ok(v1), Ok(v2)) = (r1, r2) {
            assert(views(v1@) =~= views(v2@));
        }
    }
}

/// A full upgrade through APT reports from what `sudo apt full-upgrade -y`
/// gave back: it is the first run, the result is `Ok` exactly when it
/// succeeded, a failure carries its status and standard error, a run that
/// could not start carries the reason, and after a failure nothing else runs.
pub proof fn lemma_apt_upgrade_result<R: CommandRunner, C: Clock>(
    before: Apt<R, C>,
    after: Apt<R, C>,
    upgrade: Result<CommandOutput, String>,
    clean_run: Result<CommandOutput, String>,
    remove_run: Result<CommandOutput, String>,
    r: Result<(), String>,
)
    requires
        before.upgrade_round(after, upgrade, clean_run, remove_run, r),
    ensures
        ({
            let added = new_entries(before.runner.log(), after.runner.log());
            let first = added[0].1;
            &&& after.runner.log().take(before.runner.log().len() as int) == before.runner.log()
            &&& added.len() >= 1
            &&& added[0].0 == apt_line(AptCommand::Upgrade)
            &&& (r is Ok <==> succeeded(first))
            &&& match first {
                Ok(o) => !o.success ==> unit_view(r) == Err::<(), Seq<char>>(
                    failure_text("full upgrade failed with status: "@, o),
                ),
                Err(e) => unit_view(r) == Err::<(), Seq<char>>("failed to execute full upgrade: "@ + e@),
            }
            &&& (!succeeded(first) ==> added.len() == 1)
            &&& commands_of(added) == seq![apt_line(AptCommand::Upgrade)] + apt_cleanup_lines(
                succeeded(first),
                before.clean_after_upgrade,
                before.remove_after_upgrade,
            )
        }),
{
    let added = new_entries(before.runner.log(), after.runner.log());
    assert(added =~= seq![(apt_line(AptCommand::Upgrade), upgrade)] + apt_cleanup_entries(
        succeeded(upgrade),
        before.clean_after_upgrade,
        before.remove_after_upgrade,
        clean_run,
        remove_run,
    ));
    assert(after.runner.log().take(before.runner.log().len() as int) =~= before.runner.log());
    assert(commands_of(added) =~= seq![apt_line(AptCommand::Upgrade)] + apt_cleanup_lines(
        succeeded(upgrade),
        before.clean_after_upgrade,
        before.remove_after_upgrade,
    ));
}

/// What a look for updates with Homebrew found, with the clock at `now`.
proof fn lemma_brew_round_of<R: CommandRunner, C: Clock>(
    before: Brew<R, C>,
    after: Brew<R, C>,
    now: u64,
    r: Result<Vec<String>, String>,
) -> (w: (u64, CommandLog, Result<CommandOutput, String>, Result<CommandOutput, String>))
    requires
        before.updates_done_at(after, now, r),
    ensures
        before.updates_round(after, now, w.0, w.1, w.2, w.3, r),
{
    let (at, mid, refresh, outdated) = choose|
        at: u64,
        mid: CommandLog,
        refresh: Result<CommandOutput, String>,
        outdated: Result<CommandOutput, String>,
    | #[trigger] before.updates_round(after, now, at, mid, refresh, outdated, r);
    (at, mid, refresh, outdated)
}

/// The attempts behind a run of a Homebrew command.
proof fn lemma_brew_attempts(
    before: CommandLog,
    after: CommandLog,
    which: BrewCommand,
    r: Result<CommandOutput, String>,
) -> (attempts: Seq<Result<CommandOutput, String>>)
    requires
        brew_ran(before, after, which, r),
    ensures
        brew_tried(attempts),
        r == attempts.last(),
        after == before + brew_entries(which, attempts),
        after.len() == before.len() + attempts.len(),
        after.take(before.len() as int) == before,
        after.last() == (brew_line(attempts.len() - 1, which), r),
        after[before.len() as int] == (brew_line(0, which), attempts[0]),
        commands_of(brew_entries(which, attempts)) == brew_lines(which, attempts.len() as int),
{
    let attempts = choose|attempts: Seq<Result<CommandOutput, String>>| #[trigger]
        brew_tried(attempts) && r == attempts.last() && after == before + brew_entries(
            which,
            attempts,
        );
    assert(after.take(before.len() as int) =~= before);
    assert(commands_of(brew_entries(which, attempts)) =~= brew_lines(which, attempts.len() as int));
    attempts
}

/// The refresh interval of Homebrew: a look for updates that starts less than
/// the interval after the last refresh only lists the outdated packages; with
/// an interval of 0, or before any refresh, it starts with `brew update`.
pub proof fn lemma_brew_refresh_interval<R: CommandRunner, C: Clock>(
    before: Brew<R, C>,
    after: Brew<R, C>,
    now: u64,
    r: Result<Vec<String>, String>,
)
    requires
        before.updates_done_at(after, now, r),
    ensures
        (before.last_refresh matches Some(t) && before.cache_ttl_secs > 0 && t <= now && now - t
            < before.cache_ttl_secs * 1_000_000_000) ==> exists|run: Result<CommandOutput, String>|
            #[trigger] brew_ran(before.runner.log(), after.runner.log(), BrewCommand::Outdated, run),
        (before.last_refresh is None || before.cache_ttl_secs == 0) ==> after.runner.log().len()
            > before.runner.log().len() && after.runner.log()[before.runner.log().len() as int].0
            == brew_line(0, BrewCommand::Update),
{
    let (at, mid, refresh, outdated) = lemma_brew_round_of(before, after, now, r);
    let due = refresh_due(before.last_refresh, now, before.cache_ttl_secs);
    if due {
        let n = before.runner.log().len() as int;
        let tries = lemma_brew_attempts(before.runner.log(), mid, BrewCommand::Update, refresh);
        if succeeded(refresh) {
            let more = lemma_brew_attempts(mid, after.runner.log(), BrewCommand::Outdated, outdated);
            assert(after.runner.log()[n] == mid[n]);
        }
    } else {
        assert(brew_ran(before.runner.log(), after.runner.log(), BrewCommand::Outdated, outdated));
    }
}

/// What a look for updates through Homebrew reports (for `get_updates` and
/// `dry_run_upgrade` alike) comes from what the runner gave back: the log only
/// grows; when the last run is a `brew update`, it failed and the look gives
/// its failure or the reason it could not run; when it is a `brew outdated --quiet`, the result is the non-empty
/// lines that it printed, its failure, or the reason it could not run.
pub proof fn lemma_brew_updates_from_outdated<R: CommandRunner, C: Clock>(
    before: Brew<R, C>,
    after: Brew<R, C>,
    r: Result<Vec<String>, String>,
)
    requires
        before.updates_done(after, r),
    ensures
        after.runner.log().len() > before.runner.log().len(),
        after.runner.log().take(before.runner.log().len() as int) == before.runner.log(),
        after.runner.log().last().0.1 == brew_args(BrewCommand::Update) ==> match after.runner.log().last().1 {
            Ok(o) => !o.success && list_view(r) == Err::<Seq<Seq<char>>, Seq<char>>(
                failure_text("brew update failed with status: "@, o),
            ),
            Err(e) => list_view(r) == Err::<Seq<Seq<char>>, Seq<char>>(e@),
        },
        after.runner.log().last().0.1 == brew_args(BrewCommand::Outdated) ==> match after.runner.log().last().1 {
            Ok(o) => if o.success {
                list_view(r) == Ok::<Seq<Seq<char>>, Seq<char>>(brew_packages(lines_of(o.stdout@)))
            } else {
                list_view(r) == Err::<Seq<Seq<char>>, Seq<char>>(failure_text("brew outdated failed with status: "@, o))
            },
            Err(e) => list_view(r) == Err::<Seq<Seq<char>>, Seq<char>>(e@),
        },
{
    let now = choose|now: u64| #[trigger] before.updates_done_at(after, now, r);
    let (at, mid, refresh, outdated) = lemma_brew_round_of(before, after, now, r);
    let due = refresh_due(before.last_refresh, now, before.cache_ttl_secs);
    assert(brew_args(BrewCommand::Update) != brew_args(BrewCommand::Outdated)) by {
        assert(brew_args(BrewCommand::Update).len() != brew_args(BrewCommand::Outdated).len());
    }
    if due {
        let tries = lemma_brew_attempts(before.runner.log(), mid, BrewCommand::Update, refresh);
        if succeeded(refresh) {
            let more = lemma_brew_attempts(mid, after.runner.log(), BrewCommand::Outdated, outdated);
            assert(after.runner.log().take(before.runner.log().len() as int) =~= before.runner.log());
        }
    } else {
        let more = lemma_brew_attempts(
            before.runner.log(),
            after.runner.log(),
            BrewCommand::Outdated,
            outdated,
        );
    }
}

/// The first `n` runs of `added` are `brew upgrade` from the places in order:
/// each but the last could not start, and the last started or was at the
/// third place.
pub open spec fn upgrade_attempts(added: CommandLog, n: int) -> bool {
    &&& 1 <= n <= 3
    &&& n <= added.len()
    &&& forall|i: int| 0 <= i < n ==> (#[trigger] added[i]).0 == brew_line(i, BrewCommand::Upgrade)
    &&& forall|i: int| 0 <= i < n - 1 ==> (#[trigger] added[i]).1 is Err
    &&& (added[n - 1].1 is Ok || n == 3)
}

/// Two looks for updates through Homebrew from the same state, whose runners
/// logged the same runs with the same replies, report the same.
pub proof fn lemma_brew_updates_same_replies<R: CommandRunner, C: Clock>(
    before: Brew<R, C>,
    after1: Brew<R, C>,
    r1: Result<Vec<String>, String>,
    after2: Brew<R, C>,
    r2: Result<Vec<String>, String>,
)
    requires
        before.updates_done(after1, r1),
        before.updates_done(after2, r2),
        after1.runner.log() == after2.runner.log(),
    ensures
        list_view(r1) == list_view(r2),
{
    lemma_brew_updates_from_outdated(before, after1, r1);
    lemma_brew_updates_from_outdated(before, after2, r2);
    let now = choose|now: u64| #[trigger] before.updates_done_at(after1, now, r1);
    let (at, mid, refresh, outdated) = lemma_brew_round_of(before, after1, now, r1);
    let due = refresh_due(before.last_refresh, now, before.cache_ttl_secs);
    if due {
        let tries = lemma_brew_attempts(before.runner.log(), mid, BrewCommand::Update, refresh);
        if succeeded(refresh) {
            let more = lemma_brew_attempts(mid, after1.runner.log(), BrewCommand::Outdated, outdated);
        }
    } else {
        let more = lemma_brew_attempts(
            before.runner.log(),
            after1.runner.log(),
            BrewCommand::Outdated,
            outdated,
        );
    }
}

/// A full upgrade through Homebrew reports from what `brew upgrade` gave back
/// at the place where it ran: the first runs are `brew upgrade` from the
/// places in order until one starts, the result is `Ok` exactly when that run
/// succeeded, a failure carries its status and standard error, and after a
/// failure nothing else runs.
pub proof fn lemma_brew_upgrade_result<R: CommandRunner, C: Clock>(
    before: Brew<R, C>,
    after: Brew<R, C>,
    mid: CommandLog,
    cleaned: CommandLog,
    upgrade: Result<CommandOutput, String>,
    cleanup: Result<CommandOutput, String>,
    autoremove: Result<CommandOutput, String>,
    r: Result<(), String>,
)
    requires
        before.upgrade_round(after, mid, cleaned, upgrade, cleanup, autoremove, r),
    ensures
        exists|n: int|
            #[trigger] upgrade_attempts(new_entries(before.runner.log(), after.runner.log()), n)
                && ({
                let added = new_entries(before.runner.log(), after.runner.log());
                let last = added[n - 1].1;
                &&& (r is Ok <==> succeeded(last))
                &&& match last {
                    Ok(o) => !o.success ==> unit_view(r) == Err::<(), Seq<char>>(
                        failure_text("brew upgrade failed with status: "@, o),
                    ),
                    Err(e) => unit_view(r) == Err::<(), Seq<char>>(
                        "failed to execute brew upgrade: "@ + e@,
                    ),
                }
                &&& (!succeeded(last) ==> added.len() == n)
            }),
{
    let base = before.runner.log();
    let tries = lemma_brew_attempts(base, mid, BrewCommand::Upgrade, upgrade);
    let n = tries.len() as int;
    let added = new_entries(base, after.runner.log());
    if succeeded(upgrade) && before.clean_after_upgrade {
        let c = lemma_brew_attempts(mid, cleaned, BrewCommand::Cleanup, cleanup);
    }
    if succeeded(upgrade) && before.remove_after_upgrade {
        let m = lemma_brew_attempts(cleaned, after.runner.log(), BrewCommand::Autoremove, autoremove);
    }
    assert(after.runner.log().len() >= mid.len());
    assert(after.runner.log().take(mid.len() as int) == mid) by {
        if succeeded(upgrade) && before.remove_after_upgrade {
            assert(after.runner.log().take(mid.len() as int) =~= mid);
        } else if succeeded(upgrade) && before.clean_after_upgrade {
            assert(after.runner.log().take(mid.len() as int) =~= mid);
        }
    }
    assert forall|i: int| 0 <= i < n implies (#[trigger] added[i]) == (
        brew_line(i, BrewCommand::Upgrade),
        tries[i],
    ) by {
        assert(added[i] == after.runner.log()[base.len() + i]);
        assert(after.runner.log()[base.len() + i] == after.runner.log().take(mid.len() as int)[base.len()
            + i]);
        assert(mid[base.len() + i] == brew_entries(BrewCommand::Upgrade, tries)[i]);
    }
    assert(added[n - 1].1 == upgrade);
    assert(upgrade_attempts(added, n));
}

// ---------------------------------------------------------------------------
// Choosing a back end
// ---------------------------------------------------------------------------

/// Which back end a daemon uses.
#[derive(Debug, Clone, Copy, PartialEq, Eq, Structural)]
pub enum BackendKind {
    Apt,
    Brew,
}

/// Homebrew on macOS; elsewhere Homebrew when it can run, else APT.
pub fn choose_backend(on_macos: bool, brew_available: bool) -> (r: BackendKind)
    ensures
        r == (if on_macos || brew_available {
            BackendKind::Brew
        } else {
            BackendKind::Apt
        }),
{
    if on_macos || brew_available {
        BackendKind::Brew
    } else {
        BackendKind::Apt
    }
}

/// A chosen back end.
pub enum Backend<R: CommandRunner, C: Clock> {
    Apt(Apt<R, C>),
    Brew(Brew<R, C>),
}

/// The back end of this host: Homebrew on macOS, elsewhere Homebrew when
/// `brew --version` runs from one of its places, and APT otherwise. The back
/// ends keep the settings they were made with.
pub fn get_package_manager<R: CommandRunner, C: Clock>(
    brew: Brew<R, C>,
    apt: Apt<R, C>,
    on_macos: bool,
) -> (r: Backend<R, C>)
    ensures
        on_macos ==> r == Backend::Brew(brew),
        !on_macos ==> exists|run: Result<CommandOutput, String>, probed: Brew<R, C>| #[trigger]
            brew.version_round(probed, run) && (if run is Ok {
                r == Backend::<R, C>::Brew(probed)
            } else {
                r == Backend::<R, C>::Apt(apt)
            }),
{
    if on_macos {
        return Backend::Brew(brew);
    }
    let mut brew = brew;
    let available = brew.is_available();
    match choose_backend(false, available) {
        BackendKind::Brew => Backend::Brew(brew),
        BackendKind::Apt => Backend::Apt(apt),
    }
}

} // verus!
