//! The client's treatment of targets, daemon answers and settings.
use vstd::prelude::*;

use crate::config::CONFIG_FILE_NAME;
use crate::rest::{StatusResponse, UpgradeResponse, PATH_STATUS, PATH_UPGRADE};
use crate::text::{
    all_digits, all_digits_exec, chars_of, decimal, has_prefix, indent_newlines, join, owned,
    parse_u64, parse_u64_spec, push_decimal, push_indented, push_joined, push_range, push_str,
    starts_with, trim_end_char, trim_end_matches, views,
};

verus! {

/// The position of the last `c` in `s`, or -1.
pub open spec fn last_index_of(s: Seq<char>, c: char) -> int
    decreases s.len(),
{
    if s.len() == 0 {
        -1
    } else if s.last() == c {
        s.len() - 1
    } else {
        last_index_of(s.drop_last(), c)
    }
}

/// The base URL of a target: a URL without trailing slashes, `host:port`
/// (an IPv6 host put in brackets), or a bare host without trailing slashes,
/// with `http://` in front.
pub open spec fn url_for(t: Seq<char>) -> Seq<char> {
    if has_prefix(t, "http://"@) || has_prefix(t, "https://"@) {
        trim_end_char(t, '/')
    } else {
        let k = last_index_of(t, ':');
        if k >= 0 && all_digits(t.subrange(k + 1, t.len() as int)) {
            let host = t.subrange(0, k);
            let port = t.subrange(k + 1, t.len() as int);
            if last_index_of(host, ':') >= 0 && !(host.len() > 0 && host[0] == '[') {
                "http://["@ + host + "]:"@ + port
            } else {
                "http://"@ + host + ":"@ + port
            }
        } else {
            "http://"@ + trim_end_char(t, '/')
        }
    }
}

/// `last_index_of` finds the last occurrence.
pub proof fn lemma_last_index_of(s: Seq<char>, c: char)
    ensures
        -1 <= last_index_of(s, c) < s.len(),
        last_index_of(s, c) >= 0 ==> s[last_index_of(s, c)] == c,
        forall|j: int| last_index_of(s, c) < j < s.len() ==> s[j] != c,
    decreases s.len(),
{
    if s.len() > 0 && s.last() != c {
        lemma_last_index_of(s.drop_last(), c);
        assert forall|j: int| last_index_of(s, c) < j < s.len() implies s[j] != c by {
            if j < s.len() - 1 {
                assert(s.drop_last()[j] == s[j]);
            }
        }
    }
}

/// The position of the last `c` in `cs`, if any.
fn find_last(cs: &Vec<char>, c: char, end: usize) -> (r: Option<usize>)
    requires
        end <= cs@.len(),
    ensures
        match r {
            Some(k) => k as int == last_index_of(cs@.subrange(0, end as int), c),
            None => last_index_of(cs@.subrange(0, end as int), c) == -1,
        },
    decreases end,
{
    if end == 0 {
        return None;
    }
    assert(cs@.subrange(0, end as int).drop_last() =~= cs@.subrange(0, end - 1));
    if cs[end - 1] == c {
        Some(end - 1)
    } else {
        find_last(cs, c, end - 1)
    }
}

/// The base URL of a target (`host:port`, a host or a URL).
pub fn resolve_url(target: &str) -> (r: String)
    ensures
        r@ == url_for(target@),
{
    if starts_with(target, "http://") || starts_with(target, "https://") {
        return trim_end_matches(target, '/');
    }
    let cs = chars_of(target);
    assert(cs@.subrange(0, cs@.len() as int) =~= cs@);
    let last = find_last(&cs, ':', cs.len());
    proof {
        lemma_last_index_of(cs@, ':');
    }
    if let Some(k) = last {
        if all_digits_exec(&cs, k + 1) {
            let in_host = find_last(&cs, ':', k);
            let bracketed = k > 0 && cs[0] == '[';
            let mut r = String::new();
            assert(cs@.subrange(0, k as int).len() > 0 ==> cs@.subrange(0, k as int)[0] == cs@[0]);
            if in_host.is_some() && !bracketed {
                push_str(&mut r, "http://[");
                push_range(&mut r, &cs, 0, k);
                push_str(&mut r, "]:");
            } else {
                push_str(&mut r, "http://");
                push_range(&mut r, &cs, 0, k);
                push_str(&mut r, ":");
            }
            push_range(&mut r, &cs, k + 1, cs.len());
            assert(r@ =~= url_for(target@));
            return r;
        }
    }
    let mut r = String::new();
    push_str(&mut r, "http://");
    let trimmed = trim_end_matches(target, '/');
    push_str(&mut r, trimmed.as_str());
    assert(r@ =~= url_for(target@));
    r
}

/// The URL of a target's status query.
pub fn status_url(target: &str) -> (r: String)
    ensures
        r@ == url_for(target@) + PATH_STATUS@,
{
    let mut r = resolve_url(target);
    push_str(&mut r, PATH_STATUS);
    r
}

/// The URL of a target's upgrade trigger.
pub fn upgrade_url(target: &str) -> (r: String)
    ensures
        r@ == url_for(target@) + PATH_UPGRADE@,
{
    let mut r = resolve_url(target);
    push_str(&mut r, PATH_UPGRADE);
    r
}

/// The rendering of a boolean (`true` or `false`).
pub open spec fn bool_text(b: bool) -> Seq<char> {
    if b {
        "true"@
    } else {
        "false"@
    }
}

/// Appends the rendering of a boolean.
fn push_bool(out: &mut String, b: bool)
    ensures
        final(out)@ == old(out)@ + bool_text(b),
{
    if b {
        push_str(out, "true");
    } else {
        push_str(out, "false");
    }
}

/// One `  - <update>` line per update.
pub open spec fn update_lines(updates: Seq<Seq<char>>) -> Seq<char>
    decreases updates.len(),
{
    if updates.len() == 0 {
        Seq::<char>::empty()
    } else {
        update_lines(updates.drop_last()) + "  - "@ + updates.last() + "\n"@
    }
}

/// The text shown for a daemon's status: its message, whether it upgrades,
/// and its updates or that there are none.
pub open spec fn status_summary_text(sr: StatusResponse) -> Seq<char> {
    "Message: "@ + sr.message@ + "\n"@ + "Upgrading: "@ + bool_text(sr.is_upgrading) + "\n"@ + if sr.updates@.len()
        > 0 {
        "Updates:\n"@ + update_lines(views(sr.updates@))
    } else {
        "No updates available.\n"@
    }
}

/// The text shown for a daemon's status.
pub fn status_summary(sr: &StatusResponse) -> (r: String)
    ensures
        r@ == status_summary_text(*sr),
{
    let mut s = String::new();
    push_str(&mut s, "Message: ");
    push_str(&mut s, sr.message.as_str());
    push_str(&mut s, "\n");
    push_str(&mut s, "Upgrading: ");
    push_bool(&mut s, sr.is_upgrading);
    push_str(&mut s, "\n");
    if sr.updates.len() > 0 {
        push_str(&mut s, "Updates:\n");
        let ghost h2 = s@;
        let mut i: usize = 0;
        while i < sr.updates.len()
            invariant
                i <= sr.updates@.len(),
                s@ == h2 + update_lines(views(sr.updates@).take(i as int)),
            decreases sr.updates@.len() - i,
        {
            assert(views(sr.updates@).take(i + 1).drop_last() =~= views(sr.updates@).take(i as int));
            assert(views(sr.updates@).take(i + 1).last() == sr.updates@[i as int]@);
            push_str(&mut s, "  - ");
            push_str(&mut s, sr.updates[i].as_str());
            push_str(&mut s, "\n");
            assert(s@ =~= h2 + update_lines(views(sr.updates@).take(i + 1)));
            i = i + 1;
        }
        assert(views(sr.updates@).take(sr.updates@.len() as int) =~= views(sr.updates@));
    } else {
        push_str(&mut s, "No updates available.\n");
    }
    assert(s@ =~= status_summary_text(*sr));
    s
}

/// The body shown when a successful answer is not a status.
pub const UNPARSABLE_STATUS: &'static str = "Could not parse StatusResponse";

/// The body shown when a failed answer is not JSON.
pub const UNPARSABLE_JSON: &'static str = "Could not parse response as JSON";

/// The body shown when a failed answer's JSON cannot be rendered.
pub const UNPRINTABLE_JSON: &'static str = "Failed to pretty-print JSON";

/// The body shown for a failed answer: its JSON rendered readably, or why not.
/// `rendered` is `None` when the answer is not JSON, `Some(None)` when its
/// rendering failed.
pub fn error_body(rendered: Option<Option<String>>) -> (r: String)
    ensures
        r@ == match rendered {
            None => UNPARSABLE_JSON@,
            Some(None) => UNPRINTABLE_JSON@,
            Some(Some(text)) => text@,
        },
{
    match rendered {
        None => owned(UNPARSABLE_JSON),
        Some(None) => owned(UNPRINTABLE_JSON),
        Some(Some(text)) => text,
    }
}

/// The body shown for a daemon's answer to a status request: the summary of a
/// successful answer (or why it could not be read), else the failed answer's body.
/// `parsed` is what the successful answer read as; `rendered` is the failed
/// answer's JSON, as for [`error_body`].
pub fn status_body(
    success: bool,
    parsed: Option<StatusResponse>,
    rendered: Option<Option<String>>,
) -> (r: String)
    ensures
        r@ == (if success {
            match parsed {
                Some(sr) => status_summary_text(sr),
                None => UNPARSABLE_STATUS@,
            }
        } else {
            match rendered {
                None => UNPARSABLE_JSON@,
                Some(None) => UNPRINTABLE_JSON@,
                Some(Some(text)) => text@,
            }
        }),
{
    if success {
        match parsed {
            Some(sr) => status_summary(&sr),
            None => owned(UNPARSABLE_STATUS),
        }
    } else {
        error_body(rendered)
    }
}

/// The status shown for a request that got no answer.
pub fn request_error_status(error: &str) -> (r: String)
    ensures
        r@ == "Error: "@ + error@,
{
    let mut r = owned("Error: ");
    push_str(&mut r, error);
    r
}

/// What the client takes for an upgrade answer that it cannot read.
pub fn unknown_upgrade_response() -> (r: UpgradeResponse)
    ensures
        r.message@ == "Unknown response"@,
        r.updates is None,
{
    UpgradeResponse { message: owned("Unknown response"), updates: None }
}

/// The report of one target: `target<TAB>status`, then the body indented by a
/// tab when there is one.
pub open spec fn report_text(target: Seq<char>, status: Seq<char>, body: Seq<char>) -> Seq<char> {
    target + "\t"@ + status + "\n"@ + if body.len() > 0 {
        "\t"@ + indent_newlines(body) + "\n"@
    } else {
        Seq::<char>::empty()
    }
}

/// The report of one target's status query.
pub fn status_report(target: &str, status: &str, body: &str) -> (r: String)
    ensures
        r@ == report_text(target@, status@, body@),
{
    let mut r = owned(target);
    push_str(&mut r, "\t");
    push_str(&mut r, status);
    push_str(&mut r, "\n");
    if chars_of(body).len() > 0 {
        push_str(&mut r, "\t");
        push_indented(&mut r, body);
        push_str(&mut r, "\n");
    }
    assert(r@ =~= report_text(target@, status@, body@));
    r
}

/// The report of one target's upgrade request: the status report of its
/// message, then the count and list of the updates when there are any.
pub open spec fn upgrade_report_text(
    target: Seq<char>,
    status: Seq<char>,
    message: Seq<char>,
    updates: Option<Seq<Seq<char>>>,
) -> Seq<char> {
    report_text(target, status, message) + match updates {
        Some(u) => if u.len() > 0 {
            "\tUpdates ("@ + decimal(u.len()) + "): "@ + join(u, ", "@) + "\n"@
        } else {
            Seq::<char>::empty()
        },
        None => Seq::<char>::empty(),
    }
}

/// The report of one target's upgrade request.
pub fn upgrade_report(target: &str, status: &str, response: &UpgradeResponse) -> (r: String)
    ensures
        r@ == upgrade_report_text(
            target@,
            status@,
            response.message@,
            match response.updates {
                Some(u) => Some(views(u@)),
                None => None,
            },
        ),
{
    let mut r = status_report(target, status, response.message.as_str());
    match &response.updates {
        Some(u) => {
            if u.len() > 0 {
                push_str(&mut r, "\tUpdates (");
                push_decimal(&mut r, u.len() as u64);
                push_str(&mut r, "): ");
                push_joined(&mut r, u, ", ");
                push_str(&mut r, "\n");
                assert(views(u@).len() == u@.len());
            }
        },
        None => {},
    }
    assert(r@ =~= upgrade_report_text(
        target@,
        status@,
        response.message@,
        match response.updates {
            Some(u) => Some(views(u@)),
            None => None,
        },
    ));
    r
}

/// The notice printed when a command falls back to a configuration that does not exist.
pub const MISSING_CONFIG_NOTICE: &'static str = "No config file was found or set.";

/// Whether a command that falls back to the configuration should say that
/// there is none: it has no targets, does not discover, and no file exists.
pub fn warn_missing_config(targets_given: bool, discover_all: bool, config_exists: bool) -> (r:
    bool)
    ensures
        r == (!targets_given && !discover_all && !config_exists),
{
    !targets_given && !discover_all && !config_exists
}

// ---------------------------------------------------------------------------
// The network timeout setting
// ---------------------------------------------------------------------------

/// What `humantime::parse_duration` gives for a text: seconds and nanoseconds.
pub uninterp spec fn humantime_duration(text: Seq<char>) -> Option<(u64, u32)>;

/// A character that ends a number of a duration: a letter of a unit, or the
/// decimal point. Other characters between digits, such as spaces, do not.
pub open spec fn ends_number(c: char) -> bool {
    ('a' <= c && c <= 'z') || ('A' <= c && c <= 'Z') || c == '\u{b5}' || c == '.'
}

/// A left-to-right reading of a text's numbers, each the digits of a stretch
/// that no unit letter or decimal point ends: the weight of the numbers
/// already ended (each number's value plus one), the value of the number still
/// open, and whether one is open.
pub open spec fn digit_runs(s: Seq<char>) -> (int, int, bool)
    decreases s.len(),
{
    if s.len() == 0 {
        (0, 0, false)
    } else {
        let prev = digit_runs(s.drop_last());
        let c = s.last();
        if crate::text::is_digit(c) {
            (prev.0, prev.1 * 10 + crate::text::digit_value(c), true)
        } else if !ends_number(c) {
            prev
        } else if prev.2 {
            (prev.0 + prev.1 + 1, 0, false)
        } else {
            (prev.0, 0, false)
        }
    }
}

/// The weight of a text: over its numbers, each number's value plus one.
pub open spec fn duration_weight(s: Seq<char>) -> int {
    let r = digit_runs(s);
    r.0 + if r.2 {
        r.1 + 1
    } else {
        0
    }
}

/// The largest weight of a text read as a human-readable duration. Every
/// number of a duration (its digits, with the spaces between them skipped) is
/// one number here, and no unit is longer than a year of 31,557,600 seconds, so the seconds that such a text adds up to,
/// nanoseconds carried over included, stay below 1.6e19, under the largest
/// `u64`.
pub const MAX_DURATION_WEIGHT: u64 = 500_000_000_000;

/// Whether a text is light enough to be read as a duration.
pub open spec fn duration_readable(text: Seq<char>) -> bool {
    duration_weight(text) <= MAX_DURATION_WEIGHT
}

/// The weight of a prefix never exceeds that of a longer prefix.
proof fn lemma_weight_grows(s: Seq<char>, i: int, j: int)
    requires
        0 <= i <= j <= s.len(),
    ensures
        duration_weight(s.take(i)) <= duration_weight(s.take(j)),
    decreases j - i,
{
    if i < j {
        lemma_weight_grows(s, i, j - 1);
        assert(s.take(j).drop_last() =~= s.take(j - 1));
        lemma_runs_nonnegative(s.take(j - 1));
    }
}

/// The parts of a reading are never negative.
proof fn lemma_runs_nonnegative(s: Seq<char>)
    ensures
        digit_runs(s).0 >= 0,
        digit_runs(s).1 >= 0,
        !digit_runs(s).2 ==> digit_runs(s).1 == 0,
    decreases s.len(),
{
    if s.len() > 0 {
        lemma_runs_nonnegative(s.drop_last());
    }
}

/// Whether a text is light enough to be read as a duration.
pub fn duration_within_limit(text: &str) -> (r: bool)
    ensures
        r == duration_readable(text@),
{
    let cs = chars_of(text);
    let mut closed: u64 = 0;
    let mut open_value: u64 = 0;
    let mut open: bool = false;
    let mut i: usize = 0;
    while i < cs.len()
        invariant
            i <= cs@.len(),
            cs@ == text@,
            digit_runs(cs@.take(i as int)) == (closed as int, open_value as int, open),
            duration_weight(cs@.take(i as int)) <= MAX_DURATION_WEIGHT,
        decreases cs@.len() - i,
    {
        proof {
            lemma_runs_nonnegative(cs@.take(i as int));
        }
        assert(cs@.take(i + 1).drop_last() =~= cs@.take(i as int));
        assert(cs@.take(i + 1).last() == cs@[i as int]);
        let c = cs[i];
        if '0' <= c && c <= '9' {
            open_value = open_value * 10 + ((c as u32) - ('0' as u32)) as u64;
            open = true;
        } else if !(('a' <= c && c <= 'z') || ('A' <= c && c <= 'Z') || c == '\u{b5}' || c
            == '.') {
            // A space or another character neither adds to nor ends a number.
        } else if open {
            closed = closed + open_value + 1;
            open_value = 0;
            open = false;
        }
        let weight: u64 = if open {
            closed + open_value + 1
        } else {
            closed
        };
        if weight > MAX_DURATION_WEIGHT {
            proof {
                lemma_weight_grows(cs@, i + 1, cs@.len() as int);
                assert(cs@.take(cs@.len() as int) =~= cs@);
            }
            return false;
        }
        i = i + 1;
    }
    assert(cs@.take(cs@.len() as int) =~= cs@);
    true
}

/// Parses a human-readable duration such as `1m` or `2h 30s`.
/// Trusted: `humantime::parse_duration`; its result is named, not described,
/// and a duration's nanoseconds are below one second, as `Duration` keeps them.
/// It is called only on light texts: on a text whose spans add up to the
/// largest number of seconds and one more second in nanoseconds it panics
/// building the `Duration`, and no text within the weight limit comes near.
#[verifier::external_body]
fn parse_human_duration(text: &str) -> (r: Option<(u64, u32)>)
    requires
        duration_readable(text@),
    ensures
        r == humantime_duration(text@),
        r matches Some(d) ==> d.1 < 1_000_000_000,
{
    match humantime::parse_duration(text) {
        Ok(d) => Some((d.as_secs(), d.subsec_nanos())),
        Err(_) => None,
    }
}

/// The timeout when none is set, in seconds.
pub const DEFAULT_TIMEOUT_SECS: u64 = 60;

/// The network timeout, as seconds and nanoseconds, for a setting: whole
/// seconds, else a human-readable duration of limited weight, else the default of
/// a minute.
pub open spec fn timeout_spec(setting: Option<Seq<char>>) -> (u64, u32) {
    match setting {
        None => (DEFAULT_TIMEOUT_SECS, 0),
        Some(v) => match parse_u64_spec(v) {
            Some(n) => (n, 0),
            None => if !duration_readable(v) {
                (DEFAULT_TIMEOUT_SECS, 0)
            } else {
                match humantime_duration(v) {
                    Some(d) => d,
                    None => (DEFAULT_TIMEOUT_SECS, 0),
                }
            },
        },
    }
}

/// The network timeout for a setting, given what `humantime` made of it
/// (`human` is consulted only when the setting is not a whole number of seconds).
pub fn timeout_from_parsed(setting: &Option<String>, human: Option<(u64, u32)>) -> (r: (u64, u32))
    ensures
        r == (match setting {
            None => (DEFAULT_TIMEOUT_SECS, 0),
            Some(v) => match parse_u64_spec(v@) {
                Some(n) => (n, 0),
                None => match human {
                    Some(d) => d,
                    None => (DEFAULT_TIMEOUT_SECS, 0),
                },
            },
        }),
{
    match setting {
        None => (DEFAULT_TIMEOUT_SECS, 0),
        Some(v) => match parse_u64(v.as_str()) {
            Some(n) => (n, 0),
            None => match human {
                Some(d) => d,
                None => (DEFAULT_TIMEOUT_SECS, 0),
            },
        },
    }
}

/// The network timeout for the value of the timeout setting, if it is set.
pub fn timeout_from_setting(setting: Option<String>) -> (r: (u64, u32))
    ensures
        r == timeout_spec(setting.deep_view()),
        r.1 < 1_000_000_000,
{
    let human = match &setting {
        Some(v) => match parse_u64(v.as_str()) {
            Some(_) => None,
            None => if duration_within_limit(v.as_str()) {
                parse_human_duration(v.as_str())
            } else {
                None
            },
        },
        None => None,
    };
    timeout_from_parsed(&setting, human)
}

// ---------------------------------------------------------------------------
// The configuration file
// ---------------------------------------------------------------------------

/// The configuration file to use, and whether it exists: the one given (by
/// flag or environment), which counts as existing, else the one in the
/// working directory, existing or not.
pub open spec fn config_path_spec(explicit: Option<Seq<char>>, local_file_exists: bool) -> (
    Seq<char>,
    bool,
) {
    match explicit {
        Some(p) => (p, true),
        None => (CONFIG_FILE_NAME@, local_file_exists),
    }
}

/// Chooses the configuration file (`local_file_exists` tells whether the file
/// in the working directory exists).
pub fn resolve_config_path(explicit: Option<String>, local_file_exists: bool) -> (r: (
    String,
    bool,
))
    ensures
        (r.0@, r.1) == config_path_spec(explicit.deep_view(), local_file_exists),
{
    match explicit {
        Some(p) => (p, true),
        None => (owned(CONFIG_FILE_NAME), local_file_exists),
    }
}

} // verus!
