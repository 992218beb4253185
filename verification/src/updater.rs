//! Update checks: release tags and version numbers, how two versions
//! compare, what a release description says about an update, and what is
//! reported at startup and to joining players.

use vstd::prelude::*;
use crate::config::Config;
use crate::numbers::{is_digit, parse_unsigned, parse_unsigned_chars};
use crate::text::{chars_of, push_str, string_of, trim, trim_str};
use std::cmp::Ordering;

verus! {

/// Where the releases are listed, when a release names no page of its own.
pub const RELEASES_URL: &'static str = "https://github.com/NicDevTV/WorldPumpkin/releases/latest";

/// A newer release than the one loaded.
#[derive(Debug, PartialEq, Eq)]
pub struct UpdateStatus {
    pub latest_version: String,
    pub current_version: String,
    pub release_url: String,
}

/// The spec form of an update notice.
pub struct StatusView {
    pub latest_version: Seq<char>,
    pub current_version: Seq<char>,
    pub release_url: Seq<char>,
}

impl View for UpdateStatus {
    type V = StatusView;

    open spec fn view(&self) -> StatusView {
        StatusView {
            latest_version: self.latest_version@,
            current_version: self.current_version@,
            release_url: self.release_url@,
        }
    }
}

pub open spec fn status_text(s: StatusView) -> Seq<char> {
    "Update available: WorldPumpkin "@ + s.current_version + " is loaded, "@ + s.latest_version
        + " is latest. Download: "@ + s.release_url
}

impl UpdateStatus {
    /// The notice shown to the console and to players.
    pub fn message(&self) -> (m: String)
        ensures
            m@ == status_text(self@),
    {
        let mut v: Vec<char> = Vec::new();
        push_str(&mut v, "Update available: WorldPumpkin ");
        push_str(&mut v, self.current_version.as_str());
        push_str(&mut v, " is loaded, ");
        push_str(&mut v, self.latest_version.as_str());
        push_str(&mut v, " is latest. Download: ");
        push_str(&mut v, self.release_url.as_str());
        string_of(v.as_slice())
    }

    /// A copy of the notice.
    pub fn duplicate(&self) -> (s: UpdateStatus)
        ensures
            s@ == self@,
    {
        UpdateStatus {
            latest_version: self.latest_version.clone(),
            current_version: self.current_version.clone(),
            release_url: self.release_url.clone(),
        }
    }
}

/// The update known since startup, if any.
pub struct UpdateState {
    status: Option<UpdateStatus>,
}

pub open spec fn status_view(s: Option<UpdateStatus>) -> Option<StatusView> {
    match s {
        Some(u) => Some(u@),
        None => None,
    }
}

impl UpdateState {
    pub closed spec fn spec_status(&self) -> Option<StatusView> {
        status_view(self.status)
    }

    /// No update known.
    pub fn new() -> (s: UpdateState)
        ensures
            s.spec_status() is None,
    {
        UpdateState { status: None }
    }

    /// The update known, if any.
    pub fn status(&self) -> (r: Option<UpdateStatus>)
        ensures
            status_view(r) == self.spec_status(),
    {
        match &self.status {
            Some(s) => Some(s.duplicate()),
            None => None,
        }
    }

    /// Records the outcome of an update check.
    pub fn replace_status(&mut self, status: Option<UpdateStatus>)
        ensures
            final(self).spec_status() == status_view(status),
    {
        self.status = status;
    }
}

// ---------------------------------------------------------------------
// Versions
// ---------------------------------------------------------------------

/// `s` without any leading `c`.
pub open spec fn strip_leading(s: Seq<char>, c: char) -> Seq<char>
    decreases s.len(),
{
    if s.len() > 0 && s[0] == c {
        strip_leading(s.drop_first(), c)
    } else {
        s
    }
}

/// A release tag as a plain version: trimmed, without its leading `v`s.
pub open spec fn spec_normalize_version(version: Seq<char>) -> Seq<char> {
    strip_leading(trim(version), 'v')
}

pub fn normalize_version(version: &str) -> (r: String)
    ensures
        r@ == spec_normalize_version(version@),
{
    let t = trim_str(version);
    let mut i: usize = 0;
    assert(t@.subrange(0, t@.len() as int) =~= t@);
    while i < t.len() && t[i] == 'v'
        invariant
            i <= t@.len(),
            strip_leading(t@, 'v') == strip_leading(t@.subrange(i as int, t@.len() as int), 'v'),
        decreases t@.len() - i,
    {
        assert(t@.subrange(i as int, t@.len() as int).drop_first() =~= t@.subrange(
            i + 1,
            t@.len() as int,
        ));
        i += 1;
    }
    assert(t@.subrange(0, t@.len() as int) =~= t@);
    let mut out: Vec<char> = Vec::new();
    let mut j: usize = i;
    while j < t.len()
        invariant
            i <= j <= t@.len(),
            out@ == t@.subrange(i as int, j as int),
        decreases t@.len() - j,
    {
        out.push(t[j]);
        j += 1;
    }
    string_of(out.as_slice())
}

/// A finished run of digits adds its value, unless it is empty or too
/// large for a `u64`.
pub open spec fn close_run(done: Seq<u64>, run: Seq<char>) -> Seq<u64> {
    if run.len() == 0 {
        done
    } else {
        match parse_unsigned(run, u64::MAX as nat) {
            Ok(v) => done.push(v as u64),
            Err(_) => done,
        }
    }
}

/// The numbers read so far, and the run of digits in progress.
pub open spec fn parts_state(s: Seq<char>) -> (Seq<u64>, Seq<char>)
    decreases s.len(),
{
    if s.len() == 0 {
        (Seq::<u64>::empty(), Seq::<char>::empty())
    } else {
        let (done, run) = parts_state(s.drop_last());
        if is_digit(s.last()) {
            (done, run.push(s.last()))
        } else {
            (close_run(done, run), Seq::<char>::empty())
        }
    }
}

/// The numbers in a version: its maximal runs of ASCII digits, in order,
/// leaving out those too large for a `u64`.
pub open spec fn spec_version_parts(version: Seq<char>) -> Seq<u64> {
    let (done, run) = parts_state(version);
    close_run(done, run)
}

fn close_run_exec(done: &mut Vec<u64>, run: &Vec<char>)
    ensures
        final(done)@ == close_run(old(done)@, run@),
{
    if run.len() > 0 {
        match parse_unsigned_chars(run.as_slice(), u64::MAX) {
            Ok(v) => done.push(v),
            Err(_) => {},
        }
    }
}

pub fn version_parts(version: &str) -> (r: Vec<u64>)
    ensures
        r@ == spec_version_parts(version@),
{
    let cs = chars_of(version);
    let mut done: Vec<u64> = Vec::new();
    let mut run: Vec<char> = Vec::new();
    let mut i: usize = 0;
    while i < cs.len()
        invariant
            cs@ == version@,
            i <= cs@.len(),
            done@ == parts_state(cs@.subrange(0, i as int)).0,
            run@ == parts_state(cs@.subrange(0, i as int)).1,
        decreases cs@.len() - i,
    {
        assert(cs@.subrange(0, i + 1).drop_last() =~= cs@.subrange(0, i as int));
        let c = cs[i];
        let ghost prev = parts_state(cs@.subrange(0, i as int));
        let u = c as u32;
        if 48 <= u && u <= 57 {
            assert(is_digit(c));
            run.push(c);
        } else {
            assert(!is_digit(c));
            close_run_exec(&mut done, &run);
            run = Vec::new();
            assert(run@ =~= Seq::<char>::empty());
        }
        i += 1;
    }
    assert(cs@.subrange(0, cs@.len() as int) =~= version@);
    close_run_exec(&mut done, &run);
    done
}

/// The `i`-th number of a version, 0 past its end.
pub open spec fn part_at(parts: Seq<u64>, i: nat) -> u64 {
    if i < parts.len() {
        parts[i as int]
    } else {
        0
    }
}

/// The order of two versions from their `i`-th number on, up to `n`
/// numbers.
pub open spec fn parts_order(left: Seq<u64>, right: Seq<u64>, i: nat, n: nat) -> Ordering
    decreases n - i,
{
    if i >= n {
        Ordering::Equal
    } else if part_at(left, i) < part_at(right, i) {
        Ordering::Less
    } else if part_at(left, i) > part_at(right, i) {
        Ordering::Greater
    } else {
        parts_order(left, right, i + 1, n)
    }
}

pub open spec fn usize_nat(i: usize) -> nat {
    i as nat
}

/// How two versions compare: number by number, a missing number counting
/// as 0.
pub open spec fn version_order(left: Seq<char>, right: Seq<char>) -> Ordering {
    let l = spec_version_parts(left);
    let r = spec_version_parts(right);
    parts_order(l, r, 0, if l.len() >= r.len() {
        l.len()
    } else {
        r.len()
    })
}

pub fn compare_versions(left: &str, right: &str) -> (o: Ordering)
    ensures
        o == version_order(left@, right@),
{
    let lp = version_parts(left);
    let rp = version_parts(right);
    let n: usize = if lp.len() >= rp.len() {
        lp.len()
    } else {
        rp.len()
    };
    let mut i: usize = 0;
    while i < n
        invariant
            lp@ == spec_version_parts(left@),
            rp@ == spec_version_parts(right@),
            n == (if lp@.len() >= rp@.len() {
                lp@.len()
            } else {
                rp@.len()
            }),
            i <= n,
            version_order(left@, right@) == parts_order(lp@, rp@, usize_nat(i), usize_nat(n)),
        decreases n - i,
    {
        let a: u64 = if i < lp.len() {
            lp[i]
        } else {
            0
        };
        let b: u64 = if i < rp.len() {
            rp[i]
        } else {
            0
        };
        if a < b {
            return Ordering::Less;
        }
        if a > b {
            return Ordering::Greater;
        }
        i += 1;
    }
    Ordering::Equal
}

// ---------------------------------------------------------------------
// Reading a release description
// ---------------------------------------------------------------------

/// One `serde_json` read of a string field: the result of parsing `body`
/// with `serde_json::from_str` into a `Value`, looking `key` up with
/// `Value::get` and taking the string with `Value::as_str` (`None` when the
/// key is absent or holds no string), or the `Display` text of the parse
/// error when `body` is not JSON. The four calls make one read; the name
/// stands for the whole of it, as a function of `body` and `key` alone.
pub uninterp spec fn json_string_field(body: Seq<char>, key: Seq<char>) -> Result<
    Option<Seq<char>>,
    Seq<char>,
>;

/// Trusted: parses `body` with `serde_json::from_str` into a
/// `serde_json::Value`, looks `key` up with `Value::get` and takes the
/// string with `Value::as_str`; a parse error becomes its `Display` text.
/// The contract claims only that the answer is the one `json_string_field`
/// names for these arguments.
#[verifier::external_body]
fn read_json_string_field(body: &str, key: &str) -> (r: Result<Option<String>, String>)
    ensures
        match json_string_field(body@, key@) {
            Ok(Some(s)) => r matches Ok(Some(t)) && t@ == s,
            Ok(None) => r matches Ok(None),
            Err(e) => r matches Err(m) && m@ == e,
        },
{
    match serde_json::from_str::<serde_json::Value>(body) {
        Err(err) => Err(err.to_string()),
        Ok(value) => Ok(value.get(key).and_then(serde_json::Value::as_str).map(String::from)),
    }
}

pub open spec fn missing_tag_text() -> Seq<char> {
    "GitHub latest release response did not include tag_name"@
}

/// What a release's tag and page say about an update for the running
/// `current` version: an error when the tag is missing or blank, no update
/// unless the release is newer.
pub open spec fn spec_release_update(
    tag_name: Option<Seq<char>>,
    html_url: Option<Seq<char>>,
    current: Seq<char>,
) -> Result<Option<StatusView>, Seq<char>> {
    match tag_name {
        None => Err(missing_tag_text()),
        Some(t) => {
            let latest = spec_normalize_version(t);
            let cur = spec_normalize_version(current);
            if latest.len() == 0 {
                Err(missing_tag_text())
            } else if version_order(latest, cur) != Ordering::Greater {
                Ok(None)
            } else {
                Ok(
                    Some(
                        StatusView {
                            latest_version: latest,
                            current_version: cur,
                            release_url: match html_url {
                                Some(u) => u,
                                None => RELEASES_URL@,
                            },
                        },
                    ),
                )
            }
        },
    }
}

/// Decides on an update from the release's tag and page.
pub fn release_update(tag_name: Option<&str>, html_url: Option<&str>, current: &str) -> (r: Result<
    Option<UpdateStatus>,
    String,
>)
    ensures
        match spec_release_update(
            match tag_name {
                Some(t) => Some(t@),
                None => None,
            },
            match html_url {
                Some(u) => Some(u@),
                None => None,
            },
            current@,
        ) {
            Ok(s) => r matches Ok(t) && status_view(t) == s,
            Err(e) => r matches Err(m) && m@ == e,
        },
{
    let tag = match tag_name {
        Some(t) => t,
        None => {
            return Err("GitHub latest release response did not include tag_name".to_owned());
        },
    };
    let latest = normalize_version(tag);
    if latest.unicode_len() == 0 {
        return Err("GitHub latest release response did not include tag_name".to_owned());
    }
    let current_version = normalize_version(current);
    match compare_versions(latest.as_str(), current_version.as_str()) {
        Ordering::Greater => {},
        _ => {
            return Ok(None);
        },
    }
    let release_url = match html_url {
        Some(u) => u.to_owned(),
        None => RELEASES_URL.to_owned(),
    };
    Ok(Some(UpdateStatus { latest_version: latest, current_version, release_url }))
}

/// Decides on an update from the body of the latest-release response.
pub fn release_update_from_json(body: &str, current: &str) -> (r: Result<Option<UpdateStatus>, String>)
    ensures
        match json_string_field(body@, "tag_name"@) {
            Err(e) => r matches Err(m) && m@ == e,
            Ok(tag) => match spec_release_update(
                tag,
                match json_string_field(body@, "html_url"@) {
                    Ok(u) => u,
                    Err(_) => None,
                },
                current@,
            ) {
                Ok(s) => r matches Ok(t) && status_view(t) == s,
                Err(e) => r matches Err(m) && m@ == e,
            },
        },
{
    let tag = match read_json_string_field(body, "tag_name") {
        Err(e) => {
            return Err(e);
        },
        Ok(t) => t,
    };
    let url = match read_json_string_field(body, "html_url") {
        Ok(u) => u,
        Err(_) => None,
    };
    let tag_ref: Option<&str> = match &tag {
        Some(t) => Some(t.as_str()),
        None => None,
    };
    let url_ref: Option<&str> = match &url {
        Some(u) => Some(u.as_str()),
        None => None,
    };
    release_update(tag_ref, url_ref, current)
}

// ---------------------------------------------------------------------
// What is reported
// ---------------------------------------------------------------------

/// The startup report of an update check whose outcome is `result`, for the
/// running `version`, and the update to remember.
pub open spec fn spec_startup_report(
    result: Result<Option<StatusView>, Seq<char>>,
    version: Seq<char>,
) -> (Seq<char>, Option<StatusView>) {
    match result {
        Ok(Some(s)) => (status_text(s), Some(s)),
        Ok(None) => ("WorldPumpkin "@ + version + " is up to date."@, None),
        Err(e) => ("WorldPumpkin update check failed: "@ + e, None),
    }
}

pub fn startup_report(result: Result<Option<UpdateStatus>, String>, version: &str) -> (r: (
    String,
    Option<UpdateStatus>,
))
    ensures
        ({
            let rv = match result {
                Ok(s) => Ok(status_view(s)),
                Err(e) => Err(e@),
            };
            r.0@ == spec_startup_report(rv, version@).0 && status_view(r.1) == spec_startup_report(
                rv,
                version@,
            ).1
        }),
{
    match result {
        Ok(Some(s)) => {
            let m = s.message();
            (m, Some(s))
        },
        Ok(None) => {
            let mut v: Vec<char> = Vec::new();
            push_str(&mut v, "WorldPumpkin ");
            push_str(&mut v, version);
            push_str(&mut v, " is up to date.");
            (string_of(v.as_slice()), None)
        },
        Err(e) => {
            let mut v: Vec<char> = Vec::new();
            push_str(&mut v, "WorldPumpkin update check failed: ");
            push_str(&mut v, e.as_str());
            (string_of(v.as_slice()), None)
        },
    }
}

/// The report when update checks are switched off.
pub fn disabled_report() -> (m: &'static str)
    ensures
        m@ == "WorldPumpkin update check disabled in config."@,
{
    "WorldPumpkin update check disabled in config."
}

/// Decides what a joining player is told about updates.
pub struct UpdateJoinHandler;

impl UpdateJoinHandler {
    /// The notice for a joining player: only when update checks and join
    /// notices are on, an update is known, and the player may receive it.
    pub fn notice(&self, config: &Config, update: &UpdateState, may_notify: bool) -> (r: Option<
        String,
    >)
        ensures
            match update.spec_status() {
                Some(s) => if config.update_check_enabled && config.update_notify_on_join
                    && may_notify {
                    r matches Some(m) && m@ == status_text(s)
                } else {
                    r is None
                },
                None => r is None,
            },
    {
        if config.update_check_enabled && config.update_notify_on_join {
            match update.status() {
                Some(status) => {
                    if may_notify {
                        Some(status.message())
                    } else {
                        None
                    }
                },
                None => None,
            }
        } else {
            None
        }
    }
}


proof fn lemma_parts_order_flip(l: Seq<u64>, r: Seq<u64>, i: nat, n: nat)
    ensures
        parts_order(l, r, i, n) == Ordering::Greater <==> parts_order(r, l, i, n) == Ordering::Less,
        parts_order(l, r, i, n) == Ordering::Equal <==> parts_order(r, l, i, n) == Ordering::Equal,
    decreases n - i,
{
    if i < n {
        lemma_parts_order_flip(l, r, i + 1, n);
    }
}

proof fn lemma_parts_order_self(l: Seq<u64>, i: nat, n: nat)
    ensures
        parts_order(l, l, i, n) == Ordering::Equal,
    decreases n - i,
{
    if i < n {
        lemma_parts_order_self(l, i + 1, n);
    }
}

/// Versions compare consistently: a version equals itself, and one is newer
/// than another exactly when the other is older.
pub proof fn lemma_version_order(a: Seq<char>, b: Seq<char>)
    ensures
        version_order(a, a) == Ordering::Equal,
        version_order(a, b) == Ordering::Greater <==> version_order(b, a) == Ordering::Less,
        version_order(a, b) == Ordering::Equal <==> version_order(b, a) == Ordering::Equal,
{
    let pa = spec_version_parts(a);
    let pb = spec_version_parts(b);
    lemma_parts_order_self(pa, 0, pa.len());
    let n = if pa.len() >= pb.len() {
        pa.len()
    } else {
        pb.len()
    };
    assert(n == if pb.len() >= pa.len() {
        pb.len()
    } else {
        pa.len()
    });
    lemma_parts_order_flip(pa, pb, 0, n);
}

} // verus!
