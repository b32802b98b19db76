//! Local account provisioning from the server's POSIX mapping, and the
//! local credential check with per-account rate limiting.
//!
//! Provisioning is idempotent: an existing account with the mapped name and
//! uid is accepted; a name or uid that shadows a different local identity
//! is an error, never silently "fixed". The account tools are run with
//! argument arrays built here, never through a shell. Running them, reading
//! the account databases and calling `crypt(3)` is the caller's work; the
//! results come in as arguments.
use vstd::prelude::*;
use vstd::string::StringExecFns;
use crate::service::constant_time_eq;
use crate::text::{
    decimal_chars, decimal_text, first_line, first_line_text, has_dot_dot, has_prefix,
    contains_dot_dot, opt_str_view, parse_u32_text, split_on, split_text, starts_with_text, str_eq,
    str_views, string_views, u32_value, debug_quoted, push_debug_quoted, push_decimal_text,
};

verus! {

#[derive(Debug)]
pub enum ProvisionError {
    Io(std::io::Error),
    Message(String),
    Json(serde_json::Error),
}

/// The refusal of a home directory outside `/home/`.
pub open spec fn home_message(home: Seq<char>) -> Seq<char> {
    "home "@ + debug_quoted(home) + " must be under /home"@
}

/// The refusal of a shell that is not an absolute path.
pub open spec fn shell_message(shell: Seq<char>) -> Seq<char> {
    "shell "@ + debug_quoted(shell) + " must be an absolute path"@
}

/// The refusal of a mapping whose user exists with another uid.
pub open spec fn collision_message(username: Seq<char>, existing_uid: u32, mapped_uid: u32) -> Seq<char> {
    "local user "@ + username + " exists with uid "@ + decimal_chars(existing_uid as nat)
        + ", server maps uid "@ + decimal_chars(mapped_uid as nat) + " (§8.4 collision)"@
}

/// The refusal of a mapping whose uid belongs to another user.
pub open spec fn uid_taken_message(uid: u32, local_user: Seq<char>) -> Seq<char> {
    "uid "@ + decimal_chars(uid as nat) + " is taken by local user "@ + local_user + " (§8.4 collision)"@
}

/// The POSIX mapping carried in the check-in response.
#[derive(Debug)]
pub struct PosixMapping {
    pub username: String,
    pub uid: u32,
    pub gid: u32,
    pub home: String,
    pub shell: String,
    pub full_name: String,
}

pub struct MappingView {
    pub username: Seq<char>,
    pub uid: u32,
    pub gid: u32,
    pub home: Seq<char>,
    pub shell: Seq<char>,
    pub full_name: Seq<char>,
}

impl View for PosixMapping {
    type V = MappingView;

    open spec fn view(&self) -> MappingView {
        MappingView {
            username: self.username@,
            uid: self.uid,
            gid: self.gid,
            home: self.home@,
            shell: self.shell@,
            full_name: self.full_name@,
        }
    }
}

impl PosixMapping {
    /// A field-by-field copy.
    pub fn duplicate(&self) -> (r: PosixMapping)
        ensures
            r@ == self@,
    {
        PosixMapping {
            username: self.username.clone(),
            uid: self.uid,
            gid: self.gid,
            home: self.home.clone(),
            shell: self.shell.clone(),
            full_name: self.full_name.clone(),
        }
    }
}

/// The home directory stays under `/home/`.
pub open spec fn home_ok(home: Seq<char>) -> bool {
    has_prefix(home, "/home/"@) && !has_dot_dot(home)
}

/// The shell is an absolute path.
pub open spec fn shell_ok(shell: Seq<char>) -> bool {
    has_prefix(shell, "/"@)
}

/// Check a mapping before use (defense in depth): the home directory must
/// stay under `/home/`, the shell must be absolute. The home is checked
/// first.
pub fn validate_mapping(mapping: &PosixMapping) -> (r: Result<(), ProvisionError>)
    ensures
        !home_ok(mapping.home@) ==> (r matches Err(ProvisionError::Message(m)) && m@ == home_message(
            mapping.home@,
        )),
        home_ok(mapping.home@) && !shell_ok(mapping.shell@) ==> (r matches Err(ProvisionError::Message(m))
            && m@ == shell_message(mapping.shell@)),
        r is Ok <==> home_ok(mapping.home@) && shell_ok(mapping.shell@),
{
    if !starts_with_text(mapping.home.as_str(), "/home/") || contains_dot_dot(mapping.home.as_str()) {
        let mut m = "home ".to_owned();
        push_debug_quoted(&mut m, mapping.home.as_str());
        m.append(" must be under /home");
        return Err(ProvisionError::Message(m));
    }
    if !starts_with_text(mapping.shell.as_str(), "/") {
        let mut m = "shell ".to_owned();
        push_debug_quoted(&mut m, mapping.shell.as_str());
        m.append(" must be an absolute path");
        return Err(ProvisionError::Message(m));
    }
    Ok(())
}

/// The `:`-separated fields of the first line of a passwd entry.
pub open spec fn passwd_fields(entry: Seq<char>) -> Option<Seq<Seq<char>>> {
    match first_line(entry) {
        Some(line) => Some(split_on(line, ':')),
        None => None,
    }
}

/// The uid in a passwd entry (`getent passwd` output): the third field
/// of its first line, when that is an unsigned decimal that fits a `u32`.
pub open spec fn entry_uid(entry: Seq<char>) -> Option<u32> {
    match passwd_fields(entry) {
        Some(f) => if f.len() > 2 {
            u32_value(f[2])
        } else {
            None
        },
        None => None,
    }
}

/// The user name in a passwd entry: the first field of its first line
/// (empty text for an empty entry).
pub open spec fn entry_name(entry: Seq<char>) -> Seq<char> {
    match passwd_fields(entry) {
        Some(f) => f[0],
        None => Seq::empty(),
    }
}

/// The uid in a passwd entry.
pub fn passwd_uid(entry: &str) -> (r: Option<u32>)
    ensures
        r == entry_uid(entry@),
{
    let line = match first_line_text(entry) {
        Some(line) => line,
        None => return None,
    };
    let fields = split_text(line, ':');
    if fields.len() <= 2 {
        return None;
    }
    assert(fields@[2]@ == str_views(fields@)[2]);
    parse_u32_text(fields[2])
}

/// The user name in a passwd entry.
pub fn passwd_name(entry: &str) -> (r: String)
    ensures
        r@ == entry_name(entry@),
{
    let line = match first_line_text(entry) {
        Some(line) => line,
        None => return String::new(),
    };
    let fields = split_text(line, ':');
    proof {
        crate::text::lemma_split_on_nonempty(line@, ':');
    }
    assert(fields@[0]@ == str_views(fields@)[0]);
    fields[0].to_owned()
}

/// What provisioning does for a mapping.
#[derive(Clone, Copy, Debug, PartialEq, Eq, Structural)]
pub enum AccountAction {
    /// The account exists with the mapped uid: nothing to do.
    AlreadyProvisioned,
    /// No account has the name or the uid: create it.
    Create,
}

/// Decide provisioning from what the account database holds:
/// `existing_uid` is the uid of a local user with the mapped name, if one
/// exists; `uid_owner` is the passwd entry of the user holding the mapped
/// uid, consulted only when no user has the name.
pub fn account_action(mapping: &PosixMapping, existing_uid: Option<u32>, uid_owner: Option<&str>) -> (r:
    Result<AccountAction, ProvisionError>)
    ensures
        existing_uid matches Some(u) ==> (if u == mapping.uid {
            r == Ok::<AccountAction, ProvisionError>(AccountAction::AlreadyProvisioned)
        } else {
            r matches Err(ProvisionError::Message(m)) && m@ == collision_message(
                mapping.username@,
                u,
                mapping.uid,
            )
        }),
        existing_uid is None ==> match uid_owner {
            Some(entry) => r matches Err(ProvisionError::Message(m)) && m@ == uid_taken_message(
                mapping.uid,
                entry_name(entry@),
            ),
            None => r == Ok::<AccountAction, ProvisionError>(AccountAction::Create),
        },
{
    match existing_uid {
        Some(u) => {
            if u == mapping.uid {
                return Ok(AccountAction::AlreadyProvisioned);
            }
            let mut m = "local user ".to_owned();
            m.append(mapping.username.as_str());
            m.append(" exists with uid ");
            push_decimal_text(&mut m, u as u64);
            m.append(", server maps uid ");
            push_decimal_text(&mut m, mapping.uid as u64);
            m.append(" (§8.4 collision)");
            return Err(ProvisionError::Message(m));
        },
        None => {},
    }
    match uid_owner {
        Some(entry) => {
            let mut m = "uid ".to_owned();
            push_decimal_text(&mut m, mapping.uid as u64);
            m.append(" is taken by local user ");
            let name = passwd_name(entry);
            m.append(name.as_str());
            m.append(" (§8.4 collision)");
            Err(ProvisionError::Message(m))
        },
        None => Ok(AccountAction::Create),
    }
}

/// The account comment: the full name, or the user name when it is empty.
pub open spec fn account_comment(m: MappingView) -> Seq<char> {
    if m.full_name.len() == 0 {
        m.username
    } else {
        m.full_name
    }
}

/// The `groupadd` arguments for a user-private group.
pub open spec fn groupadd_argv(gid: u32, name: Seq<char>) -> Seq<Seq<char>> {
    seq!["--gid"@, decimal_chars(gid as nat), name]
}

/// The `useradd` arguments for a mapping.
pub open spec fn useradd_argv(m: MappingView) -> Seq<Seq<char>> {
    seq![
        "--uid"@,
        decimal_chars(m.uid as nat),
        "--gid"@,
        decimal_chars(m.gid as nat),
        "--create-home"@,
        "--home-dir"@,
        m.home,
        "--shell"@,
        m.shell,
        "--comment"@,
        account_comment(m),
        m.username,
    ]
}


/// The account tools get the mapping's own numbers and names in place:
/// `--uid` is followed by the decimal uid and `--gid` by the decimal gid,
/// the home, shell, comment and user name follow their options, and the
/// group is created with its gid and name.
pub proof fn lemma_account_tool_arguments(m: MappingView, gid: u32, name: Seq<char>)
    ensures
        useradd_argv(m).len() == 12,
        useradd_argv(m)[0] == "--uid"@,
        useradd_argv(m)[1] == decimal_chars(m.uid as nat),
        useradd_argv(m)[2] == "--gid"@,
        useradd_argv(m)[3] == decimal_chars(m.gid as nat),
        useradd_argv(m)[4] == "--create-home"@,
        useradd_argv(m)[5] == "--home-dir"@,
        useradd_argv(m)[6] == m.home,
        useradd_argv(m)[7] == "--shell"@,
        useradd_argv(m)[8] == m.shell,
        useradd_argv(m)[9] == "--comment"@,
        useradd_argv(m)[10] == (if m.full_name.len() == 0 { m.username } else { m.full_name }),
        useradd_argv(m)[11] == m.username,
        groupadd_argv(gid, name) == seq!["--gid"@, decimal_chars(gid as nat), name],
{
}

/// Arguments for `groupadd` creating the group `name` with `gid`.
pub fn groupadd_args(gid: u32, name: &str) -> (r: Vec<String>)
    ensures
        string_views(r@) == groupadd_argv(gid, name@),
{
    let mut v: Vec<String> = Vec::new();
    v.push("--gid".to_owned());
    v.push(decimal_text(gid as u64));
    v.push(name.to_owned());
    assert(string_views(v@) =~= groupadd_argv(gid, name@));
    v
}

/// Arguments for `useradd` creating the mapped account with its home.
pub fn useradd_args(mapping: &PosixMapping) -> (r: Vec<String>)
    ensures
        string_views(r@) == useradd_argv(mapping@),
{
    let comment = if mapping.full_name.as_str().is_empty() {
        mapping.username.clone()
    } else {
        mapping.full_name.clone()
    };
    let mut v: Vec<String> = Vec::new();
    v.push("--uid".to_owned());
    v.push(decimal_text(mapping.uid as u64));
    v.push("--gid".to_owned());
    v.push(decimal_text(mapping.gid as u64));
    v.push("--create-home".to_owned());
    v.push("--home-dir".to_owned());
    v.push(mapping.home.clone());
    v.push("--shell".to_owned());
    v.push(mapping.shell.clone());
    v.push("--comment".to_owned());
    v.push(comment);
    v.push(mapping.username.clone());
    assert(string_views(v@) =~= useradd_argv(mapping@));
    v
}

/// One account's failed attempts, oldest first, in nanoseconds of the
/// caller's monotonic clock.
#[derive(Debug)]
struct Attempts {
    key: String,
    times: Vec<u64>,
}

/// Rate limiter for credential attempts: per local username, a fixed number
/// of failures within a window triggers a cooldown. Times are nanoseconds
/// of a monotonic clock the caller reads; in-process state only.
#[derive(Debug)]
pub struct RateLimiter {
    entries: Vec<Attempts>,
    max_failures: usize,
    window: u64,
    cooldown: u64,
}

#[derive(Clone, Copy, Debug, PartialEq, Eq, Structural)]
pub enum RateDecision {
    Allowed,
    Limited { retry_after_secs: u64 },
}

/// The content of one account's entry.
pub struct AttemptsView {
    pub key: Seq<char>,
    pub times: Seq<u64>,
}

/// The content of a rate limiter.
pub struct LimiterView {
    pub entries: Seq<AttemptsView>,
    pub max_failures: usize,
    pub window: u64,
    pub cooldown: u64,
}

spec fn entry_views(entries: Seq<Attempts>) -> Seq<AttemptsView> {
    entries.map_values(|e: Attempts| AttemptsView { key: e.key@, times: e.times@ })
}

impl View for RateLimiter {
    type V = LimiterView;

    closed spec fn view(&self) -> LimiterView {
        LimiterView {
            entries: entry_views(self.entries@),
            max_failures: self.max_failures,
            window: self.window,
            cooldown: self.cooldown,
        }
    }
}

/// No account has two entries.
pub open spec fn keys_distinct(entries: Seq<AttemptsView>) -> bool {
    forall|i: int, j: int|
        0 <= i < entries.len() && 0 <= j < entries.len() && i != j ==> #[trigger] entries[i].key
            != #[trigger] entries[j].key
}

/// The failed attempts recorded for `key`.
pub open spec fn attempts_of(entries: Seq<AttemptsView>, key: Seq<char>) -> Seq<u64> {
    if exists|i: int| 0 <= i < entries.len() && #[trigger] entries[i].key == key {
        entries[choose|i: int| 0 <= i < entries.len() && #[trigger] entries[i].key == key].times
    } else {
        Seq::empty()
    }
}

/// How long ago `t` was at `now`; never negative (the clock is monotonic,
/// and a later time counts as just now).
pub open spec fn age(now: u64, t: u64) -> u64 {
    if now >= t {
        (now - t) as u64
    } else {
        0
    }
}

/// The attempts still inside the window at `now`, in order.
pub open spec fn recent(ts: Seq<u64>, now: u64, window: u64) -> Seq<u64>
    decreases ts.len(),
{
    if ts.len() == 0 {
        Seq::empty()
    } else if age(now, ts.last()) < window {
        recent(ts.drop_last(), now, window).push(ts.last())
    } else {
        recent(ts.drop_last(), now, window)
    }
}

/// Whole seconds until the cooldown since `oldest` ends, plus one.
pub open spec fn retry_after(oldest: u64, now: u64, cooldown: u64) -> u64 {
    let remaining = if cooldown >= age(now, oldest) {
        (cooldown - age(now, oldest)) as u64
    } else {
        0u64
    };
    (remaining / 1_000_000_000 + 1) as u64
}

/// The decision for an account with these recent failures.
pub open spec fn rate_decision(kept: Seq<u64>, max_failures: usize, now: u64, cooldown: u64) -> RateDecision {
    if kept.len() >= max_failures {
        RateDecision::Limited {
            retry_after_secs: retry_after(if kept.len() > 0 { kept[0] } else { now }, now, cooldown),
        }
    } else {
        RateDecision::Allowed
    }
}

proof fn lemma_attempts_at(entries: Seq<AttemptsView>, i: int)
    requires
        keys_distinct(entries),
        0 <= i < entries.len(),
    ensures
        attempts_of(entries, entries[i].key) == entries[i].times,
{
    let k = choose|j: int| 0 <= j < entries.len() && #[trigger] entries[j].key == entries[i].key;
    assert(entries[k].key == entries[i].key);
}

fn copy_times(v: &Vec<u64>) -> (r: Vec<u64>)
    ensures
        r@ == v@,
{
    let mut out: Vec<u64> = Vec::new();
    let mut i: usize = 0;
    while i < v.len()
        invariant
            i <= v@.len(),
            out@ == v@.subrange(0, i as int),
        decreases v@.len() - i,
    {
        out.push(v[i]);
        i = i + 1;
        assert(out@ =~= v@.subrange(0, i as int));
    }
    assert(v@.subrange(0, v@.len() as int) =~= v@);
    out
}

impl RateLimiter {
    /// No account has two entries.
    pub closed spec fn wf(&self) -> bool {
        keys_distinct(self@.entries)
    }

    /// `max_failures` failures within `window` nanoseconds limit the
    /// account for `cooldown` nanoseconds from its oldest counted failure.
    pub fn new(max_failures: usize, window: u64, cooldown: u64) -> (r: RateLimiter)
        ensures
            r.wf(),
            r@.entries.len() == 0,
            r@.max_failures == max_failures,
            r@.window == window,
            r@.cooldown == cooldown,
    {
        let r = RateLimiter { entries: Vec::new(), max_failures, window, cooldown };
        assert(r@.entries =~= Seq::<AttemptsView>::empty());
        r
    }

    fn find(&self, key: &str) -> (r: Option<usize>)
        requires
            self.wf(),
        ensures
            r is None ==> forall|i: int| 0 <= i < self@.entries.len() ==> self@.entries[i].key != key@,
            r matches Some(i) ==> i < self@.entries.len() && self@.entries[i as int].key == key@,
    {
        let mut i: usize = 0;
        while i < self.entries.len()
            invariant
                i <= self@.entries.len(),
                self@.entries == entry_views(self.entries@),
                forall|j: int| 0 <= j < i ==> self@.entries[j].key != key@,
            decreases self@.entries.len() - i,
        {
            if str_eq(self.entries[i].key.as_str(), key) {
                return Some(i);
            }
            i = i + 1;
        }
        None
    }

    /// The index of `key`'s entry, adding an empty one when there is none.
    fn slot(&mut self, key: &str) -> (r: usize)
        requires
            old(self).wf(),
        ensures
            final(self).wf(),
            r < final(self)@.entries.len(),
            final(self)@.entries[r as int].key == key@,
            final(self)@.max_failures == old(self)@.max_failures,
            final(self)@.window == old(self)@.window,
            final(self)@.cooldown == old(self)@.cooldown,
            forall|k: Seq<char>| attempts_of(final(self)@.entries, k) == attempts_of(old(self)@.entries, k),
    {
        match self.find(key) {
            Some(i) => i,
            None => {
                let ghost before = self@.entries;
                self.entries.push(Attempts { key: key.to_owned(), times: Vec::new() });
                let ghost after = self@.entries;
                assert(after =~= before.push(AttemptsView { key: key@, times: Seq::empty() }));
                assert forall|k: Seq<char>| attempts_of(after, k) == attempts_of(before, k) by {
                    if exists|i: int| 0 <= i < before.len() && #[trigger] before[i].key == k {
                        let i = choose|i: int| 0 <= i < before.len() && #[trigger] before[i].key == k;
                        assert(after[i] == before[i]);
                        lemma_attempts_at(before, i);
                        lemma_attempts_at(after, i);
                    } else if k == key@ {
                        lemma_attempts_at(after, before.len() as int);
                    } else {
                        assert forall|i: int| 0 <= i < after.len() implies #[trigger] after[i].key != k by {
                            if i < before.len() {
                                assert(after[i] == before[i]);
                            }
                        }
                    }
                }
                self.entries.len() - 1
            },
        }
    }

    /// Replace the attempts at `i`.
    fn put(&mut self, i: usize, times: Vec<u64>)
        requires
            old(self).wf(),
            i < old(self)@.entries.len(),
        ensures
            final(self).wf(),
            final(self)@.max_failures == old(self)@.max_failures,
            final(self)@.window == old(self)@.window,
            final(self)@.cooldown == old(self)@.cooldown,
            forall|k: Seq<char>|
                #[trigger] attempts_of(final(self)@.entries, k) == if k == old(self)@.entries[i as int].key {
                    times@
                } else {
                    attempts_of(old(self)@.entries, k)
                },
    {
        let ghost before = self@.entries;
        let key = self.entries[i].key.clone();
        self.entries.set(i, Attempts { key, times });
        let ghost after = self@.entries;
        assert(after =~= before.update(
            i as int,
            AttemptsView { key: before[i as int].key, times: times@ },
        ));
        assert(keys_distinct(after)) by {
            assert forall|a: int, b: int|
                0 <= a < after.len() && 0 <= b < after.len() && a != b implies #[trigger] after[a].key
                != #[trigger] after[b].key by {
                assert(after[a].key == before[a].key);
                assert(after[b].key == before[b].key);
            }
        }
        assert forall|k: Seq<char>|
            #[trigger] attempts_of(after, k) == if k == before[i as int].key {
                times@
            } else {
                attempts_of(before, k)
            } by {
            if k == before[i as int].key {
                lemma_attempts_at(after, i as int);
            } else if exists|j: int| 0 <= j < before.len() && #[trigger] before[j].key == k {
                let j = choose|j: int| 0 <= j < before.len() && #[trigger] before[j].key == k;
                lemma_attempts_at(before, j);
                lemma_attempts_at(after, j);
            } else {
                assert forall|j: int| 0 <= j < after.len() implies #[trigger] after[j].key != k by {
                    assert(after[j].key == before[j].key);
                }
            }
        }
    }

    /// Drop the failures that left the window at `now`, then decide. The
    /// account is limited once `max_failures` failures remain; the retry
    /// hint counts from the oldest of them.
    pub fn check(&mut self, key: &str, now: u64) -> (r: RateDecision)
        requires
            old(self).wf(),
        ensures
            final(self).wf(),
            final(self)@.max_failures == old(self)@.max_failures,
            final(self)@.window == old(self)@.window,
            final(self)@.cooldown == old(self)@.cooldown,
            forall|k: Seq<char>|
                #[trigger] attempts_of(final(self)@.entries, k) == if k == key@ {
                    recent(attempts_of(old(self)@.entries, k), now, old(self)@.window)
                } else {
                    attempts_of(old(self)@.entries, k)
                },
            r == rate_decision(
                recent(attempts_of(old(self)@.entries, key@), now, old(self)@.window),
                old(self)@.max_failures,
                now,
                old(self)@.cooldown,
            ),
    {
        let i = self.slot(key);
        proof {
            lemma_attempts_at(self@.entries, i as int);
        }
        let window = self.window;
        let times = &self.entries[i].times;
        let ghost all = times@;
        let mut kept: Vec<u64> = Vec::new();
        let mut j: usize = 0;
        while j < times.len()
            invariant
                all == times@,
                j <= all.len(),
                kept@ == recent(all.subrange(0, j as int), now, window),
            decreases all.len() - j,
        {
            proof {
                assert(all.subrange(0, j + 1).drop_last() =~= all.subrange(0, j as int));
            }
            let t = times[j];
            let elapsed = if now >= t {
                now - t
            } else {
                0
            };
            if elapsed < window {
                kept.push(t);
            }
            j = j + 1;
        }
        assert(all.subrange(0, all.len() as int) =~= all);
        let count = kept.len();
        let oldest = if count > 0 {
            kept[0]
        } else {
            now
        };
        self.put(i, kept);
        if count >= self.max_failures {
            let elapsed = if now >= oldest {
                now - oldest
            } else {
                0
            };
            let remaining = if self.cooldown >= elapsed {
                self.cooldown - elapsed
            } else {
                0
            };
            return RateDecision::Limited { retry_after_secs: remaining / 1_000_000_000 + 1 };
        }
        RateDecision::Allowed
    }

    /// Record a failed attempt for `key` at `now`.
    pub fn record_failure(&mut self, key: &str, now: u64)
        requires
            old(self).wf(),
        ensures
            final(self).wf(),
            final(self)@.max_failures == old(self)@.max_failures,
            final(self)@.window == old(self)@.window,
            final(self)@.cooldown == old(self)@.cooldown,
            forall|k: Seq<char>|
                #[trigger] attempts_of(final(self)@.entries, k) == if k == key@ {
                    attempts_of(old(self)@.entries, k).push(now)
                } else {
                    attempts_of(old(self)@.entries, k)
                },
    {
        let i = self.slot(key);
        proof {
            lemma_attempts_at(self@.entries, i as int);
        }
        let mut times = copy_times(&self.entries[i].times);
        times.push(now);
        self.put(i, times);
    }

    /// A success clears `key`'s failures.
    pub fn record_success(&mut self, key: &str)
        requires
            old(self).wf(),
        ensures
            final(self).wf(),
            final(self)@.max_failures == old(self)@.max_failures,
            final(self)@.window == old(self)@.window,
            final(self)@.cooldown == old(self)@.cooldown,
            forall|k: Seq<char>|
                #[trigger] attempts_of(final(self)@.entries, k) == if k == key@ {
                    Seq::<u64>::empty()
                } else {
                    attempts_of(old(self)@.entries, k)
                },
    {
        match self.find(key) {
            None => {
                assert forall|k: Seq<char>|
                    #[trigger] attempts_of(self@.entries, k) == if k == key@ {
                        Seq::<u64>::empty()
                    } else {
                        attempts_of(self@.entries, k)
                    } by {
                }
            },
            Some(i) => {
                let ghost before = self@.entries;
                self.entries.remove(i);
                let ghost after = self@.entries;
                assert(after =~= before.remove(i as int));
                assert(keys_distinct(after)) by {
                    assert forall|a: int, b: int|
                        0 <= a < after.len() && 0 <= b < after.len() && a != b implies #[trigger] after[a].key
                        != #[trigger] after[b].key by {
                        let a2 = if a < i { a } else { a + 1 };
                        let b2 = if b < i { b } else { b + 1 };
                        assert(after[a] == before[a2]);
                        assert(after[b] == before[b2]);
                    }
                }
                assert forall|k: Seq<char>|
                    #[trigger] attempts_of(after, k) == if k == key@ {
                        Seq::<u64>::empty()
                    } else {
                        attempts_of(before, k)
                    } by {
                    if k == key@ {
                        assert forall|j: int| 0 <= j < after.len() implies #[trigger] after[j].key != k by {
                            let j2 = if j < i { j } else { j + 1 };
                            assert(after[j] == before[j2]);
                        }
                    } else if exists|j: int| 0 <= j < before.len() && #[trigger] before[j].key == k {
                        let j = choose|j: int| 0 <= j < before.len() && #[trigger] before[j].key == k;
                        lemma_attempts_at(before, j);
                        let j3 = if j < i { j } else { j - 1 };
                        assert(after[j3] == before[j]);
                        lemma_attempts_at(after, j3);
                    } else {
                        assert forall|j: int| 0 <= j < after.len() implies #[trigger] after[j].key != k by {
                            let j2 = if j < i { j } else { j + 1 };
                            assert(after[j] == before[j2]);
                        }
                    }
                }
            },
        }
    }
}

/// The lines of `s`, as `str::lines`: split at line feeds, a final line
/// feed ends the last line rather than starting an empty one, and a
/// line ended by a line feed loses one carriage return before it.
pub open spec fn lines_of(s: Seq<char>) -> Seq<Seq<char>> {
    let pieces = split_on(s, '\n');
    let n = pieces.len();
    let ended = pieces.subrange(0, n - 1).map_values(|p: Seq<char>| strip_cr(p));
    if s.len() == 0 {
        Seq::empty()
    } else if s.last() == '\n' {
        ended
    } else {
        ended.push(pieces[n - 1])
    }
}

/// A line without one trailing carriage return.
pub open spec fn strip_cr(p: Seq<char>) -> Seq<char> {
    if p.len() > 0 && p.last() == '\r' {
        p.drop_last()
    } else {
        p
    }
}

/// The password hash field of `username` in shadow-file text: the first
/// line whose name field is `username` decides; its second field, when
/// present and not empty.
pub open spec fn shadow_setting(shadow: Seq<char>, username: Seq<char>) -> Option<Seq<char>> {
    let lines = lines_of(shadow);
    if exists|i: int| 0 <= i < lines.len() && #[trigger] split_on(lines[i], ':')[0] == username {
        let i = choose|i: int|
            0 <= i < lines.len() && #[trigger] split_on(lines[i], ':')[0] == username && forall|j: int|
                0 <= j < i ==> split_on(lines[j], ':')[0] != username;
        let f = split_on(lines[i], ':');
        if f.len() >= 2 && f[1].len() > 0 {
            Some(f[1])
        } else {
            None
        }
    } else {
        None
    }
}

fn strip_cr_text(p: &str) -> (r: &str)
    ensures
        r@ == strip_cr(p@),
{
    let n = p.unicode_len();
    if n > 0 && p.get_char(n - 1) == '\r' {
        p.substring_char(0, n - 1)
    } else {
        p
    }
}

proof fn lemma_split_ends(s: Seq<char>, sep: char)
    ensures
        split_on(s, sep).len() >= 1,
        s.len() > 0 && s.last() == sep ==> split_on(s, sep).last() == Seq::<char>::empty(),
    decreases s.len(),
{
    if s.len() > 0 {
        lemma_split_ends(s.drop_last(), sep);
    }
}

/// The password hash of `username` in the text of `/etc/shadow`.
pub fn shadow_hash_in<'a>(shadow: &'a str, username: &str) -> (r: Option<&'a str>)
    ensures
        opt_str_view(r) == shadow_setting(shadow@, username@),
{
    let pieces = split_text(shadow, '\n');
    let ghost all = str_views(pieces@);
    let ghost lines = lines_of(shadow@);
    proof {
        lemma_split_ends(shadow@, '\n');
    }
    let n = pieces.len();
    let count = if shadow.unicode_len() == 0 {
        0
    } else if shadow.get_char(shadow.unicode_len() - 1) == '\n' {
        n - 1
    } else {
        n
    };
    assert(count == lines.len());
    let mut i: usize = 0;
    while i < count
        invariant
            all == str_views(pieces@),
            all == split_on(shadow@, '\n'),
            lines == lines_of(shadow@),
            count == lines.len(),
            n == all.len(),
            count <= n,
            i <= count,
            forall|j: int| 0 <= j < i ==> split_on(#[trigger] lines[j], ':')[0] != username@,
            forall|j: int| 0 <= j < count && j < n - 1 ==> #[trigger] lines[j] == strip_cr(all[j]),
            count == n ==> lines[n - 1] == all[n - 1],
        decreases count - i,
    {
        let line = if i + 1 < n {
            strip_cr_text(pieces[i])
        } else {
            pieces[i]
        };
        assert(line@ == lines[i as int]);
        let fields = split_text(line, ':');
        proof {
            lemma_split_ends(line@, ':');
        }
        assert(fields@[0]@ == str_views(fields@)[0]);
        if str_eq(fields[0], username) {
            proof {
                let k = choose|k: int|
                    0 <= k < lines.len() && #[trigger] split_on(lines[k], ':')[0] == username@ && forall|j: int|
                        0 <= j < k ==> split_on(lines[j], ':')[0] != username@;
                assert(k == i) by {
                    if k < i {
                    } else if k > i {
                    }
                }
            }
            if fields.len() < 2 {
                return None;
            }
            let hash = fields[1];
            assert(hash@ == str_views(fields@)[1]);
            if hash.unicode_len() == 0 {
                return None;
            }
            return Some(hash);
        }
        i = i + 1;
    }
    None
}

/// A setting that can verify: locked (`!`) and disabled (`*`) entries
/// never do.
pub open spec fn setting_usable(setting: Seq<char>) -> bool {
    !has_prefix(setting, "!"@) && !has_prefix(setting, "*"@)
}

/// Verify a local account password against the shadow-file text: look up
/// the account's hash, refuse locked and disabled accounts, hash the
/// presented password with `crypt` under the stored setting and compare in
/// constant time. `crypt` is `crypt(3)`; `None` means it failed. Unknown
/// accounts and every failure deny.
pub fn verify_local_password<F: FnOnce(&str, &str) -> Option<String>>(
    shadow: &str,
    username: &str,
    password: &str,
    crypt: F,
) -> (r: bool)
    requires
        forall|setting: &str, key: &str| call_requires(crypt, (setting, key)),
    ensures
        match shadow_setting(shadow@, username@) {
            None => !r,
            Some(setting) => if !setting_usable(setting) {
                !r
            } else {
                exists|s: &str, k: &str, out: Option<String>|
                    s@ == setting && k@ == password@ && call_ensures(crypt, (s, k), out) && r == (out matches Some(
                        c,
                    ) && c@ == setting)
            },
        },
{
    let setting = match shadow_hash_in(shadow, username) {
        Some(setting) => setting,
        None => return false,
    };
    if starts_with_text(setting, "!") || starts_with_text(setting, "*") {
        return false;
    }
    let out = crypt(setting, password);
    let computed = match &out {
        Some(c) => c.as_str(),
        None => return false,
    };
    let same = constant_time_eq(computed.as_bytes(), setting.as_bytes());
    proof {
        crate::text::lemma_bytes_eq_iff_chars_eq(computed@, setting@);
    }
    same
}

/// Credential attempts allowed per account before the cooldown.
pub const MAX_CREDENTIAL_FAILURES: usize = 5;

/// The attempt window and the cooldown: fifteen minutes, in nanoseconds.
pub const CREDENTIAL_WINDOW_NANOS: u64 = 900_000_000_000;

/// An account's failures after one verification at `now` whose password
/// check would answer `check_ok`: a limited account keeps its recent
/// failures and is not checked; otherwise a success clears them and a
/// failure is added.
pub open spec fn verify_step(
    attempts: Seq<u64>,
    now: u64,
    check_ok: bool,
    max_failures: usize,
    window: u64,
    cooldown: u64,
) -> Seq<u64> {
    let kept = recent(attempts, now, window);
    if rate_decision(kept, max_failures, now, cooldown) is Limited {
        kept
    } else if check_ok {
        Seq::empty()
    } else {
        kept.push(now)
    }
}

/// The answer of that verification: the password check's, unless the
/// account is limited.
pub open spec fn verify_answer(
    attempts: Seq<u64>,
    now: u64,
    check_ok: bool,
    max_failures: usize,
    window: u64,
    cooldown: u64,
) -> bool {
    rate_decision(recent(attempts, now, window), max_failures, now, cooldown) is Allowed && check_ok
}

/// An account's failures after a run of verifications with the credential
/// limits, each a time and what the password check would answer.
pub open spec fn verify_run(attempts: Seq<u64>, calls: Seq<(u64, bool)>) -> Seq<u64>
    decreases calls.len(),
{
    if calls.len() == 0 {
        attempts
    } else {
        verify_step(
            verify_run(attempts, calls.drop_last()),
            calls.last().0,
            calls.last().1,
            MAX_CREDENTIAL_FAILURES,
            CREDENTIAL_WINDOW_NANOS,
            CREDENTIAL_WINDOW_NANOS,
        )
    }
}

/// The password check is consulted at `now`: the account is not limited.
pub open spec fn consulted(attempts: Seq<u64>, now: u64) -> bool {
    rate_decision(
        recent(attempts, now, CREDENTIAL_WINDOW_NANOS),
        MAX_CREDENTIAL_FAILURES,
        now,
        CREDENTIAL_WINDOW_NANOS,
    ) is Allowed
}

/// The times of a run of verifications.
pub open spec fn call_times(calls: Seq<(u64, bool)>) -> Seq<u64> {
    calls.map_values(|c: (u64, bool)| c.0)
}

/// Credential verification with rate limiting, for the PAM decision path.
#[derive(Debug)]
pub struct CredentialVerifier {
    pub limiter: RateLimiter,
}

impl CredentialVerifier {
    /// Five failures within fifteen minutes lock an account for fifteen
    /// minutes.
    pub fn new() -> (r: CredentialVerifier)
        ensures
            r.limiter.wf(),
            r.limiter@.entries.len() == 0,
            r.limiter@.max_failures == MAX_CREDENTIAL_FAILURES,
            r.limiter@.window == CREDENTIAL_WINDOW_NANOS,
            r.limiter@.cooldown == CREDENTIAL_WINDOW_NANOS,
    {
        CredentialVerifier {
            limiter: RateLimiter::new(MAX_CREDENTIAL_FAILURES, CREDENTIAL_WINDOW_NANOS, CREDENTIAL_WINDOW_NANOS),
        }
    }

    /// Check a password for `local_username` at `now`: a limited account is
    /// denied without consulting `check_password`; otherwise its answer
    /// decides, a success clears the account's failures and a failure is
    /// recorded. A limited attempt leaves no detail for the client.
    pub fn verify<F: FnOnce(&str, &str) -> bool>(
        &mut self,
        local_username: &str,
        password: &str,
        now: u64,
        check_password: F,
    ) -> (r: bool)
        requires
            old(self).limiter.wf(),
            forall|u: &str, p: &str| call_requires(check_password, (u, p)),
        ensures
            final(self).limiter.wf(),
            final(self).limiter@.max_failures == old(self).limiter@.max_failures,
            final(self).limiter@.window == old(self).limiter@.window,
            final(self).limiter@.cooldown == old(self).limiter@.cooldown,
            ({
                let kept = recent(
                    attempts_of(old(self).limiter@.entries, local_username@),
                    now,
                    old(self).limiter@.window,
                );
                if rate_decision(kept, old(self).limiter@.max_failures, now, old(self).limiter@.cooldown)
                    is Limited {
                    !r && attempts_of(final(self).limiter@.entries, local_username@) == kept
                } else {
                    (exists|u: &str, p: &str|
                        u@ == local_username@ && p@ == password@ && call_ensures(
                            check_password,
                            (u, p),
                            r,
                        )) && attempts_of(final(self).limiter@.entries, local_username@) == (if r {
                        Seq::<u64>::empty()
                    } else {
                        kept.push(now)
                    })
                }
            }),
            exists|check_ok: bool|
                r == verify_answer(
                    attempts_of(old(self).limiter@.entries, local_username@),
                    now,
                    check_ok,
                    old(self).limiter@.max_failures,
                    old(self).limiter@.window,
                    old(self).limiter@.cooldown,
                ) && attempts_of(final(self).limiter@.entries, local_username@) == verify_step(
                    attempts_of(old(self).limiter@.entries, local_username@),
                    now,
                    check_ok,
                    old(self).limiter@.max_failures,
                    old(self).limiter@.window,
                    old(self).limiter@.cooldown,
                ),
            forall|k: Seq<char>|
                k != local_username@ ==> #[trigger] attempts_of(final(self).limiter@.entries, k)
                    == attempts_of(old(self).limiter@.entries, k),
    {
        let ghost attempts = attempts_of(self.limiter@.entries, local_username@);
        let ghost (m, w, c) = (self.limiter@.max_failures, self.limiter@.window, self.limiter@.cooldown);
        match self.limiter.check(local_username, now) {
            RateDecision::Limited { retry_after_secs: _ } => {
                assert(!verify_answer(attempts, now, false, m, w, c));
                return false;
            },
            RateDecision::Allowed => {},
        }
        let ok = check_password(local_username, password);
        if ok {
            self.limiter.record_success(local_username);
        } else {
            self.limiter.record_failure(local_username, now);
        }
        assert(verify_answer(attempts, now, ok, m, w, c) == ok);
        ok
    }
}

/// Failures that left the window stop counting; failures inside it all
/// count.
proof fn lemma_recent_append(a: Seq<u64>, b: Seq<u64>, now: u64, window: u64)
    ensures
        recent(a + b, now, window) == recent(a, now, window) + recent(b, now, window),
    decreases b.len(),
{
    if b.len() == 0 {
        assert(a + b =~= a);
        assert(recent(a, now, window) + recent(b, now, window) =~= recent(a, now, window));
    } else {
        lemma_recent_append(a, b.drop_last(), now, window);
        assert((a + b).drop_last() =~= a + b.drop_last());
        if age(now, b.last()) < window {
            assert(recent(a, now, window) + recent(b.drop_last(), now, window).push(b.last())
                =~= (recent(a, now, window) + recent(b.drop_last(), now, window)).push(b.last()));
        }
    }
}

proof fn lemma_recent_all(b: Seq<u64>, now: u64, window: u64)
    requires
        forall|i: int| 0 <= i < b.len() ==> age(now, #[trigger] b[i]) < window,
    ensures
        recent(b, now, window) == b,
    decreases b.len(),
{
    if b.len() > 0 {
        lemma_recent_all(b.drop_last(), now, window);
        assert(b.drop_last().push(b.last()) =~= b);
    }
}

/// Lockout: whatever came before, when an account's latest
/// `max_failures` failures all fall inside the window at `now`, the check
/// at `now` limits it.
pub proof fn lemma_failures_in_window_limit(
    earlier: Seq<u64>,
    latest: Seq<u64>,
    now: u64,
    window: u64,
    max_failures: usize,
    cooldown: u64,
)
    requires
        latest.len() == max_failures,
        forall|i: int| 0 <= i < latest.len() ==> age(now, #[trigger] latest[i]) < window,
    ensures
        rate_decision(recent(earlier + latest, now, window), max_failures, now, cooldown) is Limited,
{
    lemma_recent_append(earlier, latest, now, window);
    lemma_recent_all(latest, now, window);
}

proof fn lemma_recent_none(b: Seq<u64>, now: u64, window: u64)
    requires
        forall|i: int| 0 <= i < b.len() ==> age(now, #[trigger] b[i]) >= window,
    ensures
        recent(b, now, window) == Seq::<u64>::empty(),
    decreases b.len(),
{
    if b.len() > 0 {
        lemma_recent_none(b.drop_last(), now, window);
    }
}

/// A limited account is told to retry after at least one second and at
/// most one second past the whole cooldown.
pub proof fn lemma_retry_after_bounded(kept: Seq<u64>, max_failures: usize, now: u64, cooldown: u64)
    ensures
        rate_decision(kept, max_failures, now, cooldown) matches RateDecision::Limited {
            retry_after_secs,
        } ==> 1 <= retry_after_secs <= cooldown / 1_000_000_000 + 1,
{
    let oldest = if kept.len() > 0 {
        kept[0]
    } else {
        now
    };
    let remaining: int = if cooldown >= age(now, oldest) {
        cooldown - age(now, oldest)
    } else {
        0
    };
    vstd::arithmetic::div_mod::lemma_div_is_ordered(remaining, cooldown as int, 1_000_000_000);
    vstd::arithmetic::div_mod::lemma_div_pos_is_pos(remaining, 1_000_000_000);
}

/// Failures then a check: whatever failures lie outside the window at
/// `now` never count; with `failures` all inside it, the check allows the
/// account while there are fewer than `max_failures` of them, and
/// otherwise limits it with a retry hint between one second and the
/// cooldown plus one second. After `new` and a `record_failure` at each
/// time of `failures`, `earlier` is empty and the account's attempts are
/// exactly `failures`.
pub proof fn lemma_failures_then_check(
    earlier: Seq<u64>,
    failures: Seq<u64>,
    now: u64,
    window: u64,
    max_failures: usize,
    cooldown: u64,
)
    requires
        forall|i: int| 0 <= i < earlier.len() ==> age(now, #[trigger] earlier[i]) >= window,
        forall|i: int| 0 <= i < failures.len() ==> age(now, #[trigger] failures[i]) < window,
    ensures
        recent(earlier + failures, now, window) == failures,
        failures.len() < max_failures ==> rate_decision(
            recent(earlier + failures, now, window),
            max_failures,
            now,
            cooldown,
        ) == RateDecision::Allowed,
        failures.len() >= max_failures ==> (rate_decision(
            recent(earlier + failures, now, window),
            max_failures,
            now,
            cooldown,
        ) matches RateDecision::Limited { retry_after_secs } && 1 <= retry_after_secs <= cooldown
            / 1_000_000_000 + 1),
{
    lemma_recent_append(earlier, failures, now, window);
    lemma_recent_none(earlier, now, window);
    lemma_recent_all(failures, now, window);
    assert(Seq::<u64>::empty() + failures =~= failures);
    lemma_retry_after_bounded(failures, max_failures, now, cooldown);
}

proof fn lemma_run_ends_with_failures(attempts: Seq<u64>, calls: Seq<(u64, bool)>, now: u64, i: int) -> (p:
    Seq<u64>)
    requires
        0 <= i <= calls.len(),
        calls.len() > 0,
        forall|j: int| 0 <= j < calls.len() ==> !(#[trigger] calls[j]).1,
        forall|j: int, k: int| 0 <= j <= k < calls.len() ==> calls[j].0 <= calls[k].0,
        forall|j: int| 0 <= j < calls.len() ==> (#[trigger] calls[j]).0 <= now,
        age(now, calls[0].0) < CREDENTIAL_WINDOW_NANOS,
        forall|j: int|
            #![trigger calls[j]]
            0 <= j < calls.len() ==> consulted(verify_run(attempts, calls.take(j)), calls[j].0),
    ensures
        verify_run(attempts, calls.take(i)) == p + call_times(calls.take(i)),
    decreases i,
{
    if i == 0 {
        assert(calls.take(0) =~= Seq::<(u64, bool)>::empty());
        assert(attempts + call_times(calls.take(0)) =~= attempts);
        assert(verify_run(attempts, calls.take(0)) == attempts + call_times(calls.take(0)));
        attempts
    } else {
        let p = lemma_run_ends_with_failures(attempts, calls, now, i - 1);
        let prev = verify_run(attempts, calls.take(i - 1));
        let t = calls[i - 1].0;
        assert(calls.take(i).drop_last() =~= calls.take(i - 1));
        assert(calls.take(i).last() == calls[i - 1]);
        let before = call_times(calls.take(i - 1));
        assert forall|j: int| 0 <= j < before.len() implies age(t, #[trigger] before[j])
            < CREDENTIAL_WINDOW_NANOS by {
            assert(before[j] == calls[j].0);
            assert(calls[0].0 <= calls[j].0 <= t);
        }
        lemma_recent_append(p, before, t, CREDENTIAL_WINDOW_NANOS);
        lemma_recent_all(before, t, CREDENTIAL_WINDOW_NANOS);
        assert(consulted(prev, t));
        let q = recent(p, t, CREDENTIAL_WINDOW_NANOS);
        assert(call_times(calls.take(i)) =~= before.push(t));
        assert((q + before).push(t) =~= q + call_times(calls.take(i)));
        assert(verify_run(attempts, calls.take(i)) == q + call_times(calls.take(i)));
        q
    }
}

/// Credential lockout: once five password checks for an account have
/// failed, each consulted because the account was not limited yet, at
/// times within fifteen minutes of `now`, a verification at `now` answers
/// false whatever the password, and the check is not consulted. Other
/// accounts are untouched by every verification (the `verify` contract).
pub proof fn lemma_five_failures_lock(attempts: Seq<u64>, calls: Seq<(u64, bool)>, now: u64, check_ok: bool)
    requires
        calls.len() == MAX_CREDENTIAL_FAILURES,
        forall|j: int| 0 <= j < calls.len() ==> !(#[trigger] calls[j]).1,
        forall|j: int, k: int| 0 <= j <= k < calls.len() ==> calls[j].0 <= calls[k].0,
        forall|j: int| 0 <= j < calls.len() ==> (#[trigger] calls[j]).0 <= now,
        age(now, calls[0].0) < CREDENTIAL_WINDOW_NANOS,
        forall|j: int|
            #![trigger calls[j]]
            0 <= j < calls.len() ==> consulted(verify_run(attempts, calls.take(j)), calls[j].0),
    ensures
        !consulted(verify_run(attempts, calls), now),
        !verify_answer(
            verify_run(attempts, calls),
            now,
            check_ok,
            MAX_CREDENTIAL_FAILURES,
            CREDENTIAL_WINDOW_NANOS,
            CREDENTIAL_WINDOW_NANOS,
        ),
{
    let p = lemma_run_ends_with_failures(attempts, calls, now, calls.len() as int);
    assert(calls.take(calls.len() as int) =~= calls);
    let times = call_times(calls);
    assert forall|j: int| 0 <= j < times.len() implies age(now, #[trigger] times[j])
        < CREDENTIAL_WINDOW_NANOS by {
        assert(times[j] == calls[j].0);
        assert(calls[0].0 <= calls[j].0 <= now);
    }
    lemma_failures_in_window_limit(
        p,
        times,
        now,
        CREDENTIAL_WINDOW_NANOS,
        MAX_CREDENTIAL_FAILURES,
        CREDENTIAL_WINDOW_NANOS,
    );
}

/// A success resets: right after it the account has no failures, so with
/// any positive limit the next check allows it.
pub proof fn lemma_success_clears(now: u64, window: u64, max_failures: usize, cooldown: u64)
    requires
        max_failures > 0,
    ensures
        rate_decision(recent(Seq::<u64>::empty(), now, window), max_failures, now, cooldown)
            == RateDecision::Allowed,
{
}

} // verus!
