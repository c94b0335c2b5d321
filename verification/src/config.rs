//! The configuration snapshot: a key–value policy table, the alias table,
//! and the paths the catalog was loaded from, together with the
//! last-access rendering and staleness policy.
//!
//! Reading configuration and database files is the caller's concern; a
//! `Config` is built from plain values. Rendering a timestamp goes
//! through the chrono crate behind trusted wrappers; which rendering is
//! chosen is decided here and verified.
use vstd::prelude::*;
use vstd::string::StrSliceExecFns;

use chrono::TimeZone;
use std::fmt::Write;

use crate::db::jsondb::JsonDB;
use crate::utils::{lower_of, str_eq, str_starts_with, str_ends_with, to_lowercase};

verus! {

/// One configuration value: a flag, a free string, or a number.
#[derive(Debug, PartialEq, Eq)]
pub enum EnvValue {
    Bool(bool),
    Var(String),
    Value(i32),
}

impl Clone for EnvValue {
    fn clone(&self) -> (res: Self)
        ensures
            res == *self,
    {
        match self {
            EnvValue::Bool(b) => EnvValue::Bool(*b),
            EnvValue::Var(s) => EnvValue::Var(s.clone()),
            EnvValue::Value(v) => EnvValue::Value(*v),
        }
    }
}

/// Index of the first entry under `key` among the first `n`.
pub open spec fn env_idx(es: Seq<(String, EnvValue)>, key: Seq<char>, n: int) -> Option<int>
    decreases n,
{
    if n <= 0 {
        None
    } else {
        match env_idx(es, key, n - 1) {
            Some(i) => Some(i),
            None => if es[n - 1].0@ == key {
                Some(n - 1)
            } else {
                None
            },
        }
    }
}

/// The first value stored under `key`, if any.
pub open spec fn env_val(es: Seq<(String, EnvValue)>, key: Seq<char>) -> Option<EnvValue> {
    match env_idx(es, key, es.len() as int) {
        Some(i) => Some(es[i].1),
        None => None,
    }
}

/// A first match within a prefix stays the first match of any longer
/// prefix.
pub proof fn lemma_env_idx_extend(es: Seq<(String, EnvValue)>, key: Seq<char>, m: int, n: int)
    requires
        0 <= m <= n,
        env_idx(es, key, m) is Some,
    ensures
        env_idx(es, key, n) == env_idx(es, key, m),
    decreases n,
{
    if n > m {
        lemma_env_idx_extend(es, key, m, n - 1);
    }
}

/// The staleness bound in seconds: the configured number, or one day.
pub open spec fn reload_duration_secs(es: Seq<(String, EnvValue)>) -> u64 {
    match env_val(es, "last_access_reload_duration_secs"@) {
        Some(EnvValue::Value(t)) => t as u64,
        _ => 86400,
    }
}

/// The latest epoch second the time renderings accept (the last second
/// of year 9999 in UTC).
pub const MAX_FORMAT_EPOCH: u64 = 253402300799;

/// The loaded configuration: where it came from, where the snapshot
/// lives, the policy table and the alias table.
pub struct Config {
    pub home: String,
    pub from: Option<String>,
    pub database_path: String,
    pub envs: Vec<(String, EnvValue)>,
    pub aliases: Vec<(String, Vec<String>)>,
}

impl Config {
    /// A configuration from its parts.
    pub fn new_with(
        home: String,
        from: Option<String>,
        database_path: String,
        envs: Vec<(String, EnvValue)>,
        aliases: Vec<(String, Vec<String>)>,
    ) -> (c: Config)
        ensures
            c.home == home,
            c.from == from,
            c.database_path == database_path,
            c.envs == envs,
            c.aliases == aliases,
    {
        Config { home, from, database_path, envs, aliases }
    }

    /// The configured value under `key`, if any.
    pub fn get_env(&self, key: &str) -> (r: Option<&EnvValue>)
        ensures
            match r {
                Some(v) => env_val(self.envs@, key@) == Some(*v),
                None => env_val(self.envs@, key@) is None,
            },
    {
        let n = self.envs.len();
        let mut i: usize = 0;
        while i < n
            invariant
                n == self.envs.len(),
                i <= n,
                env_idx(self.envs@, key@, i as int) is None,
            decreases n - i,
        {
            if str_eq(self.envs[i].0.as_str(), key) {
                proof {
                    assert(env_idx(self.envs@, key@, i + 1 as int) == Some(i as int));
                    lemma_env_idx_extend(self.envs@, key@, i + 1 as int, n as int);
                }
                return Some(&self.envs[i].1);
            }
            i = i + 1;
        }
        None
    }

    /// A copy of the configured value under `key`, if any.
    pub fn value(&self, key: &str) -> (r: Option<EnvValue>)
        ensures
            r == env_val(self.envs@, key@),
    {
        match self.get_env(key) {
            Some(v) => Some(v.clone()),
            None => None,
        }
    }

    /// Whether the value under `key` says yes: a flag is taken as is, a
    /// string counts when it lowers to `true` or `yes`, a number never
    /// does, and an absent key gives no answer.
    pub fn is_env_value_true(&self, key: &str) -> (r: Option<bool>)
        ensures
            r == (match env_val(self.envs@, key@) {
                Some(EnvValue::Bool(b)) => Some(b),
                Some(EnvValue::Var(s)) => Some(
                    lower_of(s@) == "true"@ || lower_of(s@) == "yes"@,
                ),
                Some(EnvValue::Value(_)) => Some(false),
                None => None::<bool>,
            }),
    {
        match self.get_env(key) {
            Some(EnvValue::Bool(b)) => Some(*b),
            Some(EnvValue::Var(s)) => {
                let l = to_lowercase(s.as_str());
                Some(str_eq(l.as_str(), "true") || str_eq(l.as_str(), "yes"))
            },
            Some(EnvValue::Value(_)) => Some(false),
            None => None,
        }
    }

    /// Whether a stamp is stale at `now`: older than the configured
    /// staleness bound, or lying in the future.
    pub fn is_old(&self, time: u64, now: u64) -> (r: bool)
        ensures
            r == (now < time || now - time > reload_duration_secs(self.envs@)),
    {
        let duration: u64 = match self.get_env("last_access_reload_duration_secs") {
            Some(EnvValue::Value(t)) => *t as u64,
            _ => 86400,
        };
        if now < time {
            true
        } else {
            now - time > duration
        }
    }

    /// Renders a stamp with the configured last-access format; an empty
    /// string stands for a stamp out of the renderable range.
    pub fn to_string(&self, t: u64) -> (r: String)
        ensures
            t > MAX_FORMAT_EPOCH ==> r@ == Seq::<char>::empty(),
    {
        match format_time(t, self.value("last_access_format")) {
            Some(v) => v,
            None => String::new(),
        }
    }
}

/// Relies on chrono's `TimeZone::timestamp_opt` for `Local` and
/// `chrono_humanize::HumanTime`: a relative phrase for the stamp; the
/// result depends on the wall clock, so nothing is claimed of it.
#[verifier::external_body]
fn epoch_humanize(secs: u64) -> String
    requires
        secs <= MAX_FORMAT_EPOCH,
{
    let dt = chrono::Local.timestamp_opt(secs as i64, 0).unwrap();
    let mut out = String::new();
    let _ = write!(out, "{}", chrono_humanize::HumanTime::from(dt));
    out
}

/// Relies on chrono's `TimeZone::timestamp_opt` for `Local` and
/// `DateTime::format`: the stamp under a strftime-style pattern; the
/// result depends on the machine's time zone, so nothing is claimed of
/// it. A bad pattern yields a partial rendering instead of a failure.
#[verifier::external_body]
fn epoch_format(secs: u64, fmt: &str) -> String
    requires
        secs <= MAX_FORMAT_EPOCH,
{
    let dt = chrono::Local.timestamp_opt(secs as i64, 0).unwrap();
    let mut out = String::new();
    let _ = write!(out, "{}", dt.format(fmt));
    out
}

/// Relies on chrono's `DateTime::to_rfc2822`; the result depends on the
/// machine's time zone, so nothing is claimed of it.
#[verifier::external_body]
fn epoch_rfc2822(secs: u64) -> String
    requires
        secs <= MAX_FORMAT_EPOCH,
{
    let dt = chrono::Local.timestamp_opt(secs as i64, 0).unwrap();
    dt.to_rfc2822()
}

/// Relies on chrono's `DateTime::to_rfc3339`; the result depends on the
/// machine's time zone, so nothing is claimed of it.
#[verifier::external_body]
fn epoch_rfc3339(secs: u64) -> String
    requires
        secs <= MAX_FORMAT_EPOCH,
{
    let dt = chrono::Local.timestamp_opt(secs as i64, 0).unwrap();
    dt.to_rfc3339()
}

/// Relies on chrono's `DateTime` display; the result depends on the
/// machine's time zone, so nothing is claimed of it.
#[verifier::external_body]
fn epoch_default(secs: u64) -> String
    requires
        secs <= MAX_FORMAT_EPOCH,
{
    let dt = chrono::Local.timestamp_opt(secs as i64, 0).unwrap();
    let mut out = String::new();
    let _ = write!(out, "{}", dt);
    out
}

/// Renders a stamp under the configured format word: a relative phrase
/// by default or for `humanize`/`relative`, a strftime pattern for
/// `strftime(...)`, and the usual fixed renderings for `iso`, `rfc2822`
/// and `rfc3339`. A stamp beyond the renderable range gives `None`.
pub fn format_time(t: u64, v: Option<EnvValue>) -> (r: Option<String>)
    ensures
        r is Some <==> t <= MAX_FORMAT_EPOCH,
{
    if t > MAX_FORMAT_EPOCH {
        return None;
    }
    match v {
        Some(EnvValue::Var(orig)) => {
            let s = to_lowercase(orig.as_str());
            if str_eq(s.as_str(), "humanize") || str_eq(s.as_str(), "relative") {
                Some(epoch_humanize(t))
            } else if str_starts_with(s.as_str(), "strftime(") && str_ends_with(s.as_str(), ")") {
                let n = orig.as_str().unicode_len();
                if n >= 10 {
                    let fmt = orig.as_str().substring_char(9, n - 1);
                    Some(epoch_format(t, fmt))
                } else {
                    Some(epoch_default(t))
                }
            } else if str_eq(s.as_str(), "iso") || str_eq(s.as_str(), "iso8601") {
                Some(epoch_format(t, "%+"))
            } else if str_eq(s.as_str(), "rfc2822") {
                Some(epoch_rfc2822(t))
            } else if str_eq(s.as_str(), "rfc3339") {
                Some(epoch_rfc3339(t))
            } else {
                Some(epoch_default(t))
            }
        },
        _ => Some(epoch_humanize(t)),
    }
}

/// The loaded configuration together with the loaded store: everything a
/// command works on.
pub struct Context {
    pub config: Config,
    pub db: JsonDB,
}

impl Context {
    /// A context from an already loaded configuration and store.
    pub fn new_with(config: Config, db: JsonDB) -> (c: Context)
        ensures
            c.config == config,
            c.db == db,
    {
        Context { config, db }
    }
}

impl Config {
    /// Index of the entry under `key`, if any.
    fn find_env_index(&self, key: &str) -> (r: Option<usize>)
        ensures
            match r {
                Some(i) => env_idx(self.envs@, key@, self.envs@.len() as int) == Some(i as int)
                    && i < self.envs@.len(),
                None => env_idx(self.envs@, key@, self.envs@.len() as int) is None,
            },
    {
        let n = self.envs.len();
        let mut i: usize = 0;
        while i < n
            invariant
                n == self.envs.len(),
                i <= n,
                env_idx(self.envs@, key@, i as int) is None,
            decreases n - i,
        {
            if str_eq(self.envs[i].0.as_str(), key) {
                proof {
                    assert(env_idx(self.envs@, key@, i + 1 as int) == Some(i as int));
                    lemma_env_idx_extend(self.envs@, key@, i + 1 as int, n as int);
                }
                return Some(i);
            }
            i = i + 1;
        }
        None
    }

    /// Stores `value` under `key`, overwriting an earlier entry of that
    /// key.
    pub fn env_set(&mut self, key: String, value: EnvValue)
        ensures
            final(self).home == old(self).home,
            final(self).from == old(self).from,
            final(self).database_path == old(self).database_path,
            final(self).aliases == old(self).aliases,
            match env_idx(old(self).envs@, key@, old(self).envs@.len() as int) {
                Some(i) => final(self).envs@ == old(self).envs@.update(i, (key, value)),
                None => final(self).envs@ == old(self).envs@.push((key, value)),
            },
    {
        let key_copy = key.clone();
        match self.find_env_index(key_copy.as_str()) {
            Some(i) => {
                self.envs[i] = (key, value);
            },
            None => {
                self.envs.push((key, value));
            },
        }
    }

    /// Drops the entry under `key`; an unknown key changes nothing.
    pub fn env_remove(&mut self, key: &str)
        ensures
            final(self).home == old(self).home,
            final(self).from == old(self).from,
            final(self).database_path == old(self).database_path,
            final(self).aliases == old(self).aliases,
            match env_idx(old(self).envs@, key@, old(self).envs@.len() as int) {
                Some(i) => final(self).envs@ == old(self).envs@.remove(i),
                None => final(self).envs@ == old(self).envs@,
            },
    {
        match self.find_env_index(key) {
            Some(i) => {
                self.envs.remove(i);
            },
            None => {},
        }
    }
}

} // verus!
