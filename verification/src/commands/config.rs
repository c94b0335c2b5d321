//! The configuration command: listing entries, setting a value under
//! its guessed or established kind, and unsetting a key.
use vstd::prelude::*;
use vstd::string::StringExecFns;
use vstd::string::StrSliceExecFns;

use crate::cli::{ConfigOpts, RrhError};
use crate::config::{env_idx, env_val, Config, Context, EnvValue};
use crate::utils::{
    digit_val, i64_to_string_signed, is_digit, lower_of, str_eq, to_lowercase, u64_to_string,
};

verus! {

/// What a configuration request asks for.
#[derive(PartialEq, Eq, Structural, Clone, Copy, Debug)]
pub enum Mode {
    List,
    Assign,
    Unset,
}

impl ConfigOpts {
    /// A name with a value sets; a name alone lists, or unsets under the
    /// remove flag; no name lists everything.
    pub fn mode(&self) -> (m: Mode)
        ensures
            m == (match (self.name, self.value) {
                (Some(_), Some(_)) => Mode::Assign,
                (Some(_), None) => if self.remove {
                    Mode::Unset
                } else {
                    Mode::List
                },
                (None, _) => Mode::List,
            }),
    {
        match (&self.name, &self.value) {
            (Some(_), Some(_)) => Mode::Assign,
            (Some(_), None) => {
                if self.remove {
                    Mode::Unset
                } else {
                    Mode::List
                }
            },
            (None, _) => Mode::List,
        }
    }
}

/// One entry as the listing shows it: flags bare, strings quoted,
/// numbers bare.
pub fn config_item_line(key: &str, value: &EnvValue) -> (r: String)
{
    let mut out = key.to_owned();
    match value {
        EnvValue::Bool(b) => {
            out.append(" = ");
            if *b {
                out.append("true");
            } else {
                out.append("false");
            }
        },
        EnvValue::Var(s) => {
            out.append(" = \"");
            out.append(s.as_str());
            out.append("\"");
        },
        EnvValue::Value(v) => {
            out.append(" = ");
            let rendered = i64_to_string_signed(*v as i64);
            out.append(rendered.as_str());
        },
    }
    out
}

/// The lines of one entry, or of the whole table.
fn list_config(config: &Config, opts: &ConfigOpts) -> (r: Result<Vec<String>, RrhError>)
{
    match &opts.name {
        Some(key) => {
            match config.get_env(key.as_str()) {
                Some(v) => {
                    let mut out: Vec<String> = Vec::new();
                    out.push(config_item_line(key.as_str(), v));
                    Ok(out)
                },
                None => Err(RrhError::ConfigNotFound(key.clone())),
            }
        },
        None => {
            let mut out: Vec<String> = Vec::new();
            let n = config.envs.len();
            let mut i: usize = 0;
            while i < n
                invariant
                    n == config.envs.len(),
                    i <= n,
                decreases n - i,
            {
                out.push(config_item_line(config.envs[i].0.as_str(), &config.envs[i].1));
                i = i + 1;
            }
            Ok(out)
        },
    }
}

/// Stores a flag for yes/no words, else the bare text.
fn put_bool_value(config: &mut Config, key: String, value: String)
{
    let l = to_lowercase(value.as_str());
    if str_eq(l.as_str(), "true") || str_eq(l.as_str(), "yes") {
        config.env_set(key, EnvValue::Bool(true));
    } else if str_eq(l.as_str(), "false") || str_eq(l.as_str(), "no") {
        config.env_set(key, EnvValue::Bool(false));
    } else {
        config.env_set(key, EnvValue::Var(value));
    }
}

/// Stores the bare text.
fn put_string_value(config: &mut Config, key: String, value: String)
{
    config.env_set(key, EnvValue::Var(value));
}

/// Stores a number where the text reads as one, else the bare text.
fn put_int_value(config: &mut Config, key: String, value: String)
{
    match crate::utils::parse_i32(value.as_str()) {
        Some(v) => config.env_set(key, EnvValue::Value(v)),
        None => config.env_set(key, EnvValue::Var(value)),
    }
}

/// Guesses the kind of a fresh value: a number, then a flag word, then
/// bare text.
fn put_guessed_value(config: &mut Config, key: String, value: String)
{
    match crate::utils::parse_i32(value.as_str()) {
        Some(v) => {
            config.env_set(key, EnvValue::Value(v));
        },
        None => {
            let l = to_lowercase(value.as_str());
            if str_eq(l.as_str(), "true") || str_eq(l.as_str(), "yes") {
                put_bool_value(config, key, value);
            } else {
                put_string_value(config, key, value);
            }
        },
    }
}

/// Sets a key: the stored kind wins; a fresh key's kind is guessed.
fn set_config(config: &mut Config, name: String, value: String)
{
    let kind = match config.get_env(name.as_str()) {
        Some(EnvValue::Value(_)) => 0u8,
        Some(EnvValue::Var(_)) => 1u8,
        Some(EnvValue::Bool(_)) => 2u8,
        None => 3u8,
    };
    if kind == 0 {
        put_int_value(config, name, value);
    } else if kind == 1 {
        put_string_value(config, name, value);
    } else if kind == 2 {
        put_bool_value(config, name, value);
    } else {
        put_guessed_value(config, name, value);
    }
}

/// Runs one configuration request; listing yields lines, the rest
/// mutate the table.
pub fn perform_config(context: &mut Context, c: ConfigOpts) -> (r: Result<
    (bool, Vec<String>),
    RrhError,
>)
{
    let dry_run_flag = c.dry_run;
    match c.mode() {
        Mode::List => {
            match list_config(&context.config, &c) {
                Ok(lines) => Ok((!dry_run_flag, lines)),
                Err(e) => Err(e),
            }
        },
        Mode::Assign => {
            match (c.name, c.value) {
                (Some(name), Some(value)) => {
                    set_config(&mut context.config, name, value);
                    Ok((!dry_run_flag, Vec::new()))
                },
                _ => Err(RrhError::Unknown),
            }
        },
        Mode::Unset => {
            match c.name {
                Some(name) => {
                    context.config.env_remove(name.as_str());
                    Ok((!dry_run_flag, Vec::new()))
                },
                None => Err(RrhError::Unknown),
            }
        },
    }
}

} // verus!
