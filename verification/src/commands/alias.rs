//! The alias command: validating a request, then listing, binding,
//! rebinding or unbinding; executing an alias is the caller's concern.
use vstd::prelude::*;
use vstd::string::StringExecFns;

use crate::alias::{alias_idx, Alias};
use crate::cli::{AliasOpts, RrhError};
use crate::config::Context;
use crate::utils::clone_string_vec;

verus! {

/// What an alias request asks for.
#[derive(PartialEq, Eq, Structural, Clone, Copy, Debug)]
pub enum Mode {
    List,
    Register,
    Update,
    Remove,
    Execute,
}

impl AliasOpts {
    /// The requested mode: flags first, then an empty argument list
    /// means listing.
    pub fn find_mode(&self) -> (m: Mode)
        ensures
            m == (if self.update {
                Mode::Update
            } else if self.remove {
                Mode::Remove
            } else if self.arguments@.len() == 0 {
                Mode::List
            } else {
                Mode::Register
            }),
    {
        if self.update {
            Mode::Update
        } else if self.remove {
            Mode::Remove
        } else if self.arguments.len() == 0 {
            Mode::List
        } else {
            Mode::Register
        }
    }

    /// Checks the request: the flags must not clash, a name must be
    /// given where one is acted on, a binding must exist to rebind or
    /// unbind, and must not exist to bind anew.
    pub fn validate(&self, context: &Context) -> (r: Result<Mode, RrhError>)
        ensures
            r matches Ok(m) ==> m == (if self.update {
                Mode::Update
            } else if self.remove {
                Mode::Remove
            } else if self.arguments@.len() == 0 {
                Mode::List
            } else {
                Mode::Register
            }) && !(self.update && self.remove) && (m == Mode::Register || m == Mode::Update
                || m == Mode::Remove ==> self.alias is Some) && (m == Mode::Register
                ==> self.arguments@.len() > 0),
    {
        let mut errs: Vec<RrhError> = Vec::new();
        if self.update && self.remove {
            errs.push(
                RrhError::CliOptsInvalid(
                    "alias".to_owned(),
                    "Cannot update and remove at the same time".to_owned(),
                ),
            );
        }
        let mode = self.find_mode();
        match mode {
            Mode::Register => {
                validate_alias_name(&self.alias, &mut errs, "alias_register");
                if self.arguments.len() == 0 {
                    errs.push(
                        RrhError::CliOptsInvalid(
                            "alias_register".to_owned(),
                            "No commands provided".to_owned(),
                        ),
                    );
                }
                match &self.alias {
                    Some(a) => {
                        if context.config.find(a.as_str()).is_some() {
                            let mut msg = a.clone();
                            msg.append(": already exist alias");
                            errs.push(RrhError::CliOptsInvalid("alias_register".to_owned(), msg));
                        }
                    },
                    None => {},
                }
            },
            Mode::Update => {
                validate_alias_name(&self.alias, &mut errs, "alias_update");
                match &self.alias {
                    Some(a) => {
                        if context.config.find(a.as_str()).is_none() {
                            let mut msg = a.clone();
                            msg.append(": alias not found");
                            errs.push(RrhError::CliOptsInvalid("alias_update".to_owned(), msg));
                        }
                    },
                    None => {},
                }
            },
            Mode::Remove => {
                validate_alias_name(&self.alias, &mut errs, "alias_remove");
                match &self.alias {
                    Some(a) => {
                        if context.config.find(a.as_str()).is_none() {
                            let mut msg = a.clone();
                            msg.append(": alias not found");
                            errs.push(RrhError::CliOptsInvalid("alias_remove".to_owned(), msg));
                        }
                    },
                    None => {},
                }
            },
            _ => {},
        }
        if errs.len() == 0 {
            if self.alias.is_none() {
                match mode {
                    Mode::Register | Mode::Update | Mode::Remove => {
                        return Err(RrhError::Unknown);
                    },
                    _ => {},
                }
            }
            Ok(mode)
        } else {
            Err(RrhError::Arrays(errs))
        }
    }

    /// The binding this request describes, when a name and commands are
    /// both present.
    pub fn build_alias(&self) -> (r: Option<Alias>)
        ensures
            r matches Some(a) ==> self.alias is Some && self.arguments@.len() > 0 && a.name
                == self.alias->Some_0 && a.commands@ == self.arguments@,
            r is None <==> (self.alias is None || self.arguments@.len() == 0),
    {
        if self.arguments.len() == 0 {
            None
        } else {
            match &self.alias {
                Some(name) => Some(Alias::new(name.clone(), clone_string_vec(&self.arguments))),
                None => None,
            }
        }
    }
}

/// A missing alias name is a request error.
fn validate_alias_name(c: &Option<String>, errs: &mut Vec<RrhError>, command: &str)
    ensures
        c is Some ==> final(errs)@ == old(errs)@,
        c is None ==> final(errs)@.len() == old(errs)@.len() + 1,
{
    if c.is_none() {
        errs.push(
            RrhError::CliOptsInvalid(command.to_owned(), "No alias provided".to_owned()),
        );
    }
}

/// One line per alias: the name and the words it stands for.
fn perform_list(context: &Context) -> (r: Vec<String>)
    ensures
        r@.len() == context.config.aliases@.len(),
{
    let aliases = context.config.all_aliases();
    let mut out: Vec<String> = Vec::new();
    let n = aliases.len();
    let mut i: usize = 0;
    while i < n
        invariant
            n == aliases.len(),
            i <= n,
            out@.len() == i,
        decreases n - i,
    {
        let mut line = aliases[i].name.clone();
        line.append(" =");
        let m = aliases[i].commands.len();
        let mut j: usize = 0;
        while j < m
            invariant
                m == aliases[i as int].commands.len(),
                j <= m,
                i < n,
                n == aliases.len(),
            decreases m - j,
        {
            line.append(" ");
            line.append(aliases[i].commands[j].as_str());
            j = j + 1;
        }
        out.push(line);
        i = i + 1;
    }
    out
}

/// Runs one alias request: listing yields the lines, the other modes
/// change the configuration and signal persistence.
pub fn perform(context: &mut Context, c: AliasOpts) -> (r: Result<(bool, Vec<String>), RrhError>)
{
    let mode = match c.validate(context) {
        Ok(m) => m,
        Err(e) => {
            return Err(e);
        },
    };
    match mode {
        Mode::List => Ok((false, perform_list(context))),
        Mode::Register => {
            match c.build_alias() {
                Some(alias) => {
                    match context.config.register(alias) {
                        Ok(()) => Ok((true, Vec::new())),
                        Err(e) => Err(e),
                    }
                },
                None => Err(RrhError::Unknown),
            }
        },
        Mode::Update => {
            match c.build_alias() {
                Some(alias) => {
                    match context.config.update(alias) {
                        Ok(()) => Ok((true, Vec::new())),
                        Err(e) => Err(e),
                    }
                },
                None => Err(RrhError::Unknown),
            }
        },
        Mode::Remove => {
            match c.alias {
                Some(name) => {
                    match context.config.delete(name.as_str()) {
                        Ok(()) => Ok((true, Vec::new())),
                        Err(e) => Err(e),
                    }
                },
                None => Err(RrhError::Unknown),
            }
        },
        Mode::Execute => Err(RrhError::Unknown),
    }
}

} // verus!
