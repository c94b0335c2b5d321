//! Aliases: a name bound to a command line, kept in the configuration
//! under unique names. Executing an alias re-enters the command line
//! machinery, which is the caller's concern.
use vstd::prelude::*;

use crate::cli::RrhError;
use crate::config::Config;
use crate::utils::{clone_string_vec, str_eq};

verus! {

/// One alias: its name and the words it stands for.
#[derive(Debug, PartialEq, Eq)]
pub struct Alias {
    pub name: String,
    pub commands: Vec<String>,
}

impl Alias {
    pub fn new(name: String, commands: Vec<String>) -> (a: Alias)
        ensures
            a.name == name,
            a.commands == commands,
    {
        Alias { name, commands }
    }
}

/// Index of the first alias entry under `name` among the first `n`.
pub open spec fn alias_idx(es: Seq<(String, Vec<String>)>, name: Seq<char>, n: int) -> Option<int>
    decreases n,
{
    if n <= 0 {
        None
    } else {
        match alias_idx(es, name, n - 1) {
            Some(i) => Some(i),
            None => if es[n - 1].0@ == name {
                Some(n - 1)
            } else {
                None
            },
        }
    }
}

/// A first match within a prefix stays the first match of any longer
/// prefix.
proof fn lemma_alias_idx_extend(es: Seq<(String, Vec<String>)>, name: Seq<char>, m: int, n: int)
    requires
        0 <= m <= n,
        alias_idx(es, name, m) is Some,
    ensures
        alias_idx(es, name, n) == alias_idx(es, name, m),
    decreases n,
{
    if n > m {
        lemma_alias_idx_extend(es, name, m, n - 1);
    }
}

impl Config {
    /// Index of the alias stored under `name`, if any.
    fn find_alias_index(&self, name: &str) -> (r: Option<usize>)
        ensures
            match r {
                Some(i) => alias_idx(self.aliases@, name@, self.aliases@.len() as int) == Some(
                    i as int,
                ) && i < self.aliases@.len(),
                None => alias_idx(self.aliases@, name@, self.aliases@.len() as int) is None,
            },
    {
        let n = self.aliases.len();
        let mut i: usize = 0;
        while i < n
            invariant
                n == self.aliases.len(),
                i <= n,
                alias_idx(self.aliases@, name@, i as int) is None,
            decreases n - i,
        {
            if str_eq(self.aliases[i].0.as_str(), name) {
                proof {
                    assert(alias_idx(self.aliases@, name@, i + 1 as int) == Some(i as int));
                    lemma_alias_idx_extend(self.aliases@, name@, i + 1 as int, n as int);
                }
                return Some(i);
            }
            i = i + 1;
        }
        None
    }

    /// The alias stored under `name`, if any.
    pub fn find(&self, alias_name: &str) -> (r: Option<Alias>)
        ensures
            match r {
                Some(a) => alias_idx(self.aliases@, alias_name@, self.aliases@.len() as int)
                    matches Some(i) && a.name@ == alias_name@ && a.commands@
                    == self.aliases@[i].1@,
                None => alias_idx(self.aliases@, alias_name@, self.aliases@.len() as int) is None,
            },
    {
        match self.find_alias_index(alias_name) {
            Some(i) => Some(
                Alias::new(alias_name.to_owned(), clone_string_vec(&self.aliases[i].1)),
            ),
            None => None,
        }
    }

    /// Binds the alias, overwriting an earlier binding of the same name.
    pub fn register(&mut self, alias: Alias) -> (r: Result<(), RrhError>)
        ensures
            r is Ok,
            final(self).envs == old(self).envs,
            final(self).home == old(self).home,
            final(self).from == old(self).from,
            final(self).database_path == old(self).database_path,
            match alias_idx(old(self).aliases@, alias.name@, old(self).aliases@.len() as int) {
                Some(i) => final(self).aliases@ == old(self).aliases@.update(
                    i,
                    (alias.name, alias.commands),
                ),
                None => final(self).aliases@ == old(self).aliases@.push(
                    (alias.name, alias.commands),
                ),
            },
    {
        let name_copy = alias.name.clone();
        match self.find_alias_index(name_copy.as_str()) {
            Some(i) => {
                self.aliases[i] = (alias.name, alias.commands);
            },
            None => {
                self.aliases.push((alias.name, alias.commands));
            },
        }
        Ok(())
    }

    /// Rebinds an existing alias; an unknown name is refused.
    pub fn update(&mut self, alias: Alias) -> (r: Result<(), RrhError>)
        ensures
            alias_idx(old(self).aliases@, alias.name@, old(self).aliases@.len() as int) is None
                ==> (r is Err && *final(self) == *old(self)),
            alias_idx(old(self).aliases@, alias.name@, old(self).aliases@.len() as int) matches Some(
                i,
            ) ==> (r is Ok && final(self).aliases@ == old(self).aliases@.update(
                i,
                (alias.name, alias.commands),
            )),
    {
        let name_copy = alias.name.clone();
        if self.find_alias_index(name_copy.as_str()).is_none() {
            let mut msg = alias.name;
            crate::utils::append_str(&mut msg, ": alias not found");
            return Err(RrhError::CliOptsInvalid("alias_update".to_owned(), msg));
        }
        self.register(alias)
    }

    /// Unbinds the alias; unbinding an unknown name changes nothing.
    pub fn delete(&mut self, alias_name: &str) -> (r: Result<(), RrhError>)
        ensures
            r is Ok,
            match alias_idx(old(self).aliases@, alias_name@, old(self).aliases@.len() as int) {
                Some(i) => final(self).aliases@ == old(self).aliases@.remove(i),
                None => *final(self) == *old(self),
            },
    {
        match self.find_alias_index(alias_name) {
            Some(i) => {
                self.aliases.remove(i);
            },
            None => {},
        }
        Ok(())
    }

    /// Every alias, in binding order.
    pub fn all_aliases(&self) -> (r: Vec<Alias>)
        ensures
            r@.len() == self.aliases@.len(),
            forall|k: int|
                0 <= k < r@.len() ==> (#[trigger] r@[k]).name == self.aliases@[k].0
                    && r@[k].commands@ == self.aliases@[k].1@,
    {
        let n = self.aliases.len();
        let mut out: Vec<Alias> = Vec::new();
        let mut i: usize = 0;
        while i < n
            invariant
                n == self.aliases.len(),
                i <= n,
                out@.len() == i,
                forall|k: int|
                    0 <= k < i ==> (#[trigger] out@[k]).name == self.aliases@[k].0
                        && out@[k].commands@ == self.aliases@[k].1@,
            decreases n - i,
        {
            out.push(Alias::new(self.aliases[i].0.clone(), clone_string_vec(&self.aliases[i].1)));
            i = i + 1;
        }
        out
    }
}

} // verus!
