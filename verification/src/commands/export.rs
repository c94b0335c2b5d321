//! Exporting the catalog as text: format selection and validation here,
//! one writer per format below. The text is handed back whole; putting
//! it on disk or on the screen is the caller's concern.
use vstd::prelude::*;
use vstd::string::StringExecFns;

use crate::cli::{ExportOpts, RrhError};
use crate::config::Context;
use crate::db::jsondb::JsonDB;
use crate::entities::{Group, Relation, Repository};
use crate::utils::{ends_with, lower_of, str_eq, str_ends_with, to_lowercase};

pub mod common;
pub mod json;
pub mod pkl;
pub mod yaml;

verus! {

/// The supported export formats.
pub enum Format {
    Json,
    Yaml,
    Pkl,
}

/// One export writer: a header, one block per entity, a footer.
pub trait Exporter {
    fn export_header(&mut self) -> String;

    fn export_repository(&mut self, r: &Repository) -> String;

    fn export_group(&mut self, g: &Group) -> String;

    fn export_relation(&mut self, l: &Relation) -> String;

    fn export_footer(&mut self) -> String;
}

impl Format {
    /// The format a destination file name implies, by its ending.
    pub fn from_filename(file_name: &Option<String>) -> (r: Option<Format>)
        ensures
            file_name is None ==> r is None,
    {
        match file_name {
            Some(d) => {
                let l = to_lowercase(d.as_str());
                if str_ends_with(l.as_str(), ".json") {
                    Some(Format::Json)
                } else if str_ends_with(l.as_str(), ".yaml") || str_ends_with(l.as_str(), ".yml") {
                    Some(Format::Yaml)
                } else if str_ends_with(l.as_str(), ".pkl") {
                    Some(Format::Pkl)
                } else {
                    None
                }
            },
            None => None,
        }
    }

    /// The format a word names, if any.
    pub fn parse(f: &str) -> (r: Option<Format>)
        ensures
            r matches Some(Format::Json) <==> lower_of(f@) == "json"@,
            r matches Some(Format::Yaml) <==> lower_of(f@) == "yaml"@,
            r matches Some(Format::Pkl) <==> lower_of(f@) == "pkl"@,
    {
        proof {
            reveal_strlit("json");
            reveal_strlit("yaml");
            reveal_strlit("pkl");
            assert("json"@[0] == 'j');
            assert("yaml"@[0] == 'y');
            assert("pkl"@[0] == 'p');
        }
        let fl = to_lowercase(f);
        if str_eq(fl.as_str(), "json") {
            Some(Format::Json)
        } else if str_eq(fl.as_str(), "yaml") {
            Some(Format::Yaml)
        } else if str_eq(fl.as_str(), "pkl") {
            Some(Format::Pkl)
        } else {
            None
        }
    }

    /// Refuses a format word that names none of the supported formats.
    pub fn validate(f: &Option<String>) -> (r: Result<(), RrhError>)
        ensures
            f is None ==> r is Ok,
    {
        match f {
            Some(w) => {
                let fl = to_lowercase(w.as_str());
                if !str_eq(fl.as_str(), "json") && !str_eq(fl.as_str(), "yaml") && !str_eq(
                    fl.as_str(),
                    "pkl",
                ) {
                    let mut msg = w.clone();
                    msg.append(": unknown export format");
                    return Err(RrhError::Arguments(msg));
                }
                Ok(())
            },
            None => Ok(()),
        }
    }
}

/// Refuses an existing destination unless overwriting was asked for; the
/// caller says whether the path exists.
pub fn validate_dest(dest: &Option<String>, dest_exists: bool, overwrite: bool) -> (r: Result<
    (),
    RrhError,
>)
    ensures
        r is Ok <==> (dest is None || !dest_exists || overwrite),
{
    match dest {
        Some(d) => {
            if dest_exists && !overwrite {
                let mut msg = d.clone();
                msg.append(": file exists");
                Err(RrhError::Arguments(msg))
            } else {
                Ok(())
            }
        },
        None => Ok(()),
    }
}

impl ExportOpts {
    /// Both the format word and the destination must be acceptable.
    pub fn validate(&self) -> (r: Result<(), RrhError>)
    {
        let mut errs: Vec<RrhError> = Vec::new();
        match Format::validate(&self.format) {
            Ok(()) => {},
            Err(e) => {
                errs.push(e);
            },
        }
        match validate_dest(&self.dest, self.dest_exists, self.overwrite) {
            Ok(()) => {},
            Err(e) => {
                errs.push(e);
            },
        }
        if errs.len() > 0 {
            Err(RrhError::Arrays(errs))
        } else {
            Ok(())
        }
    }

    /// The format to write: the explicit word, or the destination's
    /// ending.
    pub fn format(&self) -> (r: Option<Format>)
    {
        match &self.format {
            Some(f) => Format::parse(f.as_str()),
            None => Format::from_filename(&self.dest),
        }
    }
}

/// Writes the whole catalog with one writer: header, repositories,
/// groups, relations, footer.
pub fn export<E: Exporter>(db: &JsonDB, exporter: &mut E) -> (r: Result<String, RrhError>)
{
    let mut out = exporter.export_header();
    let rn = db.repositories.len();
    let mut i: usize = 0;
    while i < rn
        invariant
            rn == db.repositories.len(),
            i <= rn,
        decreases rn - i,
    {
        let piece = exporter.export_repository(&db.repositories[i]);
        out.append(piece.as_str());
        i = i + 1;
    }
    let gn = db.groups.len();
    let mut j: usize = 0;
    while j < gn
        invariant
            gn == db.groups.len(),
            j <= gn,
        decreases gn - j,
    {
        let piece = exporter.export_group(&db.groups[j]);
        out.append(piece.as_str());
        j = j + 1;
    }
    let ln = db.relations.len();
    let mut k: usize = 0;
    while k < ln
        invariant
            ln == db.relations.len(),
            k <= ln,
        decreases ln - k,
    {
        let piece = exporter.export_relation(&db.relations[k]);
        out.append(piece.as_str());
        k = k + 1;
    }
    let foot = exporter.export_footer();
    out.append(foot.as_str());
    Ok(out)
}

/// Validates the request and writes the catalog in the chosen format.
pub fn perform_export(c: &Context, opts: ExportOpts) -> (r: Result<(bool, String), RrhError>)
{
    match opts.validate() {
        Ok(()) => {},
        Err(e) => {
            return Err(e);
        },
    }
    let home = match c.config.get_env("home") {
        _ => c.config.home.clone(),
    };
    let replace = !opts.no_replace_home;
    let text = match opts.format() {
        Some(Format::Json) => {
            let mut ex = json::JsonExporter::new(replace, home);
            export(&c.db, &mut ex)
        },
        Some(Format::Yaml) => {
            let mut ex = yaml::YamlExporter::new(replace, home);
            export(&c.db, &mut ex)
        },
        Some(Format::Pkl) => {
            let mut ex = pkl::PklExporter::new(replace, home);
            export(&c.db, &mut ex)
        },
        None => Err(RrhError::Arguments("unknown export format".to_owned())),
    };
    match text {
        Ok(t) => Ok((true, t)),
        Err(e) => Err(e),
    }
}

} // verus!
