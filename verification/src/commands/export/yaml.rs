//! The YAML writer: three top-level lists, separators driven by the
//! writer's position.
use vstd::prelude::*;
use vstd::string::StringExecFns;

use crate::commands::export::common::{map_path, PathMap, Status};
use crate::commands::export::Exporter;
use crate::entities::{Group, Relation, Repository};

verus! {

/// Writes the catalog as a YAML document.
pub struct YamlExporter {
    pub path_mapper: PathMap,
    pub status: Status,
}

impl YamlExporter {
    /// A writer that folds the home directory away unless told otherwise.
    pub fn new(replace_home: bool, home: String) -> (r: YamlExporter)
        ensures
            r.status == Status::Before,
    {
        if replace_home {
            YamlExporter {
                path_mapper: PathMap::Home(home, "${HOME}".to_owned()),
                status: Status::Before,
            }
        } else {
            YamlExporter { path_mapper: PathMap::Plain, status: Status::Before }
        }
    }
}

impl Exporter for YamlExporter {
    fn export_header(&mut self) -> String {
        self.status = Status::Header;
        String::new()
    }

    fn export_repository(&mut self, r: &Repository) -> String {
        let mut out = String::new();
        if self.status == Status::Header {
            out.append("repositories:");
        }
        self.status = Status::Repository;
        out.append("\n  - id: \"");
        out.append(r.id.as_str());
        out.append("\"\n    path: \"");
        let p = map_path(r.path.as_str(), &self.path_mapper);
        out.append(p.as_str());
        out.append("\"\n    description: \"");
        match &r.description {
            Some(d) => {
                out.append(d.as_str());
            },
            None => {},
        }
        out.append("\"");
        out
    }

    fn export_group(&mut self, g: &Group) -> String {
        let mut out = String::new();
        if self.status == Status::Repository {
            out.append("\ngroups:");
        }
        self.status = Status::Group;
        out.append("\n  - name: \"");
        out.append(g.name.as_str());
        out.append("\"\n    note: \"");
        out.append(g.note.as_str());
        out.append("\"\n    abbrev: ");
        if g.is_abbrev() {
            out.append("true");
        } else {
            out.append("false");
        }
        out
    }

    fn export_relation(&mut self, l: &Relation) -> String {
        let mut out = String::new();
        if self.status == Status::Group {
            out.append("\nrelations:");
        }
        self.status = Status::Relation;
        out.append("\n  - id: \"");
        out.append(l.id.as_str());
        out.append("\"\n    name: \"");
        out.append(l.group.as_str());
        out.append("\"");
        out
    }

    fn export_footer(&mut self) -> String {
        self.status = Status::Footer;
        String::new()
    }
}

} // verus!
