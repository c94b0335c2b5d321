//! The Pkl writer: class definitions first, then one block per entity.
use vstd::prelude::*;
use vstd::string::StringExecFns;

use crate::commands::export::common::{map_path, PathMap, Status};
use crate::commands::export::Exporter;
use crate::entities::{Group, Relation, Repository};

verus! {

/// Writes the catalog as a Pkl document.
pub struct PklExporter {
    pub replace_home: bool,
    pub path_mapper: PathMap,
    pub status: Status,
}

impl PklExporter {
    /// A writer that folds the home directory away unless told otherwise.
    pub fn new(replace_home: bool, home: String) -> (r: PklExporter)
        ensures
            r.status == Status::Before,
    {
        if replace_home {
            PklExporter {
                replace_home,
                path_mapper: PathMap::Home(home, "\\(home)".to_owned()),
                status: Status::Before,
            }
        } else {
            PklExporter { replace_home, path_mapper: PathMap::Plain, status: Status::Before }
        }
    }
}

/// The class definitions every Pkl export opens with.
pub fn write_definitions() -> (r: String)
{
    let mut out = "class Repository {\n    id: String\n    path: String\n    description: String\n}\n".to_owned();
    out.append("class Group {\n    name: String\n    note: String\n    abbrev: Boolean\n}\n");
    out.append("class Relation {\n    id: String\n    group: String\n}\n");
    out
}

impl Exporter for PklExporter {
    fn export_header(&mut self) -> String {
        let mut out = String::new();
        if self.replace_home {
            out.append("user_home = read(\"env:HOME\")\n\n");
        }
        out.append(write_definitions().as_str());
        self.status = Status::Header;
        out
    }

    fn export_repository(&mut self, r: &Repository) -> String {
        let mut out = String::new();
        if self.status == Status::Header {
            out.append("repositories {");
        }
        self.status = Status::Repository;
        out.append("\n  new Repository {\n    id = \"");
        out.append(r.id.as_str());
        out.append("\"\n    path = \"");
        let p = map_path(r.path.as_str(), &self.path_mapper);
        out.append(p.as_str());
        out.append("\"\n    description = \"");
        match &r.description {
            Some(d) => {
                out.append(d.as_str());
            },
            None => {},
        }
        out.append("\"\n  }");
        out
    }

    fn export_group(&mut self, g: &Group) -> String {
        let mut out = String::new();
        if self.status == Status::Repository {
            out.append("\n}\ngroups {");
        }
        self.status = Status::Group;
        out.append("\n  new Group {\n    name = \"");
        out.append(g.name.as_str());
        out.append("\"\n    note = \"");
        out.append(g.note.as_str());
        out.append("\"\n    abbrev = ");
        if g.is_abbrev() {
            out.append("true");
        } else {
            out.append("false");
        }
        out.append("\n  }");
        out
    }

    fn export_relation(&mut self, l: &Relation) -> String {
        let mut out = String::new();
        if self.status == Status::Group {
            out.append("\n}\nrelations {");
        }
        self.status = Status::Relation;
        out.append("\n  new Relation {\n    id = \"");
        out.append(l.id.as_str());
        out.append("\"\n    group = \"");
        out.append(l.group.as_str());
        out.append("\"\n  }");
        out
    }

    fn export_footer(&mut self) -> String {
        self.status = Status::Footer;
        "\n}".to_owned()
    }
}

} // verus!
