//! The JSON writer: one object with the three lists, separators driven
//! by the writer's position.
use vstd::prelude::*;
use vstd::string::StringExecFns;

use crate::commands::export::common::{map_path, PathMap, Status};
use crate::commands::export::Exporter;
use crate::entities::{Group, Relation, Repository};

verus! {

/// Writes the catalog as one compact JSON object.
pub struct JsonExporter {
    pub path_mapper: PathMap,
    pub status: Status,
}

impl JsonExporter {
    /// A writer that folds the home directory away unless told otherwise.
    pub fn new(replace_home: bool, home: String) -> (r: JsonExporter)
        ensures
            r.status == Status::Before,
    {
        if replace_home {
            JsonExporter {
                path_mapper: PathMap::Home(home, "${HOME}".to_owned()),
                status: Status::Before,
            }
        } else {
            JsonExporter { path_mapper: PathMap::Plain, status: Status::Before }
        }
    }
}

impl Exporter for JsonExporter {
    fn export_header(&mut self) -> String {
        self.status = Status::Header;
        "{".to_owned()
    }

    fn export_repository(&mut self, r: &Repository) -> String {
        let mut out = if self.status == Status::Header {
            "\"repositories\":[".to_owned()
        } else {
            ",".to_owned()
        };
        self.status = Status::Repository;
        out.append("{\"id\":\"");
        out.append(r.id.as_str());
        out.append("\",\"path\":\"");
        let p = map_path(r.path.as_str(), &self.path_mapper);
        out.append(p.as_str());
        out.append("\"");
        match &r.description {
            Some(d) => {
                out.append(",\"description\":\"");
                out.append(d.as_str());
                out.append("\"");
            },
            None => {},
        }
        out.append("}");
        out
    }

    fn export_group(&mut self, g: &Group) -> String {
        let mut out = if self.status == Status::Repository {
            "],\"groups\":[".to_owned()
        } else {
            ",".to_owned()
        };
        self.status = Status::Group;
        out.append("{\"name\":\"");
        out.append(g.name.as_str());
        out.append("\",\"note\":\"");
        out.append(g.note.as_str());
        out.append("\",\"abbrev\":");
        if g.is_abbrev() {
            out.append("true");
        } else {
            out.append("false");
        }
        out.append("}");
        out
    }

    fn export_relation(&mut self, l: &Relation) -> String {
        let mut out = if self.status == Status::Group {
            "],\"relations\":[".to_owned()
        } else {
            ",".to_owned()
        };
        self.status = Status::Relation;
        out.append("{\"id\":\"");
        out.append(l.id.as_str());
        out.append("\",\"group\":\"");
        out.append(l.group.as_str());
        out.append("\"}");
        out
    }

    fn export_footer(&mut self) -> String {
        self.status = Status::Footer;
        "]}".to_owned()
    }
}

} // verus!
