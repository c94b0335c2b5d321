use rrh::commands::export::json::JsonExporter;
use rrh::commands::export::pkl::PklExporter;
use rrh::commands::export::yaml::YamlExporter;
use rrh::commands::export::export;
use rrh::db::jsondb::JsonDB;
use rrh::entities::Repository;

fn export_db() -> JsonDB {
    let mut db = JsonDB::new();
    db.register(
        Repository::new(
            String::from("fibonacci"),
            String::from("testdata/fibonacci"),
            None,
            None,
        ),
        vec![String::from("no-group")],
    )
    .unwrap();
    db.register(
        Repository::new(
            String::from("helloworld"),
            String::from("testdata/helloworld"),
            None,
            None,
        ),
        vec![String::from("no-group")],
    )
    .unwrap();
    db
}

#[test]
fn json_test_export() {
    let db = export_db();
    let mut exporter = JsonExporter::new(false, String::from("/home/someone"));
    let contents = export(&db, &mut exporter).unwrap();
    assert_eq!(
        contents,
        r##"{"repositories":[{"id":"fibonacci","path":"testdata/fibonacci"},{"id":"helloworld","path":"testdata/helloworld"}],"groups":[{"name":"no-group","note":"","abbrev":false}],"relations":[{"id":"fibonacci","group":"no-group"},{"id":"helloworld","group":"no-group"}]}"##
    );
}

#[test]
fn pkl_test_export() {
    let db = export_db();
    let mut exporter = PklExporter::new(false, String::from("/home/someone"));
    let contents = export(&db, &mut exporter).unwrap();
    assert_eq!(
        contents,
        r##"class Repository {
    id: String
    path: String
    description: String
}
class Group {
    name: String
    note: String
    abbrev: Boolean
}
class Relation {
    id: String
    group: String
}
repositories {
  new Repository {
    id = "fibonacci"
    path = "testdata/fibonacci"
    description = ""
  }
  new Repository {
    id = "helloworld"
    path = "testdata/helloworld"
    description = ""
  }
}
groups {
  new Group {
    name = "no-group"
    note = ""
    abbrev = false
  }
}
relations {
  new Relation {
    id = "fibonacci"
    group = "no-group"
  }
  new Relation {
    id = "helloworld"
    group = "no-group"
  }
}"##
    );
}

#[test]
fn yaml_test_export() {
    let db = export_db();
    let mut exporter = YamlExporter::new(false, String::from("/home/someone"));
    let contents = export(&db, &mut exporter).unwrap();
    assert_eq!(
        contents,
        r##"repositories:
  - id: "fibonacci"
    path: "testdata/fibonacci"
    description: ""
  - id: "helloworld"
    path: "testdata/helloworld"
    description: ""
groups:
  - name: "no-group"
    note: ""
    abbrev: false
relations:
  - id: "fibonacci"
    name: "no-group"
  - id: "helloworld"
    name: "no-group""##
    );
}
