use rrh::cli::RrhError;
use rrh::config::{Config, Context, EnvValue};
use rrh::db::jsondb::JsonDB;
use rrh::db::RefDB;
use rrh::entities::Repository;

fn sample_db() -> JsonDB {
    let mut db = JsonDB::new();
    db.register(
        Repository::new(
            String::from("fibonacci"),
            String::from("testdata/fibonacci"),
            None,
            None,
        ),
        vec![String::from("no-group")],
    )
    .unwrap();
    db.register(
        Repository::new(
            String::from("helloworld"),
            String::from("testdata/helloworld"),
            None,
            None,
        ),
        vec![String::from("no-group")],
    )
    .unwrap();
    db
}

fn sample_context() -> Context {
    let config = Config::new_with(
        String::from("testdata"),
        Some(String::from("testdata/config.json")),
        String::from("testdata/database.json"),
        vec![(
            String::from("auto_create_group"),
            EnvValue::Bool(true),
        )],
        Vec::new(),
    );
    Context::new_with(config, sample_db())
}

#[test]
fn test_register_auto_creates_groups_once() {
    let mut db = JsonDB::new();
    db.register(
        Repository::new(String::from("r1"), String::from("p1"), None, None),
        vec![String::from("g1"), String::from("g2"), String::from("g1")],
    )
    .unwrap();
    assert_eq!(db.groups().unwrap().len(), 2);
    assert!(db.find_group("g1").is_some());
    assert!(db.find_group("g2").is_some());
    let before = db.relations.len();
    // relating an existing pair again is a no-op
    let rel = db.relate(String::from("r1"), String::from("g1")).unwrap();
    assert_eq!(rel.id, "r1");
    assert_eq!(rel.group, "g1");
    assert_eq!(db.relations.len(), before);
}

#[test]
fn test_register_existing_id_fails_unchanged() {
    let mut db = sample_db();
    let repos_before = db.repositories().unwrap();
    let groups_before = db.groups().unwrap();
    let rels_before = db.relations.len();
    let r = db.register(
        Repository::new(String::from("fibonacci"), String::from("elsewhere"), None, None),
        vec![String::from("extra")],
    );
    match r {
        Err(RrhError::RepositoryExists(name)) => assert_eq!(name, "fibonacci"),
        other => panic!("unexpected outcome: {:?}", other),
    }
    assert_eq!(db.repositories().unwrap(), repos_before);
    assert_eq!(db.groups().unwrap(), groups_before);
    assert_eq!(db.relations.len(), rels_before);
}

#[test]
fn test_delete_group_cascades() {
    let mut db = sample_db();
    db.delete_group(String::from("no-group")).unwrap();
    assert!(db.find_group("no-group").is_none());
    assert_eq!(db.relations.len(), 0);
    // repositories are untouched by a group deletion
    assert_eq!(db.repositories().unwrap().len(), 2);
}

#[test]
fn test_delete_repository_cascades() {
    let mut db = sample_db();
    db.delete_repository(String::from("fibonacci")).unwrap();
    assert!(db.find_repository("fibonacci").is_none());
    assert_eq!(db.relations.len(), 1);
    // groups are untouched by a repository deletion
    assert_eq!(db.groups().unwrap().len(), 1);
}

#[test]
fn test_delete_relation_absent() {
    let mut db = sample_db();
    match db.delete_relation(String::from("fibonacci"), String::from("nope")) {
        Err(RrhError::RelationNotFound(id, group)) => {
            assert_eq!(id, "fibonacci");
            assert_eq!(group, "nope");
        }
        other => panic!("unexpected outcome: {:?}", other),
    }
}

#[test]
fn test_store() {
    let mut db = sample_db();
    let data = db.to_json(1718000000);
    let db2 = JsonDB::from_str(data.as_str()).unwrap();
    assert_eq!(db, db2);
}

#[test]
fn test_snapshot_round_trip_escapes() {
    let mut db = JsonDB::new();
    db.register(
        Repository::new(
            String::from("odd \"name\""),
            String::from("a\\b/c"),
            Some(String::from("says \"hi\" \\ bye")),
            Some(123456),
        ),
        vec![String::from("g \"x\"")],
    )
    .unwrap();
    let data = db.to_json(42);
    let db2 = JsonDB::from_str(data.as_str()).unwrap();
    assert_eq!(db, db2);
    assert!(db2.check_consistency());
}

#[test]
fn test_context_helpers() {
    let c = sample_context();
    assert_eq!(c.config.is_env_value_true("auto_create_group"), Some(true));
    assert!(c.db.has_relation("fibonacci", "no-group"));
    assert!(!c.db.has_relation("fibonacci", "absent"));
    let parts = c.db.group_repositories().unwrap();
    assert_eq!(parts.len(), 1);
    assert_eq!(parts[0].0, "no-group");
    assert_eq!(parts[0].1.len(), 2);
}
