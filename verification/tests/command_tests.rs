use rrh::cli::{
    ConfigOpts, GroupAddOpts, GroupRemoveOpts, GroupUpdateOpts, PruneOpts, RenameOpts,
    RepositoryUpdateOpts,
};
use rrh::commands::config::Mode;
use rrh::commands::{group, prune, repository};
use rrh::config::{Config, Context, EnvValue};
use rrh::db::jsondb::JsonDB;
use rrh::db::RefDB;
use rrh::entities::{Group, Repository};

fn make_context() -> Context {
    let mut db = JsonDB::new();
    db.register(
        Repository::new(
            String::from("fibonacci"),
            String::from("testdata/fibonacci"),
            None,
            None,
        ),
        vec![String::from("no-group")],
    )
    .unwrap();
    db.register(
        Repository::new(
            String::from("helloworld"),
            String::from("testdata/helloworld"),
            None,
            None,
        ),
        vec![String::from("no-group")],
    )
    .unwrap();
    let config = Config::new_with(
        String::from("testdata"),
        Some(String::from("testdata/config.json")),
        String::from("testdata/database.json"),
        vec![(String::from("auto_create_group"), EnvValue::Bool(true))],
        Vec::new(),
    );
    Context::new_with(config, db)
}

#[test]
fn test_mode() {
    let opts = ConfigOpts { name: None, value: None, remove: false, dry_run: false };
    assert_eq!(opts.mode(), Mode::List);

    let opts = ConfigOpts {
        name: Some(String::from("name")),
        value: None,
        remove: false,
        dry_run: false,
    };
    assert_eq!(opts.mode(), Mode::List);

    let opts = ConfigOpts {
        name: Some(String::from("name")),
        value: None,
        remove: true,
        dry_run: false,
    };
    assert_eq!(opts.mode(), Mode::Unset);

    let opts = ConfigOpts {
        name: Some(String::from("name")),
        value: Some(String::from("value")),
        remove: false,
        dry_run: false,
    };
    assert_eq!(opts.mode(), Mode::Assign);
}

#[test]
fn test_perform_add() {
    let mut context = make_context();
    let opts = GroupAddOpts {
        names: vec![String::from("group1"), String::from("group2")],
        note: Some(String::from("note")),
        abbrev: true,
        dry_run: false,
    };
    let r = group::perform_add(&mut context, &opts);
    assert!(r.is_ok());
    assert_eq!(r.unwrap(), true);
    assert!(context.db.find_group("group1").is_some());
    assert!(context.db.find_group("group2").is_some());

    let r = context.db.groups();
    assert!(r.is_ok());
    assert_eq!(r.unwrap().len(), 3);
}

#[test]
fn test_perform_remove() {
    let mut context = make_context();
    let opts = GroupRemoveOpts {
        force: false,
        args: vec![String::from("no-group")],
        dry_run: false,
    };
    let r = group::perform_remove(&mut context, opts);
    assert!(r.is_err());
}

#[test]
fn test_perform_remove_force() {
    let mut context = make_context();
    let opts = GroupRemoveOpts {
        force: true,
        args: vec![String::from("no-group")],
        dry_run: false,
    };
    let r = group::perform_remove(&mut context, opts);
    assert!(r.is_ok());
    assert_eq!(r.unwrap(), true);

    let r = context.db.groups();
    assert!(r.is_ok());
    assert_eq!(r.unwrap().len(), 0);
}

#[test]
fn test_perform_update() {
    let mut context = make_context();
    let opts = GroupUpdateOpts {
        rename_to: Some(String::from("current")),
        note: Some(String::from("note")),
        abbrev: Some(false),
        name: String::from("no-group"),
        dry_run: false,
    };
    let r = group::perform_update(&mut context, opts);
    assert!(r.is_ok());
    assert_eq!(r.unwrap(), true);
    assert!(context.db.find_group("current").is_some());

    let r = context.db.groups();
    assert!(r.is_ok());
    assert_eq!(r.unwrap().len(), 1);

    let r = context.db.find_relation_with_group("current");
    assert_eq!(r.len(), 2);
    // no relation points at the old name afterwards
    assert_eq!(context.db.find_relation_with_group("no-group").len(), 0);
}

#[test]
fn test_prune() {
    let mut c = make_context();
    let opts = PruneOpts { inquiry: false, dry_run: false };
    c.db.register_group(Group::new(String::from("pruned_target_group1"))).unwrap();
    c.db.register_group(Group::new(String::from("pruned_target_group2"))).unwrap();
    let path_exists = vec![true, true];
    let r = prune::perform_prune(&mut c, opts, path_exists);

    assert!(r.is_ok());
    assert_eq!(r.unwrap(), true);
    assert_eq!(c.db.groups().unwrap().len(), 1);
}

#[test]
fn test_prune_dry_run() {
    let mut c = make_context();
    c.db.register_group(Group::new(String::from("idle"))).unwrap();
    let opts = PruneOpts { inquiry: false, dry_run: true };
    let r = prune::perform_prune(&mut c, opts, vec![true, true]);
    assert!(r.is_ok());
    // with dry-run set nothing is signalled for persistence and the
    // store is left untouched, the empty candidate included
    assert_eq!(r.unwrap(), false);
    assert_eq!(c.db.repositories().unwrap().len(), 2);
    assert_eq!(c.db.groups().unwrap().len(), 2);
    assert!(c.db.find_group("idle").is_some());
    assert_eq!(c.db.relations.len(), 2);
}

#[test]
fn test_flat_remove() {
    let mut c = make_context();
    let opts = rrh::cli::RemoveOpts {
        targets: vec![String::from("helloworld"), String::from("no-group")],
        force: true,
        dry_run: false,
    };
    let r = prune::perform_remove(&mut c, opts);
    assert!(r.is_ok());
    assert_eq!(r.unwrap(), true);
    assert!(c.db.find_repository("helloworld").is_none());
    assert!(c.db.find_group("no-group").is_none());
    assert!(c.db.find_repository("fibonacci").is_some());
}

#[test]
fn test_rename_repo() {
    let mut c = make_context();
    let opts = RenameOpts {
        repository: false,
        group: false,
        from: String::from("helloworld"),
        to_name: String::from("hw"),
        dry_run: false,
    };
    let r = prune::perform_rename(&mut c, opts, 0);
    assert!(r.is_ok());
    assert_eq!(r.unwrap(), true);
    assert!(c.db.find_repository("hw").is_some());
    assert!(c.db.find_repository("helloworld").is_none());
}

#[test]
fn test_rename_group() {
    let mut c = make_context();
    let opts = RenameOpts {
        repository: false,
        group: false,
        from: String::from("no-group"),
        to_name: String::from("current"),
        dry_run: false,
    };
    let r = prune::perform_rename(&mut c, opts, 0);
    assert!(r.is_ok());
    assert_eq!(r.unwrap(), true);
    assert!(c.db.find_group("current").is_some());
    assert!(c.db.find_group("no-group").is_none());
}

#[test]
fn test_rename_repo_keeps_memberships() {
    let mut c = make_context();
    let opts = RepositoryUpdateOpts {
        description: None,
        path: None,
        id: Some(String::from("hw")),
        groups: vec![String::from("fresh")],
        new_groups: Vec::new(),
        repository_id: String::from("helloworld"),
        dry_run: false,
        probed_last_access: None,
        now: 0,
    };
    let r = repository::perform_update(&mut c, opts);
    assert!(r.is_ok());
    // the additive path keeps the old membership under the new identifier
    assert!(c.db.has_relation("hw", "no-group"));
    assert!(c.db.has_relation("hw", "fresh"));
    assert!(!c.db.has_relation("helloworld", "no-group"));
}

#[test]
fn test_update_replacement_groups() {
    let mut c = make_context();
    let opts = RepositoryUpdateOpts {
        description: None,
        path: None,
        id: None,
        groups: Vec::new(),
        new_groups: vec![String::from("only")],
        repository_id: String::from("helloworld"),
        dry_run: false,
        probed_last_access: None,
        now: 0,
    };
    let r = repository::perform_update(&mut c, opts);
    assert!(r.is_ok());
    // the replacement path drops the prior memberships
    assert!(!c.db.has_relation("helloworld", "no-group"));
    assert!(c.db.has_relation("helloworld", "only"));
}

#[test]
fn test_rename_to_taken_name() {
    let mut c = make_context();
    let opts = RenameOpts {
        repository: false,
        group: false,
        from: String::from("helloworld"),
        to_name: String::from("fibonacci"),
        dry_run: false,
    };
    let r = prune::perform_rename(&mut c, opts, 0);
    assert!(r.is_err());
    assert!(c.db.find_repository("helloworld").is_some());
}
