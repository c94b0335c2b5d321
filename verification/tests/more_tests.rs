use rrh::cli::{AliasOpts, ConfigOpts, ExecOpts, FindOpts, RepositoryEntry, RepositoryPrintingOpts, RrhError};
use rrh::commands::exec::perform_exec;
use rrh::commands::list::{find_impl, is_target_repository, sort_by_access};
use rrh::commands::{alias, config as config_cmd};
use rrh::config::{Config, Context, EnvValue};
use rrh::db::jsondb::JsonDB;
use rrh::db::RefDB;
use rrh::entities::Repository;

fn plain_context() -> Context {
    let mut db = JsonDB::new();
    db.register(
        Repository::new(
            String::from("fibonacci"),
            String::from("testdata/fibonacci"),
            Some(String::from("counts rabbits")),
            Some(100),
        ),
        vec![String::from("math")],
    )
    .unwrap();
    db.register(
        Repository::new(
            String::from("helloworld"),
            String::from("testdata/helloworld"),
            None,
            Some(50),
        ),
        vec![String::from("demo")],
    )
    .unwrap();
    let config = Config::new_with(
        String::from("testdata"),
        None,
        String::from("testdata/database.json"),
        Vec::new(),
        Vec::new(),
    );
    Context::new_with(config, db)
}

fn print_defaults() -> RepositoryPrintingOpts {
    RepositoryPrintingOpts { no_headers: false, entries: vec![RepositoryEntry::Id], format: None }
}

#[test]
fn test_find_by_keyword() {
    let c = plain_context();
    let opts = FindOpts {
        and: false,
        keywords: vec![String::from("rabbits")],
        p_opts: print_defaults(),
    };
    let found = find_impl(&c, &opts).unwrap();
    assert_eq!(found.len(), 1);
    assert_eq!(found[0].repo.id, "fibonacci");
    assert_eq!(found[0].groups.len(), 1);
    assert_eq!(found[0].groups[0].name, "math");

    let both = FindOpts {
        and: true,
        keywords: vec![String::from("testdata"), String::from("hello")],
        p_opts: print_defaults(),
    };
    let r = c.db.find_repository("helloworld").unwrap();
    assert!(is_target_repository(&r, &both));
    let f = c.db.find_repository("fibonacci").unwrap();
    assert!(!is_target_repository(&f, &both));
}

#[test]
fn test_sort_by_access_orders_oldest_first() {
    let c = plain_context();
    let sorted = sort_by_access(c.db.repositories().unwrap());
    assert_eq!(sorted.len(), 2);
    assert_eq!(sorted[0].id, "helloworld");
    assert_eq!(sorted[1].id, "fibonacci");
}

#[test]
fn test_exec_plan() {
    let c = plain_context();
    let opts = ExecOpts {
        group_names: vec![String::from("math")],
        repository_ids: vec![String::from("helloworld")],
        no_header: true,
        arguments: vec![String::from("git"), String::from("status")],
    };
    let (cmd, repos, no_header) = perform_exec(&c, opts).unwrap();
    assert_eq!(cmd.cmd, "git");
    assert_eq!(cmd.args, vec![String::from("status")]);
    assert!(no_header);
    assert_eq!(repos.len(), 2);
    assert_eq!(repos[0].id, "fibonacci");
    assert_eq!(repos[1].id, "helloworld");

    let empty = ExecOpts {
        group_names: Vec::new(),
        repository_ids: Vec::new(),
        no_header: false,
        arguments: Vec::new(),
    };
    assert!(matches!(perform_exec(&c, empty), Err(RrhError::Arguments(_))));
}

#[test]
fn test_alias_round() {
    let mut c = plain_context();
    let bind = AliasOpts {
        update: false,
        remove: false,
        alias: Some(String::from("st")),
        arguments: vec![String::from("repository"), String::from("list")],
    };
    let (flag, _) = alias::perform(&mut c, bind).unwrap();
    assert!(flag);
    let (_, lines) = alias::perform(
        &mut c,
        AliasOpts { update: false, remove: false, alias: None, arguments: Vec::new() },
    )
    .unwrap();
    assert_eq!(lines, vec![String::from("st = repository list")]);
    let unbind = AliasOpts {
        update: false,
        remove: true,
        alias: Some(String::from("st")),
        arguments: Vec::new(),
    };
    let (flag, _) = alias::perform(&mut c, unbind).unwrap();
    assert!(flag);
    assert!(c.config.find("st").is_none());
}

#[test]
fn test_config_set_and_unset() {
    let mut c = plain_context();
    let set = ConfigOpts {
        name: Some(String::from("auto_create_group")),
        value: Some(String::from("yes")),
        remove: false,
        dry_run: false,
    };
    let (flag, _) = config_cmd::perform_config(&mut c, set).unwrap();
    assert!(flag);
    assert_eq!(c.config.is_env_value_true("auto_create_group"), Some(true));

    let set_num = ConfigOpts {
        name: Some(String::from("last_access_reload_duration_secs")),
        value: Some(String::from("3600")),
        remove: false,
        dry_run: false,
    };
    config_cmd::perform_config(&mut c, set_num).unwrap();
    assert_eq!(
        c.config.get_env("last_access_reload_duration_secs"),
        Some(&EnvValue::Value(3600))
    );

    let unset = ConfigOpts {
        name: Some(String::from("auto_create_group")),
        value: None,
        remove: true,
        dry_run: false,
    };
    config_cmd::perform_config(&mut c, unset).unwrap();
    assert_eq!(c.config.is_env_value_true("auto_create_group"), None);
}

#[test]
fn test_from_str_rejects_malformed() {
    assert!(JsonDB::from_str("not a snapshot").is_err());
    let mut db = JsonDB::new();
    let mut text = db.to_json(7);
    text.push('x');
    assert!(JsonDB::from_str(&text).is_err());
}

#[test]
fn test_update_group_missing() {
    let mut c = plain_context();
    let r = c.db.update_group(
        String::from("absent"),
        rrh::entities::Group::new(String::from("anything")),
    );
    assert!(matches!(r, Err(RrhError::GroupNotFound(_))));
}
