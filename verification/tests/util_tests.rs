use std::time::{Duration, SystemTime, UNIX_EPOCH};

use chrono::{Local, TimeZone};
use rrh::commands::exec::{convert_url_to_project_url, UrlStyle};
use rrh::config::{format_time, EnvValue};
use rrh::terminal::to_string_in_column_with;
use rrh::utils::{format_humanize, parse_i32, str_contains, to_lowercase, u64_to_string};

#[test]
fn test_print_in_columns_with() {
    let v = vec![
        "macOS",
        "Linux",
        "Windows",
        "Go",
        "VisualStudioCode",
        "JetBrains",
    ];
    let v1: Vec<String> = v.iter().map(|s| s.to_string()).collect();
    let r1 = to_string_in_column_with(v1.clone(), 125, 1);
    assert_eq!(r1.trim(), "macOS            Linux            Windows          Go               VisualStudioCode JetBrains");

    let r2 = to_string_in_column_with(v1.clone(), 125, 2);
    assert_eq!(r2.trim(), "macOS             Linux             Windows           Go                VisualStudioCode  JetBrains");
}

#[test]
fn test_ssh_scheme_refused() {
    // an explicit ssh-naming scheme is refused before the parser runs,
    // with or without a path in the remainder
    assert!(convert_url_to_project_url("ssh://example.com", UrlStyle::Project).is_err());
    assert!(convert_url_to_project_url("ssh://example.com:22", UrlStyle::Webpage).is_err());
    assert!(convert_url_to_project_url("git+ssh://example.com/a/b", UrlStyle::Project).is_err());
}

#[test]
fn test_parse_git_url() {
    // a plain https remote must parse, so a broken parse shows up here
    let direct =
        convert_url_to_project_url("https://github.com/tamada/rrh2", UrlStyle::Webpage).unwrap();
    assert_eq!(direct, String::from("https://tamada.github.io/rrh2"));
    if let Ok(url1) = convert_url_to_project_url("git@github.com/tamada/rrh2", UrlStyle::Project) {
        assert_eq!(url1, String::from("https://github.com/tamada/rrh2"));
    }
    if let Ok(url1) = convert_url_to_project_url("git@github.com/tamada/rrh2", UrlStyle::Webpage) {
        assert_eq!(url1, String::from("https://tamada.github.io/rrh2"));
    }
}

fn epoch_of(t: SystemTime) -> u64 {
    t.duration_since(UNIX_EPOCH).unwrap().as_secs()
}

#[test]
fn test_systemtime_to_string() {
    assert_eq!(
        Some(String::from("now")),
        format_time(epoch_of(SystemTime::now()), None)
    );
    assert_eq!(
        Some(String::from("a day ago")),
        format_time(
            epoch_of(SystemTime::now() - Duration::from_secs(60 * 60 * 24)),
            None
        )
    );
    assert_eq!(
        Some(String::from("3 days ago")),
        format_time(
            epoch_of(SystemTime::now() - Duration::from_secs(3 * 60 * 60 * 24)),
            None
        )
    );

    let dt = Local.with_ymd_and_hms(2024, 6, 10, 14, 34, 21).unwrap();
    let st = dt.timestamp() as u64;
    assert_eq!(
        Some(String::from("2024-06-10 14:34:21")),
        format_time(
            st,
            Some(EnvValue::Var(String::from("strftime(%Y-%m-%d %H:%M:%S)")))
        )
    );
}

#[test]
fn test_small_helpers() {
    assert_eq!(format_humanize(1, "group", "groups"), "1 group");
    assert_eq!(format_humanize(2, "group", "groups"), "2 groups");
    assert_eq!(u64_to_string(0), "0");
    assert_eq!(u64_to_string(90210), "90210");
    assert_eq!(parse_i32("42"), Some(42));
    assert_eq!(parse_i32("-7"), Some(-7));
    assert_eq!(parse_i32("+9"), Some(9));
    assert_eq!(parse_i32("2147483648"), None);
    assert_eq!(parse_i32("-2147483648"), Some(-2147483648));
    assert_eq!(parse_i32("x1"), None);
    assert_eq!(parse_i32(""), None);
    assert!(str_contains("repository", "posit"));
    assert!(!str_contains("repository", "positively"));
    // the lowering runs through the std call the contract names
    assert_eq!(to_lowercase("TRUE"), "true");
}

#[test]
fn test_last_access_refresh_policy() {
    let config = rrh::config::Config::new_with(
        String::from("h"),
        None,
        String::from("db"),
        Vec::new(),
        Vec::new(),
    );
    // stale stamp: older than a day, so the probe's answer wins
    let mut r =
        rrh::entities::Repository::new(String::from("a"), String::from("p"), None, Some(1000));
    let got = r.last_access(&config, 1000 + 86401, Some(5000));
    assert_eq!(got, Some(5000));
    assert_eq!(r.last_access, Some(5000));
    // fresh stamp: kept as it is
    let mut r2 =
        rrh::entities::Repository::new(String::from("b"), String::from("p"), None, Some(1000));
    let got2 = r2.last_access(&config, 1000 + 86400, Some(5000));
    assert_eq!(got2, Some(1000));
    // unset stamp: filled from the probe
    let mut r3 =
        rrh::entities::Repository::new(String::from("c"), String::from("p"), None, None);
    let got3 = r3.last_access(&config, 10, None);
    assert_eq!(got3, None);
    let got4 = r3.last_access(&config, 10, Some(7));
    assert_eq!(got4, Some(7));
}
