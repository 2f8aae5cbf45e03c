use script_rename::config::PathConfig;
use script_rename::error::ParseScriptError;
use script_rename::parse_path::parse_path;
use script_rename::paths::normalize_path;

#[test]
fn ideal() {
    let result = parse_path("target/dir/test.sql", "target").unwrap();
    assert_eq!(
        result,
        PathConfig::new(
            "target".to_string(),
            Some("dir".to_string()),
            "test.sql".to_string()
        )
    );
}

#[test]
fn ideal_target_slash1() {
    let result = parse_path("target/dir/test.sql", "target/").unwrap();
    assert_eq!(
        result,
        PathConfig::new(
            "target".to_string(),
            Some("dir".to_string()),
            "test.sql".to_string()
        )
    );
}

#[test]
fn ideal_target_slash2() {
    let result = parse_path("target/dir/test.sql", "./target").unwrap();
    assert_eq!(
        result,
        PathConfig::new(
            "target".to_string(),
            Some("dir".to_string()),
            "test.sql".to_string()
        )
    );
}

#[test]
fn ideal_file_slash1() {
    let result = parse_path("./target/dir/test.sql", "target").unwrap();
    assert_eq!(
        result,
        PathConfig::new(
            "target".to_string(),
            Some("dir".to_string()),
            "test.sql".to_string()
        )
    );
}

#[test]
fn no_version() {
    let result = parse_path("target/test.sql", "target/").unwrap();
    assert_eq!(
        result,
        PathConfig::new("target".to_string(), None, "test.sql".to_string())
    );
}

#[test]
fn no_version_target_slash() {
    let result = parse_path("target/test.sql", "target").unwrap();
    assert_eq!(
        result,
        PathConfig::new("target".to_string(), None, "test.sql".to_string())
    );
}

#[test]
fn no_version_file_slash() {
    let result = parse_path("./target/test.sql", "target").unwrap();
    assert_eq!(
        result,
        PathConfig::new("target".to_string(), None, "test.sql".to_string())
    );
}

#[test]
fn deep_version() {
    let result = parse_path("target/1/1.1/1.1.1/test.sql", "target/").unwrap();
    assert_eq!(
        result,
        PathConfig::new(
            "target".to_string(),
            Some("1/1.1/1.1.1".to_string()),
            "test.sql".to_string()
        )
    );
}

#[test]
fn deep_version_target_slash() {
    let result = parse_path("target/1/1.1/1.1.1/test.sql", "target").unwrap();
    assert_eq!(
        result,
        PathConfig::new(
            "target".to_string(),
            Some("1/1.1/1.1.1".to_string()),
            "test.sql".to_string()
        )
    );
}

#[test]
fn deep_version_file_slash() {
    let result = parse_path("./target/1/1.1/1.1.1/test.sql", "target").unwrap();
    assert_eq!(
        result,
        PathConfig::new(
            "target".to_string(),
            Some("1/1.1/1.1.1".to_string()),
            "test.sql".to_string()
        )
    );
}

#[test]
fn bad_target_folder() {
    let result = parse_path("target/dir/test.sql", "target2");

    assert!(result.is_err());
    let err = result.unwrap_err();

    assert_eq!(
        err.message(),
        "Can't find the target folder prefix '\"target2\"' in: \"target/dir/test.sql\""
    );
}

#[test]
fn no_file_name_after_root() {
    let err = parse_path("target/", "./target").unwrap_err();
    assert_eq!(
        err,
        ParseScriptError::NoFileName {
            path: "target".to_string()
        }
    );
    assert_eq!(err.message(), "Can't extract the filename from: \"target\"");
}

#[test]
fn absolute_paths_match_only_absolute_roots() {
    let result = parse_path("/srv/db/1/a.sql", "/srv/db").unwrap();
    assert_eq!(result.folder, "/srv/db");
    assert_eq!(result.version, Some("1".to_string()));
    assert_eq!(result.file_name, "a.sql");
    assert!(parse_path("/srv/db/1/a.sql", "srv/db").is_err());
}

#[test]
fn dots_and_doubled_separators_are_dropped() {
    let result = parse_path("db//./migrate/../x.sql", "db/migrate").unwrap();
    assert_eq!(result.folder, "db/migrate");
    assert_eq!(result.version, Some("..".to_string()));
    assert_eq!(result.file_name, "x.sql");
}

#[test]
fn normal_form_of_paths() {
    assert_eq!(normalize_path("./a//b/./c/"), "a/b/c");
    assert_eq!(normalize_path("/a/../b"), "/a/../b");
    assert_eq!(normalize_path("."), "");
    assert_eq!(normalize_path("/"), "/");
}
