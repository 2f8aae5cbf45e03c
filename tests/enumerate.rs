use script_rename::tree::{matching_files, Entry, EntryKind, Tree};

/// A tree holding a blob at each of `paths`, with entries sorted by name as in a tree
/// object.
fn tree_of(paths: &[&str]) -> Tree {
    let mut names: Vec<String> = Vec::new();
    for p in paths {
        let first = p.split('/').next().unwrap().to_string();
        if !names.contains(&first) {
            names.push(first);
        }
    }
    names.sort();
    let mut entries: Vec<Entry> = Vec::new();
    for name in names {
        let prefix = format!("{}/", name);
        let inner: Vec<&str> = paths
            .iter()
            .filter_map(|p| p.strip_prefix(prefix.as_str()))
            .collect();
        if inner.is_empty() {
            entries.push(Entry { name, kind: EntryKind::Blob });
        } else {
            entries.push(Entry { name, kind: EntryKind::Tree(tree_of(&inner)) });
        }
    }
    Tree { entries }
}

/// Lists `branch` of a repository whose `master` holds `master` and whose `develop` adds
/// `develop` on top of it.
fn find_files_in_branch(
    master: &[&str],
    develop: &[&str],
    branch: &str,
    extension: Option<&str>,
    directory: Option<&str>,
) -> Vec<String> {
    let mut all: Vec<&str> = master.to_vec();
    if branch == "develop" {
        all.extend_from_slice(develop);
    }
    matching_files(&tree_of(&all), extension, directory)
}

#[test]
fn basic_last_test() {
    let result = find_files_in_branch(
        &["dir/test1.sql", "dir/test2.sql", "dir/test3.sql", "test4.json"],
        &["new/test.sql"],
        "master",
        Some("sql"),
        None,
    );
    assert!(result.len() > 1);
    assert_eq!(*result.last().unwrap(), "dir/test3.sql".to_string());
}

#[test]
fn basic_test_order() {
    let result = find_files_in_branch(
        &["dir/test3.sql", "dir/test2.sql", "dir/test1.sql", "test4.json"],
        &["new/test.sql"],
        "master",
        Some("sql"),
        None,
    );
    assert_eq!(3, result.len());
    assert_eq!(*result.last().unwrap(), "dir/test3.sql".to_string());
}

#[test]
fn basic_test_develop() {
    let result = find_files_in_branch(
        &["dir/test1.sql", "dir/test2.sql", "dir/test3.sql", "test4.json"],
        &["new/test.sql"],
        "develop",
        Some("sql"),
        None,
    );
    assert_eq!(4, result.len());
    assert_eq!(*result.last().unwrap(), "new/test.sql".to_string());
}

#[test]
fn basic_test_develop_folder() {
    let result = find_files_in_branch(
        &["sql/dir/test1.sql", "sql/dir/test2.sql", "sql/dir/test3.sql", "test4.json"],
        &["new/test.sql"],
        "develop",
        Some("sql"),
        Some("new"),
    );
    assert_eq!(1, result.len());
    assert_eq!(*result.last().unwrap(), "new/test.sql".to_string());
}

#[test]
fn basic_test_deep_folder() {
    let result = find_files_in_branch(
        &["dir/sql/test3.sql", "dir/sql/test2.sql", "dir/sql/test1.sql", "test4.json"],
        &["dir/new/test.sql"],
        "develop",
        Some("sql"),
        Some("dir/new"),
    );
    assert_eq!(1, result.len());
    assert_eq!(*result.last().unwrap(), "dir/new/test.sql".to_string());
}

#[test]
fn no_extension_filter_lists_every_blob() {
    let result = find_files_in_branch(
        &["dir/test1.sql", "test4.json", "Makefile"],
        &[],
        "master",
        None,
        None,
    );
    assert_eq!(result, vec!["Makefile", "dir/test1.sql", "test4.json"]);
}
