use script_rename::code::get_code;
use script_rename::date::Date;
use script_rename::error::{EnumerateError, RenameError};
use script_rename::process::{plan_renames, Configuration};
use script_rename::tree::{matching_files, Entry, EntryKind, Tree};

/// A tree holding a blob at each of `paths`, with entries sorted by name as in a tree
/// object.
fn tree_of(paths: &[&str]) -> Tree {
    let mut entries: Vec<Entry> = Vec::new();
    let mut names: Vec<String> = Vec::new();
    for p in paths {
        let first = p.split('/').next().unwrap().to_string();
        if !names.contains(&first) {
            names.push(first);
        }
    }
    names.sort();
    for name in names {
        let prefix = format!("{}/", name);
        let inner: Vec<&str> = paths
            .iter()
            .filter_map(|p| p.strip_prefix(prefix.as_str()))
            .collect();
        if inner.is_empty() {
            entries.push(Entry { name, kind: EntryKind::Blob });
        } else {
            entries.push(Entry { name, kind: EntryKind::Tree(tree_of(&inner)) });
        }
    }
    Tree { entries }
}

fn config(root: &str, target: &str, source: &str) -> Configuration {
    Configuration {
        repo_path: ".".to_string(),
        root_directory: root.to_string(),
        target_branch: target.to_string(),
        source_branch: source.to_string(),
        extension_filter: Some("txt".to_string()),
        target_directory_filter: None,
        source_directory_filter: Some("db/migrate/new".to_string()),
    }
}

/// Plans as the driver does: the target ref holds `master`, the source ref holds `master`
/// and `develop`; a ref named `bad_branch` cannot be resolved.
fn run(
    master: &[&str],
    develop: &[&str],
    config: &Configuration,
    today: Date,
) -> Result<Vec<(String, String)>, RenameError> {
    let master_tree = tree_of(master);
    let mut all: Vec<&str> = master.to_vec();
    all.extend_from_slice(develop);
    let develop_tree = tree_of(&all);
    let list = |branch: &str, dir: &Option<String>| -> Result<Vec<String>, EnumerateError> {
        let tree = match branch {
            "master" => &master_tree,
            "develop" => &develop_tree,
            _ => return Err(EnumerateError::RefUnresolved),
        };
        Ok(matching_files(tree, config.extension_filter.as_deref(), dir.as_deref()))
    };
    let target = list(&config.target_branch, &config.target_directory_filter);
    let source = list(&config.source_branch, &config.source_directory_filter);
    plan_renames(config, &today, target, source)
}

fn day(y: u32, m: u32, d: u32) -> Date {
    Date::new(y, m, d).unwrap()
}

#[test]
fn test_find_files_in_branch_one_file() {
    let master_files = run(
        &["db/migrate/1/V20240101.01__file1.txt"],
        &["db/migrate/new/01__file_of_my_life.txt"],
        &config("db/migrate", "master", "develop"),
        day(2024, 1, 2),
    )
    .unwrap();

    assert_eq!(master_files.len(), 1);
    assert_eq!(master_files[0].0, "db/migrate/new/01__file_of_my_life.txt");
    assert_eq!(
        master_files[0].1,
        "db/migrate/1/V20240102.01__file_of_my_life.txt"
    );
}

#[test]
fn test_find_files_in_branch_one_file_same_day() {
    let master_files = run(
        &["db/migrate/1/V20240101.01__file1.txt"],
        &["db/migrate/new/01__file_of_my_life.txt"],
        &config("db/migrate", "master", "develop"),
        day(2024, 1, 1),
    )
    .unwrap();

    assert_eq!(master_files.len(), 1);
    assert_eq!(master_files[0].0, "db/migrate/new/01__file_of_my_life.txt");
    assert_eq!(
        master_files[0].1,
        "db/migrate/1/V20240101.02__file_of_my_life.txt"
    );
}

#[test]
fn test_find_files_in_branch_two_files_index_off_one() {
    let master_files = run(
        &[
            "db/migrate/1/V20240101.01__file1.txt",
            "db/migrate/1/V20240101.02__file2.txt",
        ],
        &["db/migrate/new/01__file3.txt", "db/migrate/new/02__file4.txt"],
        &config("db/migrate", "master", "develop"),
        day(2024, 1, 1),
    )
    .unwrap();

    assert_eq!(master_files.len(), 2);
    assert_eq!(master_files[0].0, "db/migrate/new/01__file3.txt");
    assert_eq!(master_files[0].1, "db/migrate/1/V20240101.03__file3.txt");
    assert_eq!(master_files[1].0, "db/migrate/new/02__file4.txt");
    assert_eq!(master_files[1].1, "db/migrate/1/V20240101.04__file4.txt");
}

#[test]
fn test_find_files_in_branch_bad_code() {
    let master_files = run(
        &[
            "db/migrate/1/V20231231__file1.txt",
            "db/migrate/1/V20240101.02__file1.txt",
        ],
        &["db/migrate/new/01__file_of_my_life.txt"],
        &config("db/migrate", "master", "develop"),
        day(2024, 1, 1),
    )
    .unwrap();

    assert_eq!(master_files.len(), 1);
    assert_eq!(master_files[0].0, "db/migrate/new/01__file_of_my_life.txt");
    assert_eq!(
        master_files[0].1,
        "db/migrate/1/V20240101.03__file_of_my_life.txt"
    );
}

#[test]
fn test_find_files_in_branch_last_file_bad_code() {
    let master_files = run(
        &["db/migrate/1/V20240101__file1.txt"],
        &["db/migrate/new/01__file_of_my_life.txt"],
        &config("db/migrate", "master", "develop"),
        day(2024, 1, 1),
    );

    assert!(master_files.is_err());

    let err = master_files.unwrap_err();
    assert_eq!(
        err.message(),
        "Can't extract the date and index from: \"db/migrate/1/V20240101__file1.txt\""
    );
}

#[test]
fn test_find_files_in_branch_non_existing_root() {
    let master_files = run(
        &["db/migrate/1/V20240101__file1.txt"],
        &["db/migrate/new/01__file_of_my_life.txt"],
        &config("bad_root", "master", "develop"),
        day(2024, 1, 1),
    );

    assert!(master_files.is_err());

    let err = master_files.unwrap_err();
    assert_eq!(
        err.message(),
        "Can't find the target folder prefix '\"bad_root\"' in: \"db/migrate/1/V20240101__file1.txt\""
    );
}

#[test]
fn test_find_files_in_branch_non_existing_target_branch() {
    let master_files = run(
        &["db/migrate/1/V20240101__file1.txt"],
        &["db/migrate/new/01__file_of_my_life.txt"],
        &config("db/migrate", "bad_branch", "develop"),
        day(2024, 1, 1),
    );

    assert!(master_files.is_err());

    let err = master_files.unwrap_err();
    assert_eq!(err.message(), "Can't open target branch: bad_branch");
}

#[test]
fn test_find_files_in_branch_non_existing_source_branch() {
    let master_files = run(
        &["db/migrate/1/V20240101__file1.txt"],
        &["db/migrate/new/01__file_of_my_life.txt"],
        &config("db/migrate", "master", "bad_branch"),
        day(2024, 1, 1),
    );

    assert!(master_files.is_err());

    let err = master_files.unwrap_err();
    assert_eq!(err.message(), "Can't open source branch: bad_branch");
}

#[test]
fn empty_target_gives_empty_plan_even_with_a_bad_source() {
    let plan = run(
        &[],
        &["db/migrate/new/01__a.txt"],
        &config("db/migrate", "master", "bad_branch"),
        day(2024, 1, 1),
    )
    .unwrap();
    assert!(plan.is_empty());
}

#[test]
fn numbers_past_ninety_nine_keep_their_width() {
    let plan = run(
        &["db/migrate/V20240101.99__a.txt"],
        &["db/migrate/new/01__b.txt", "db/migrate/new/02__c.txt"],
        &config("db/migrate", "master", "develop"),
        day(2023, 12, 31),
    )
    .unwrap();
    assert_eq!(plan[0].1, "db/migrate/V20240101.100__b.txt");
    assert_eq!(plan[1].1, "db/migrate/V20240101.101__c.txt");
}

#[test]
fn new_day_restarts_numbering_for_every_proposal() {
    let plan = run(
        &["db/migrate/2/V20240101.07__a.txt"],
        &["db/migrate/new/01__b.txt", "db/migrate/new/c.txt"],
        &config("db/migrate", "master", "develop"),
        day(2024, 2, 29),
    )
    .unwrap();
    assert_eq!(plan[0].1, "db/migrate/2/V20240229.01__b.txt");
    assert_eq!(plan[1].1, "db/migrate/2/V20240229.02__c.txt");
}

#[test]
fn impossible_calendar_date_is_malformed() {
    let err = run(
        &["db/migrate/V20230229.01__a.txt"],
        &["db/migrate/new/01__b.txt"],
        &config("db/migrate", "master", "develop"),
        day(2024, 1, 1),
    )
    .unwrap_err();
    assert_eq!(
        err,
        RenameError::MalformedCode {
            file: "db/migrate/V20230229.01__a.txt".to_string()
        }
    );
}

#[test]
fn target_in_root_itself_gets_no_subpath() {
    let plan = run(
        &["db/migrate/V20240101.01__a.txt"],
        &["db/migrate/new/b.txt"],
        &config("./db/migrate/", "master", "develop"),
        day(2024, 1, 1),
    )
    .unwrap();
    assert_eq!(plan[0].1, "db/migrate/V20240101.02__b.txt");
}

#[test]
fn code_rollover_and_same_day() {
    let c = get_code("x/V20240101.05__a.sql", &day(2024, 1, 1)).unwrap();
    assert_eq!((c.date, c.seq), (20240101, 5));
    let c = get_code("x/V20240101.05__a.sql", &day(2024, 1, 2)).unwrap();
    assert_eq!((c.date, c.seq), (20240102, 0));
    let c = get_code("V20240101.05__a.sql", &day(2023, 6, 30)).unwrap();
    assert_eq!((c.date, c.seq), (20240101, 5));
    assert!(get_code("x/V20240101.05__", &day(2024, 1, 1)).is_err());
    assert!(get_code("V2024010.105__a", &day(2024, 1, 1)).is_err());
    assert!(get_code("aV20240101.05__a", &day(2024, 1, 1)).is_err());
}

#[test]
fn proposed_codes_decode_to_their_own_numbers() {
    let plan = run(
        &["db/migrate/1/V20240101.01__file1.txt"],
        &["db/migrate/new/01__a.txt", "db/migrate/new/02__b.txt", "db/migrate/new/c.txt"],
        &config("db/migrate", "master", "develop"),
        day(2024, 1, 1),
    )
    .unwrap();
    for (i, (_, target)) in plan.iter().enumerate() {
        let code = get_code(target, &day(2000, 1, 1)).unwrap();
        assert_eq!(code.date, 20240101);
        assert_eq!(code.seq, 2 + i as u64);
        let name = target.rsplit('/').next().unwrap();
        assert_eq!(&name[..14], format!("V{}.{:02}__", code.date, code.seq));
    }
}

#[test]
fn every_proposal_shares_the_directory_of_the_newest_target() {
    let plan = run(
        &["db/migrate/0/V20231230.01__a.txt", "db/migrate/1/2/V20240101.01__b.txt"],
        &["db/migrate/new/x/01__c.txt", "db/migrate/new/d.txt"],
        &config("db/migrate", "master", "develop"),
        day(2024, 1, 1),
    )
    .unwrap();
    assert_eq!(plan.len(), 2);
    for (_, target) in &plan {
        assert!(target.starts_with("db/migrate/1/2/V20240101.0"));
        assert_eq!(target.matches('/').count(), 4);
    }
}
