use std::path::PathBuf;
use std::str::FromStr;

use firefox_rs::error::Error;
use firefox_rs::util::{
    list_recovery_files, profile_dirs, profile_dirs_of, scan, DirEntry, EntryKind, Located,
    Profile, Wanted,
};

fn entry(dir: &str, name: &str, kind: EntryKind) -> Result<DirEntry<PathBuf>, String> {
    Ok(DirEntry { name: Some(name.to_string()), kind, path: PathBuf::from(dir).join(name) })
}

fn paths(found: &[Result<PathBuf, String>]) -> Vec<Result<String, String>> {
    found
        .iter()
        .map(|item| match item {
            Ok(path) => Ok(path.to_str().unwrap().to_string()),
            Err(e) => Err(e.clone()),
        })
        .collect()
}

fn located(found: &[Located<PathBuf>]) -> Vec<String> {
    found
        .iter()
        .map(|item| match item {
            Located::File(path) => format!("file {}", path.to_str().unwrap()),
            Located::Unlisted(cause) => format!("unlisted {cause}"),
            Located::Lost(cause) => format!("lost {cause}"),
        })
        .collect()
}

#[test]
fn list_recovery() {
    let root = "assets/test/.mozilla/firefox";
    let profiles = profile_dirs(vec![entry(root, "5w5airb6.default-release", EntryKind::Directory)]);
    assert_eq!(profiles.len(), 1);
    let profile = profiles[0].as_ref().unwrap();
    let backups = profile.join("sessionstore-backups");
    let files: Vec<_> = list_recovery_files(vec![Profile::Backups(vec![entry(
        backups.to_str().unwrap(),
        "recovery.jsonlz4",
        EntryKind::File,
    )])]);
    let expected = ["assets/test/.mozilla/firefox/5w5airb6.default-release/sessionstore-backups/recovery.jsonlz4"];
    assert_eq!(files.len(), expected.len());
    let fullmatch = files.iter().zip(&expected).all(|(listed, expected)| match listed {
        Located::File(path) => path == &PathBuf::from_str(expected).unwrap(),
        _ => false,
    });
    println!("expected:{expected:?}");
    println!("files:{files:?}");
    assert!(fullmatch);
}

#[test]
fn profile_dirs_are_directories_named_default() {
    let found = profile_dirs(vec![
        entry("r", "default", EntryKind::Directory),
        entry("r", "abc.default-release", EntryKind::Directory),
        entry("r", "xdefault", EntryKind::File),
        entry("r", "Default", EntryKind::Directory),
        entry("r", "defaul", EntryKind::Directory),
        entry("r", "profiles.ini", EntryKind::File),
        entry("r", "my-d\u{e9}fault-default", EntryKind::Other),
        entry("r", "\u{e9}\u{e9}default\u{e9}", EntryKind::Directory),
        Ok(DirEntry { name: None, kind: EntryKind::Directory, path: PathBuf::from("r/unnamed") }),
    ]);
    assert_eq!(
        paths(&found),
        vec![
            Ok("r/default".to_string()),
            Ok("r/abc.default-release".to_string()),
            Ok("r/\u{e9}\u{e9}default\u{e9}".to_string()),
        ]
    );
}

#[test]
fn root_without_profile_dirs_yields_nothing() {
    let found = profile_dirs(vec![
        entry("r", "Crash Reports", EntryKind::Directory),
        entry("r", "default", EntryKind::File),
        entry("r", "installs.ini", EntryKind::File),
    ]);
    assert!(found.is_empty());
    assert!(profile_dirs(Vec::<Result<DirEntry<PathBuf>, String>>::new()).is_empty());
    assert!(list_recovery_files(Vec::<Profile<PathBuf>>::new()).is_empty());
}

#[test]
fn unreadable_entry_is_the_last_item() {
    let found = profile_dirs(vec![
        entry("r", "a.default", EntryKind::Directory),
        entry("r", "other", EntryKind::Directory),
        Err("stale handle".to_string()),
        entry("r", "b.default", EntryKind::Directory),
        Err("second".to_string()),
    ]);
    assert_eq!(paths(&found), vec![Ok("r/a.default".to_string()), Err("stale handle".to_string())]);
    let only_error = profile_dirs(vec![Err::<DirEntry<PathBuf>, _>("first".to_string())]);
    assert_eq!(paths(&only_error), vec![Err("first".to_string())]);
}

#[test]
fn recovery_files_are_files_named_recovery_js() {
    let found = scan(
        vec![
            entry("b", "recovery.jsonlz4", EntryKind::File),
            entry("b", "recovery.js", EntryKind::File),
            entry("b", "recovery.baklz4", EntryKind::File),
            entry("b", "previous.jsonlz4", EntryKind::File),
            entry("b", "recovery.js.d", EntryKind::Directory),
            entry("b", "xrecovery.js", EntryKind::File),
            entry("b", "recovery.j", EntryKind::File),
            entry("b", "recovery.js\u{e9}", EntryKind::File),
        ],
        Wanted::RecoveryFiles,
    );
    assert_eq!(
        paths(&found),
        vec![
            Ok("b/recovery.jsonlz4".to_string()),
            Ok("b/recovery.js".to_string()),
            Ok("b/recovery.js\u{e9}".to_string()),
        ]
    );
}

#[test]
fn profile_without_backups_contributes_nothing() {
    let with = list_recovery_files(vec![
        Profile::Backups(vec![entry("p1", "recovery.jsonlz4", EntryKind::File)]),
        Profile::NoBackups,
        Profile::Backups(vec![entry("p3", "recovery.js", EntryKind::File)]),
    ]);
    let without = list_recovery_files(vec![
        Profile::Backups(vec![entry("p1", "recovery.jsonlz4", EntryKind::File)]),
        Profile::Backups(vec![entry("p3", "recovery.js", EntryKind::File)]),
    ]);
    assert_eq!(located(&with), located(&without));
    assert_eq!(located(&with), vec!["file p1/recovery.jsonlz4", "file p3/recovery.js"]);
    assert!(list_recovery_files(vec![Profile::<PathBuf>::NoBackups]).is_empty());
}

#[test]
fn candidates_are_flattened_in_order() {
    let found = list_recovery_files(vec![
        Profile::Backups(vec![
            entry("p1", "recovery.jsonlz4", EntryKind::File),
            Err("mid-scan".to_string()),
            entry("p1", "recovery.baklz4", EntryKind::File),
        ]),
        Profile::Backups(vec![entry("p2", "recovery.js", EntryKind::File)]),
        Profile::Lost("root changed".to_string()),
    ]);
    assert_eq!(
        located(&found),
        vec![
            "file p1/recovery.jsonlz4",
            "unlisted mid-scan",
            "file p2/recovery.js",
            "lost root changed",
        ]
    );
}

#[test]
fn entries_decide_alone() {
    let dir = entry("r", "x.default", EntryKind::Directory).unwrap();
    assert!(dir.is_profile_dir());
    assert!(!dir.is_recovery_file());
    assert!(dir.is_wanted(Wanted::ProfileDirs));
    assert!(!dir.is_wanted(Wanted::RecoveryFiles));
    let file = entry("b", "recovery.jsonlz4", EntryKind::File).unwrap();
    assert!(file.is_recovery_file());
    assert!(!file.is_profile_dir());
}

#[test]
fn root_that_cannot_be_listed_is_not_found() {
    match profile_dirs_of(Err::<Vec<Result<DirEntry<PathBuf>, String>>, _>("no such directory".to_string())) {
        Err(Error::ConfigRootNotFound(cause)) => assert_eq!(cause, "no such directory"),
        other => panic!("{other:?}"),
    }
    let found = profile_dirs_of(Ok(vec![
        entry("r", "a.default", EntryKind::Directory),
        entry("r", "other", EntryKind::Directory),
        Err("stale handle".to_string()),
    ]))
    .unwrap();
    assert_eq!(paths(&found), vec![Ok("r/a.default".to_string()), Err("stale handle".to_string())]);
    assert!(profile_dirs_of(Ok(Vec::<Result<DirEntry<PathBuf>, String>>::new())).unwrap().is_empty());
}

#[test]
fn backups_that_cannot_be_listed_are_no_error() {
    let lost = Profile::<PathBuf>::followed(Err("root changed".to_string()));
    assert!(matches!(&lost, Profile::Lost(cause) if cause == "root changed"));
    let none = Profile::<PathBuf>::followed(Ok(Err("no such directory".to_string())));
    assert!(matches!(none, Profile::NoBackups));
    let listed = Profile::followed(Ok(Ok(vec![
        entry("p", "recovery.jsonlz4", EntryKind::File),
        entry("p", "previous.jsonlz4", EntryKind::File),
    ])));
    assert!(matches!(&listed, Profile::Backups(listing) if listing.len() == 2));
    let found = list_recovery_files(vec![
        Profile::followed(Ok(Err("no such directory".to_string()))),
        listed,
        lost,
    ]);
    assert_eq!(located(&found), vec!["file p/recovery.jsonlz4", "lost root changed"]);
}
