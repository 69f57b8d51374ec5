use horton::git::{FileChanges, Hunk};
use horton::paths::{dedup_paths, path_key};
use horton::rules::if_change_then_change::{
    index_by_path, is_triggered, BlockProbe, Ictc, IctcBlock, ThenChange,
};
use horton::config::Conf;
use horton::run::Run;
use std::path::PathBuf;

const PATHS: [&str; 36] = [
    "", ".", "./", "./.", "..", "/", "//", "/.", "/./", "a", "a/", "a//", "./a", ".//a", "a/.",
    "a/./", "a/b", "a//b", "a/./b", "a/././/b/", "/a/b", "//a/b", "/a/./b/.", "a/../b", "a/b/..",
    "../a", ".a", "a.", "a/.b", "a/b.", "...", "a/.../b", "./a/b", "/./a", "ab", "a b",
];

#[test]
fn normal_forms() {
    assert_eq!(path_key(""), "");
    assert_eq!(path_key("/"), "/");
    assert_eq!(path_key("a"), "a/");
    assert_eq!(path_key("a//b/./c/"), "a/b/c/");
    assert_eq!(path_key("./a/./b"), "./a/b/");
    assert_eq!(path_key("/./a"), "/a/");
    assert_eq!(path_key("//a/../b"), "/a/../b/");
    assert_eq!(path_key("."), "./");
    assert_eq!(path_key("r\u{e9}/.x"), "r\u{e9}/.x/");
}

#[test]
fn paths_are_the_same_where_their_components_are() {
    for a in PATHS {
        for b in PATHS {
            assert_eq!(
                path_key(a) == path_key(b),
                PathBuf::from(a) == PathBuf::from(b),
                "{a:?} and {b:?}"
            );
        }
    }
}

#[test]
fn repeated_paths_are_dropped() {
    let paths: Vec<String> =
        ["b.rs", "a/x.rs", "b.rs", "a//x.rs", "./b.rs", "a/./x.rs/", "c.rs", "b.rs/."]
            .iter()
            .map(|p| p.to_string())
            .collect();
    assert_eq!(dedup_paths(&paths), vec!["b.rs", "a/x.rs", "./b.rs", "c.rs"]);
    assert!(dedup_paths(&vec![]).is_empty());
}

fn block(path: &str, target: &str) -> IctcBlock {
    IctcBlock {
        path: path.to_string(),
        begin: Some(4),
        end: Some(6),
        ifchange: None,
        thenchange: Some(ThenChange::RepoFile(target.to_string())),
    }
}

#[test]
fn blocks_and_hunks_meet_by_components() {
    let hunks = vec![Hunk { path: "src/a.rs".to_string(), begin: 5, end: 6 }];
    assert!(is_triggered(&block("src//a.rs", "x"), &hunks));
    assert!(is_triggered(&block("src/./a.rs", "x"), &hunks));
    assert!(!is_triggered(&block("./src/a.rs", "x"), &hunks));
    assert!(!is_triggered(&block("src/a.rs.", "x"), &hunks));

    let index = index_by_path(&vec![block("src//a.rs", "x"), block("b.rs", "y")]);
    assert!(index.contains_key(path_key("src/a.rs").as_str()));
    assert!(index.contains_key(path_key("b.rs/").as_str()));
    assert!(!index.contains_key(path_key("a.rs").as_str()));
}

#[test]
fn target_is_found_by_components() {
    let run = Run {
        paths: Vec::new(),
        config: Conf::default(),
        is_upstream: false,
        config_path: String::new(),
        cache_dir: String::new(),
    };
    let blocks = vec![block("src/a.rs", "src//b.rs"), block("src/b.rs", "src/./a.rs")];
    let mut modified = FileChanges::default();
    modified.hunks = vec![
        Hunk { path: "src/a.rs".to_string(), begin: 5, end: 6 },
        Hunk { path: "src/b.rs".to_string(), begin: 4, end: 5 },
    ];
    let probes = vec![
        BlockProbe { remote: None, target_exists: true },
        BlockProbe { remote: None, target_exists: true },
    ];
    let mut ictc = Ictc::new(&run, "HEAD");
    assert!(ictc.run(&blocks, &modified, &probes).unwrap().is_empty());

    let blocks = vec![block("src/a.rs", "./src/b.rs"), block("src/b.rs", "src/a.rs")];
    let mut ictc = Ictc::new(&run, "HEAD");
    let found = ictc.run(&blocks, &modified, &probes).unwrap();
    assert_eq!(found.len(), 1);
    assert_eq!(found[0].message, "Expected change in ./src/b.rs because src/a.rs was modified");
}
