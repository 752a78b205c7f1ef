use gg::dir::repo_root;
use gg::dir::DirectoryTreeOptions;
use gg::dir::FsEntry;
use gg::pattern::regex_new;

fn opts(patterns: &[&str], filter_hidden: bool) -> DirectoryTreeOptions {
    let mut filter_list = Vec::new();
    for p in patterns {
        filter_list.push(regex_new(p).expect("pattern must compile"));
    }
    DirectoryTreeOptions { filter_list, filter_hidden }
}

fn dir(name: &str, children: Vec<FsEntry>) -> FsEntry {
    FsEntry { name: String::from(name), children }
}

#[test]
fn regex_filter_consults_the_pattern() {
    let o = opts(&["^a+$"], false);
    // A matching path is excluded, a non-matching one is kept: the
    // decision really comes from the compiled pattern.
    assert!(!o.should_filter("aaa", "aaa", 1));
    assert!(o.should_filter("b", "b", 1));
}

#[test]
fn hidden_entries_below_root_are_filtered() {
    let o = opts(&[], true);
    assert!(o.should_filter(".", ".", 0));
    assert!(!o.should_filter(".git", "repo/.git", 1));
    assert!(o.should_filter("src", "repo/src", 1));
}

#[test]
fn hidden_entries_kept_when_not_filtering() {
    let o = opts(&[], false);
    assert!(o.should_filter(".git", "repo/.git", 1));
}

#[test]
fn walk_prunes_matching_subtrees() {
    // One repository next to an ignored directory: nothing under the
    // ignored directory may appear, not even entries that do not match
    // any pattern themselves.
    let tree = dir(
        "root",
        vec![
            dir("repo", vec![dir(".git", vec![]), dir("src", vec![])]),
            dir("node_modules", vec![dir("dep", vec![dir(".git", vec![])])]),
        ],
    );
    let o = opts(&[".*/node_modules"], false);
    let out = o.process_directories(&tree, "root");
    assert_eq!(
        out,
        vec![
            String::from("root"),
            String::from("root/repo"),
            String::from("root/repo/.git"),
            String::from("root/repo/src"),
        ]
    );
}

#[test]
fn walk_excludes_hidden_subtrees_when_filtering() {
    let tree = dir(
        "base",
        vec![
            dir(".hidden", vec![dir("inner", vec![])]),
            dir("visible", vec![dir(".git", vec![])]),
        ],
    );
    let filtered = opts(&[], true);
    let out = filtered.process_directories(&tree, "base");
    assert_eq!(
        out,
        vec![
            String::from("base"),
            String::from("base/visible"),
        ]
    );
    let unfiltered = opts(&[], false);
    let all = unfiltered.process_directories(&tree, "base");
    assert_eq!(
        all,
        vec![
            String::from("base"),
            String::from("base/.hidden"),
            String::from("base/.hidden/inner"),
            String::from("base/visible"),
            String::from("base/visible/.git"),
        ]
    );
}

#[test]
fn walk_yields_nothing_when_the_root_is_excluded() {
    let tree = dir("skipme", vec![dir("child", vec![])]);
    let o = opts(&["^skipme$"], false);
    let out = o.process_directories(&tree, "skipme");
    assert!(out.is_empty());
}

#[test]
fn walk_with_empty_root_path() {
    let tree = dir("anything", vec![dir("child", vec![])]);
    let o = opts(&[], false);
    let out = o.process_directories(&tree, "");
    assert_eq!(out, vec![String::from(""), String::from("child")]);
}

#[test]
fn repo_root_of_marker_paths() {
    assert_eq!(repo_root("a/b/.git"), Some(String::from("a/b")));
    assert_eq!(repo_root(".git"), Some(String::from("")));
    assert_eq!(repo_root("a/b/src"), None);
    assert_eq!(repo_root("git"), None);
}
