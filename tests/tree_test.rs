use cfl::{directory_tree, WalkEntry};

fn entry(path: &str, is_dir: bool) -> WalkEntry {
    WalkEntry { path: path.to_string(), is_dir }
}

#[test]
fn tree_lines_are_sorted_and_indented() {
    let entries = vec![
        entry("/r", true),
        entry("/r/b.txt", false),
        entry("/r/a", true),
        entry("/r/a/z.rs", false),
        entry("/r/a.b", false),
        entry("/r/a/c", true),
    ];
    let tree = directory_tree("/r", &entries);
    assert_eq!(
        tree,
        "└── a/\n  └── c/\n  └── z.rs\n└── a.b\n└── b.txt\n"
    );
}

#[test]
fn tree_adds_missing_ancestors() {
    let entries = vec![entry("/r/x/y/z.rs", false)];
    assert_eq!(directory_tree("/r", &entries), "└── x/\n  └── y/\n    └── z.rs\n");
}

#[test]
fn tree_hides_metadata_directory_and_ignore_file() {
    let entries = vec![
        entry("/r", true),
        entry("/r/.git", true),
        entry("/r/.git/config", false),
        entry("/r/.gitignore", false),
        entry("/r/.github", true),
        entry("/r/main.rs", false),
    ];
    let tree = directory_tree("/r", &entries);
    assert_eq!(tree, "└── .github/\n└── main.rs\n");
}

#[test]
fn tree_keeps_first_kind_and_skips_outside_entries() {
    let entries = vec![
        entry("/r/d/f", false),
        entry("/r/d", false),
        entry("/other/q", false),
        entry("/r", true),
    ];
    assert_eq!(directory_tree("/r", &entries), "└── d/\n  └── f\n");
}

#[test]
fn tree_of_nothing_is_empty() {
    assert_eq!(directory_tree("/r", &Vec::new()), "");
    assert_eq!(directory_tree("/r", &vec![entry("/r", true)]), "");
}

#[test]
fn tree_orders_by_code_point() {
    let entries = vec![entry("/r/b", false), entry("/r/B", false), entry("/r/é", false), entry("/r/_", false)];
    assert_eq!(directory_tree("/r", &entries), "└── B\n└── _\n└── b\n└── é\n");
}
