use cfl::{CflBuilder, FileProcessor, WalkEntry};

const ROOT: &str = "/tmp/cfl_builder";

fn setup_files() -> Vec<(&'static str, &'static str)> {
    vec![
        ("Cargo.toml", "[package]\nname = \"test\"\nversion = \"0.1.0\"\n"),
        ("src/lib.rs", "pub fn add(a: i32, b: i32) -> i32 { a + b }"),
        ("src/main.rs", "fn main() { println!(\"Hello\"); }"),
        ("tests/test.rs", "#[test] fn test_add() { assert_eq!(2 + 2, 4); }"),
    ]
}

fn setup_entries() -> Vec<WalkEntry> {
    let mut v = vec![WalkEntry { path: ROOT.to_string(), is_dir: true }];
    for (rel, is_dir) in [
        ("Cargo.toml", false),
        ("src", true),
        ("src/lib.rs", false),
        ("src/main.rs", false),
        ("tests", true),
        ("tests/test.rs", false),
    ] {
        v.push(WalkEntry { path: format!("{}/{}", ROOT, rel), is_dir });
    }
    v
}

fn process(p: &mut FileProcessor, files: &[(&str, &str)]) {
    for (rel, content) in files {
        let path = format!("{}/{}", ROOT, rel);
        if p.wants_file(&path, &path) {
            p.add_file(path.clone(), &path, content.to_string());
        }
    }
}

#[test]
fn test_builder_basic() {
    let processor = CflBuilder::new().current_dir(ROOT).build().unwrap();
    assert!(processor.get_result().is_empty());
}

#[test]
fn test_builder_with_patterns() {
    let mut processor = CflBuilder::new()
        .include_patterns("*.rs")
        .exclude_patterns("test.rs")
        .current_dir(ROOT)
        .build()
        .unwrap();
    process(&mut processor, &setup_files());
    let files = processor.get_target_files();
    assert_eq!(files.len(), 2);
    assert!(files.iter().any(|f| f.path.contains("main.rs")));
    assert!(files.iter().any(|f| f.path.contains("lib.rs")));
    assert!(!files.iter().any(|f| f.path.contains("test.rs")));
}

#[test]
fn test_builder_directory_structure() {
    let processor = CflBuilder::new().current_dir(ROOT).build().unwrap();
    let structure = processor.render_directory_structure(&setup_entries());
    assert!(structure.contains("src/"));
    assert!(structure.contains("tests/"));
    assert!(structure.contains("Cargo.toml"));
}

#[test]
fn default_builder_has_no_patterns() {
    let p = CflBuilder::default().build().unwrap();
    assert!(p.wants_file("a.json", "a.json"));
}

#[test]
fn builder_without_directory_shows_relative_paths() {
    let mut p = CflBuilder::new().build().unwrap();
    assert!(p.add_file("/abs/src/a.rs".to_string(), "./src/a.rs", "x".to_string()));
    assert!(p.add_file("/abs/b.rs".to_string(), "/abs/b.rs", "y".to_string()));
    assert_eq!(p.get_target_files()[0].path, "src/a.rs");
    assert_eq!(p.get_target_files()[1].path, "/abs/b.rs");
}
