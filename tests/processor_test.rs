use cfl::{CflBuilder, CflError, FileProcessor, WalkEntry};

const ROOT: &str = "/tmp/cfl_root";

fn path_of(rel: &str) -> String {
    format!("{}/{}", ROOT, rel)
}

/// Feeds the files that a walk yields to the processor, in order, the way a
/// caller that reads the file system does: the canonical identity is the path
/// itself, and a file's text is handed over only when it is wanted.
fn process(p: &mut FileProcessor, files: &[(&str, &str)]) {
    for (rel, content) in files {
        let path = path_of(rel);
        if p.wants_file(&path, &path) {
            assert!(p.add_file(path.clone(), &path, content.to_string()));
        } else {
            assert!(!p.add_file(path.clone(), &path, content.to_string()));
        }
    }
}

/// What a walk of the processor test directory yields as files: the ignore
/// file keeps `config.json` out, and the metadata directory is empty.
fn walked_files() -> Vec<(&'static str, &'static str)> {
    vec![
        (".gitignore", "*.json\n"),
        ("src/main.rs", "fn main() { println!(\"Hello\"); }"),
        ("src/test.rs", "#[test] fn test() { assert!(true); }"),
    ]
}

fn walked_entries() -> Vec<WalkEntry> {
    let mut v = Vec::new();
    for (rel, is_dir) in [
        ("", true),
        (".git", true),
        (".gitignore", false),
        ("src", true),
        ("src/main.rs", false),
        ("src/test.rs", false),
    ] {
        let path = if rel.is_empty() { ROOT.to_string() } else { path_of(rel) };
        v.push(WalkEntry { path, is_dir });
    }
    v
}

#[test]
fn test_file_processing() {
    let mut processor = FileProcessor::new(&None, &None, ROOT).unwrap();
    process(&mut processor, &[("test.rs", "fn test() { println!(\"test\"); }")]);
    assert!(!processor.get_result().is_empty());
}

#[test]
fn test_basic_file_processing() {
    let processor = FileProcessor::new(&None, &None, ROOT).unwrap();
    assert!(processor.get_result().is_empty());
}

#[test]
fn test_include_pattern() {
    let mut processor = FileProcessor::new(&Some("*.rs".to_string()), &None, ROOT).unwrap();
    process(&mut processor, &walked_files());
    let files = processor.get_target_files();
    assert_eq!(files.len(), 2);
    assert!(files.iter().all(|f| f.path.ends_with(".rs")));
}

#[test]
fn test_exclude_pattern() {
    let mut processor = FileProcessor::new(&None, &Some("test.rs".to_string()), ROOT).unwrap();
    process(&mut processor, &walked_files());
    let files = processor.get_target_files();
    assert!(files.iter().any(|f| f.path == "src/main.rs"));
    assert!(!files.iter().any(|f| f.path == "src/test.rs"));
}

#[test]
fn test_token_counting() {
    let mut processor =
        FileProcessor::new(&Some("**/main.rs".to_string()), &None, ROOT).unwrap();
    process(&mut processor, &walked_files());
    let files = processor.get_target_files();
    assert_eq!(files.len(), 1);
    let tokens = files[0].tokens;
    assert!(tokens > 0, "Expected non-zero tokens, got {}", tokens);
}

#[test]
fn test_directory_structure() {
    let processor = FileProcessor::new(&None, &None, ROOT).unwrap();
    let structure = processor.render_directory_structure(&walked_entries());
    println!("Directory structure:\n{}", structure);
    assert!(structure.contains("src"));
    assert!(structure.contains("main.rs"));
    assert!(structure.contains("test.rs"));
    assert!(!structure.contains("config.json"));
    assert!(!structure.contains(".git"));
    assert!(!structure.contains(".gitignore"));
}

#[test]
fn end_to_end_exclude_beats_include() {
    let mut p = CflBuilder::new()
        .include_patterns("*.rs")
        .exclude_patterns("*_test.rs")
        .current_dir(ROOT)
        .build()
        .unwrap();
    process(&mut p, &[("a.rs", "x"), ("a_test.rs", "y")]);
    let files = p.get_target_files();
    assert_eq!(files.len(), 1);
    assert_eq!(files[0].path, "a.rs");
    assert_eq!(files[0].size, 1);
    assert_eq!(files[0].tokens, 1);
    assert_eq!(p.get_result(), "```a.rs\nx\n```\n");
    assert!(!p.get_result().contains("```a_test.rs"));
}

#[test]
fn end_to_end_empty_directory() {
    let p = CflBuilder::new().current_dir(ROOT).build().unwrap();
    assert!(p.get_target_files().is_empty());
    assert_eq!(p.get_result(), "");
    assert_eq!(p.get_total_size(), 0);
    assert_eq!(p.get_total_tokens(), 0);
}

#[test]
fn total_size_is_length_of_result() {
    let mut p = FileProcessor::new(&None, &None, ROOT).unwrap();
    process(&mut p, &[("a.rs", "x"), ("b.rs", "héllo wörld")]);
    let sizes: usize = p.get_target_files().iter().map(|f| f.size).sum();
    assert_eq!(p.get_total_size(), p.get_result().len());
    assert_eq!(sizes, 1 + 13);
    assert_eq!(p.get_total_size(), 14 + 26);
    assert_ne!(p.get_total_size(), sizes);
    assert_eq!(p.get_total_tokens(), 3);
}

#[test]
fn processing_twice_records_nothing_twice() {
    let mut p = FileProcessor::new(&None, &None, ROOT).unwrap();
    process(&mut p, &walked_files());
    let first = p.get_result().to_string();
    process(&mut p, &walked_files());
    assert_eq!(p.get_target_files().len(), 3);
    assert_eq!(p.get_result(), first);
}

#[test]
fn same_identity_by_another_path_is_dropped() {
    let mut p = FileProcessor::new(&None, &None, ROOT).unwrap();
    assert!(p.add_file("/real/a.rs".to_string(), &path_of("a.rs"), "x".to_string()));
    assert!(!p.wants_file("/real/a.rs", &path_of("link.rs")));
    assert!(!p.add_file("/real/a.rs".to_string(), &path_of("link.rs"), "x".to_string()));
    assert_eq!(p.get_target_files().len(), 1);
    assert_eq!(p.get_target_files()[0].path, "a.rs");
}

#[test]
fn matching_both_lists_is_excluded() {
    let p = FileProcessor::new(&Some("*.rs".to_string()), &Some("*.rs".to_string()), ROOT)
        .unwrap();
    assert!(!p.wants_file("/x/a.rs", "/x/a.rs"));
}

#[test]
fn include_list_filters_names() {
    let p = FileProcessor::new(&Some("*.rs,*.toml".to_string()), &None, ROOT).unwrap();
    assert!(p.wants_file("/x/a.rs", "/x/a.rs"));
    assert!(p.wants_file("/x/Cargo.toml", "/x/Cargo.toml"));
    assert!(!p.wants_file("/x/a.txt", "/x/a.txt"));
    assert!(!p.wants_file("/x/A.RS", "/x/A.RS"));
}

#[test]
fn patterns_match_the_name_not_the_path() {
    let p = FileProcessor::new(&Some("src*".to_string()), &None, ROOT).unwrap();
    assert!(!p.wants_file("/x/src/a.rs", "/x/src/a.rs"));
    assert!(p.wants_file("/x/src_a.rs", "/x/src_a.rs"));
}

#[test]
fn empty_lists_accept_every_name() {
    let p = FileProcessor::new(&Some(String::new()), &Some(String::new()), ROOT).unwrap();
    assert!(p.wants_file("/x/a.json", "/x/a.json"));
}

#[test]
fn malformed_pattern_is_refused() {
    let r = FileProcessor::new(&Some("a**b".to_string()), &None, ROOT);
    assert!(matches!(r, Err(CflError::Pattern(_))));
    let r = CflBuilder::new().exclude_patterns("*.rs,[ab").build();
    assert!(matches!(r, Err(CflError::Pattern(_))));
}

#[test]
fn path_outside_root_is_shown_as_given() {
    let mut p = FileProcessor::new(&None, &None, ROOT).unwrap();
    assert!(p.add_file("/elsewhere/b.rs".to_string(), "/elsewhere/b.rs", "b".to_string()));
    assert!(p.add_file("/c/d.rs".to_string(), "src/d.rs", "d".to_string()));
    assert!(p.add_file("/c/e.rs".to_string(), "/tmp/cfl_root//src/./e.rs", "e".to_string()));
    let files = p.get_target_files();
    assert_eq!(files[0].path, "/elsewhere/b.rs");
    assert_eq!(files[1].path, "src/d.rs");
    assert_eq!(files[2].path, "src/e.rs");
}

#[test]
fn blocks_are_concatenated_in_order() {
    let mut p = FileProcessor::new(&None, &None, ROOT).unwrap();
    process(&mut p, &[("b.rs", "let b = 1;"), ("a.rs", "")]);
    assert_eq!(p.get_result(), "```b.rs\nlet b = 1;\n```\n```a.rs\n\n```\n");
    let files = p.get_target_files();
    assert_eq!(files[0].tokens, 3);
    assert_eq!(files[1].tokens, 0);
    assert_eq!(files[1].size, 0);
}
