use mete::data::{FunctionData, SingleFileResult};
use mete::{build_duplicate_index, collect_results, is_skippable, Language};

#[test]
fn skippable_paths() {
    assert!(is_skippable("foo/node_modules/bar.js"));
    assert!(is_skippable("project/target/debug/main"));
    assert!(!is_skippable("src/main.rs"));
}

#[test]
fn language_detection() {
    assert_eq!(Language::from_path("test.rs"), Some(Language::Rust));
    assert_eq!(Language::from_path("test.py"), Some(Language::Python));
    assert_eq!(Language::from_path("test.txt"), None);
}

fn func(name: Option<&str>, start_line: u32, fingerprint: u64) -> FunctionData {
    FunctionData {
        name: name.map(|n| n.to_string()),
        start_line,
        end_line: start_line + 2,
        loc: 3,
        cc: 1,
        cognitive: 0,
        depth: 1,
        fingerprint,
    }
}

fn file(path: &str, functions: Vec<FunctionData>) -> SingleFileResult {
    SingleFileResult {
        path: path.to_string(),
        loc: 10,
        cc_max: 1,
        cc_sum: functions.len() as u32,
        cognitive_max: 0,
        cognitive_sum: 0,
        depth_max: 1,
        imports: 0,
        exports: 0,
        mi: 88,
        function_count: functions.len() as u32,
        dup_count: 0,
        functions,
    }
}

#[test]
fn collected_rows_and_names() {
    let results = vec![
        file("a.rs", vec![func(Some("alpha"), 1, 5), func(None, 4, 6)]),
        file("b.rs", vec![func(Some("beta"), 2, 5)]),
    ];
    let (files, fns, names) = collect_results(results);
    assert_eq!(files.len(), 2);
    assert_eq!(files.paths[1], "b.rs");
    assert_eq!(fns.len(), 3);
    assert_eq!(fns.file_idx, vec![0, 0, 1]);
    assert_eq!(names.get(fns.name_offset[0], fns.name_len[0]), "alpha");
    assert_eq!((fns.name_offset[1], fns.name_len[1]), (0, 0));
    assert_eq!(names.get(fns.name_offset[2], fns.name_len[2]), "beta");
}

#[test]
fn duplicate_index_from_rows() {
    let results = vec![
        file("a.rs", vec![func(Some("x"), 1, 5), func(Some("y"), 4, 6)]),
        file("b.rs", vec![func(Some("z"), 2, 5)]),
    ];
    let (_, fns, _) = collect_results(results);
    let index = build_duplicate_index(&fns, 52);
    assert_eq!(index.len(), 3);
    let exact = index.find_exact_duplicates();
    assert_eq!(exact.len(), 1);
    assert_eq!(exact[0].instances.iter().map(|i| (i.0.file_idx, i.0.fn_idx)).collect::<Vec<_>>(), vec![(0, 0), (1, 2)]);
}

#[test]
fn skip_only_whole_components() {
    assert!(is_skippable(".git/config"));
    assert!(!is_skippable("src/targets/x.rs"));
    assert!(!is_skippable("my_venv/lib.py"));
}
