use mete::data::FunctionData;
use mete::lang::Language;
use mete::walk::{count_within_file_duplicates, hash_kind, Walker};

#[test]
fn analyze_simple_rust() {
    let source = b"fn main() { if true { } }";
    let mut walker = Walker::new(Language::Rust).unwrap();
    let result = walker.analyze("test.rs".to_string(), source).unwrap();

    assert_eq!(result.function_count, 1);
    assert!(result.cc_max >= 1);
}

#[test]
fn analyze_nested_functions() {
    let source = b"fn outer() { fn inner() { } }";
    let mut walker = Walker::new(Language::Rust).unwrap();
    let result = walker.analyze("test.rs".to_string(), source).unwrap();

    assert_eq!(result.function_count, 2);
}

#[test]
fn analyze_python() {
    let source = b"def hello():\n    if True:\n        pass\n";
    let mut walker = Walker::new(Language::Python).unwrap();
    let result = walker.analyze("test.py".to_string(), source).unwrap();

    assert_eq!(result.function_count, 1);
}

#[test]
fn hash_determinism() {
    let h1 = hash_kind("function");
    let h2 = hash_kind("function");
    assert_eq!(h1, h2);

    let h3 = hash_kind("block");
    assert_ne!(h1, h3);
}

fn function(name: &str, start_line: u32, fingerprint: u64) -> FunctionData {
    FunctionData {
        name: Some(name.to_string()),
        start_line,
        end_line: start_line + 4,
        loc: 5,
        cc: 1,
        cognitive: 0,
        depth: 1,
        fingerprint,
    }
}

#[test]
fn duplicate_detection() {
    let functions = vec![function("a", 1, 12345), function("b", 6, 12345), function("c", 11, 99999)];
    let dup_count = count_within_file_duplicates(&functions);
    assert_eq!(dup_count, 1);
}

#[test]
fn duplicates_count_repeats_beyond_first() {
    let functions = vec![function("a", 1, 7), function("b", 6, 7), function("c", 11, 7), function("d", 16, 8)];
    assert_eq!(count_within_file_duplicates(&functions), 2);
    assert_eq!(count_within_file_duplicates(&[]), 0);
}

#[test]
fn analyze_counts_lines_and_branches() {
    let source = b"fn f(x: i32) -> i32 {\n    if x > 0 { 1 } else { 2 }\n}\n";
    let mut walker = Walker::new(Language::Rust).unwrap();
    let result = walker.analyze("f.rs".to_string(), source).unwrap();
    assert_eq!(result.loc, 3);
    assert_eq!(result.functions.len(), 1);
    assert_eq!(result.functions[0].name.as_deref(), Some("f"));
    assert_eq!(result.cc_max, 2);
}
