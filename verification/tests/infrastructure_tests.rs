use mete::domain::events::StructuralEvent;
use mete::domain::primitives::{LanguageId, SourceText};
use mete::infrastructure::TreeSitterAdapter;

#[test]
fn adapter_creation_rust() {
    let adapter = TreeSitterAdapter::new(LanguageId::Rust);
    assert!(adapter.is_ok());
}

#[test]
fn adapter_creation_elixir() {
    let adapter = TreeSitterAdapter::new(LanguageId::Elixir);
    assert!(adapter.is_ok());
}

#[test]
fn parse_rust_function() {
    let mut adapter = TreeSitterAdapter::new(LanguageId::Rust).unwrap();
    let text = SourceText::new("fn main() { if true { } }".to_string()).unwrap();

    let events = adapter.parse_to_events(&text);
    assert!(events.is_ok());

    let events = events.unwrap();
    assert!(!events.is_empty());

    let has_function = events.iter().any(|e| e.is_function_start());
    assert!(has_function);
}

#[test]
fn parse_elixir_function() {
    let mut adapter = TreeSitterAdapter::new(LanguageId::Elixir).unwrap();
    let text =
        SourceText::new("defmodule Test do\n  def hello, do: :world\nend".to_string()).unwrap();

    let events = adapter.parse_to_events(&text);
    assert!(events.is_ok());
}

#[test]
fn parse_python_function() {
    let mut adapter = TreeSitterAdapter::new(LanguageId::Python).unwrap();
    let text = SourceText::new("def hello():\n    if True:\n        pass".to_string()).unwrap();

    let events = adapter.parse_to_events(&text);
    assert!(events.is_ok());

    let events = events.unwrap();
    let has_function = events.iter().any(|e| e.is_function_start());
    assert!(has_function);
}

#[test]
fn adapter_creation_java() {
    let adapter = TreeSitterAdapter::new(LanguageId::Java);
    assert!(adapter.is_ok());
}

#[test]
fn adapter_creation_csharp() {
    let adapter = TreeSitterAdapter::new(LanguageId::CSharp);
    assert!(adapter.is_ok());
}

#[test]
fn parse_java_class() {
    let mut adapter = TreeSitterAdapter::new(LanguageId::Java).unwrap();
    let text = SourceText::new(
        "public class Test {\n    public void foo() {\n        if (true) { }\n    }\n}".to_string(),
    )
    .unwrap();

    let events = adapter.parse_to_events(&text);
    assert!(events.is_ok());

    let events = events.unwrap();
    let has_function = events.iter().any(|e| e.is_function_start());
    assert!(has_function);
}

#[test]
fn parsecsharp_class() {
    let mut adapter = TreeSitterAdapter::new(LanguageId::CSharp).unwrap();
    let text = SourceText::new(
        "public class Test {\n    public void Foo() {\n        if (true) { }\n    }\n}".to_string(),
    )
    .unwrap();

    let events = adapter.parse_to_events(&text);
    assert!(events.is_ok());

    let events = events.unwrap();
    let has_function = events.iter().any(|e| e.is_function_start());
    assert!(has_function);
}

#[test]
fn parse_rust_function_events_balance() {
    let mut adapter = TreeSitterAdapter::new(LanguageId::Rust).unwrap();
    let text = SourceText::new("fn main() { if true { } }".to_string()).unwrap();
    let events = adapter.parse_to_events(&text).unwrap();
    let starts = events.iter().filter(|e| e.is_function_start()).count();
    let ends = events.iter().filter(|e| e.is_function_end()).count();
    assert_eq!(starts, 1);
    assert_eq!(ends, 1);
}

#[test]
fn symbol_distribution_counts_nodes() {
    let mut adapter = TreeSitterAdapter::new(LanguageId::Rust).unwrap();
    let text = SourceText::new("fn main() { if true { } }".to_string()).unwrap();
    let dist = adapter.extract_symbol_distribution(&text).unwrap();
    assert!(dist.total_nodes().as_u32() > 0);
    assert!(dist.unique_symbols() > 0);
}

#[test]
fn function_names_come_from_the_source() {
    let mut adapter = TreeSitterAdapter::new(LanguageId::Rust).unwrap();
    let text = SourceText::new("fn alpha() {}\nfn beta() {}".to_string()).unwrap();
    let events = adapter.parse_to_events(&text).unwrap();
    let names: Vec<Option<String>> = events
        .iter()
        .filter_map(|e| match e {
            StructuralEvent::FunctionStart { name, .. } => Some(name.clone()),
            _ => None,
        })
        .collect();
    assert_eq!(names, vec![Some("alpha".to_string()), Some("beta".to_string())]);
}
