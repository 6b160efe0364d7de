use mete::lang::{BranchKind, Language, LanguageSpec};

#[test]
fn language_from_str() {
    assert_eq!(Language::from_name("rust"), Some(Language::Rust));
    assert_eq!(Language::from_name("RS"), Some(Language::Rust));
    assert_eq!(Language::from_name("TypeScript"), Some(Language::TypeScript));
    assert_eq!(Language::from_name("unknown"), None);
}

#[test]
fn language_from_path() {
    assert_eq!(Language::from_path("test.rs"), Some(Language::Rust));
    assert_eq!(Language::from_path("test.py"), Some(Language::Python));
    assert_eq!(Language::from_path("test.txt"), None);
}

#[test]
fn spec_lookups() {
    let spec = LanguageSpec::rust();
    assert!(spec.is_function("function_item"));
    assert!(!spec.is_function("if_expression"));
    assert!(spec.is_branch("if_expression"));
    assert!(spec.is_block("block"));
}

#[test]
fn branch_classification() {
    let spec = LanguageSpec::rust();
    assert_eq!(spec.classify_branch("if_expression"), BranchKind::Conditional);
    assert_eq!(spec.classify_branch("for_expression"), BranchKind::Loop);
}

#[test]
fn language_names_round_trip() {
    for l in [
        Language::Rust,
        Language::TypeScript,
        Language::Python,
        Language::Go,
        Language::Java,
        Language::CSharp,
        Language::JavaScript,
        Language::Cpp,
        Language::Elixir,
    ] {
        assert_eq!(Language::from_name(l.name()), Some(l));
    }
}

#[test]
fn extension_aliases() {
    assert_eq!(Language::from_path("a/b/c.tsx"), Some(Language::TypeScript));
    assert_eq!(Language::from_path("x.EXS"), Some(Language::Elixir));
    assert_eq!(Language::from_path("noext"), None);
}

#[test]
fn language_parses_from_text() {
    assert_eq!("Python".parse::<Language>(), Ok(Language::Python));
    assert_eq!("golang".parse::<Language>(), Ok(Language::Go));
    assert_eq!("cobol".parse::<Language>(), Err(()));
}
