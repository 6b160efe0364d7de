use mete::domain::entropy::{NodeCount, SymbolDistribution, SymbolFrequency};
use mete::domain::events::{BranchType, EventValidator, StructuralEvent};
use mete::domain::metrics::{FileMetrics, MaintainabilityIndex, NodeMetrics, StructuralFingerprint};
use mete::domain::primitives::{BytePos, DomainError, LanguageId, SourceText, Span, Symbol};
use mete::domain::rules::{AggregationRules, ComplexityRules, CognitiveComplexityRules, DuplicationRules, NodeTotals};
use mete::domain::source_code::{count_text_lines, SourceCode};
use std::collections::HashMap;

/// The whole part of a finite value; `None` for NaN and infinities.
fn whole(value: f64) -> Option<i64> {
    if value.is_nan() || value.is_infinite() {
        None
    } else {
        Some(value as i64)
    }
}

fn pos(p: u32) -> BytePos {
    BytePos::new(p).unwrap()
}

#[test]
fn byte_pos_validation() {
    assert!(BytePos::new(0).is_ok());
    assert!(BytePos::new(100).is_ok());
}

#[test]
fn span_invariants() {
    let start = BytePos::new(10).unwrap();
    let end = BytePos::new(20).unwrap();

    assert!(Span::new(start, end).is_ok());
    assert_eq!(Span::new(start, end).unwrap().len(), 10);

    assert!(Span::new(end, start).is_err());
}

#[test]
fn source_text_utf8_validation() {
    assert!(SourceText::new("hello".to_string()).is_ok());

    let invalid_utf8: Vec<u8> = vec![0xFF, 0xFE];
    assert!(SourceText::from_bytes(&invalid_utf8).is_err());

    let valid_utf8 = "hello world".as_bytes();
    assert!(SourceText::from_bytes(valid_utf8).is_ok());
}

#[test]
fn language_id_parsing() {
    assert!(matches!(LanguageId::from_str("rust"), Ok(LanguageId::Rust)));
    assert!(matches!(LanguageId::from_str("RS"), Ok(LanguageId::Rust)));
    assert!(LanguageId::from_str("unknown").is_err());
}

#[test]
fn symbol_validation() {
    assert!(Symbol::new("valid_name".to_string()).is_ok());
    assert!(Symbol::new("valid.name".to_string()).is_ok());
    assert!(Symbol::new("valid-name".to_string()).is_ok());
    assert!(Symbol::new("@scope/package".to_string()).is_ok());
    assert!(Symbol::new("".to_string()).is_err());
    assert!(Symbol::new("invalid\nname".to_string()).is_err());
}

#[test]
fn event_creation() {
    let start = BytePos::new(10).unwrap();
    let end = BytePos::new(20).unwrap();

    assert!(StructuralEvent::block_entry(start, end).is_ok());
    assert!(StructuralEvent::block_exit(start, end).is_ok());
    assert!(StructuralEvent::branch(start, end, BranchType::Conditional).is_ok());
}

#[test]
fn event_validation() {
    let mut validator = EventValidator::new();
    let start = BytePos::new(10).unwrap();
    let end = BytePos::new(20).unwrap();

    let entry = StructuralEvent::block_entry(start, end).unwrap();
    let exit = StructuralEvent::block_exit(start, end).unwrap();

    assert!(validator.validate(&entry).is_ok());
    assert!(validator.validate(&exit).is_ok());
    assert!(validator.is_balanced());

    assert!(validator.validate(&exit).is_err());
}

#[test]
fn function_nesting() {
    let mut validator = EventValidator::new();
    let start = BytePos::new(10).unwrap();
    let end = BytePos::new(20).unwrap();

    let func_start = StructuralEvent::function_start(Some("test".to_string()), start, end).unwrap();
    let func_end = StructuralEvent::function_end(start, end).unwrap();

    assert!(validator.validate(&func_start).is_ok());
    assert!(validator.validate(&func_end).is_ok());
    assert!(validator.is_balanced());

    assert!(validator.validate(&func_end).is_err());
}

#[test]
fn maintainability_index_validation() {
    assert!(MaintainabilityIndex::from_whole(whole(50.0)).is_ok());
    assert!(MaintainabilityIndex::from_whole(whole(-10.0)).is_ok());
    assert_eq!(MaintainabilityIndex::from_whole(whole(-10.0)).unwrap().as_u8(), 0);
    assert!(MaintainabilityIndex::from_whole(whole(150.0)).is_ok());
    assert_eq!(MaintainabilityIndex::from_whole(whole(150.0)).unwrap().as_u8(), 100);
    assert!(MaintainabilityIndex::from_whole(whole(f64::NAN)).is_err());
}

#[test]
fn file_metrics_invariants() {
    let mi = MaintainabilityIndex::from_whole(whole(75.0)).unwrap();

    assert!(FileMetrics::new(100, 5, 10, 3, 8, 3, 0, 2, 1, mi, 0, 2).is_ok());
    assert!(FileMetrics::new(100, 15, 10, 3, 8, 3, 0, 2, 1, mi, 0, 2).is_err());
    assert!(FileMetrics::new(100, 5, 10, 10, 8, 3, 0, 2, 1, mi, 0, 2).is_err());
}

#[test]
fn stability_index_calculation() {
    let mi = MaintainabilityIndex::from_whole(whole(75.0)).unwrap();

    let stable = FileMetrics::new(100, 5, 10, 3, 8, 2, 10, 1, 0, mi, 0, 2).unwrap();
    assert!(stable.is_stable());

    let unstable = FileMetrics::new(100, 5, 10, 3, 8, 2, 2, 10, 0, mi, 0, 2).unwrap();
    assert!(!unstable.is_stable());

    let isolated = FileMetrics::new(100, 5, 10, 3, 8, 2, 0, 0, 0, mi, 0, 2).unwrap();
    assert!(isolated.is_stable());
}

#[test]
fn node_metrics_validation() {
    let span = Span::new(BytePos::new(0).unwrap(), BytePos::new(10).unwrap()).unwrap();
    let fingerprint = StructuralFingerprint::new(12345);

    assert!(NodeMetrics::new(Some("test".to_string()), span, 10, 3, 4, 2, fingerprint).is_ok());
    assert!(NodeMetrics::new(Some("test".to_string()), span, 0, 3, 4, 2, fingerprint).is_err());
    assert!(NodeMetrics::new(Some("test".to_string()), span, 10, 0, 4, 2, fingerprint).is_err());
    assert!(NodeMetrics::new(Some("test".to_string()), span, 10, 3, 0, 2, fingerprint).is_err());
}

#[test]
fn complexity_computation() {
    let events = vec![
        StructuralEvent::branch(BytePos::new(0).unwrap(), BytePos::new(10).unwrap(), BranchType::Conditional).unwrap(),
        StructuralEvent::branch(BytePos::new(20).unwrap(), BytePos::new(30).unwrap(), BranchType::Loop).unwrap(),
    ];

    let complexity = ComplexityRules::compute_from_events(&events);
    assert_eq!(complexity, 3);
}

#[test]
fn fingerprint_computation() {
    let events = vec![
        StructuralEvent::function_start(Some("test".to_string()), BytePos::new(0).unwrap(), BytePos::new(10).unwrap()).unwrap(),
        StructuralEvent::branch(BytePos::new(5).unwrap(), BytePos::new(8).unwrap(), BranchType::Conditional).unwrap(),
    ];

    let fingerprint = DuplicationRules::compute_fingerprint_from_events(&events);
    assert!(fingerprint.as_u64() > 0);
}

#[test]
fn duplicate_counting() {
    let mut fingerprints = HashMap::new();
    fingerprints.insert(StructuralFingerprint::new(1).as_u64(), 1);
    fingerprints.insert(StructuralFingerprint::new(2).as_u64(), 3);
    fingerprints.insert(StructuralFingerprint::new(3).as_u64(), 1);

    let dup_count = DuplicationRules::count_duplicates(&fingerprints);
    assert_eq!(dup_count, 2);
}

#[test]
fn source_code_creation() {
    let source = SourceCode::new("fn main() {}".to_string(), "rust");
    assert!(source.is_ok());

    let source = SourceCode::new("fn main() {}".to_string(), "rust").unwrap();
    assert_eq!(source.language(), LanguageId::Rust);
    assert!(!source.text().is_empty());
}

#[test]
fn event_stream_validation() {
    let mut source = SourceCode::new("fn test() {}".to_string(), "rust").unwrap();

    let valid_events = vec![
        StructuralEvent::function_start(Some("test".to_string()), BytePos::new(0).unwrap(), BytePos::new(10).unwrap()).unwrap(),
        StructuralEvent::branch(BytePos::new(5).unwrap(), BytePos::new(8).unwrap(), BranchType::Conditional).unwrap(),
        StructuralEvent::function_end(BytePos::new(0).unwrap(), BytePos::new(10).unwrap()).unwrap(),
    ];

    assert!(source.add_events(valid_events).is_ok());
    assert_eq!(source.events().len(), 3);
}

#[test]
fn unbalanced_events_rejection() {
    let mut source = SourceCode::new("fn test() {}".to_string(), "rust").unwrap();

    let unbalanced_events = vec![StructuralEvent::function_start(
        Some("test".to_string()),
        BytePos::new(0).unwrap(),
        BytePos::new(10).unwrap(),
    )
    .unwrap()];

    assert!(source.add_events(unbalanced_events).is_err());
}

#[test]
fn metrics_computation() {
    let mut source = SourceCode::new("fn test() { if true { } }".to_string(), "rust").unwrap();

    let events = vec![
        StructuralEvent::function_start(Some("test".to_string()), BytePos::new(0).unwrap(), BytePos::new(20).unwrap()).unwrap(),
        StructuralEvent::branch(BytePos::new(12).unwrap(), BytePos::new(14).unwrap(), BranchType::Conditional).unwrap(),
        StructuralEvent::function_end(BytePos::new(0).unwrap(), BytePos::new(20).unwrap()).unwrap(),
    ];

    source.add_events(events).unwrap();
    let mi = MaintainabilityIndex::from_whole(Some(100)).unwrap();
    let metrics = source.compute_metrics(mi).unwrap();

    assert!(metrics.loc > 0);
    assert!(metrics.cc_sum >= 1);
    assert!(metrics.mi.as_u8() <= 100);
}

#[test]
fn consistency_validation() {
    let mut source = SourceCode::new("fn test() {}".to_string(), "rust").unwrap();

    let events = vec![
        StructuralEvent::function_start(Some("test".to_string()), BytePos::new(0).unwrap(), BytePos::new(10).unwrap()).unwrap(),
        StructuralEvent::function_end(BytePos::new(0).unwrap(), BytePos::new(10).unwrap()).unwrap(),
    ];

    source.add_events(events).unwrap();
    let mi = MaintainabilityIndex::from_whole(Some(100)).unwrap();
    source.compute_metrics(mi).unwrap();

    assert!(source.validate_consistency().is_ok());
}

#[test]
fn node_count_validation() {
    assert!(NodeCount::new(1).is_ok());
    assert!(NodeCount::new(100).is_ok());
    assert!(NodeCount::new(0).is_err());
}

#[test]
fn symbol_frequency_validation() {
    assert!(SymbolFrequency::new(1).is_ok());
    assert!(SymbolFrequency::new(0).is_err());
}

#[test]
fn symbol_distribution_insert() {
    let mut dist = SymbolDistribution::new();
    dist.insert("function_definition".to_string());
    dist.insert("function_definition".to_string());
    dist.insert("identifier".to_string());

    assert_eq!(dist.len(), 2);
    assert_eq!(dist.total_nodes().as_u32(), 3);
}

#[test]
fn most_common_orders_by_count_then_first_seen() {
    let mut dist = SymbolDistribution::default();
    for k in ["a", "b", "b", "c", "c", "d"] {
        dist.insert(k.to_string());
    }
    let top: Vec<(String, u32)> = dist.most_common(3).into_iter().map(|(k, c)| (k.clone(), c.as_u32())).collect();
    assert_eq!(top, vec![("b".to_string(), 2), ("c".to_string(), 2), ("a".to_string(), 1)]);
    assert_eq!(dist.most_common(10).len(), 4);
    assert_eq!(SymbolDistribution::new().total_nodes().as_u32(), 1);
}

#[test]
fn span_queries() {
    let s = Span::new(pos(5), pos(9)).unwrap();
    assert!(s.contains(pos(5)));
    assert!(!s.contains(pos(9)));
    assert!(s.contains_span(Span::new(pos(6), pos(9)).unwrap()));
    assert!(!s.contains_span(Span::new(pos(4), pos(6)).unwrap()));
    assert!(Span::empty_at(pos(3)).is_empty());
    assert!(matches!(pos(u32::MAX).offset(1), Err(DomainError::InvalidBytePosition(_))));
    assert_eq!(pos(7).offset(3).unwrap().as_u32(), 10);
}

#[test]
fn source_text_access() {
    let t = SourceText::new("héllo".to_string()).unwrap();
    assert_eq!(t.len(), 6);
    assert_eq!(t.byte_at(pos(0)).unwrap(), b'h');
    assert!(t.byte_at(pos(6)).is_err());
    assert_eq!(t.substring(Span::new(pos(1), pos(3)).unwrap()).unwrap(), "é");
    assert!(t.substring(Span::new(pos(1), pos(7)).unwrap()).is_err());
}

#[test]
fn error_descriptions() {
    let e = Span::new(pos(2), pos(1)).unwrap_err();
    assert_eq!(e.describe(), "Invalid span: end before start");
    assert_eq!(LanguageId::from_str("cobol").unwrap_err().describe(), "Unsupported language: cobol");
    assert_eq!(Symbol::new("a\tb".to_string()).unwrap_err().describe(), "Empty symbol: symbol contains invalid characters: a\tb");
}

#[test]
fn language_id_names_round_trip() {
    for l in [LanguageId::Rust, LanguageId::TypeScript, LanguageId::Python, LanguageId::Go, LanguageId::Java, LanguageId::CSharp, LanguageId::JavaScript, LanguageId::Cpp, LanguageId::Elixir] {
        assert_eq!(LanguageId::from_str(l.as_str()).unwrap(), l);
    }
    assert_eq!(LanguageId::from_str("C#").unwrap(), LanguageId::CSharp);
}

#[test]
fn cognitive_counts_nesting() {
    let ev = |e: Result<StructuralEvent, DomainError>| e.unwrap();
    let events = vec![
        ev(StructuralEvent::block_entry(pos(0), pos(50))),
        ev(StructuralEvent::branch(pos(1), pos(2), BranchType::Conditional)),
        ev(StructuralEvent::block_entry(pos(3), pos(40))),
        ev(StructuralEvent::branch(pos(4), pos(5), BranchType::Loop)),
        ev(StructuralEvent::branch(pos(6), pos(7), BranchType::Logical)),
        ev(StructuralEvent::block_exit(pos(3), pos(40))),
        ev(StructuralEvent::block_exit(pos(0), pos(50))),
    ];
    // 1 + 1 (depth 1), then 1 + 2 (depth 2), then 1 for the logical operator.
    assert_eq!(CognitiveComplexityRules::compute_from_events(&events), 6);
}

#[test]
fn node_metrics_extracted_per_function() {
    let text = "fn a() {\n  if x {}\n}\nfn b() {}\n";
    let mut source = SourceCode::new(text.to_string(), "rust").unwrap();
    let ev = |e: Result<StructuralEvent, DomainError>| e.unwrap();
    let events = vec![
        ev(StructuralEvent::function_start(Some("a".to_string()), pos(0), pos(20))),
        ev(StructuralEvent::block_entry(pos(7), pos(20))),
        ev(StructuralEvent::branch(pos(11), pos(18), BranchType::Conditional)),
        ev(StructuralEvent::block_exit(pos(7), pos(20))),
        ev(StructuralEvent::function_end(pos(0), pos(20))),
        ev(StructuralEvent::function_start(Some("b".to_string()), pos(21), pos(30))),
        ev(StructuralEvent::function_end(pos(21), pos(30))),
    ];
    source.add_events(events).unwrap();
    let nodes = source.compute_node_metrics().unwrap();
    assert_eq!(nodes.len(), 2);
    assert_eq!(nodes[0].name.as_deref(), Some("a"));
    assert_eq!(nodes[0].loc, 3);
    assert_eq!(nodes[0].cc, 2);
    assert_eq!(nodes[0].cognitive, 2);
    assert_eq!(nodes[0].depth, 1);
    assert_eq!(nodes[1].cc, 1);
    assert_eq!(nodes[1].cognitive, 1);
    assert!(source.analyze_cursor(pos(25)).is_some());
    assert_eq!(source.analyze_cursor(pos(25)).unwrap().name.as_deref(), Some("b"));
    assert!(source.analyze_cursor(pos(40)).is_none());
    assert!(source.get_large_functions().is_empty());
    let mi = MaintainabilityIndex::from_whole(Some(80)).unwrap();
    let fm = source.compute_metrics(mi).unwrap();
    assert_eq!(fm.functions_count, 2);
    assert_eq!(fm.cc_sum, 3);
    assert_eq!(fm.cc_max, 2);
    assert_eq!(fm.loc, 4);
    assert_eq!(fm.depth_max, 1);
    assert!(source.validate_consistency().is_ok());
}

#[test]
fn file_metrics_from_events_without_nodes() {
    let ev = |e: Result<StructuralEvent, DomainError>| e.unwrap();
    let events = vec![
        ev(StructuralEvent::import("std".to_string(), pos(0), pos(3))),
        ev(StructuralEvent::export("f".to_string(), pos(4), pos(5))),
        ev(StructuralEvent::branch(pos(6), pos(7), BranchType::Switch)),
    ];
    let mi = MaintainabilityIndex::from_whole(Some(90)).unwrap();
    let fm = AggregationRules::compute_file_metrics(&events, &[], 12, mi).unwrap();
    assert_eq!(fm.cc_sum, 2);
    assert_eq!(fm.cc_max, 2);
    assert_eq!(fm.fan_out, 1);
    assert_eq!(fm.exports, 1);
    assert_eq!(fm.functions_count, 0);
    assert_eq!(fm.loc, 12);
}

#[test]
fn structure_fingerprint_ignores_names_and_spacing() {
    let a = DuplicationRules::compute_fingerprint("fn foo ( x1 )   { }");
    let b = DuplicationRules::compute_fingerprint("  fn bar (y2) { }");
    let c = DuplicationRules::compute_fingerprint("fn bar ( y2 ) { }");
    assert_eq!(a, c);
    assert_ne!(a, b);
}

#[test]
fn text_line_counts() {
    assert_eq!(count_text_lines(""), 0);
    assert_eq!(count_text_lines("a"), 1);
    assert_eq!(count_text_lines("a\n"), 1);
    assert_eq!(count_text_lines("\n"), 1);
    assert_eq!(count_text_lines("a\n\nb"), 3);
    assert_eq!(count_text_lines("a\nb\n"), 2);
}

#[test]
fn duplicate_groups_by_fingerprint() {
    let text = "fn a() {}\nfn b() {}\nfn c() { if x {} }\n";
    let mut source = SourceCode::new(text.to_string(), "rust").unwrap();
    let ev = |e: Result<StructuralEvent, DomainError>| e.unwrap();
    let events = vec![
        ev(StructuralEvent::function_start(Some("a".to_string()), pos(0), pos(9))),
        ev(StructuralEvent::function_end(pos(0), pos(9))),
        ev(StructuralEvent::function_start(Some("b".to_string()), pos(10), pos(19))),
        ev(StructuralEvent::function_end(pos(10), pos(19))),
        ev(StructuralEvent::function_start(Some("c".to_string()), pos(20), pos(38))),
        ev(StructuralEvent::branch(pos(29), pos(36), BranchType::Conditional)),
        ev(StructuralEvent::function_end(pos(20), pos(38))),
    ];
    source.add_events(events).unwrap();
    let nodes = source.compute_node_metrics().unwrap();
    assert_eq!(nodes.len(), 3);
    assert_eq!(nodes[0].fingerprint, nodes[1].fingerprint);
    assert_ne!(nodes[0].fingerprint, nodes[2].fingerprint);
    let groups = source.get_duplicate_groups();
    assert_eq!(groups.len(), 1);
    assert_eq!(groups[0].instances.len(), 2);
    assert_eq!(groups[0].instances[0].name.as_deref(), Some("a"));
    assert_eq!(groups[0].instances[0].start_line, 1);
    assert_eq!(groups[0].instances[0].end_line, 1);
    assert_eq!(groups[0].instances[1].name.as_deref(), Some("b"));
    assert_eq!(groups[0].instances[1].start_line, 2);
    assert_eq!(groups[0].instances[1].end_line, 2);
}

#[test]
fn node_totals_sum_and_count() {
    let span = Span::new(pos(0), pos(10)).unwrap();
    let fp = StructuralFingerprint::new(1);
    let nodes = vec![
        NodeMetrics::new(Some("a".to_string()), span, 60, 12, 3, 5, fp).unwrap(),
        NodeMetrics::new(Some("b".to_string()), span, 10, 2, 1, 1, fp).unwrap(),
        NodeMetrics::new(None, span, 5, 3, 1, 4, fp).unwrap(),
    ];
    let t = NodeTotals::from_nodes(&nodes);
    assert_eq!(t.count, 3);
    assert_eq!(t.total_loc, 75);
    assert_eq!(t.total_cc, 17);
    assert_eq!(t.max_cc, 12);
    assert_eq!(t.max_depth, 5);
    assert_eq!(t.depth_sum, 10);
    assert_eq!(t.complex_functions, 2);
    assert_eq!(t.large_functions, 1);
    assert_eq!(t.deep_functions, 2);
    let empty = NodeTotals::from_nodes(&[]);
    assert_eq!(empty.count, 0);
    assert_eq!(empty.max_cc, 0);
}

#[test]
fn index_and_counts_stay_in_range() {
    assert_eq!(MaintainabilityIndex::from_whole(Some(250)).unwrap().as_u8(), 100);
    assert_eq!(MaintainabilityIndex::from_whole(Some(-4)).unwrap().as_u8(), 0);
    assert!(NodeCount::new(0).is_err());
    assert_eq!(NodeCount::new(3).unwrap().as_u32(), 3);
    assert_eq!(Symbol::new("a.b".to_string()).unwrap().clone().as_str(), "a.b");
}
