use mete::application::{AnalysisService, AnalyzeRequest, WantFlags};
use mete::domain::events::{BranchType, EventValidator, StructuralEvent};
use mete::domain::metrics::MaintainabilityIndex;
use mete::domain::primitives::{BytePos, DomainError};
use mete::domain::rules::{AggregationRules, CognitiveComplexityRules, ComplexityRules, DuplicationRules};
use mete::domain::source_code::{extraction_fits_check, SourceCode};
use mete::dup::{DuplicateGroup, FunctionLocation};
use mete::report::groups_with_min_instances;

fn pos(p: u32) -> BytePos {
    BytePos::new(p).unwrap()
}

fn mi() -> MaintainabilityIndex {
    MaintainabilityIndex::from_whole(Some(80)).unwrap()
}

#[test]
fn prepare_and_respond_give_functions_and_file_metrics() {
    let text = "fn a() {\n    if x { }\n}\n".to_string();
    let request = AnalyzeRequest::new(text, "rust".to_string()).unwrap();
    let mut source = AnalysisService::prepare(&request).unwrap();
    assert_eq!(source.node_metrics().len(), 1);
    let parts = AnalysisService::respond(&request, &mut source, mi()).unwrap();
    let functions = parts.functions.unwrap();
    assert_eq!(functions.len(), 1);
    assert_eq!(functions[0].name.as_deref(), Some("a"));
    assert_eq!(functions[0].cc, 2);
    let file = parts.file.unwrap();
    assert_eq!(file.functions_count, 1);
    assert_eq!(file.cc_max, 2);
    assert!(parts.duplicates.is_none());
    assert!(source.metrics().is_some());
}

#[test]
fn respond_finds_cursor_function_and_duplicates() {
    let text = "fn a() { }\nfn b() { }\n".to_string();
    let request =
        AnalyzeRequest::with_options(text, "rust".to_string(), Some(14), WantFlags::file_only().with_cursor()).unwrap();
    let mut source = AnalysisService::prepare(&request).unwrap();
    let parts = AnalysisService::respond(&request, &mut source, mi()).unwrap();
    assert!(parts.functions.is_none());
    let cursor = parts.cursor.unwrap();
    assert_eq!(cursor.name.as_deref(), Some("b"));
    let groups = parts.duplicates.unwrap();
    assert_eq!(groups.len(), 1);
    assert_eq!(groups[0].instances.len(), 2);
    assert_eq!(groups[0].instances[0].start_line, 1);
    assert_eq!(groups[0].instances[1].start_line, 2);
}

#[test]
fn respond_without_file_leaves_metrics_unset() {
    let text = "fn a() { }\n".to_string();
    let request = AnalyzeRequest::with_options(text, "rust".to_string(), None, WantFlags::file_only()).unwrap();
    let mut source = AnalysisService::prepare(&request).unwrap();
    let mut no_file = request.clone();
    no_file.want.file = false;
    let parts = AnalysisService::respond(&no_file, &mut source, mi()).unwrap();
    assert!(parts.file.is_none());
    assert!(source.metrics().is_none());
}

#[test]
fn prepare_rejects_bad_version_cursor_and_language() {
    let mut request = AnalyzeRequest::new("fn a() {}".to_string(), "rust".to_string()).unwrap();
    request.version = 2;
    assert!(matches!(AnalysisService::prepare(&request), Err(DomainError::UnsupportedLanguage(m)) if m == "version 2 not supported"));

    let request =
        AnalyzeRequest::with_options("fn a() {}".to_string(), "rust".to_string(), Some(9), WantFlags::all()).unwrap();
    assert!(matches!(AnalysisService::prepare(&request), Err(DomainError::InvalidBytePosition(m)) if m == "cursor out of bounds"));

    let request = AnalyzeRequest::new("x".to_string(), "cobol".to_string()).unwrap();
    assert!(matches!(AnalysisService::prepare(&request), Err(DomainError::UnsupportedLanguage(m)) if m == "cobol"));
}

#[test]
fn fingerprint_ignores_names_positions_imports_and_ends() {
    let a = vec![
        StructuralEvent::function_start(Some("a".to_string()), pos(0), pos(10)).unwrap(),
        StructuralEvent::import("x".to_string(), pos(0), pos(1)).unwrap(),
        StructuralEvent::block_entry(pos(2), pos(8)).unwrap(),
        StructuralEvent::function_end(pos(0), pos(10)).unwrap(),
    ];
    let b = vec![
        StructuralEvent::function_start(Some("other".to_string()), pos(100), pos(110)).unwrap(),
        StructuralEvent::block_entry(pos(52), pos(58)).unwrap(),
    ];
    let c = vec![
        StructuralEvent::function_start(None, pos(0), pos(10)).unwrap(),
        StructuralEvent::block_entry(pos(2), pos(8)).unwrap(),
    ];
    let fa = DuplicationRules::compute_fingerprint_from_events(&a);
    let fb = DuplicationRules::compute_fingerprint_from_events(&b);
    let fc = DuplicationRules::compute_fingerprint_from_events(&c);
    assert_eq!(fa, fb);
    assert_ne!(fa, fc);
}

#[test]
fn size_checks_on_small_inputs() {
    assert!(CognitiveComplexityRules::fits_u32(&[]));
    assert!(AggregationRules::fits(&[], &[]));
    let inside = vec![StructuralEvent::function_start(None, pos(0), pos(2)).unwrap()];
    assert!(extraction_fits_check(&inside, "éa"));
    let mid_char = vec![StructuralEvent::function_start(None, pos(1), pos(3)).unwrap()];
    assert!(!extraction_fits_check(&mid_char, "éa"));
    let past_end = vec![StructuralEvent::function_start(None, pos(1), pos(9)).unwrap()];
    assert!(extraction_fits_check(&past_end, "éa"));
}

#[test]
fn groups_below_min_instances_are_dropped() {
    let loc = |f: u32| FunctionLocation { file_idx: f, fn_idx: 0 };
    let groups = vec![
        DuplicateGroup { canonical: loc(0), instances: vec![(loc(0), 64), (loc(1), 60)] },
        DuplicateGroup { canonical: loc(2), instances: vec![(loc(2), 64), (loc(3), 64), (loc(4), 58)] },
    ];
    let kept = groups_with_min_instances(groups, 3);
    assert_eq!(kept.len(), 1);
    assert_eq!(kept[0].canonical.file_idx, 2);
}

#[test]
fn fingerprint_treats_unicode_spaces_as_spaces() {
    let plain = DuplicationRules::compute_fingerprint("fn x  y");
    let ideographic = DuplicationRules::compute_fingerprint("fn\u{3000}x\u{2003}y");
    let zero_width = DuplicationRules::compute_fingerprint("fn\u{200B}x y");
    assert_eq!(plain, ideographic);
    assert_ne!(plain, zero_width);
}

#[test]
fn node_kinds_of_a_small_parse_are_counted() {
    let (dist, n) = mete::infrastructure::count_node_types(mete::lang::Language::Rust, "fn a() {}".as_bytes()).unwrap();
    assert_eq!(n, 10);
    assert_eq!(dist.total_nodes().as_u32(), 10);
    let count_of = |kind: &str| {
        dist.frequencies().iter().find(|(k, _)| k == kind).map(|(_, c)| c.as_u32())
    };
    assert_eq!(count_of("function_item"), Some(1));
    assert_eq!(count_of("identifier"), Some(1));
    assert_eq!(count_of("source_file"), Some(1));
    assert_eq!(count_of("if_expression"), None);
}

#[test]
fn complexity_from_events_passes_its_check() {
    let events = vec![
        StructuralEvent::branch(pos(1), pos(2), BranchType::Conditional).unwrap(),
        StructuralEvent::block_entry(pos(2), pos(5)).unwrap(),
        StructuralEvent::branch(pos(3), pos(4), BranchType::Loop).unwrap(),
    ];
    let cc = ComplexityRules::compute_from_events(&events);
    assert_eq!(cc, 3);
    assert!(ComplexityRules::validate_complexity_invariants(cc, 2).is_ok());
    assert!(ComplexityRules::validate_complexity_invariants(2, 2).is_err());
}

#[test]
fn validator_after_a_stream_counts_its_differences() {
    let mut v = EventValidator::new();
    assert!(v.is_balanced());
    v.validate(&StructuralEvent::function_start(Some("test".to_string()), pos(10), pos(20)).unwrap()).unwrap();
    v.validate(&StructuralEvent::block_entry(pos(11), pos(19)).unwrap()).unwrap();
    assert!(v.validate(&StructuralEvent::function_end(pos(10), pos(20)).unwrap()).is_ok());
    assert!(!v.is_balanced());
    assert!(v.validate(&StructuralEvent::block_exit(pos(11), pos(19)).unwrap()).is_ok());
    assert!(v.is_balanced());
    assert!(v.validate(&StructuralEvent::block_exit(pos(11), pos(19)).unwrap()).is_err());
    assert!(v.is_balanced());
}

#[test]
fn compute_metrics_twice_gives_the_same_metrics() {
    let mut source = SourceCode::new("fn t() {}".to_string(), "rust").unwrap();
    let events = vec![
        StructuralEvent::function_start(Some("t".to_string()), pos(0), pos(9)).unwrap(),
        StructuralEvent::function_end(pos(0), pos(9)).unwrap(),
    ];
    source.add_events(events).unwrap();
    let first = source.compute_metrics(MaintainabilityIndex::from_whole(Some(90)).unwrap()).unwrap();
    let second = source.compute_metrics(MaintainabilityIndex::from_whole(Some(10)).unwrap()).unwrap();
    assert_eq!(first, second);
    assert_eq!(second.mi.as_u8(), 90);
    assert_eq!(source.events().len(), 2);
}
