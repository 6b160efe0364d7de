use mete::data::{FunctionData, SingleFileResult};
use mete::dup::FunctionLocation;
use mete::report::{
    duplicate_candidate, file_selected, function_selected, index_candidates, name_less, name_ranks, order_by_keys,
    determine_reason, within_file_groups, FileTotals, MetricTopic,
};

fn func(name: Option<&str>, loc: u32, cc: u32, depth: u32, fingerprint: u64) -> FunctionData {
    FunctionData {
        name: name.map(|n| n.to_string()),
        start_line: 1,
        end_line: loc,
        loc,
        cc,
        cognitive: 1,
        depth,
        fingerprint,
    }
}

fn file(path: &str, functions: Vec<FunctionData>) -> SingleFileResult {
    SingleFileResult {
        path: path.to_string(),
        loc: 100,
        cc_max: 1,
        cc_sum: functions.len() as u32,
        cognitive_max: 0,
        cognitive_sum: 0,
        depth_max: 1,
        imports: 0,
        exports: 0,
        mi: 70,
        function_count: functions.len() as u32,
        dup_count: 0,
        functions,
    }
}

#[test]
fn candidates_need_lines_and_a_name() {
    assert!(duplicate_candidate(&func(Some("a"), 5, 1, 0, 1), 5, false));
    assert!(!duplicate_candidate(&func(Some("a"), 4, 1, 0, 1), 5, false));
    assert!(!duplicate_candidate(&func(None, 5, 1, 0, 1), 5, false));
    assert!(duplicate_candidate(&func(None, 5, 1, 0, 1), 5, true));
}

#[test]
fn groups_within_one_file() {
    let fns = vec![
        func(Some("a"), 10, 1, 0, 7),
        func(Some("b"), 10, 1, 0, 9),
        func(None, 10, 1, 0, 7),
        func(Some("c"), 10, 1, 0, 7),
        func(Some("d"), 10, 1, 0, 9),
        func(Some("e"), 2, 1, 0, 9),
    ];
    let groups = within_file_groups(&fns, 2, 5, false);
    assert_eq!(groups, vec![(7, vec![0, 3]), (9, vec![1, 4])]);
    let groups = within_file_groups(&fns, 3, 5, true);
    assert_eq!(groups, vec![(7, vec![0, 2, 3])]);
    let groups = within_file_groups(&fns, 3, 1, false);
    assert_eq!(groups, vec![(9, vec![1, 4, 5])]);
}

#[test]
fn cross_file_index_holds_candidates() {
    let results = vec![
        file("a.rs", vec![func(Some("f"), 10, 1, 0, 5), func(None, 10, 1, 0, 5)]),
        file("b.rs", vec![func(Some("g"), 10, 1, 0, 5), func(Some("h"), 1, 1, 0, 6)]),
    ];
    let index = index_candidates(&results, 64, 5, false);
    let groups = index.find_exact_duplicates();
    assert_eq!(groups.len(), 1);
    let locations: Vec<FunctionLocation> = groups[0].instances.iter().map(|(l, _)| *l).collect();
    assert_eq!(
        locations,
        vec![FunctionLocation { file_idx: 0, fn_idx: 0 }, FunctionLocation { file_idx: 1, fn_idx: 0 }]
    );
}

#[test]
fn refactor_reasons() {
    assert_eq!(determine_reason(1, 1, 10, 1), "minor complexity");
    assert_eq!(determine_reason(12, 1, 10, 1), "high cyclomatic complexity (12)");
    assert_eq!(determine_reason(7, 1, 10, 1), "moderate complexity (7)");
    assert_eq!(
        determine_reason(12, 20, 60, 5),
        "high cyclomatic complexity (12), high cognitive load (20), large function (60 lines), deeply nested (depth 5)"
    );
    assert_eq!(determine_reason(3, 16, 10, 5), "high cognitive load (16), deeply nested (depth 5)");
}

#[test]
fn function_filters() {
    let f = func(Some("f"), 60, 12, 4, 1);
    assert!(function_selected(&f, true, true, true, Some(12), Some(60)));
    assert!(!function_selected(&f, false, false, false, Some(13), None));
    assert!(!function_selected(&f, false, false, false, None, Some(61)));
    let small = func(Some("g"), 10, 2, 1, 1);
    assert!(function_selected(&small, false, false, false, None, None));
    assert!(!function_selected(&small, true, false, false, None, None));
    assert!(!function_selected(&small, false, true, false, None, None));
    assert!(!function_selected(&small, false, false, true, None, None));
}

#[test]
fn stable_key_order() {
    let keys = vec![3, 1, 3, 2, 1];
    assert_eq!(order_by_keys(&keys, false), vec![1, 4, 3, 0, 2]);
    assert_eq!(order_by_keys(&keys, true), vec![0, 2, 3, 1, 4]);
    assert_eq!(order_by_keys(&[], true), Vec::<usize>::new());
}

#[test]
fn names_order_by_bytes() {
    let names = vec![Some("beta".to_string()), None, Some("alpha".to_string()), Some("beta".to_string()), Some("al".to_string())];
    assert_eq!(name_ranks(&names), vec![3, 0, 2, 3, 1]);
    assert!(name_less(&None, &Some("a".to_string())));
    assert!(name_less(&Some("a".to_string()), &Some("b".to_string())));
    assert!(!name_less(&Some("b".to_string()), &Some("b".to_string())));
    assert!(name_less(&Some("Z".to_string()), &Some("a".to_string())));
}

#[test]
fn file_filters() {
    let mut r = file("a.rs", vec![]);
    r.mi = 60;
    r.cc_max = 8;
    r.depth_max = 3;
    assert!(file_selected(&r, None, None, None));
    assert!(file_selected(&r, Some(60), Some(8), Some(3)));
    assert!(!file_selected(&r, Some(61), None, None));
    assert!(!file_selected(&r, None, Some(7), None));
    assert!(!file_selected(&r, None, None, Some(2)));
}

#[test]
fn file_totals_add_up() {
    let a = file("a.rs", vec![func(Some("f"), 10, 1, 0, 5)]);
    let mut b = file("b.rs", vec![]);
    b.loc = 20;
    b.mi = 50;
    b.dup_count = 2;
    let t = FileTotals::from_results(&[a, b]);
    assert_eq!(t.count, 2);
    assert_eq!(t.total_loc, 120);
    assert_eq!(t.total_mi, 120);
    assert_eq!(t.total_dups, 2);
    assert_eq!(t.total_functions, 1);
    assert_eq!(t.total_cc_max, 2);
}

#[test]
fn metric_topics_by_key() {
    assert_eq!(MetricTopic::from_key("mi"), Some(MetricTopic::Maintainability));
    assert_eq!(MetricTopic::from_key("cyclomatic-complexity"), Some(MetricTopic::Cyclomatic));
    assert_eq!(MetricTopic::from_key("lines"), Some(MetricTopic::Lines));
    assert_eq!(MetricTopic::from_key("nesting"), Some(MetricTopic::Depth));
    assert_eq!(MetricTopic::from_key("dup"), Some(MetricTopic::Duplication));
    assert_eq!(MetricTopic::from_key("fan-out"), Some(MetricTopic::Fan));
    assert_eq!(MetricTopic::from_key("MI"), None);
}
