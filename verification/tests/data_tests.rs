use mete::data::{FileResults, FunctionResults, StringInterner, WalkState};

#[test]
fn file_results_push() {
    let mut results = FileResults::with_capacity(2);
    results.push("test.rs".to_string(), 100, 5, 10, 3, 8, 3, 2, 1, 75, 2, 0);
    assert_eq!(results.len(), 1);
    assert_eq!(results.loc[0], 100);
    assert_eq!(results.mi[0], 75);
}

#[test]
fn string_interner() {
    let mut interner = StringInterner::with_capacity(64);
    let (off1, len1) = interner.intern("hello");
    let (off2, len2) = interner.intern("world");

    assert_eq!(interner.get(off1, len1), "hello");
    assert_eq!(interner.get(off2, len2), "world");
}

#[test]
fn walk_state_depth() {
    let mut state = WalkState::default();
    state.enter_block();
    state.enter_block();
    assert_eq!(state.depth, 2);
    assert_eq!(state.max_depth, 2);
    state.exit_block();
    assert_eq!(state.depth, 1);
    assert_eq!(state.max_depth, 2);
}

#[test]
fn walk_state_function() {
    let mut state = WalkState::default();
    state.start_function(0, 1);
    state.record_branch();
    state.record_branch();
    let (cc, cog, depth, _) = state.end_function();
    assert_eq!(cc, 3);
    assert_eq!(cog, 0);
    assert_eq!(depth, 0);
}

#[test]
fn interner_offsets_and_lengths() {
    let mut interner = StringInterner::default();
    assert!(interner.is_empty());
    assert_eq!(interner.intern("ab"), (0, 2));
    assert_eq!(interner.intern("héllo"), (2, 6));
    assert_eq!(interner.len(), 8);
    assert_eq!(interner.get(2, 6), "héllo");
    assert_eq!(interner.get(0, 2), "ab");
}

#[test]
fn interner_keeps_earlier_names() {
    let mut interner = StringInterner::default();
    let (o1, l1) = interner.intern("first");
    for _ in 0..10 {
        interner.intern("more");
    }
    assert_eq!(interner.get(o1, l1), "first");
}

#[test]
fn file_results_extend_keeps_order() {
    let mut a = FileResults::default();
    a.push("a.rs".to_string(), 1, 1, 1, 0, 0, 0, 0, 0, 90, 0, 0);
    let mut b = FileResults::with_capacity(1);
    b.push("b.rs".to_string(), 2, 2, 2, 0, 0, 0, 0, 0, 80, 1, 0);
    a.extend(b);
    assert_eq!(a.len(), 2);
    assert_eq!(a.paths, vec!["a.rs".to_string(), "b.rs".to_string()]);
    assert_eq!(a.mi, vec![90, 80]);
    assert_eq!(a.indices(), 0..2);
}

#[test]
fn function_results_push_and_extend() {
    let mut f = FunctionResults::with_capacity(1);
    assert!(f.is_empty());
    f.push(0, 0, 3, 1, 4, 4, 2, 1, 1, 77);
    let mut g = FunctionResults::default();
    g.push(1, 3, 2, 5, 9, 5, 1, 0, 0, 78);
    f.extend(g);
    assert_eq!(f.len(), 2);
    assert_eq!(f.file_idx, vec![0, 1]);
    assert_eq!(f.fingerprint, vec![77, 78]);
    assert_eq!(f.indices(), 0..2);
}

#[test]
fn walk_state_exit_saturates_and_nesting() {
    let mut state = WalkState::default();
    state.exit_block();
    assert_eq!(state.depth, 0);
    state.enter_cognitive_nesting();
    state.record_cognitive(true);
    assert_eq!(state.cognitive, 2);
    state.exit_cognitive_nesting();
    state.exit_cognitive_nesting();
    assert_eq!(state.cognitive_nesting, 0);
    assert!(state.record_bool_op(true));
    assert!(!state.record_bool_op(true));
    assert!(state.record_bool_op(false));
    state.reset_bool_chain();
    assert!(state.record_bool_op(false));
}

#[test]
fn walk_state_fingerprint_rolls() {
    let mut state = WalkState::default();
    state.update_fingerprint(7);
    assert_eq!(state.fingerprint_hash, 7);
    state.update_fingerprint(3);
    assert_eq!(state.fingerprint_hash, 7u64.wrapping_mul(0x100000001b3) ^ 3);
    state.reset();
    assert_eq!(state.fingerprint_hash, 0);
}
