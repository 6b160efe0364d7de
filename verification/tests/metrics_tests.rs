use mete::metrics::{count_lines, is_complex, CcLevel, MiLevel};

#[test]
fn level_classifications() {
    assert_eq!(MiLevel::from_value(90), MiLevel::Excellent);
    assert_eq!(MiLevel::from_value(70), MiLevel::Good);
    assert_eq!(MiLevel::from_value(55), MiLevel::Moderate);
    assert_eq!(MiLevel::from_value(30), MiLevel::Poor);

    assert_eq!(CcLevel::from_value(3), CcLevel::Simple);
    assert_eq!(CcLevel::from_value(8), CcLevel::Moderate);
    assert_eq!(CcLevel::from_value(15), CcLevel::Complex);
    assert_eq!(CcLevel::from_value(25), CcLevel::VeryComplex);
}

#[test]
fn line_counting() {
    assert_eq!(count_lines(b"hello\nworld\n"), 2);
    assert_eq!(count_lines(b"no newlines"), 0);
    assert_eq!(count_lines(b""), 0);
}

#[test]
fn complexity_per_line_threshold() {
    // 0.3 branches per line is not complex; above it is.
    assert!(!is_complex(3, 10));
    assert!(is_complex(4, 10));
    assert!(is_complex(11, 1000));
}
