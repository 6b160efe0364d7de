use mete::application::{AnalyzeRequest, DuplicateGroupDto, NodeMetricsDto, SpanDto, WantFlags};
use mete::domain::metrics::{DuplicateGroup, DuplicateInstance, NodeMetrics, StructuralFingerprint};
use mete::domain::primitives::{BytePos, Span};

#[test]
fn request_validation() {
    let request = AnalyzeRequest::new("fn main() {}".to_string(), "rust".to_string());
    assert!(request.is_ok());

    let request = request.unwrap();
    assert!(request.validate().is_ok());
}

#[test]
fn request_with_cursor() {
    let request = AnalyzeRequest::with_options("fn main() {}".to_string(), "rust".to_string(), Some(5), WantFlags::file_only());
    assert!(request.is_ok());
}

#[test]
fn invalid_cursor_position() {
    let request = AnalyzeRequest::with_options("fn main() {}".to_string(), "rust".to_string(), Some(100), WantFlags::file_only());
    assert!(request.is_ok());

    let request = request.unwrap();
    assert!(request.validate().is_err());
}

#[test]
fn want_flags() {
    let all = WantFlags::all();
    assert!(all.file && all.cursor && all.functions);

    let file_only = WantFlags::file_only();
    assert!(file_only.file && !file_only.cursor && !file_only.functions);

    let with_functions = file_only.with_functions();
    assert!(with_functions.file && with_functions.functions && !with_functions.cursor);
}

#[test]
fn span_dto_conversion() {
    let span_dto = SpanDto::new(10, 20).unwrap();
    assert_eq!(span_dto.start, 10);
    assert_eq!(span_dto.end, 20);

    assert!(SpanDto::new(20, 10).is_err());
}

#[test]
fn empty_text_and_version_errors() {
    assert!(AnalyzeRequest::new(String::new(), "rust".to_string()).is_err());
    let mut request = AnalyzeRequest::new("x".to_string(), "rust".to_string()).unwrap();
    request.version = 207;
    let err = request.validate().unwrap_err();
    assert_eq!(err.describe(), "Unsupported language: version 207 not supported");
}

#[test]
fn node_metrics_to_dto() {
    let span = Span::new(BytePos::new(3).unwrap(), BytePos::new(9).unwrap()).unwrap();
    let node = NodeMetrics::new(Some("f".to_string()), span, 4, 2, 1, 1, StructuralFingerprint::new(42)).unwrap();
    let dto = NodeMetricsDto::from_metrics(node);
    assert_eq!(dto.span, SpanDto { start: 3, end: 9 });
    assert_eq!(dto.fingerprint, 42);
    assert_eq!(SpanDto::from(span), SpanDto { start: 3, end: 9 });
    assert_eq!(WantFlags::file_only().with_cursor().cursor, true);
}

#[test]
fn duplicate_group_data_keeps_instances() {
    let span = Span::new(BytePos::new(3).unwrap(), BytePos::new(9).unwrap()).unwrap();
    let g = DuplicateGroup {
        fingerprint: 42,
        instances: vec![
            DuplicateInstance { name: Some("f".to_string()), start_line: 1, end_line: 2, span },
            DuplicateInstance { name: None, start_line: 4, end_line: 6, span },
        ],
    };
    let d = DuplicateGroupDto::from_group(g);
    assert_eq!(d.fingerprint, 42);
    assert_eq!(d.instances.len(), 2);
    assert_eq!(d.instances[0].name.as_deref(), Some("f"));
    assert_eq!(d.instances[1].start_line, 4);
    assert_eq!(d.instances[1].end_line, 6);
    assert_eq!(d.instances[1].span, SpanDto { start: 3, end: 9 });
}
