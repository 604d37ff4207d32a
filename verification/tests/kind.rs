use patronus::kind::{MAX_KIND_CODE, MIN_KIND_CODE};
use patronus::AnnotationKind;

#[test]
fn kinds_have_their_codes() {
    assert_eq!(AnnotationKind::Spelling.code(), 1);
    assert_eq!(AnnotationKind::Grammar.code(), 2);
    assert_eq!(AnnotationKind::Style.code(), 3);
    assert_eq!(AnnotationKind::Typography.code(), 4);
    assert_eq!(AnnotationKind::Suggestion.code(), 5);
}

#[test]
fn codes_are_read_back_as_their_kinds() {
    for kind in [
        AnnotationKind::Spelling,
        AnnotationKind::Grammar,
        AnnotationKind::Style,
        AnnotationKind::Typography,
        AnnotationKind::Suggestion,
    ] {
        assert_eq!(AnnotationKind::from_code(kind.code()), Some(kind));
    }
}

#[test]
fn unknown_codes_are_refused() {
    assert_eq!(AnnotationKind::from_code(0), None);
    assert_eq!(AnnotationKind::from_code(6), None);
    assert_eq!(AnnotationKind::from_code(u32::MAX), None);
    assert_eq!(MIN_KIND_CODE, 1);
    assert_eq!(MAX_KIND_CODE, 5);
}
