use patronus::{Annotation, AnnotationKind, Properties};

fn span(offset: usize, length: usize) -> Annotation {
    Annotation {
        offset,
        length,
        message: String::new(),
        kind: AnnotationKind::Spelling,
        suggestions: Vec::new(),
    }
}

#[test]
fn properties_keep_their_language() {
    assert_eq!(Properties::new(String::from("en_GB")).primary_language, "en_GB");
}

#[test]
fn span_fits_inside_the_text() {
    let text = "mistakes are good";
    assert!(span(0, 17).fits(text));
    assert!(span(0, 0).fits(text));
    assert!(span(17, 0).fits(text));
    assert!(span(9, 3).fits(text));
    assert!(!span(0, 18).fits(text));
    assert!(!span(17, 1).fits(text));
    assert!(!span(18, 0).fits(text));
    assert!(!span(1, usize::MAX).fits(text));
    assert!(!span(usize::MAX, usize::MAX).fits(text));
    assert!(span(0, 0).fits(""));
    assert!(!span(0, 1).fits(""));
}

#[test]
fn span_does_not_split_a_character() {
    // "é" takes two bytes, "€" three.
    let text = "\u{e9}t\u{e9} \u{20ac}";
    assert_eq!(text.len(), 9);
    assert!(span(0, 2).fits(text));
    assert!(span(0, 5).fits(text));
    assert!(span(6, 3).fits(text));
    assert!(!span(0, 1).fits(text));
    assert!(!span(1, 1).fits(text));
    assert!(!span(1, 2).fits(text));
    assert!(!span(6, 1).fits(text));
    assert!(!span(7, 2).fits(text));
    assert!(!span(8, 1).fits(text));
}

#[test]
fn flagged_span_is_cut_out_in_bytes() {
    let text = "\u{e9}t\u{e9} \u{20ac} mistakes";
    assert_eq!(span(0, 5).flagged(text), Some("\u{e9}t\u{e9}"));
    assert_eq!(span(6, 3).flagged(text), Some("\u{20ac}"));
    assert_eq!(span(10, 8).flagged(text), Some("mistakes"));
    assert_eq!(span(3, 0).flagged(text), Some(""));
    assert_eq!(span(18, 0).flagged(text), Some(""));
    assert_eq!(span(0, 18).flagged(text), Some(text));
    assert_eq!(span(1, 2).flagged(text), None);
    assert_eq!(span(6, 2).flagged(text), None);
    assert_eq!(span(10, 9).flagged(text), None);
    assert_eq!(span(19, 0).flagged(text), None);
    assert_eq!(span(usize::MAX, 2).flagged(text), None);
}
