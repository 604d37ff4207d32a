use patronus::capi::{
    export_annotation, export_annotations, export_suggestions, patronus_check,
    patronus_free_annotations,
};
use patronus::host::{Patronus, Provider};
use patronus::loader::{Candidate, ProbeEvent};
use patronus::parray::PArray;
use patronus::provider::{free_annotations, Annotation as Finding, Properties as BoundaryProperties};
use patronus::reading::{read_annotation, read_annotations, read_suggestions};
use patronus::sample::{check_text, SampleProvider};
use patronus::text::CText;
use patronus::{Annotation, AnnotationKind};

fn initialized(path: &str) -> Candidate {
    let mut candidate = Candidate::discovered(String::from(path));
    for event in [
        ProbeEvent::LibraryOpened,
        ProbeEvent::VersionReported { version: 1 },
        ProbeEvent::ProviderInitialized,
    ] {
        assert!(candidate.accepts(&event));
        candidate = candidate.advance(event).unwrap();
    }
    assert!(candidate.is_initialized());
    candidate
}

fn text(s: &str) -> CText {
    CText::from_str(s).unwrap()
}

fn finding(offset: usize, length: usize, message: &str, suggestions: &[&str]) -> Finding {
    Finding {
        offset,
        length,
        message: text(message),
        kind: AnnotationKind::Spelling,
        suggestions: PArray::from(suggestions.iter().map(|s| text(s)).collect::<Vec<_>>()),
    }
}

fn sample_checker() -> Patronus<SampleProvider> {
    let library: libloading::Library = libloading::os::unix::Library::this().into();
    Patronus::new(vec![Provider::bind(initialized("/plugins/libsample.so"), SampleProvider {}, library)])
}

#[test]
fn suggestions_are_read_to_the_end() {
    let mut suggestions = PArray::from(vec![text("one"), text("tw\u{f6}"), text("")]);
    let read = read_suggestions(&mut suggestions);
    assert_eq!(read, vec![String::from("one"), String::from("tw\u{f6}"), String::new()]);
    assert!(suggestions.is_exhausted());
    assert!(!suggestions.is_released());
    assert_eq!(suggestions.len(), 3);
}

#[test]
fn finding_is_read_with_every_field() {
    let mut raw = finding(4, 7, "misspelt", &["misspelled", "mis-spelt"]);
    raw.kind = AnnotationKind::Typography;
    let read = read_annotation(&mut raw);
    assert_eq!(read.offset, 4);
    assert_eq!(read.length, 7);
    assert_eq!(read.message, "misspelt");
    assert_eq!(read.kind, AnnotationKind::Typography);
    assert_eq!(read.suggestions, vec![String::from("misspelled"), String::from("mis-spelt")]);
    assert!(raw.suggestions.is_exhausted());
    assert_eq!(raw.message.as_bytes(), b"misspelt");
}

#[test]
fn malformed_message_is_read_with_replacements() {
    let mut raw = Finding {
        offset: 0,
        length: 1,
        message: CText::from_bytes(vec![b'x', 0xc3]).unwrap(),
        kind: AnnotationKind::Style,
        suggestions: PArray::from(vec![CText::from_bytes(vec![0x80]).unwrap()]),
    };
    let read = read_annotation(&mut raw);
    assert_eq!(read.message, "x\u{fffd}");
    assert_eq!(read.suggestions, vec![String::from("\u{fffd}")]);
}

#[test]
fn findings_are_read_in_order_and_then_cleaned_up() {
    let mut findings =
        PArray::from(vec![finding(0, 1, "first", &["a"]), finding(5, 2, "second", &[])]);
    let read = read_annotations(&mut findings);
    assert_eq!(read.len(), 2);
    assert_eq!(read[0].message, "first");
    assert_eq!(read[0].suggestions, vec![String::from("a")]);
    assert_eq!(read[1].message, "second");
    assert_eq!(read[1].offset, 5);
    assert!(read[1].suggestions.is_empty());
    assert!(findings.is_exhausted());
    assert!(!findings.is_released());
    assert!(findings.get(0).suggestions.is_exhausted());
    assert!(!findings.get(0).suggestions.is_released());
    free_annotations(&mut findings);
    assert!(findings.is_released());
    assert_eq!(findings.len(), 2);
}

#[test]
fn empty_answer_is_read_and_cleaned_up() {
    let mut findings: PArray<Finding> = PArray::from(Vec::new());
    assert!(read_annotations(&mut findings).is_empty());
    free_annotations(&mut findings);
    assert!(findings.is_released());
}

#[test]
fn exported_finding_reads_back_as_itself() {
    let written = Annotation {
        offset: 12,
        length: 34,
        message: String::from("na\u{ef}ve r\u{e9}sum\u{e9} \u{1f600}"),
        kind: AnnotationKind::Grammar,
        suggestions: vec![String::from("\u{fc}ber"), String::new(), String::from("plain")],
    };
    let mut exported = export_annotation(&written).unwrap();
    assert_eq!(exported.message.as_bytes(), written.message.as_bytes());
    assert_eq!(exported.suggestions.len(), 3);
    let read = read_annotation(&mut exported);
    assert_eq!(read.offset, written.offset);
    assert_eq!(read.length, written.length);
    assert_eq!(read.message, written.message);
    assert_eq!(read.kind, written.kind);
    assert_eq!(read.suggestions, written.suggestions);
}

#[test]
fn text_with_a_zero_byte_is_not_exported() {
    let mut annotation = Annotation {
        offset: 0,
        length: 0,
        message: String::from("fine"),
        kind: AnnotationKind::Style,
        suggestions: vec![String::from("a"), String::from("b\0c")],
    };
    assert!(export_annotation(&annotation).is_none());
    assert!(export_suggestions(&annotation.suggestions).is_none());
    annotation.suggestions = vec![String::from("a")];
    assert!(export_annotation(&annotation).is_some());
    annotation.message = String::from("\0");
    assert!(export_annotation(&annotation).is_none());
    assert!(export_annotations(&vec![annotation]).is_none());
    assert_eq!(export_annotations(&Vec::new()).unwrap().len(), 0);
}

#[test]
fn foreign_caller_gets_the_findings_and_returns_them() {
    let patronus = sample_checker();
    let props = BoundaryProperties { primary_language: text("en_GB") };
    let mut findings =
        patronus_check(&patronus, &props, &text("mistakes are good; mistakes are good")).unwrap();
    assert_eq!(findings.len(), 2);
    assert_eq!(findings.get(0).offset, 0);
    assert_eq!(findings.get(1).offset, 19);
    assert_eq!(findings.get(1).length, 17);
    assert_eq!(findings.get(1).kind, AnnotationKind::Suggestion);
    assert_eq!(findings.get(1).message.as_bytes(), b"Are you sure about mistakes being good?");
    assert_eq!(findings.get(1).suggestions.get(1).as_bytes(), b"mistakes are bad");
    assert!(!findings.is_released());
    patronus_free_annotations(&mut findings);
    assert!(findings.is_released());
    assert!(findings.is_exhausted());
}

#[test]
fn sample_provider_knows_english_of_any_country() {
    let check = |language: &str| {
        let props = BoundaryProperties { primary_language: text(language) };
        check_text(&props, &text("mistakes are good")).len()
    };
    assert_eq!(check("en"), 1);
    assert_eq!(check("en_US"), 1);
    assert_eq!(check("en_"), 1);
    assert_eq!(check("de"), 0);
    assert_eq!(check("eng"), 0);
    assert_eq!(check("e"), 0);
    assert_eq!(check(""), 0);
    assert_eq!(check("_en"), 0);
    assert_eq!(check("EN"), 0);
}

#[test]
fn reading_and_cleanup_leave_the_contexts_as_they_were() {
    let suggestions = |context: usize| PArray::with_context(vec![text("s")], context);
    let mut first = finding(0, 1, "first", &[]);
    first.suggestions = suggestions(11);
    let mut second = finding(1, 1, "second", &[]);
    second.suggestions = suggestions(22);
    let mut findings = PArray::with_context(vec![first, second], 0xfeed);
    let read = read_annotations(&mut findings);
    assert_eq!(read.len(), 2);
    assert_eq!(findings.context(), 0xfeed);
    assert_eq!(findings.get(0).suggestions.context(), 11);
    assert_eq!(findings.get(1).suggestions.context(), 22);
    free_annotations(&mut findings);
    assert_eq!(findings.context(), 0xfeed);
    assert!(findings.is_released());

    let mut kept = PArray::with_context(vec![finding(0, 1, "m", &["a", "b"])], 7);
    let nested = kept.get(0).suggestions.context();
    patronus_free_annotations(&mut kept);
    assert_eq!(kept.context(), 7);
    assert!(kept.is_released());
    let mut lone = finding(3, 4, "lone", &["x"]);
    lone.suggestions = suggestions(99);
    let annotation = read_annotation(&mut lone);
    assert_eq!(annotation.suggestions, vec![String::from("s")]);
    assert_eq!(lone.suggestions.context(), 99);
    assert!(nested >= 2);
}

#[test]
fn valid_texts_are_read_exactly_beside_malformed_ones() {
    let mut raw = Finding {
        offset: 0,
        length: 1,
        message: CText::from_bytes(vec![0xff]).unwrap(),
        kind: AnnotationKind::Style,
        suggestions: PArray::from(vec![
            text("gr\u{fc}n"),
            CText::from_bytes(vec![b'a', 0xc3]).unwrap(),
            text("\u{1f600}"),
        ]),
    };
    let read = read_annotation(&mut raw);
    assert_eq!(read.message, "\u{fffd}");
    assert_eq!(
        read.suggestions,
        vec![String::from("gr\u{fc}n"), String::from("a\u{fffd}"), String::from("\u{1f600}")]
    );
}
