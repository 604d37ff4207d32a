use patronus::host::{Patronus, Provider};
use patronus::loader::{Candidate, ProbeEvent};
use patronus::parray::PArray;
use patronus::provider::{Annotation as Finding, AnnotationArray, Properties as BoundaryProperties};
use patronus::sample::SampleProvider;
use patronus::text::CText;
use patronus::{AnnotationKind, Properties};

fn initialized(path: &str) -> Candidate {
    let mut candidate = Candidate::discovered(String::from(path));
    for event in [
        ProbeEvent::LibraryOpened,
        ProbeEvent::VersionReported { version: 1 },
        ProbeEvent::ProviderInitialized,
    ] {
        assert!(candidate.accepts(&event));
        candidate = candidate.advance(event).unwrap();
    }
    assert!(candidate.is_initialized());
    candidate
}

/// A provider that answers every check with the same findings.
struct Fixed {
    name: &'static str,
    messages: Vec<&'static str>,
}

impl patronus::provider::Provider for Fixed {
    fn name(&self) -> CText {
        CText::from_str(self.name).unwrap()
    }

    fn check(&self, _props: &BoundaryProperties, _text: &CText) -> AnnotationArray {
        let mut findings = Vec::new();
        for (i, message) in self.messages.iter().enumerate() {
            findings.push(Finding {
                offset: i,
                length: 1,
                message: CText::from_str(message).unwrap(),
                kind: AnnotationKind::Grammar,
                suggestions: PArray::from(Vec::new()),
            });
        }
        PArray::from(findings)
    }

    fn free_annotations(&self, annotations: AnnotationArray) {
        let mut annotations = annotations;
        patronus::provider::free_annotations(&mut annotations);
    }

    fn free_provider(self) {}
}

fn this_program() -> libloading::Library {
    libloading::os::unix::Library::this().into()
}

fn english() -> Properties {
    Properties::new(String::from("en"))
}

#[test]
fn findings_come_in_provider_order() {
    let first = Fixed { name: "first", messages: vec!["a"] };
    let second = Fixed { name: "second", messages: vec!["b", "c"] };
    let patronus = Patronus::new(vec![
        Provider::bind(initialized("/plugins/libsample.so"), first, this_program()),
        Provider::bind(initialized("/plugins/libsample.so"), second, this_program()),
    ]);
    let found = patronus.check(&english(), "some text");
    assert_eq!(found.len(), 3);
    assert_eq!(found[0].message, "a");
    assert_eq!(found[1].message, "b");
    assert_eq!(found[2].message, "c");
    assert_eq!(found[0].offset, 0);
    assert_eq!(found[1].offset, 0);
    assert_eq!(found[2].offset, 1);
}

#[test]
fn sample_scenario() {
    let patronus = Patronus::new(vec![Provider::bind(initialized("/plugins/libsample.so"),
        SampleProvider {},
        this_program(),
    )]);
    let found = patronus.check(&english(), "mistakes are good");
    assert_eq!(found.len(), 1);
    assert_eq!(found[0].offset, 0);
    assert_eq!(found[0].length, 17);
    assert_eq!(found[0].kind, AnnotationKind::Suggestion);
    assert_eq!(found[0].message, "Are you sure about mistakes being good?");
    assert_eq!(
        found[0].suggestions,
        vec![String::from("mistakes are never good"), String::from("mistakes are bad")]
    );
    assert!(found[0].fits("mistakes are good"));
}

#[test]
fn checker_without_providers_finds_nothing() {
    let patronus: Patronus<SampleProvider> = Patronus::new(Vec::new());
    assert!(patronus.check(&english(), "mistakes are good").is_empty());
}

#[test]
fn provider_name_is_decoded() {
    let provider = Provider::bind(initialized("/plugins/libsample.so"), SampleProvider {}, this_program());
    assert_eq!(provider.name(), "Sample checker");
}

#[test]
fn provider_unloads() {
    let provider = Provider::bind(initialized("/plugins/libsample.so"), SampleProvider {}, this_program());
    assert!(provider.unload().is_ok());
}

#[test]
fn sample_findings_can_be_cut_out_of_the_text() {
    let patronus = Patronus::new(vec![Provider::bind(
        initialized("/plugins/libsample.so"),
        SampleProvider {},
        this_program(),
    )]);
    let text = "\u{ab}mistakes are good\u{bb} \u{2014} mistakes are good\u{1f600}";
    let found = patronus.check(&english(), text);
    assert_eq!(found.len(), 2);
    assert_eq!(found[0].offset, 2);
    assert_eq!(found[1].offset, 26);
    for finding in &found {
        assert!(finding.fits(text));
        assert_eq!(finding.flagged(text), Some("mistakes are good"));
    }
}
