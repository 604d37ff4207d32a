use patronus::provider::Provider;
use patronus::sample::{check_text_english, patronus_provider_init, patronus_provider_version};
use patronus::text::CText;
use patronus::AnnotationKind;

#[test]
fn test_english_single_mistake() {
    let text = "mistakes are good";
    let result = check_text_english(text);
    let length = result.len();
    assert!(length == 1);
}

#[test]
fn test_english_multiple_mistakes() {
    let text =
        "Hello. It is true that mistakes are good. Mistakes are good, you know, mistakes are good!";
    let result = check_text_english(text);
    let length = result.len();
    assert!(length == 2);
}

#[test]
fn sample_provider_speaks_the_supported_version() {
    assert_eq!(patronus_provider_version(), 1);
}

#[test]
fn sample_provider_is_named() {
    let provider = patronus_provider_init();
    assert_eq!(provider.name().as_bytes(), b"Sample checker");
}

#[test]
fn sample_finding_has_position_kind_and_suggestions() {
    let result = check_text_english("so mistakes are good");
    assert_eq!(result.len(), 1);
    let finding = result.get(0);
    assert_eq!(finding.offset, 3);
    assert_eq!(finding.length, 17);
    assert_eq!(finding.kind, AnnotationKind::Suggestion);
    assert_eq!(finding.message.as_bytes(), b"Are you sure about mistakes being good?");
    assert_eq!(finding.suggestions.len(), 2);
    assert_eq!(finding.suggestions.get(0).as_bytes(), b"mistakes are never good");
    assert_eq!(finding.suggestions.get(1).as_bytes(), b"mistakes are bad");
    let _ = CText::from_str("x");
}
