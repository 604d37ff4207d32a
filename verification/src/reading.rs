//! Reading what a plugin returned into values that the host owns.
//!
//! The host copies every finding out of the array before it hands the array
//! back, so that nothing of the plugin's memory is in use once the cleanup
//! runs. Text is decoded leniently: a plugin that sends malformed UTF-8
//! gets replacement characters, not a failed check.

use vstd::prelude::*;
use crate::annotation::{Annotation, AnnotationView};
use crate::parray::PArray;
use crate::provider::{
    all_drained, all_fresh, annotation_data, same_contexts, text_data, AnnotationData, Provider,
    Response,
};
use crate::text::{utf8_lossy, CText};
use vstd::utf8::{decode_utf8, valid_utf8};

verus! {

/// Each text of a sequence, decoded.
pub open spec fn decoded_texts(texts: Seq<Seq<u8>>) -> Seq<Seq<char>> {
    Seq::new(texts.len(), |i: int| utf8_lossy(texts[i]))
}

/// The host's reading of one finding: position and kind as they are, texts
/// decoded.
pub open spec fn decoded(finding: AnnotationData) -> AnnotationView {
    AnnotationView {
        offset: finding.offset,
        length: finding.length,
        message: utf8_lossy(finding.message),
        kind: finding.kind,
        suggestions: decoded_texts(finding.suggestions),
    }
}

/// The host's reading of a sequence of findings: each one read, in the order
/// in which the plugin listed them.
pub open spec fn decoded_all(findings: Seq<AnnotationData>) -> Seq<AnnotationView> {
    Seq::new(findings.len(), |i: int| decoded(findings[i]))
}

/// Whether every text of a finding is valid UTF-8, so that decoding it
/// replaces nothing.
pub open spec fn is_utf8(finding: AnnotationData) -> bool {
    &&& valid_utf8(finding.message)
    &&& forall|i: int|
        0 <= i < finding.suggestions.len() ==> valid_utf8(#[trigger] finding.suggestions[i])
}

/// Each text of a sequence of valid UTF-8 texts, decoded.
pub open spec fn exact_texts(texts: Seq<Seq<u8>>) -> Seq<Seq<char>> {
    Seq::new(texts.len(), |i: int| decode_utf8(texts[i]))
}

/// What a finding in valid UTF-8 says: position and kind as they are, and
/// the texts that its bytes encode.
pub open spec fn exact(finding: AnnotationData) -> AnnotationView {
    AnnotationView {
        offset: finding.offset,
        length: finding.length,
        message: decode_utf8(finding.message),
        kind: finding.kind,
        suggestions: exact_texts(finding.suggestions),
    }
}

/// Whether a finding was read with nothing replaced wherever nothing had to
/// be: each of its texts that is valid UTF-8, be it the message or a
/// suggestion, was read as the very text that it encodes, whatever the
/// other texts are.
pub open spec fn read_exactly(finding: AnnotationData, annotation: AnnotationView) -> bool {
    &&& valid_utf8(finding.message) ==> annotation.message == decode_utf8(finding.message)
    &&& annotation.suggestions.len() == finding.suggestions.len()
    &&& forall|i: int|
        0 <= i < finding.suggestions.len() && valid_utf8(#[trigger] finding.suggestions[i])
            ==> annotation.suggestions[i] == decode_utf8(finding.suggestions[i])
}

/// Reads a list of suggestions to its end.
pub fn read_suggestions(suggestions: &mut PArray<CText>) -> (texts: Vec<String>)
    requires
        old(suggestions).is_fresh(),
    ensures
        final(suggestions).is_drained(),
        final(suggestions)@ == old(suggestions)@,
        final(suggestions).extra() == old(suggestions).extra(),
        texts.deep_view() == decoded_texts(text_data(old(suggestions)@)),
        forall|i: int|
            0 <= i < old(suggestions)@.len() && valid_utf8(#[trigger] old(suggestions)@[i]@)
                ==> texts@[i]@ == decode_utf8(old(suggestions)@[i]@),
        (forall|i: int|
            0 <= i < old(suggestions)@.len() ==> valid_utf8(#[trigger] old(suggestions)@[i]@))
            ==> texts.deep_view() == exact_texts(text_data(old(suggestions)@)),
{
    let len: usize = suggestions.len();
    let mut texts: Vec<String> = Vec::with_capacity(len);
    while !suggestions.is_exhausted()
        invariant
            !suggestions.released(),
            suggestions@ == old(suggestions)@,
            suggestions.extra() == old(suggestions).extra(),
            suggestions.consumed() <= suggestions@.len(),
            texts@.len() == suggestions.consumed(),
            forall|j: int|
                0 <= j < texts@.len() ==> (#[trigger] texts@[j])@ == utf8_lossy(
                    old(suggestions)@[j]@,
                ),
            forall|j: int|
                0 <= j < texts@.len() && valid_utf8(old(suggestions)@[j]@) ==> (
                #[trigger] texts@[j])@ == decode_utf8(old(suggestions)@[j]@),
        decreases suggestions@.len() - suggestions.consumed(),
    {
        let suggestion = suggestions.next();
        texts.push(suggestion.to_string_lossy());
    }
    assert(texts.deep_view() =~= decoded_texts(text_data(old(suggestions)@)));
    proof {
        if forall|i: int|
            0 <= i < old(suggestions)@.len() ==> valid_utf8(#[trigger] old(suggestions)@[i]@) {
            assert(texts.deep_view() =~= exact_texts(text_data(old(suggestions)@)));
        }
    }
    texts
}

/// Reads one finding, its suggestions included.
pub fn read_annotation(finding: &mut crate::provider::Annotation) -> (annotation: Annotation)
    requires
        old(finding).suggestions.is_fresh(),
    ensures
        final(finding).suggestions.is_drained(),
        final(finding)@ == old(finding)@,
        final(finding).suggestions.extra() == old(finding).suggestions.extra(),
        annotation@ == decoded(old(finding)@),
        read_exactly(old(finding)@, annotation@),
        is_utf8(old(finding)@) ==> annotation@ == exact(old(finding)@),
{
    proof {
        if is_utf8(finding@) {
            assert forall|i: int| 0 <= i < finding.suggestions@.len() implies valid_utf8(
                #[trigger] finding.suggestions@[i]@,
            ) by {
                assert(finding@.suggestions[i] == finding.suggestions@[i]@);
            }
        }
    }
    let ghost before = finding.suggestions@;
    let suggestions = read_suggestions(&mut finding.suggestions);
    let annotation = Annotation {
        offset: finding.offset,
        length: finding.length,
        message: finding.message.to_string_lossy(),
        kind: finding.kind,
        suggestions,
    };
    proof {
        let raw = old(finding)@.suggestions;
        assert(annotation.suggestions.deep_view().len() == before.len());
        assert(annotation.suggestions@.len() == before.len());
        assert forall|i: int|
            0 <= i < raw.len() && valid_utf8(#[trigger] raw[i]) implies annotation@.suggestions[i]
            == decode_utf8(raw[i]) by {
            assert(raw[i] == before[i]@);
            assert(annotation@.suggestions[i] == annotation.suggestions@[i]@);
        }
    }
    annotation
}

/// Reads every finding of an array, in order, and leaves the array ready for
/// its cleanup.
pub fn read_annotations(findings: &mut PArray<crate::provider::Annotation>) -> (annotations: Vec<
    Annotation,
>)
    requires
        all_fresh(old(findings)),
    ensures
        all_drained(final(findings)),
        annotation_data(final(findings)@) == annotation_data(old(findings)@),
        same_contexts(final(findings), old(findings)),
        crate::annotation::annotation_views(annotations@) == decoded_all(
            annotation_data(old(findings)@),
        ),
        forall|i: int|
            0 <= i < annotations@.len() ==> read_exactly(
                old(findings)@[i]@,
                (#[trigger] annotations@[i])@,
            ),
        forall|i: int|
            0 <= i < annotations@.len() && is_utf8(old(findings)@[i]@) ==> (
            #[trigger] annotations@[i])@ == exact(old(findings)@[i]@),
{
    let len: usize = findings.len();
    let mut annotations: Vec<Annotation> = Vec::with_capacity(len);
    while !findings.is_exhausted()
        invariant
            !findings.released(),
            findings@.len() == old(findings)@.len(),
            findings.consumed() <= findings@.len(),
            annotation_data(findings@) == annotation_data(old(findings)@),
            same_contexts(findings, old(findings)),
            forall|j: int|
                0 <= j < annotations@.len() ==> read_exactly(
                    old(findings)@[j]@,
                    (#[trigger] annotations@[j])@,
                ),
            forall|j: int|
                0 <= j < findings.consumed() ==> (#[trigger] findings@[j]).suggestions.is_drained(),
            forall|j: int|
                findings.consumed() <= j < findings@.len() ==> (
                #[trigger] findings@[j]).suggestions.is_fresh(),
            annotations@.len() == findings.consumed(),
            forall|j: int|
                0 <= j < annotations@.len() ==> (#[trigger] annotations@[j])@ == decoded(
                    old(findings)@[j]@,
                ),
            forall|j: int|
                0 <= j < annotations@.len() && is_utf8(old(findings)@[j]@) ==> (
                #[trigger] annotations@[j])@ == exact(old(findings)@[j]@),
        decreases findings@.len() - findings.consumed(),
    {
        let ghost before = findings@;
        let ghost index = findings.consumed() as int;
        let finding = findings.next_mut();
        let annotation = read_annotation(finding);
        annotations.push(annotation);
        assert(findings@[index]@ == before[index]@);
        assert(annotation_data(before)[index] == annotation_data(old(findings)@)[index]);
        assert(annotation_data(findings@) =~= annotation_data(before));
    }
    assert(crate::annotation::annotation_views(annotations@) =~= decoded_all(
        annotation_data(old(findings)@),
    ));
    annotations
}

/// Reads a provider's answer and hands it back: every finding is copied out
/// first, in order, and then the array goes to the provider's cleanup. When
/// this returns, nothing of the provider's memory is in use.
pub fn read_response<'a, P: Provider>(response: &mut Response<'a, P>) -> (annotations: Vec<
    Annotation,
>)
    requires
        !old(response).released(),
        all_fresh(&old(response).annotations()),
    ensures
        final(response).released(),
        final(response).provider() == old(response).provider(),
        all_drained(&final(response).returned()),
        same_contexts(&final(response).returned(), &old(response).annotations()),
        annotation_data(final(response).returned()@) == annotation_data(
            old(response).annotations()@,
        ),
        crate::annotation::annotation_views(annotations@) == decoded_all(
            annotation_data(old(response).annotations()@),
        ),
        forall|i: int|
            0 <= i < annotations@.len() ==> read_exactly(
                old(response).annotations()@[i]@,
                (#[trigger] annotations@[i])@,
            ),
        forall|i: int|
            0 <= i < annotations@.len() && is_utf8(old(response).annotations()@[i]@) ==> (
            #[trigger] annotations@[i])@ == exact(old(response).annotations()@[i]@),
{
    let annotations = read_annotations(response.findings());
    response.release();
    annotations
}

} // verus!
