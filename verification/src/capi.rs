//! The checker as a foreign caller sees it.
//!
//! A caller from another language has no host strings and no vectors: it
//! hands in boundary text and gets an array back, which it returns when it
//! is done. Here the host is the producer, and the same rules hold with the
//! roles exchanged.

use vstd::prelude::*;
use vstd::utf8::{decode_utf8, encode_utf8, valid_utf8};
use crate::annotation::{annotation_views, Annotation, AnnotationView, Properties};
use crate::host::{answered_by, merged, Patronus};
use crate::parray::PArray;
use crate::provider::{
    all_fresh, all_released, annotation_data, same_contexts, text_data, AnnotationArray,
    AnnotationData,
};
use crate::reading::{exact, exact_texts, is_utf8};
use crate::text::{no_zero_byte, utf8_lossy, CText};

verus! {

/// Each text of a sequence, encoded.
pub open spec fn encoded_texts(texts: Seq<Seq<char>>) -> Seq<Seq<u8>> {
    Seq::new(texts.len(), |i: int| encode_utf8(texts[i]))
}

/// A finding of the host as it is handed to a foreign caller: position and
/// kind as they are, texts encoded as UTF-8.
pub open spec fn encoded(annotation: AnnotationView) -> AnnotationData {
    AnnotationData {
        offset: annotation.offset,
        length: annotation.length,
        message: encode_utf8(annotation.message),
        kind: annotation.kind,
        suggestions: encoded_texts(annotation.suggestions),
    }
}

/// Each finding of a sequence, encoded.
pub open spec fn encoded_all(annotations: Seq<AnnotationView>) -> Seq<AnnotationData> {
    Seq::new(annotations.len(), |i: int| encoded(annotations[i]))
}

/// Whether every one of the texts can be handed over as zero-terminated
/// text.
pub open spec fn texts_cross(texts: Seq<Seq<char>>) -> bool {
    forall|i: int| 0 <= i < texts.len() ==> no_zero_byte(encode_utf8(#[trigger] texts[i]))
}

/// Whether a finding can be handed over: neither its message nor any of its
/// suggestions holds a zero byte.
pub open spec fn crosses(annotation: AnnotationView) -> bool {
    no_zero_byte(encode_utf8(annotation.message)) && texts_cross(annotation.suggestions)
}

/// Whether every finding of a sequence can be handed over.
pub open spec fn all_cross(annotations: Seq<AnnotationView>) -> bool {
    forall|i: int| 0 <= i < annotations.len() ==> crosses(#[trigger] annotations[i])
}

/// Round trip: a finding that is encoded for the boundary and read back with
/// nothing replaced is the finding that was encoded, in every field.
pub proof fn lemma_round_trip(annotation: AnnotationView)
    ensures
        is_utf8(encoded(annotation)),
        exact(encoded(annotation)) == annotation,
{
    let data = encoded(annotation);
    vstd::utf8::encode_utf8_valid_utf8(annotation.message);
    vstd::utf8::encode_utf8_decode_utf8(annotation.message);
    assert forall|i: int| 0 <= i < data.suggestions.len() implies valid_utf8(
        #[trigger] data.suggestions[i],
    ) && decode_utf8(data.suggestions[i]) == annotation.suggestions[i] by {
        vstd::utf8::encode_utf8_valid_utf8(annotation.suggestions[i]);
        vstd::utf8::encode_utf8_decode_utf8(annotation.suggestions[i]);
    }
    assert(exact_texts(data.suggestions) =~= annotation.suggestions);
}

/// Encodes a list of suggestions for the boundary, unless one of them holds
/// a zero byte.
pub fn export_suggestions(suggestions: &Vec<String>) -> (exported: Option<PArray<CText>>)
    ensures
        exported is Some <==> texts_cross(suggestions.deep_view()),
        exported is Some ==> exported->0.is_fresh() && text_data(exported->0@) == encoded_texts(
            suggestions.deep_view(),
        ),
{
    let mut texts: Vec<CText> = Vec::new();
    let mut i: usize = 0;
    while i < suggestions.len()
        invariant
            i <= suggestions@.len(),
            texts@.len() == i,
            forall|j: int|
                0 <= j < i ==> no_zero_byte(encode_utf8(#[trigger] suggestions.deep_view()[j])),
            forall|j: int| 0 <= j < i ==> (#[trigger] texts@[j])@ == encode_utf8(suggestions@[j]@),
        decreases suggestions@.len() - i,
    {
        match CText::from_str(suggestions[i].as_str()) {
            None => {
                assert(!no_zero_byte(encode_utf8(suggestions.deep_view()[i as int])));
                return None;
            },
            Some(text) => {
                texts.push(text);
            },
        }
        i = i + 1;
    }
    let exported: PArray<CText> = PArray::from(texts);
    assert(text_data(exported@) =~= encoded_texts(suggestions.deep_view()));
    Some(exported)
}

/// Encodes a finding for the boundary, unless one of its texts holds a zero
/// byte.
pub fn export_annotation(annotation: &Annotation) -> (exported: Option<
    crate::provider::Annotation,
>)
    ensures
        exported is Some <==> crosses(annotation@),
        exported is Some ==> exported->0.suggestions.is_fresh() && exported->0@ == encoded(
            annotation@,
        ),
{
    match CText::from_str(annotation.message.as_str()) {
        None => None,
        Some(message) => match export_suggestions(&annotation.suggestions) {
            None => None,
            Some(suggestions) => Some(
                crate::provider::Annotation {
                    offset: annotation.offset,
                    length: annotation.length,
                    message,
                    kind: annotation.kind,
                    suggestions,
                },
            ),
        },
    }
}

/// Encodes findings for the boundary, in their order, unless a text of one
/// of them holds a zero byte.
pub fn export_annotations(annotations: &Vec<Annotation>) -> (exported: Option<AnnotationArray>)
    ensures
        exported is Some <==> all_cross(annotation_views(annotations@)),
        exported is Some ==> all_fresh(&exported->0) && annotation_data(exported->0@)
            == encoded_all(annotation_views(annotations@)),
{
    let mut findings: Vec<crate::provider::Annotation> = Vec::new();
    let mut i: usize = 0;
    while i < annotations.len()
        invariant
            i <= annotations@.len(),
            findings@.len() == i,
            forall|j: int| 0 <= j < i ==> crosses(#[trigger] annotation_views(annotations@)[j]),
            forall|j: int| 0 <= j < i ==> (#[trigger] findings@[j]).suggestions.is_fresh(),
            forall|j: int| 0 <= j < i ==> (#[trigger] findings@[j])@ == encoded(annotations@[j]@),
        decreases annotations@.len() - i,
    {
        match export_annotation(&annotations[i]) {
            None => {
                assert(!crosses(annotation_views(annotations@)[i as int]));
                return None;
            },
            Some(finding) => {
                findings.push(finding);
            },
        }
        i = i + 1;
    }
    let exported: AnnotationArray = PArray::from(findings);
    assert(annotation_data(exported@) =~= encoded_all(annotation_views(annotations@)));
    Some(exported)
}

/// Checks provided text for mistakes.
///
/// The language tag and the text are decoded leniently, all providers are
/// asked, and their findings are encoded again for the caller. The caller
/// owns the array until it hands it to `patronus_free_annotations`. Where a
/// text cannot be handed over as zero-terminated text, nothing is returned.
pub fn patronus_check<P: crate::provider::Provider>(
    patronus: &Patronus<P>,
    props: &crate::provider::Properties,
    text: &CText,
) -> (annotations: Option<AnnotationArray>)
    ensures
        ({
            let language = encode_utf8(utf8_lossy(props.primary_language@));
            let text = encode_utf8(utf8_lossy(text@));
            if no_zero_byte(language) && no_zero_byte(text) {
                exists|answers: Seq<Seq<AnnotationData>>|
                    answered_by(patronus.providers@, language, text, answers) && (
                    annotations is Some <==> all_cross(#[trigger] merged(answers))) && (
                    annotations is Some ==> all_fresh(&annotations->0) && annotation_data(
                        annotations->0@,
                    ) == encoded_all(merged(answers)))
            } else {
                annotations is None
            }
        }),
{
    let properties = Properties { primary_language: props.primary_language.to_string_lossy() };
    let text = text.to_string_lossy();
    if CText::from_str(properties.primary_language.as_str()).is_none() {
        return None;
    }
    if CText::from_str(text.as_str()).is_none() {
        return None;
    }
    let found = patronus.check(&properties, text.as_str());
    export_annotations(&found)
}

/// Cleans up the array returned by `patronus_check`: every list of
/// suggestions in it, then the array itself. The call is the caller's word
/// that it is done with the array, so what it has not read is passed over.
pub fn patronus_free_annotations(annotations: &mut AnnotationArray)
    requires
        !old(annotations).released(),
        forall|i: int|
            0 <= i < old(annotations)@.len() ==> !(#[trigger] old(
                annotations,
            )@[i]).suggestions.released(),
    ensures
        all_released(final(annotations)),
        annotation_data(final(annotations)@) == annotation_data(old(annotations)@),
        same_contexts(final(annotations), old(annotations)),
{
    let len: usize = annotations.len();
    let mut i: usize = 0;
    while i < len
        invariant
            i <= len,
            len == annotations@.len(),
            !annotations.released(),
            annotation_data(annotations@) == annotation_data(old(annotations)@),
            same_contexts(annotations, old(annotations)),
            forall|j: int| 0 <= j < i ==> (#[trigger] annotations@[j]).suggestions.released(),
            forall|j: int| i <= j < len ==> !(#[trigger] annotations@[j]).suggestions.released(),
        decreases len - i,
    {
        let ghost before = annotations@;
        let annotation = annotations.get_mut(i);
        annotation.suggestions.skip_to_end();
        annotation.suggestions.release();
        assert(annotations@[i as int]@ == before[i as int]@);
        assert(annotation_data(annotations@) =~= annotation_data(before));
        i = i + 1;
    }
    annotations.skip_to_end();
    annotations.release();
}

} // verus!
