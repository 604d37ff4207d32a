//! Findings from a grammar service.
//!
//! The service answers with matches; a provider built on it hands them to
//! the host as findings of the grammar kind. Asking the service is the
//! provider's business; what a match becomes is decided here.

use vstd::prelude::*;
use crate::annotation::{annotation_views, Annotation, AnnotationView};
use crate::capi::{all_cross, encoded_all, export_annotations};
use crate::kind::AnnotationKind;
use crate::provider::{all_fresh, annotation_data, AnnotationArray};

verus! {

/// A match as the grammar service reports it.
#[derive(Debug)]
pub struct GrammarMatch {
    /// What is wrong.
    pub message: String,
    /// Where the match begins, as the service counts.
    pub offset: i64,
    /// How long the match is, as the service counts.
    pub length: i64,
    /// What the service would write instead. An entry can be without a
    /// value.
    pub replacements: Vec<Option<String>>,
}

/// The replacements that have a value, in their order.
pub open spec fn proposed(replacements: Seq<Option<String>>) -> Seq<Seq<char>>
    decreases replacements.len(),
{
    if replacements.len() == 0 {
        Seq::empty()
    } else {
        let earlier = proposed(replacements.drop_last());
        match replacements.last() {
            Some(value) => earlier.push(value@),
            None => earlier,
        }
    }
}

/// The finding that a match becomes: a grammar finding with the match's
/// message, its position taken as the machine's unsigned numbers, and the
/// replacements that have a value as suggestions.
pub open spec fn finding_of(found: GrammarMatch) -> AnnotationView {
    AnnotationView {
        offset: (found.offset as usize) as nat,
        length: (found.length as usize) as nat,
        message: found.message@,
        kind: AnnotationKind::Grammar,
        suggestions: proposed(found.replacements@),
    }
}

/// The findings that matches become, in their order.
pub open spec fn findings_of(matches: Seq<GrammarMatch>) -> Seq<AnnotationView> {
    Seq::new(matches.len(), |i: int| finding_of(matches[i]))
}

/// What the service reported, or nothing where it reported no matches or
/// could not be asked.
pub open spec fn reported(matches: Option<Vec<GrammarMatch>>) -> Seq<GrammarMatch> {
    match matches {
        Some(matches) => matches@,
        None => Seq::empty(),
    }
}

/// Picks the replacements that have a value.
pub fn suggestions_of(replacements: &Vec<Option<String>>) -> (suggestions: Vec<String>)
    ensures
        suggestions.deep_view() == proposed(replacements@),
{
    let mut suggestions: Vec<String> = Vec::new();
    let mut i: usize = 0;
    assert(replacements@.take(0) =~= Seq::<Option<String>>::empty());
    assert(suggestions.deep_view() =~= Seq::<Seq<char>>::empty());
    while i < replacements.len()
        invariant
            i <= replacements@.len(),
            suggestions.deep_view() == proposed(replacements@.take(i as int)),
        decreases replacements@.len() - i,
    {
        let ghost before = suggestions.deep_view();
        assert(replacements@.take(i + 1).drop_last() =~= replacements@.take(i as int));
        match &replacements[i] {
            Some(value) => {
                suggestions.push(value.clone());
                assert(suggestions.deep_view() =~= before.push(value@));
            },
            None => {},
        }
        i = i + 1;
    }
    assert(replacements@.take(i as int) =~= replacements@);
    suggestions
}

/// Makes a finding of a match.
pub fn annotation_of(found: &GrammarMatch) -> (annotation: Annotation)
    ensures
        annotation@ == finding_of(*found),
{
    Annotation {
        offset: #[verifier::truncate]
        (found.offset as usize),
        length: #[verifier::truncate]
        (found.length as usize),
        message: found.message.clone(),
        kind: AnnotationKind::Grammar,
        suggestions: suggestions_of(&found.replacements),
    }
}

/// Makes the findings of a check out of what the service reported, ready to
/// be handed to the host. Where a text of a match cannot be handed over as
/// zero-terminated text, nothing is returned.
pub fn grammar_findings(matches: &Option<Vec<GrammarMatch>>) -> (findings: Option<
    AnnotationArray,
>)
    ensures
        findings is Some <==> all_cross(findings_of(reported(*matches))),
        findings is Some ==> all_fresh(&findings->0) && annotation_data(findings->0@)
            == encoded_all(findings_of(reported(*matches))),
{
    let mut annotations: Vec<Annotation> = Vec::new();
    match matches {
        None => {},
        Some(matches) => {
            let mut i: usize = 0;
            while i < matches.len()
                invariant
                    i <= matches@.len(),
                    annotations@.len() == i,
                    forall|j: int|
                        0 <= j < i ==> (#[trigger] annotations@[j])@ == finding_of(matches@[j]),
                decreases matches@.len() - i,
            {
                annotations.push(annotation_of(&matches[i]));
                i = i + 1;
            }
        },
    }
    assert(annotation_views(annotations@) =~= findings_of(reported(*matches)));
    export_annotations(&annotations)
}

} // verus!
