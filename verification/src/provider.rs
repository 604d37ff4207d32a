//! The contract between the host and a checker plugin.
//!
//! A plugin answers three questions by symbol name: which version of this
//! contract it speaks, how to create its provider, and (through the provider)
//! how to dispose of it again. The provider itself names the plugin, checks
//! a text, and takes back the arrays that its checks returned.

use vstd::prelude::*;
use crate::kind::AnnotationKind;
use crate::parray::PArray;
use crate::text::CText;

verus! {

/// The one version of the contract that the host speaks.
pub const PROVIDER_VERSION: i32 = 1;

/// Symbol of the function that reports a plugin's version.
pub const PROVIDER_VERSION_FUNCTION: &'static str = "patronus_provider_version";

/// Symbol of the function that creates a plugin's provider.
pub const PROVIDER_INIT_FUNCTION: &'static str = "patronus_provider_init";

/// A candidate replacement, as boundary text.
pub type Suggestion = CText;

/// The suggestions of one finding.
pub type SuggestionArray = PArray<Suggestion>;

/// The findings of one check.
pub type AnnotationArray = PArray<Annotation>;

/// Properties of the text to be checked, as they are handed to a plugin.
#[derive(Debug)]
pub struct Properties {
    /// Language tag of the text.
    pub primary_language: CText,
}

/// One finding, as a plugin hands it over.
#[derive(Debug)]
pub struct Annotation {
    /// Byte offset of the flagged span in the checked text.
    pub offset: usize,
    /// Byte length of the flagged span.
    pub length: usize,
    /// Explanation for a human reader.
    pub message: CText,
    /// Category of the finding.
    pub kind: AnnotationKind,
    /// Candidate replacements, best first.
    pub suggestions: SuggestionArray,
}

/// What a finding says, apart from how far it has been read.
pub struct AnnotationData {
    pub offset: nat,
    pub length: nat,
    pub message: Seq<u8>,
    pub kind: AnnotationKind,
    pub suggestions: Seq<Seq<u8>>,
}

/// The bytes of each text of a sequence.
pub open spec fn text_data(texts: Seq<CText>) -> Seq<Seq<u8>> {
    Seq::new(texts.len(), |i: int| texts[i]@)
}

impl View for Annotation {
    type V = AnnotationData;

    open spec fn view(&self) -> AnnotationData {
        AnnotationData {
            offset: self.offset as nat,
            length: self.length as nat,
            message: self.message@,
            kind: self.kind,
            suggestions: text_data(self.suggestions@),
        }
    }
}

/// What each finding of a sequence says.
pub open spec fn annotation_data(annotations: Seq<Annotation>) -> Seq<AnnotationData> {
    Seq::new(annotations.len(), |i: int| annotations[i]@)
}

/// Findings as they leave a plugin: neither the array nor any list of
/// suggestions in it has been read or cleaned up.
pub open spec fn all_fresh(annotations: &AnnotationArray) -> bool {
    &&& annotations.is_fresh()
    &&& forall|i: int|
        0 <= i < annotations@.len() ==> (#[trigger] annotations@[i]).suggestions.is_fresh()
}

/// Findings that have been read in full, suggestions included, and wait for
/// their cleanup.
pub open spec fn all_drained(annotations: &AnnotationArray) -> bool {
    &&& annotations.is_drained()
    &&& forall|i: int|
        0 <= i < annotations@.len() ==> (#[trigger] annotations@[i]).suggestions.is_drained()
}

/// Findings after their cleanup: it has run on the array and on every list
/// of suggestions in it.
pub open spec fn all_released(annotations: &AnnotationArray) -> bool {
    &&& annotations.released()
    &&& forall|i: int|
        0 <= i < annotations@.len() ==> (#[trigger] annotations@[i]).suggestions.released()
}

/// Whether two arrays of findings carry the same contexts for their
/// cleanup: that of the array itself and that of each list of suggestions.
/// By its context a producer finds its own allocation again.
pub open spec fn same_contexts(first: &AnnotationArray, second: &AnnotationArray) -> bool {
    &&& first.extra() == second.extra()
    &&& first@.len() == second@.len()
    &&& forall|i: int|
        0 <= i < first@.len() ==> (#[trigger] first@[i]).suggestions.extra()
            == second@[i].suggestions.extra()
}

/// What a plugin provides once it has been initialized.
///
/// Whoever implements this for a plugin states two things that nothing
/// here can prove of code behind the boundary: that a name and an answer
/// are among those the provider says it may give, and that every answer
/// comes in a newly made array, with nothing read and nothing cleaned up.
pub trait Provider: Sized {
    /// Whether `name` is a name that this provider may give itself. Unless
    /// a provider says otherwise, it may give any.
    open spec fn may_name(&self, name: Seq<u8>) -> bool {
        true
    }

    /// Whether `findings` is an answer that this provider may give to a
    /// check of `text` in `language`. Unless a provider says otherwise, it
    /// may give any.
    open spec fn may_return(
        &self,
        language: Seq<u8>,
        text: Seq<u8>,
        findings: Seq<AnnotationData>,
    ) -> bool {
        true
    }

    /// Names the plugin. The name is for diagnostics and need not be unique.
    fn name(&self) -> (name: CText)
        ensures
            self.may_name(name@),
    ;

    /// Checks a text and returns its findings in a newly made array, which
    /// the caller owns until it hands it to `free_annotations`.
    fn check(&self, props: &Properties, text: &CText) -> (annotations: AnnotationArray)
        ensures
            all_fresh(&annotations),
            self.may_return(props.primary_language@, text@, annotation_data(annotations@)),
    ;

    /// Takes back an array that `check` returned, once the caller has read
    /// all of it.
    fn free_annotations(&self, annotations: AnnotationArray)
        requires
            all_drained(&annotations),
    ;

    /// Disposes of the provider and of whatever it holds.
    fn free_provider(self);
}

/// Cleans up findings that were made from vectors: first every list of
/// suggestions, then the array itself.
pub fn free_annotations(annotations: &mut AnnotationArray)
    requires
        all_drained(old(annotations)),
    ensures
        all_released(final(annotations)),
        annotation_data(final(annotations)@) == annotation_data(old(annotations)@),
        same_contexts(final(annotations), old(annotations)),
{
    let len: usize = annotations.len();
    let mut i: usize = 0;
    while i < len
        invariant
            i <= len,
            len == annotations@.len(),
            annotations.is_drained(),
            annotation_data(annotations@) == annotation_data(old(annotations)@),
            same_contexts(annotations, old(annotations)),
            forall|j: int| 0 <= j < i ==> (#[trigger] annotations@[j]).suggestions.released(),
            forall|j: int|
                i <= j < len ==> (#[trigger] annotations@[j]).suggestions.is_drained(),
        decreases len - i,
    {
        let ghost before = annotations@;
        let annotation = annotations.get_mut(i);
        annotation.suggestions.release();
        assert(annotations@[i as int]@ == before[i as int]@);
        assert(annotation_data(annotations@) =~= annotation_data(before));
        i = i + 1;
    }
    annotations.release();
}

/// An answer of a provider, bound to the provider that has to take it back.
///
/// The host reads the findings through the response and releases it when it
/// is done; the release hands the array to the provider's cleanup. A
/// response can be released once: what is left of it afterwards holds no
/// findings.
pub struct Response<'a, P: Provider> {
    annotations: Option<AnnotationArray>,
    cleanup: &'a P,
    returned: Ghost<Option<AnnotationArray>>,
}

impl<'a, P: Provider> Response<'a, P> {
    /// Whether the findings have been handed back.
    pub closed spec fn released(&self) -> bool {
        self.annotations is None
    }

    /// The findings, owned by the host until the release.
    pub closed spec fn annotations(&self) -> AnnotationArray {
        self.annotations->0
    }

    /// The provider whose cleanup the response is bound to.
    pub closed spec fn provider(&self) -> &'a P {
        self.cleanup
    }

    /// The findings as they were handed back to the provider, once they
    /// have been handed back.
    pub closed spec fn returned(&self) -> AnnotationArray {
        self.returned@->0
    }

    /// Asks a provider to check a text and binds its answer to it.
    pub fn request(provider: &'a P, props: &Properties, text: &CText) -> (response: Response<
        'a,
        P,
    >)
        ensures
            !response.released(),
            all_fresh(&response.annotations()),
            response.provider() == provider,
            provider.may_return(
                props.primary_language@,
                text@,
                annotation_data(response.annotations()@),
            ),
    {
        Response {
            annotations: Some(provider.check(props, text)),
            cleanup: provider,
            returned: Ghost(None),
        }
    }

    /// Whether the findings have been handed back.
    pub fn is_released(&self) -> (released: bool)
        ensures
            released == self.released(),
    {
        self.annotations.is_none()
    }

    /// Gives access to the findings, to read them.
    pub fn findings(&mut self) -> (findings: &mut AnnotationArray)
        requires
            !old(self).released(),
        ensures
            *findings == old(self).annotations(),
            !final(self).released(),
            final(self).annotations() == *final(findings),
            final(self).provider() == old(self).provider(),
    {
        match &mut self.annotations {
            Some(findings) => findings,
            None => vstd::pervasive::unreached(),
        }
    }

    /// Hands the findings back to the provider that made them. They must
    /// have been read to the end, suggestions included, and they can be
    /// handed back only once.
    pub fn release(&mut self)
        requires
            !old(self).released(),
            all_drained(&old(self).annotations()),
        ensures
            final(self).released(),
            final(self).returned() == old(self).annotations(),
            final(self).provider() == old(self).provider(),
    {
        match self.annotations.take() {
            Some(annotations) => {
                self.returned = Ghost(Some(annotations));
                self.cleanup.free_annotations(annotations)
            },
            None => {},
        }
    }
}

} // verus!
