//! The host: providers bound to the libraries they came from, and the
//! checker that asks all of them.

use vstd::prelude::*;
use vstd::string::StringSliceAdditionalSpecFns;
use crate::annotation::{annotation_views, Annotation, AnnotationView, Properties};
use crate::error::LoadError;
use crate::exchange::{round, Exchange};
use crate::loader::{Candidate, CandidateState, SkipReason};
use crate::provider::{all_fresh, annotation_data, AnnotationData, Response};
use crate::reading::{decoded_all, read_response};
use crate::text::{no_zero_byte, utf8_lossy, CText};
use vstd::utf8::encode_utf8;

verus! {

/// `libloading::Library`, the handle of a loaded dynamic library.
#[verifier::external_type_specification]
#[verifier::external_body]
pub struct ExLibrary(libloading::Library);

/// Calls `libloading::Library::close`, which unloads the library and reports
/// what the dynamic linker made of it. Whether that succeeds is up to the
/// platform, so nothing is claimed about the result.
#[verifier::external_body]
fn close_library(library: libloading::Library) -> (closed: Result<(), libloading::Error>) {
    library.close()
}

/// A provider together with the library that its code lives in.
///
/// The two end together and in a fixed order: the provider is disposed of
/// by code of the library, so the library is unloaded last.
pub struct Provider<P: crate::provider::Provider> {
    internal: P,
    library: libloading::Library,
}

impl<P: crate::provider::Provider> Provider<P> {
    /// The provider that the plugin created.
    pub closed spec fn internal(&self) -> P {
        self.internal
    }

    /// The library that the provider came from.
    pub closed spec fn library(&self) -> libloading::Library {
        self.library
    }

    /// Binds the provider of an initialized candidate to its library. The
    /// candidate is used up: a plugin is bound once.
    pub fn bind(candidate: Candidate, internal: P, library: libloading::Library) -> (bound:
        Provider<P>)
        requires
            candidate.state() is Initialized,
        ensures
            bound.internal() == internal,
            bound.library() == library,
    {
        Provider { internal, library }
    }

    /// Asks the plugin to check a text. The answer is bound to this provider
    /// and borrows it: as long as the answer is around, the provider cannot
    /// be unloaded.
    pub fn ask<'a>(&'a self, props: &crate::provider::Properties, text: &CText) -> (response:
        Response<'a, P>)
        ensures
            !response.released(),
            all_fresh(&response.annotations()),
            *response.provider() == self.internal(),
            self.internal().may_return(
                props.primary_language@,
                text@,
                annotation_data(response.annotations()@),
            ),
    {
        Response::request(&self.internal, props, text)
    }

    /// Checks a text for mistakes using this provider: asks the plugin,
    /// reads all that it returned, and hands the array back before
    /// returning.
    pub fn check(&self, props: &crate::provider::Properties, text: &str) -> (annotations: Vec<
        Annotation,
    >)
        requires
            no_zero_byte(text.spec_bytes()),
        ensures
            exists|findings: Seq<AnnotationData>|
                self.internal().may_return(props.primary_language@, text.spec_bytes(), findings)
                    && annotation_views(annotations@) == #[trigger] decoded_all(findings),
    {
        match CText::from_str(text) {
            Some(text) => {
                let mut response = self.ask(props, &text);
                let ghost findings = annotation_data(response.annotations()@);
                let annotations = read_response(&mut response);
                assert(annotation_views(annotations@) == decoded_all(findings));
                annotations
            },
            None => Vec::new(),
        }
    }

    /// Get name of the provider.
    pub fn name(&self) -> (name: String)
        ensures
            exists|raw: Seq<u8>|
                self.internal().may_name(raw) && name@ == #[trigger] utf8_lossy(raw),
    {
        self.internal.name().to_string_lossy()
    }

    /// Ends the provider and then unloads its library, in that order. What
    /// the dynamic linker reports on unloading is handed on.
    pub fn unload(self) -> (unloaded: Result<(), LoadError>)
        ensures
            unloaded is Err ==> unloaded->Err_0 is LibloadingError,
    {
        report_unloading(close_library(self.into_library()))
    }

    /// Ends the provider and gives up its library, which can be unloaded
    /// only now: there is no other way to the library of a bound provider.
    pub fn into_library(self) -> (library: libloading::Library)
        ensures
            library == self.library(),
    {
        let Provider { internal, library } = self;
        internal.free_provider();
        library
    }
}

/// What unloading comes to, given what the dynamic linker made of it:
/// success stays success, and the linker's error becomes a loading error
/// with that error as its source.
pub open spec fn unloading_outcome(closed: Result<(), libloading::Error>) -> Result<
    (),
    LoadError,
> {
    match closed {
        Ok(_) => Ok(()),
        Err(source) => Err(LoadError::LibloadingError { source }),
    }
}

/// Reports what the dynamic linker made of unloading a library.
pub fn report_unloading(closed: Result<(), libloading::Error>) -> (unloaded: Result<
    (),
    LoadError,
>)
    ensures
        unloaded == unloading_outcome(closed),
{
    match closed {
        Ok(()) => Ok(()),
        Err(source) => Err(LoadError::LibloadingError { source }),
    }
}

/// The findings of several providers put together: those of the first
/// provider first, each provider's findings in the order in which it listed
/// them.
pub open spec fn merged(answers: Seq<Seq<AnnotationData>>) -> Seq<AnnotationView>
    decreases answers.len(),
{
    if answers.len() == 0 {
        Seq::empty()
    } else {
        merged(answers.drop_last()) + decoded_all(answers.last())
    }
}

/// How many findings the first `count` providers gave together.
pub open spec fn findings_before(answers: Seq<Seq<AnnotationData>>, count: int) -> int
    decreases count,
{
    if count <= 0 {
        0
    } else {
        findings_before(answers, count - 1) + answers[count - 1].len()
    }
}

/// Aggregation order: nothing is lost or added in the merge, and finding
/// `j` of provider `i` stands behind all findings of the providers before
/// `i` and behind the findings of `i` that come before it.
pub proof fn lemma_merged_order(answers: Seq<Seq<AnnotationData>>, i: int, j: int)
    requires
        0 <= i < answers.len(),
        0 <= j < answers[i].len(),
    ensures
        merged(answers).len() == findings_before(answers, answers.len() as int),
        0 <= findings_before(answers, i),
        findings_before(answers, i) + j < merged(answers).len(),
        merged(answers)[findings_before(answers, i) + j] == crate::reading::decoded(answers[i][j]),
    decreases answers.len(),
{
    let earlier = answers.drop_last();
    let last = answers.len() - 1;
    lemma_findings_before_prefix(answers, last);
    lemma_merged_len(earlier);
    lemma_merged_len(answers);
    if i < last {
        lemma_merged_order(earlier, i, j);
        lemma_findings_before_prefix(answers, i);
        assert(earlier[i] == answers[i]);
    } else {
        lemma_findings_before_nonnegative(answers, i);
    }
}

/// Counting findings before provider `count` looks at no provider behind
/// it.
proof fn lemma_findings_before_prefix(answers: Seq<Seq<AnnotationData>>, count: int)
    requires
        0 <= count < answers.len(),
    ensures
        findings_before(answers.drop_last(), count) == findings_before(answers, count),
    decreases count,
{
    if count > 0 {
        lemma_findings_before_prefix(answers, count - 1);
        assert(answers.drop_last()[count - 1] == answers[count - 1]);
    }
}

/// A count of findings is not negative.
proof fn lemma_findings_before_nonnegative(answers: Seq<Seq<AnnotationData>>, count: int)
    ensures
        0 <= findings_before(answers, count),
    decreases count,
{
    if count > 0 {
        lemma_findings_before_nonnegative(answers, count - 1);
    }
}

/// The merge holds as many findings as the providers gave together.
proof fn lemma_merged_len(answers: Seq<Seq<AnnotationData>>)
    ensures
        merged(answers).len() == findings_before(answers, answers.len() as int),
    decreases answers.len(),
{
    if answers.len() > 0 {
        lemma_merged_len(answers.drop_last());
        lemma_findings_before_prefix(answers, answers.len() - 1);
    }
}

/// Whether `answers` holds, for each provider in turn, an answer that the
/// provider may give to a check of `text` in `language`.
pub open spec fn answered_by<P: crate::provider::Provider>(
    providers: Seq<Provider<P>>,
    language: Seq<u8>,
    text: Seq<u8>,
    answers: Seq<Seq<AnnotationData>>,
) -> bool {
    &&& answers.len() == providers.len()
    &&& forall|i: int|
        0 <= i < providers.len() ==> (#[trigger] providers[i]).internal().may_return(
            language,
            text,
            answers[i],
        )
}

/// Main struct holding providers and other relevant data.
pub struct Patronus<P: crate::provider::Provider> {
    pub providers: Vec<Provider<P>>,
}

impl<P: crate::provider::Provider> Patronus<P> {
    /// A checker that asks the given providers, in the given order.
    pub fn new(providers: Vec<Provider<P>>) -> (patronus: Patronus<P>)
        ensures
            patronus.providers == providers,
    {
        Patronus { providers }
    }

    /// Checks a text for mistakes using all loaded providers.
    ///
    /// The providers are asked one after the other, in the order in which
    /// they were loaded, and each answer is read and handed back before the
    /// next provider is asked. The result lists the findings in that same
    /// order; it is not sorted by position.
    pub fn check(&self, props: &Properties, text: &str) -> (annotations: Vec<Annotation>)
        requires
            no_zero_byte(encode_utf8(props.primary_language@)),
            no_zero_byte(text.spec_bytes()),
        ensures
            exists|answers: Seq<Seq<AnnotationData>>|
                answered_by(
                    self.providers@,
                    encode_utf8(props.primary_language@),
                    text.spec_bytes(),
                    answers,
                ) && annotation_views(annotations@) == #[trigger] merged(answers),
    {
        let mut log: Vec<Exchange> = Vec::new();
        self.check_logged(props, text, &mut log)
    }

    /// Checks a text as `check` does, and writes down what passes between
    /// the host and its providers: for each provider in turn that it was
    /// asked, and, once its answer has been read and handed back, that the
    /// answer was returned. A log that takes in several checks holds one
    /// such round for each of them.
    pub fn check_logged(&self, props: &Properties, text: &str, log: &mut Vec<Exchange>) -> (annotations:
        Vec<Annotation>)
        requires
            no_zero_byte(encode_utf8(props.primary_language@)),
            no_zero_byte(text.spec_bytes()),
        ensures
            final(log)@ == old(log)@ + round(self.providers@.len()),
            exists|answers: Seq<Seq<AnnotationData>>|
                answered_by(
                    self.providers@,
                    encode_utf8(props.primary_language@),
                    text.spec_bytes(),
                    answers,
                ) && annotation_views(annotations@) == #[trigger] merged(answers),
    {
        let mut annotations: Vec<Annotation> = Vec::new();
        let ghost mut answers: Seq<Seq<AnnotationData>> = Seq::empty();
        let ghost language = encode_utf8(props.primary_language@);
        let count: usize = self.providers.len();
        match (CText::from_str(props.primary_language.as_str()), CText::from_str(text)) {
            (Some(primary_language), Some(text)) => {
                let properties = crate::provider::Properties { primary_language };
                let mut i: usize = 0;
                assert(annotation_views(annotations@) =~= merged(answers));
                assert(log@ =~= old(log)@ + round(0));
                while i < count
                    invariant
                        i <= count,
                        count == self.providers@.len(),
                        properties.primary_language@ == language,
                        log@ == old(log)@ + round(i as nat),
                        answered_by(self.providers@.take(i as int), language, text@, answers),
                        annotation_views(annotations@) == merged(answers),
                    decreases count - i,
                {
                    let ghost written = log@;
                    log.push(Exchange::Asked { provider: i });
                    let mut response = self.providers[i].ask(&properties, &text);
                    let ghost answer = annotation_data(response.annotations()@);
                    let mut found = read_response(&mut response);
                    assert(response.released());
                    log.push(Exchange::Returned { provider: i });
                    proof {
                        let earlier = answers;
                        answers = answers.push(answer);
                        assert(answers.drop_last() =~= earlier);
                        assert(annotation_views(annotations@ + found@) =~= merged(answers));
                        assert forall|k: int| 0 <= k < i + 1 implies (
                        #[trigger] self.providers@.take(i + 1)[k]).internal().may_return(
                            language,
                            text@,
                            answers[k],
                        ) by {
                            if k < i {
                                assert(self.providers@.take(i as int)[k] == self.providers@[k]);
                                assert(answers[k] == earlier[k]);
                            }
                        }
                        assert(log@ =~= old(log)@ + round((i + 1) as nat));
                    }
                    annotations.append(&mut found);
                    i = i + 1;
                }
                assert(self.providers@.take(i as int) =~= self.providers@);
            },
            _ => {},
        }
        annotations
    }
}

/// What has come of the loading so far: the providers that were
/// initialized, in the order in which they were found, and a report for
/// each plugin that was turned away.
pub struct Loader<P: crate::provider::Provider> {
    pub providers: Vec<Provider<P>>,
    pub rejected: Vec<LoadError>,
}

impl<P: crate::provider::Provider> Loader<P> {
    /// A loading that has found nothing yet.
    pub fn new() -> (loader: Loader<P>)
        ensures
            loader.providers@.len() == 0,
            loader.rejected@.len() == 0,
    {
        Loader { providers: Vec::new(), rejected: Vec::new() }
    }

    /// Takes in the provider of an initialized candidate, behind those that
    /// were found before it.
    pub fn register(&mut self, candidate: Candidate, internal: P, library: libloading::Library)
        requires
            candidate.state() is Initialized,
        ensures
            final(self).providers@.len() == old(self).providers@.len() + 1,
            final(self).providers@.drop_last() == old(self).providers@,
            final(self).providers@.last().internal() == internal,
            final(self).providers@.last().library() == library,
            final(self).rejected == old(self).rejected,
    {
        self.providers.push(Provider::bind(candidate, internal, library));
        assert(self.providers@.drop_last() =~= old(self).providers@);
    }

    /// Takes note of a candidate that was skipped. A plugin that speaks an
    /// unsupported version is reported with its path and that version; a
    /// library that is no plugin is passed over in silence.
    pub fn pass_over(&mut self, candidate: Candidate)
        requires
            candidate.state() is Skipped,
        ensures
            final(self).providers == old(self).providers,
            match candidate.state()->reason {
                SkipReason::NotAPlugin => final(self).rejected == old(self).rejected,
                SkipReason::UnsupportedVersion { version } => {
                    &&& final(self).rejected@.len() == old(self).rejected@.len() + 1
                    &&& final(self).rejected@.drop_last() == old(self).rejected@
                    &&& final(self).rejected@.last() matches LoadError::UnsupportedVersion {
                        path,
                        version: reported,
                    }
                    &&& path@ == candidate.path()
                    &&& reported == version
                },
            },
    {
        match candidate.current() {
            CandidateState::Skipped { reason: SkipReason::UnsupportedVersion { version } } => {
                let path = candidate.into_path();
                self.rejected.push(LoadError::UnsupportedVersion { path, version });
                assert(self.rejected@.drop_last() =~= old(self).rejected@);
            },
            _ => {},
        }
    }

    /// Ends the loading: the checker over the providers that were registered,
    /// and the reports of the plugins that were turned away.
    pub fn finish(self) -> (loaded: (Patronus<P>, Vec<LoadError>))
        ensures
            loaded.0.providers == self.providers,
            loaded.1 == self.rejected,
    {
        (Patronus::new(self.providers), self.rejected)
    }
}

} // verus!
