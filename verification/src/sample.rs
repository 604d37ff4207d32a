//! A provider that needs no library: it flags one English phrase.
//!
//! It shows what a provider has to do, and gives the host something to ask
//! where no plugin is installed.

use vstd::prelude::*;
use vstd::string::StringSliceAdditionalSpecFns;
use vstd::utf8::{
    encode_utf8, encode_utf8_valid_utf8, is_char_boundary,
    is_char_boundary_iff_not_is_continuation_byte, is_char_boundary_start_end_of_seq,
    valid_utf8, valid_utf8_split,
};
use crate::annotation::span_fits;
use crate::kind::AnnotationKind;
use crate::parray::PArray;
use crate::provider::{
    all_fresh, annotation_data, Annotation, AnnotationArray, AnnotationData, Properties,
    PROVIDER_VERSION,
};
use crate::text::{
    lemma_prefix_ends_at_boundary, static_cstr, until_zero, utf8_lossy, CText,
};

verus! {

/// The phrase that the provider flags.
pub const PHRASE: &'static str = "mistakes are good";

/// What the provider says about the phrase.
pub const MESSAGE: &'static str = "Are you sure about mistakes being good?";

/// What the provider suggests first.
pub const FIRST_SUGGESTION: &'static str = "mistakes are never good";

/// What the provider suggests second.
pub const SECOND_SUGGESTION: &'static str = "mistakes are bad";

/// The language that the provider knows.
pub const LANGUAGE: &'static str = "en";

/// The provider's name.
pub const NAME: &'static str = "Sample checker";

/// Whether `pattern` stands in `text` at byte `at`.
pub open spec fn occurs_at(text: Seq<u8>, pattern: Seq<u8>, at: int) -> bool {
    &&& 0 <= at
    &&& at + pattern.len() <= text.len()
    &&& text.subrange(at, at + pattern.len()) == pattern
}

/// Where `pattern` stands in `text` at or behind byte `from`, from left to
/// right, each occurrence beginning behind the end of the one before. An
/// empty pattern stands nowhere.
pub open spec fn occurrences_from(text: Seq<u8>, pattern: Seq<u8>, from: int) -> Seq<int>
    decreases text.len() - from,
{
    if pattern.len() == 0 || from < 0 || from + pattern.len() > text.len() {
        Seq::empty()
    } else if occurs_at(text, pattern, from) {
        seq![from] + occurrences_from(text, pattern, from + pattern.len())
    } else {
        occurrences_from(text, pattern, from + 1)
    }
}

/// Where `pattern` stands in `text`.
pub open spec fn occurrences(text: Seq<u8>, pattern: Seq<u8>) -> Seq<int> {
    occurrences_from(text, pattern, 0)
}

/// What is found is there: the pattern stands at every place that is
/// listed, the places are listed from left to right without overlap, and
/// no place before the first one listed was passed over.
pub proof fn lemma_occurrences(text: Seq<u8>, pattern: Seq<u8>, from: int)
    requires
        0 <= from,
    ensures
        forall|i: int|
            0 <= i < occurrences_from(text, pattern, from).len() ==> occurs_at(
                text,
                pattern,
                #[trigger] occurrences_from(text, pattern, from)[i],
            ),
        forall|i: int|
            0 <= i < occurrences_from(text, pattern, from).len() ==> from <= (
            #[trigger] occurrences_from(text, pattern, from)[i]),
        forall|i: int|
            0 < i < occurrences_from(text, pattern, from).len() ==> occurrences_from(
                text,
                pattern,
                from,
            )[i - 1] + pattern.len() <= (#[trigger] occurrences_from(text, pattern, from)[i]),
        forall|at: int|
            from <= at && occurs_at(text, pattern, at) && pattern.len() > 0 ==> occurrences_from(
                text,
                pattern,
                from,
            ).len() > 0 && occurrences_from(text, pattern, from)[0] <= at,
    decreases text.len() - from,
{
    let found = occurrences_from(text, pattern, from);
    if pattern.len() == 0 || from + pattern.len() > text.len() {
    } else if occurs_at(text, pattern, from) {
        let later = occurrences_from(text, pattern, from + pattern.len());
        lemma_occurrences(text, pattern, from + pattern.len());
        assert(found == seq![from] + later);
        assert forall|i: int| 0 <= i < found.len() implies occurs_at(
            text,
            pattern,
            #[trigger] found[i],
        ) && from <= found[i] by {
            if i > 0 {
                assert(found[i] == later[i - 1]);
            }
        }
        assert forall|i: int| 0 < i < found.len() implies found[i - 1] + pattern.len() <= (
        #[trigger] found[i]) by {
            assert(found[i] == later[i - 1]);
            if i > 1 {
                assert(found[i - 1] == later[i - 2]);
            }
        }
    } else {
        let later = occurrences_from(text, pattern, from + 1);
        lemma_occurrences(text, pattern, from + 1);
        assert(found == later);
    }
}

/// Whether `pattern` stands in `text` at byte `at`.
pub fn matches_at(text: &[u8], pattern: &[u8], at: usize) -> (found: bool)
    requires
        at + pattern@.len() <= text@.len(),
    ensures
        found == occurs_at(text@, pattern@, at as int),
{
    let len: usize = text.len();
    let mut k: usize = 0;
    while k < pattern.len()
        invariant
            len == text@.len(),
            k <= pattern@.len(),
            at + pattern@.len() <= text@.len(),
            text@.subrange(at as int, at + k) == pattern@.take(k as int),
        decreases pattern@.len() - k,
    {
        if text[at + k] != pattern[k] {
            assert(text@.subrange(at as int, at + pattern@.len())[k as int] != pattern@[k as int]);
            return false;
        }
        assert(text@.subrange(at as int, at + k + 1) =~= text@.subrange(at as int, at + k).push(
            text@[at + k],
        ));
        assert(pattern@.take(k + 1) =~= pattern@.take(k as int).push(pattern@[k as int]));
        k = k + 1;
    }
    assert(pattern@.take(k as int) =~= pattern@);
    true
}

/// Finds every place where `pattern` stands in `text`, from left to right.
pub fn find_occurrences(text: &[u8], pattern: &[u8]) -> (offsets: Vec<usize>)
    ensures
        offsets@.len() == occurrences(text@, pattern@).len(),
        forall|i: int| 0 <= i < offsets@.len() ==> offsets@[i] == occurrences(text@, pattern@)[i],
{
    let mut offsets: Vec<usize> = Vec::new();
    let len: usize = text.len();
    let width: usize = pattern.len();
    if width == 0 || width > len {
        return offsets;
    }
    let last: usize = len - width;
    let mut at: usize = 0;
    let ghost mut found: Seq<int> = Seq::empty();
    assert(found + occurrences_from(text@, pattern@, 0) =~= occurrences(text@, pattern@));
    while at <= last
        invariant
            0 < width <= len,
            len == text@.len(),
            width == pattern@.len(),
            last == len - width,
            at <= len,
            found.len() == offsets@.len(),
            forall|i: int| 0 <= i < offsets@.len() ==> offsets@[i] == found[i],
            occurrences(text@, pattern@) == found + occurrences_from(text@, pattern@, at as int),
        decreases len - at,
    {
        let ghost rest = occurrences_from(text@, pattern@, at as int);
        if matches_at(text, pattern, at) {
            offsets.push(at);
            proof {
                let later = occurrences_from(text@, pattern@, at + width);
                assert(rest == seq![at as int] + later);
                assert(found + rest =~= found.push(at as int) + later);
                found = found.push(at as int);
            }
            at = at + width;
        } else {
            at = at + 1;
        }
    }
    assert(occurrences_from(text@, pattern@, at as int) =~= Seq::<int>::empty());
    assert(found + Seq::<int>::empty() =~= found);
    offsets
}

/// How many bytes of a language tag come before its first underscore, or
/// how many there are where it has none.
pub open spec fn first_underscore(tag: Seq<u8>) -> nat
    decreases tag.len(),
{
    if tag.len() == 0 || tag[0] == 0x5fu8 {
        0
    } else {
        1 + first_underscore(tag.skip(1))
    }
}

/// The language of a tag, without the country behind the underscore.
pub open spec fn primary_subtag(tag: Seq<u8>) -> Seq<u8> {
    tag.take(first_underscore(tag) as int)
}

/// Whether a tag names the language that the provider knows, whatever the
/// country.
pub open spec fn is_known_language(tag: Seq<u8>) -> bool {
    primary_subtag(tag) == encode_utf8(LANGUAGE@)
}

/// The finding for an occurrence of the phrase at byte `at`.
pub open spec fn finding_at(at: int) -> AnnotationData {
    AnnotationData {
        offset: at as nat,
        length: encode_utf8(PHRASE@).len(),
        message: until_zero(encode_utf8(MESSAGE@)),
        kind: AnnotationKind::Suggestion,
        suggestions: seq![
            until_zero(encode_utf8(FIRST_SUGGESTION@)),
            until_zero(encode_utf8(SECOND_SUGGESTION@)),
        ],
    }
}

/// The findings for an English text: one for each occurrence of the phrase,
/// from left to right.
pub open spec fn english_findings(text: Seq<u8>) -> Seq<AnnotationData> {
    let found = occurrences(text, encode_utf8(PHRASE@));
    Seq::new(found.len(), |i: int| finding_at(found[i]))
}

/// The findings for a text as it arrives: both the language tag and the text
/// are decoded first, and a text in another language has no findings.
pub open spec fn sample_findings(language: Seq<u8>, text: Seq<u8>) -> Seq<AnnotationData> {
    if is_known_language(encode_utf8(utf8_lossy(language))) {
        english_findings(encode_utf8(utf8_lossy(text)))
    } else {
        Seq::empty()
    }
}

/// Where valid text stands in valid text, it can be cut out: it lies inside
/// and both of its ends fall between characters.
pub proof fn lemma_occurrence_fits(text: Seq<u8>, pattern: Seq<u8>, at: int)
    requires
        valid_utf8(text),
        valid_utf8(pattern),
        pattern.len() > 0,
        occurs_at(text, pattern, at),
    ensures
        span_fits(at as nat, pattern.len(), text),
{
    let end = at + pattern.len();
    assert(text[at] == pattern[0]) by {
        assert(text.subrange(at, end)[0] == text[at]);
    }
    is_char_boundary_start_end_of_seq(pattern);
    is_char_boundary_iff_not_is_continuation_byte(pattern, 0);
    is_char_boundary_iff_not_is_continuation_byte(text, at);
    if end == text.len() {
        is_char_boundary_start_end_of_seq(text);
    } else {
        let rest = text.subrange(at, text.len() as int);
        valid_utf8_split(text, at);
        assert(rest.subrange(0, pattern.len() as int) =~= pattern);
        lemma_prefix_ends_at_boundary(rest, pattern);
        is_char_boundary_iff_not_is_continuation_byte(rest, pattern.len() as int);
        assert(rest[pattern.len() as int] == text[end]);
        is_char_boundary_iff_not_is_continuation_byte(text, end);
    }
}

/// Every finding of the provider can be cut out of the text that was
/// checked: its span lies inside the text and splits no character.
pub proof fn lemma_findings_fit(text: Seq<char>, i: int)
    requires
        0 <= i < english_findings(encode_utf8(text)).len(),
    ensures
        span_fits(
            english_findings(encode_utf8(text))[i].offset,
            english_findings(encode_utf8(text))[i].length,
            encode_utf8(text),
        ),
{
    let bytes = encode_utf8(text);
    let phrase = encode_utf8(PHRASE@);
    encode_utf8_valid_utf8(text);
    encode_utf8_valid_utf8(PHRASE@);
    lemma_occurrences(bytes, phrase, 0);
    lemma_occurrence_fits(bytes, phrase, occurrences(bytes, phrase)[i]);
}

/// The version of the contract that this provider speaks.
pub fn patronus_provider_version() -> (version: i32)
    ensures
        version == PROVIDER_VERSION,
{
    1
}

/// The provider's name.
pub fn get_name() -> (name: CText)
    ensures
        name@ == until_zero(encode_utf8(NAME@)),
{
    static_cstr(NAME)
}

/// Whether a language tag names the language that the provider knows.
pub fn knows_language(tag: &[u8]) -> (known: bool)
    ensures
        known == is_known_language(tag@),
{
    let mut end: usize = 0;
    assert(tag@.skip(0) =~= tag@);
    while end < tag.len() && tag[end] != 0x5fu8
        invariant
            end <= tag@.len(),
            first_underscore(tag@) == end + first_underscore(tag@.skip(end as int)),
        decreases tag@.len() - end,
    {
        assert(tag@.skip(end as int).skip(1) =~= tag@.skip(end + 1));
        end = end + 1;
    }
    assert(first_underscore(tag@.skip(end as int)) == 0);
    let language = LANGUAGE.as_bytes();
    if end == language.len() {
        let same = matches_at(tag, language, 0);
        assert(tag@.subrange(0, end as int) =~= tag@.take(end as int));
        same
    } else {
        false
    }
}

/// Checks an English text: flags every occurrence of the phrase and
/// suggests the contrary.
pub fn check_text_english(text: &str) -> (findings: AnnotationArray)
    ensures
        all_fresh(&findings),
        annotation_data(findings@) == english_findings(text.spec_bytes()),
{
    let found = find_occurrences(text.as_bytes(), PHRASE.as_bytes());
    let length: usize = PHRASE.as_bytes().len();
    let mut mistakes: Vec<Annotation> = Vec::new();
    let mut i: usize = 0;
    while i < found.len()
        invariant
            i <= found@.len(),
            length == encode_utf8(PHRASE@).len(),
            mistakes@.len() == i,
            forall|j: int| 0 <= j < i ==> (#[trigger] mistakes@[j]).suggestions.is_fresh(),
            forall|j: int| 0 <= j < i ==> (#[trigger] mistakes@[j])@ == finding_at(found@[j] as int),
        decreases found@.len() - i,
    {
        let mut suggestions: Vec<CText> = Vec::new();
        suggestions.push(static_cstr(FIRST_SUGGESTION));
        suggestions.push(static_cstr(SECOND_SUGGESTION));
        let suggestions: PArray<CText> = PArray::from(suggestions);
        let mistake = Annotation {
            offset: found[i],
            length,
            message: static_cstr(MESSAGE),
            kind: AnnotationKind::Suggestion,
            suggestions,
        };
        assert(mistake@.suggestions =~= finding_at(found@[i as int] as int).suggestions);
        mistakes.push(mistake);
        i = i + 1;
    }
    let findings: AnnotationArray = PArray::from(mistakes);
    assert(annotation_data(findings@) =~= english_findings(text.spec_bytes()));
    findings
}

/// Checks a text as it arrives from the host. The provider knows English
/// only, of any country; for a text in another language it finds nothing.
pub fn check_text(props: &Properties, text: &CText) -> (findings: AnnotationArray)
    ensures
        all_fresh(&findings),
        annotation_data(findings@) == sample_findings(props.primary_language@, text@),
{
    let language = props.primary_language.to_string_lossy();
    let text = text.to_string_lossy();
    if knows_language(language.as_str().as_bytes()) {
        check_text_english(text.as_str())
    } else {
        let nothing: Vec<Annotation> = Vec::new();
        let findings: AnnotationArray = PArray::from(nothing);
        assert(annotation_data(findings@) =~= Seq::<AnnotationData>::empty());
        findings
    }
}

/// The sample provider. It holds nothing.
#[derive(Debug)]
pub struct SampleProvider {}

impl crate::provider::Provider for SampleProvider {
    open spec fn may_name(&self, name: Seq<u8>) -> bool {
        name == until_zero(encode_utf8(NAME@))
    }

    open spec fn may_return(
        &self,
        language: Seq<u8>,
        text: Seq<u8>,
        findings: Seq<AnnotationData>,
    ) -> bool {
        findings == sample_findings(language, text)
    }

    fn name(&self) -> (name: CText) {
        get_name()
    }

    fn check(&self, props: &Properties, text: &CText) -> (annotations: AnnotationArray) {
        check_text(props, text)
    }

    fn free_annotations(&self, annotations: AnnotationArray) {
        let mut annotations = annotations;
        crate::provider::free_annotations(&mut annotations);
    }

    fn free_provider(self) {
    }
}

/// Creates the provider.
pub fn patronus_provider_init() -> (provider: SampleProvider) {
    SampleProvider {  }
}

} // verus!
