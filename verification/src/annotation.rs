//! Findings in the host's own representation.

use vstd::prelude::*;
use vstd::string::StringSliceAdditionalSpecFns;
use vstd::utf8::{
    encode_utf8_valid_utf8, is_char_boundary, is_char_boundary_iff_not_is_continuation_byte,
    is_char_boundary_start_end_of_seq, valid_utf8_split,
};
use crate::kind::AnnotationKind;

verus! {

/// Metadata that accompanies a text: what the checkers need to know about it.
pub struct Properties {
    /// Language tag of the text, such as `en` or `en_GB`.
    pub primary_language: String,
}

/// One finding, owned by the host.
#[derive(Debug)]
pub struct Annotation {
    /// Byte offset of the flagged span in the checked text.
    pub offset: usize,
    /// Byte length of the flagged span.
    pub length: usize,
    /// Explanation for a human reader.
    pub message: String,
    /// Category of the finding.
    pub kind: AnnotationKind,
    /// Candidate replacements, best first.
    pub suggestions: Vec<String>,
}

/// Mathematical content of an [`Annotation`].
pub struct AnnotationView {
    pub offset: nat,
    pub length: nat,
    pub message: Seq<char>,
    pub kind: AnnotationKind,
    pub suggestions: Seq<Seq<char>>,
}

impl View for Annotation {
    type V = AnnotationView;

    open spec fn view(&self) -> AnnotationView {
        AnnotationView {
            offset: self.offset as nat,
            length: self.length as nat,
            message: self.message@,
            kind: self.kind,
            suggestions: self.suggestions.deep_view(),
        }
    }
}

/// Views of a sequence of annotations, element by element.
pub open spec fn annotation_views(annotations: Seq<Annotation>) -> Seq<AnnotationView> {
    Seq::new(annotations.len(), |i: int| annotations[i]@)
}

/// Whether a span lies inside a text given by its UTF-8 bytes and both of its
/// ends fall between characters.
pub open spec fn span_fits(offset: nat, length: nat, text: Seq<u8>) -> bool {
    &&& offset + length <= text.len()
    &&& is_char_boundary(text, offset as int)
    &&& is_char_boundary(text, (offset + length) as int)
}

impl Properties {
    /// Properties of a text in the given language.
    pub fn new(primary_language: String) -> (props: Properties)
        ensures
            props.primary_language == primary_language,
    {
        Properties { primary_language }
    }
}

impl Annotation {
    /// Whether the flagged span can be cut out of `text`: it ends inside the
    /// text and neither end splits a character.
    pub fn fits(&self, text: &str) -> (ok: bool)
        ensures
            ok == span_fits(self@.offset, self@.length, text.spec_bytes()),
    {
        let text_len: usize = text.as_bytes().len();
        match self.offset.checked_add(self.length) {
            None => false,
            Some(end) => end <= text_len && text.is_char_boundary(self.offset)
                && text.is_char_boundary(end),
        }
    }

    /// Cuts the flagged span out of `text`, if it can be cut out. Positions
    /// are bytes, and a character can take several of them: a span that
    /// would split one is not cut.
    pub fn flagged<'a>(&self, text: &'a str) -> (span: Option<&'a str>)
        ensures
            span is Some <==> span_fits(self@.offset, self@.length, text.spec_bytes()),
            span is Some ==> span->0.spec_bytes() == text.spec_bytes().subrange(
                self@.offset as int,
                (self@.offset + self@.length) as int,
            ),
    {
        if !self.fits(text) {
            return None;
        }
        let text_len: usize = text.as_bytes().len();
        assert(self.offset + self.length <= text_len);
        let end: usize = self.offset + self.length;
        let (head, _) = text.split_at(end);
        proof {
            let bytes = text.spec_bytes();
            encode_utf8_valid_utf8(text@);
            valid_utf8_split(bytes, end as int);
            if self.offset < end {
                is_char_boundary_iff_not_is_continuation_byte(bytes, self.offset as int);
                assert(head.spec_bytes()[self.offset as int] == bytes[self.offset as int]);
                is_char_boundary_iff_not_is_continuation_byte(
                    head.spec_bytes(),
                    self.offset as int,
                );
            } else {
                is_char_boundary_start_end_of_seq(head.spec_bytes());
            }
        }
        let (_, span) = head.split_at(self.offset);
        Some(span)
    }
}

} // verus!
