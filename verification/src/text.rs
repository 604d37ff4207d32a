//! Text as it crosses the plugin boundary: a run of bytes that ends at the
//! first zero byte, in no guaranteed encoding.

use vstd::prelude::*;
use vstd::slice::slice_to_vec;
use vstd::string::StringSliceAdditionalSpecFns;
use vstd::utf8::{
    decode_utf8, is_char_boundary, length_of_first_scalar, pop_first_scalar, valid_utf8,
};

verus! {

/// What lossy decoding makes of a run of bytes: the text they encode, with
/// every malformed part replaced by U+FFFD.
pub uninterp spec fn utf8_lossy(bytes: Seq<u8>) -> Seq<char>;

/// Whether a run of bytes can be handed over as zero-terminated text: no byte
/// of it is zero.
pub open spec fn no_zero_byte(bytes: Seq<u8>) -> bool {
    forall|i: int| 0 <= i < bytes.len() ==> bytes[i] != 0u8
}

/// How many bytes come before the first zero byte, or how many there are
/// where none is zero.
pub open spec fn first_zero(bytes: Seq<u8>) -> nat
    decreases bytes.len(),
{
    if bytes.len() == 0 || bytes[0] == 0u8 {
        0
    } else {
        1 + first_zero(bytes.skip(1))
    }
}

/// What a reader of zero-terminated text sees of a run of bytes: all that
/// comes before the first zero byte.
pub open spec fn until_zero(bytes: Seq<u8>) -> Seq<u8> {
    bytes.take(first_zero(bytes) as int)
}

/// Where no byte is zero, the reader sees all of them.
pub proof fn lemma_until_zero_keeps_clean_text(bytes: Seq<u8>)
    requires
        no_zero_byte(bytes),
    ensures
        first_zero(bytes) == bytes.len(),
        until_zero(bytes) == bytes,
    decreases bytes.len(),
{
    if bytes.len() > 0 {
        let rest = bytes.skip(1);
        assert forall|i: int| 0 <= i < rest.len() implies rest[i] != 0u8 by {
            assert(rest[i] == bytes[i + 1]);
        }
        lemma_until_zero_keeps_clean_text(rest);
    }
    assert(bytes.take(bytes.len() as int) =~= bytes);
}

/// Valid text that begins with valid text has a character boundary where
/// the shorter text ends.
pub proof fn lemma_prefix_ends_at_boundary(text: Seq<u8>, prefix: Seq<u8>)
    requires
        valid_utf8(text),
        valid_utf8(prefix),
        prefix.len() <= text.len(),
        text.subrange(0, prefix.len() as int) == prefix,
    ensures
        is_char_boundary(text, prefix.len() as int),
    decreases prefix.len(),
{
    if prefix.len() > 0 {
        let width = length_of_first_scalar(prefix);
        assert forall|k: int| 0 <= k < prefix.len() implies text[k] == prefix[k] by {
            assert(text.subrange(0, prefix.len() as int)[k] == text[k]);
        }
        assert(length_of_first_scalar(text) == width);
        assert(width <= prefix.len());
        let text_rest = pop_first_scalar(text);
        let prefix_rest = pop_first_scalar(prefix);
        assert(text_rest.subrange(0, prefix_rest.len() as int) =~= prefix_rest);
        lemma_prefix_ends_at_boundary(text_rest, prefix_rest);
    }
}

/// Calls `String::from_utf8_lossy` and takes the result as an owned string.
///
/// The result is named `utf8_lossy`. Of that name one fact is relied upon,
/// which the standard library documents: bytes that are valid UTF-8 decode to
/// the very text they encode, nothing replaced.
#[verifier::external_body]
fn decode_lossy(bytes: &[u8]) -> (text: String)
    ensures
        text@ == utf8_lossy(bytes@),
        valid_utf8(bytes@) ==> text@ == decode_utf8(bytes@),
{
    String::from_utf8_lossy(bytes).into_owned()
}

/// Zero-terminated text owned by whoever produced it.
///
/// The terminator is not part of the content, and the content holds no zero
/// byte.
#[derive(Debug)]
pub struct CText {
    bytes: Vec<u8>,
}

impl View for CText {
    type V = Seq<u8>;

    closed spec fn view(&self) -> Seq<u8> {
        self.bytes@
    }
}

impl DeepView for CText {
    type V = Seq<u8>;

    open spec fn deep_view(&self) -> Seq<u8> {
        self@
    }
}

impl CText {
    #[verifier::type_invariant]
    spec fn no_interior_zero(&self) -> bool {
        no_zero_byte(self.bytes@)
    }

    /// Takes the bytes as boundary text, unless one of them is zero.
    pub fn from_bytes(bytes: Vec<u8>) -> (text: Option<CText>)
        ensures
            text is Some <==> no_zero_byte(bytes@),
            text is Some ==> text->0@ == bytes@,
    {
        let mut i: usize = 0;
        while i < bytes.len()
            invariant
                i <= bytes.len(),
                no_zero_byte(bytes@.take(i as int)),
            decreases bytes.len() - i,
        {
            if bytes[i] == 0u8 {
                return None;
            }
            i = i + 1;
        }
        assert(bytes@.take(i as int) == bytes@);
        Some(CText { bytes })
    }

    /// Takes the bytes that come before the first zero byte as boundary
    /// text: what a reader of zero-terminated text would see of them.
    pub fn until_zero(bytes: &[u8]) -> (text: CText)
        ensures
            text@ == until_zero(bytes@),
    {
        let mut kept: Vec<u8> = Vec::new();
        let mut i: usize = 0;
        assert(bytes@.skip(0) =~= bytes@);
        while i < bytes.len() && bytes[i] != 0u8
            invariant
                i <= bytes.len(),
                kept@ == bytes@.take(i as int),
                no_zero_byte(kept@),
                first_zero(bytes@) == i + first_zero(bytes@.skip(i as int)),
            decreases bytes.len() - i,
        {
            assert(bytes@.skip(i as int).skip(1) =~= bytes@.skip(i + 1));
            kept.push(bytes[i]);
            assert(kept@ =~= bytes@.take(i + 1));
            i = i + 1;
        }
        assert(first_zero(bytes@.skip(i as int)) == 0);
        CText { bytes: kept }
    }

    /// Encodes a host string for the boundary, unless it holds a zero byte.
    pub fn from_str(text: &str) -> (encoded: Option<CText>)
        ensures
            encoded is Some <==> no_zero_byte(text.spec_bytes()),
            encoded is Some ==> encoded->0@ == text.spec_bytes(),
    {
        CText::from_bytes(slice_to_vec(text.as_bytes()))
    }

    /// The content, without the terminator.
    pub fn as_bytes(&self) -> (bytes: &[u8])
        ensures
            bytes@ == self@,
            no_zero_byte(bytes@),
    {
        proof {
            use_type_invariant(self);
        }
        self.bytes.as_slice()
    }

    /// Number of bytes of content.
    pub fn len(&self) -> (len: usize)
        ensures
            len == self@.len(),
    {
        self.bytes.len()
    }

    /// Decodes the content as UTF-8 into a host string. Malformed parts are
    /// replaced rather than rejected, so decoding never fails.
    pub fn to_string_lossy(&self) -> (text: String)
        ensures
            text@ == utf8_lossy(self@),
            valid_utf8(self@) ==> text@ == decode_utf8(self@),
    {
        decode_lossy(self.bytes.as_slice())
    }
}

/// Text that is spelled out in the program, made into boundary text. It ends
/// where zero-terminated text ends: at its first zero byte, if it has one.
pub fn static_cstr(text: &str) -> (encoded: CText)
    ensures
        encoded@ == until_zero(text.spec_bytes()),
{
    CText::until_zero(text.as_bytes())
}

} // verus!
