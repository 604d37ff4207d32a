//! Findings from a dictionary.
//!
//! A provider built on a dictionary looks up every word of a text and
//! reports the words that the dictionary does not know. Looking a word up is
//! the provider's business; what counts as a word, where it lies in the
//! text, and what a miss becomes is decided here.

use vstd::prelude::*;
use vstd::string::{StrSliceExecFns, StringExecFns, StringSliceAdditionalSpecFns};
use vstd::utf8::{encode_scalar, encode_utf8, encode_utf8_valid_utf8};
use crate::annotation::span_fits;
use crate::text::lemma_prefix_ends_at_boundary;
use crate::annotation::{annotation_views, Annotation, AnnotationView};
use crate::capi::{all_cross, encoded_all, export_annotations};
use crate::kind::AnnotationKind;
use crate::provider::{all_fresh, annotation_data, AnnotationArray};

verus! {

/// What the provider says about a word that the dictionary does not know.
pub const MESSAGE: &'static str = "Word was not found in the dictionary";

/// Whether a character is a letter, as Unicode defines its alphabetic
/// characters.
pub uninterp spec fn alphabetic(c: char) -> bool;

/// Calls `char::is_alphabetic`. The result is named `alphabetic`: it is read
/// from the tables of Unicode and depends on the character alone.
#[verifier::external_body]
fn is_alphabetic(c: char) -> (letter: bool)
    ensures
        letter == alphabetic(c),
{
    c.is_alphabetic()
}

/// Where a word lies in a text, in bytes.
#[derive(Clone, Copy, Debug, PartialEq, Eq)]
pub struct WordSpan {
    /// Byte offset of the word's first character.
    pub offset: usize,
    /// Byte length of the word.
    pub length: usize,
}

/// A word that the dictionary does not know, with what it offers instead.
#[derive(Debug)]
pub struct Misspelling {
    /// Where the word lies.
    pub span: WordSpan,
    /// What the dictionary suggests, best first.
    pub suggestions: Vec<String>,
}

/// How many bytes the first `count` characters of a text take in UTF-8.
pub open spec fn byte_offset(text: Seq<char>, count: int) -> nat {
    encode_utf8(text.take(count)).len()
}

/// The words of a text, each as the range of character positions that it
/// takes: the runs of letters that cannot be made longer, from left to
/// right.
pub open spec fn words(text: Seq<char>) -> Seq<(int, int)>
    decreases text.len(),
{
    if text.len() == 0 {
        Seq::empty()
    } else {
        let earlier = words(text.drop_last());
        let last = text.len() - 1;
        if !alphabetic(text[last]) {
            earlier
        } else if last > 0 && alphabetic(text[last - 1]) {
            earlier.drop_last().push((earlier.last().0, last + 1))
        } else {
            earlier.push((last, last + 1))
        }
    }
}

/// Where a word lies in bytes, for a word given by its character positions.
pub open spec fn span_of(text: Seq<char>, word: (int, int)) -> WordSpan {
    WordSpan {
        offset: byte_offset(text, word.0) as usize,
        length: (byte_offset(text, word.1) - byte_offset(text, word.0)) as usize,
    }
}

/// Where the words of a text lie in bytes.
pub open spec fn word_spans(text: Seq<char>) -> Seq<WordSpan> {
    Seq::new(words(text).len(), |i: int| span_of(text, words(text)[i]))
}

/// Encoding a text piece by piece gives the pieces' encodings one after the
/// other.
pub proof fn lemma_encode_concat(first: Seq<char>, second: Seq<char>)
    ensures
        encode_utf8(first + second) == encode_utf8(first) + encode_utf8(second),
    decreases first.len(),
{
    if first.len() == 0 {
        assert(first + second =~= second);
        assert(encode_utf8(first) + encode_utf8(second) =~= encode_utf8(second));
    } else {
        lemma_encode_concat(first.drop_first(), second);
        assert((first + second).drop_first() =~= first.drop_first() + second);
        assert(encode_utf8(first + second) =~= encode_utf8(first) + encode_utf8(second));
    }
}

/// Byte offsets grow with the characters: each character adds the bytes of
/// its own encoding, and no offset lies behind the end of the text.
pub proof fn lemma_byte_offset_step(text: Seq<char>, count: int)
    requires
        0 <= count < text.len(),
    ensures
        byte_offset(text, count + 1) == byte_offset(text, count) + encode_scalar(
            text[count] as u32,
        ).len(),
        byte_offset(text, count + 1) <= encode_utf8(text).len(),
{
    let head = text.take(count);
    let one = seq![text[count]];
    assert(text.take(count + 1) =~= head + one);
    lemma_encode_concat(head, one);
    assert(one.drop_first() =~= Seq::<char>::empty());
    assert(encode_utf8(one.drop_first()) =~= Seq::<u8>::empty());
    assert(one[0] == text[count]);
    assert(encode_utf8(one) =~= encode_scalar(text[count] as u32));
    assert(text =~= text.take(count + 1) + text.skip(count + 1));
    lemma_encode_concat(text.take(count + 1), text.skip(count + 1));
}

/// Whether a range of character positions is a run of letters that cannot
/// be made longer: it holds letters only, no letter stands before it and
/// none behind it.
pub open spec fn is_maximal_run(text: Seq<char>, word: (int, int)) -> bool {
    &&& 0 <= word.0 < word.1 <= text.len()
    &&& forall|i: int| word.0 <= i < word.1 ==> alphabetic(#[trigger] text[i])
    &&& word.0 > 0 ==> !alphabetic(text[word.0 - 1])
    &&& word.1 < text.len() ==> !alphabetic(text[word.1])
}

/// A run of a text is a run of the text with one more character, unless it
/// ends where the text ended and the new character is a letter.
proof fn lemma_run_survives(text: Seq<char>, word: (int, int))
    requires
        text.len() > 0,
        is_maximal_run(text.drop_last(), word),
        word.1 < text.len() - 1 || !alphabetic(text.last()),
    ensures
        is_maximal_run(text, word),
{
    let shorter = text.drop_last();
    assert forall|i: int| word.0 <= i < word.1 implies alphabetic(#[trigger] text[i]) by {
        assert(text[i] == shorter[i]);
    }
    if word.0 > 0 {
        assert(text[word.0 - 1] == shorter[word.0 - 1]);
    }
    if word.1 < text.len() - 1 {
        assert(text[word.1] == shorter[word.1]);
    }
}

/// What the words of a text are: every word is a run of letters that cannot
/// be made longer, the words follow one another from left to right, and the
/// last word ends with the text exactly where the text ends with a letter.
pub proof fn lemma_words_are_maximal_runs(text: Seq<char>)
    ensures
        forall|k: int| 0 <= k < words(text).len() ==> is_maximal_run(text, #[trigger] words(text)[k]),
        forall|k: int|
            0 < k < words(text).len() ==> words(text)[k - 1].1 < (#[trigger] words(text)[k]).0,
        text.len() > 0 && alphabetic(text.last()) ==> words(text).len() > 0 && words(
            text,
        ).last().1 == text.len(),
        text.len() > 0 && !alphabetic(text.last()) && words(text).len() > 0 ==> words(
            text,
        ).last().1 < text.len(),
    decreases text.len(),
{
    if text.len() > 0 {
        let shorter = text.drop_last();
        let earlier = words(shorter);
        let found = words(text);
        let last = text.len() - 1;
        lemma_words_are_maximal_runs(shorter);
        if !alphabetic(text[last]) {
            assert(found == earlier);
            assert forall|k: int| 0 <= k < found.len() implies is_maximal_run(
                text,
                #[trigger] found[k],
            ) by {
                lemma_run_survives(text, earlier[k]);
            }
        } else if last > 0 && alphabetic(text[last - 1]) {
            assert(shorter.last() == text[last - 1]);
            let open = earlier.last();
            let grown = (open.0, last + 1);
            assert(found == earlier.drop_last().push(grown));
            assert forall|k: int| 0 <= k < found.len() implies is_maximal_run(
                text,
                #[trigger] found[k],
            ) by {
                if k < found.len() - 1 {
                    assert(found[k] == earlier[k]);
                    assert(earlier[k].1 < earlier[k + 1].0);
                    assert(is_maximal_run(shorter, earlier[k + 1]));
                    lemma_run_survives(text, earlier[k]);
                } else {
                    assert(found[k] == grown);
                    assert(is_maximal_run(shorter, open));
                    assert forall|i: int| grown.0 <= i < grown.1 implies alphabetic(
                        #[trigger] text[i],
                    ) by {
                        if i < last {
                            assert(text[i] == shorter[i]);
                        }
                    }
                    if grown.0 > 0 {
                        assert(text[grown.0 - 1] == shorter[grown.0 - 1]);
                    }
                }
            }
            assert forall|k: int| 0 < k < found.len() implies found[k - 1].1 < (
            #[trigger] found[k]).0 by {
                assert(found[k - 1] == earlier[k - 1]);
                if k < found.len() - 1 {
                    assert(found[k] == earlier[k]);
                } else {
                    assert(earlier[k - 1].1 < earlier[k].0);
                }
            }
        } else {
            let fresh = (last, last + 1);
            assert(found == earlier.push(fresh));
            if last > 0 {
                assert(shorter.last() == text[last - 1]);
            }
            assert forall|k: int| 0 <= k < found.len() implies is_maximal_run(
                text,
                #[trigger] found[k],
            ) by {
                if k < earlier.len() {
                    assert(found[k] == earlier[k]);
                    assert(is_maximal_run(shorter, earlier[k]));
                    if earlier[k].1 == shorter.len() {
                        assert(k == earlier.len() - 1) by {
                            if k < earlier.len() - 1 {
                                assert(earlier[k].1 < earlier[k + 1].0);
                                assert(is_maximal_run(shorter, earlier[k + 1]));
                            }
                        }
                        assert(alphabetic(shorter[shorter.len() - 1]));
                    }
                    lemma_run_survives(text, earlier[k]);
                } else {
                    assert(found[k] == fresh);
                }
            }
            assert forall|k: int| 0 < k < found.len() implies found[k - 1].1 < (
            #[trigger] found[k]).0 by {
                assert(found[k - 1] == earlier[k - 1]);
                if k < earlier.len() {
                    assert(found[k] == earlier[k]);
                } else {
                    assert(is_maximal_run(shorter, earlier[k - 1]));
                    if earlier[k - 1].1 == shorter.len() {
                        assert(alphabetic(shorter[shorter.len() - 1]));
                    }
                }
            }
        }
    }
}

/// The first characters of a text end at a character boundary of its
/// encoding, wherever the text is cut.
pub proof fn lemma_byte_offset_is_boundary(text: Seq<char>, count: int)
    requires
        0 <= count <= text.len(),
    ensures
        byte_offset(text, count) <= encode_utf8(text).len(),
        vstd::utf8::is_char_boundary(encode_utf8(text), byte_offset(text, count) as int),
{
    let head = text.take(count);
    let tail = text.skip(count);
    assert(text =~= head + tail);
    lemma_encode_concat(head, tail);
    encode_utf8_valid_utf8(text);
    encode_utf8_valid_utf8(head);
    assert(encode_utf8(text).subrange(0, encode_utf8(head).len() as int) =~= encode_utf8(head));
    lemma_prefix_ends_at_boundary(encode_utf8(text), encode_utf8(head));
}

/// Byte offsets do not go back as the characters go on.
pub proof fn lemma_byte_offset_grows(text: Seq<char>, from: int, to: int)
    requires
        0 <= from <= to <= text.len(),
    ensures
        byte_offset(text, from) <= byte_offset(text, to),
    decreases to - from,
{
    if from < to {
        lemma_byte_offset_grows(text, from, to - 1);
        lemma_byte_offset_step(text, to - 1);
    }
}

/// Every word can be cut out of the text that it was found in: its span
/// lies inside the text and splits no character.
pub proof fn lemma_word_spans_fit(text: Seq<char>, i: int)
    requires
        0 <= i < word_spans(text).len(),
        encode_utf8(text).len() <= usize::MAX,
    ensures
        span_fits(
            word_spans(text)[i].offset as nat,
            word_spans(text)[i].length as nat,
            encode_utf8(text),
        ),
{
    let word = words(text)[i];
    lemma_words_are_maximal_runs(text);
    assert(is_maximal_run(text, word));
    lemma_byte_offset_is_boundary(text, word.0);
    lemma_byte_offset_is_boundary(text, word.1);
    lemma_byte_offset_grows(text, word.0, word.1);
}

/// How many bytes a character takes in UTF-8.
pub fn utf8_width(c: char) -> (width: usize)
    ensures
        width == encode_scalar(c as u32).len(),
        1 <= width <= 4,
{
    proof {
        vstd::utf8::char_is_scalar(c);
    }
    let scalar: u32 = c as u32;
    if scalar < 0x80 {
        1
    } else if scalar < 0x800 {
        2
    } else if scalar < 0x10000 {
        3
    } else {
        4
    }
}

/// Finds the words of a text: where each run of letters lies, in bytes, from
/// left to right.
pub fn find_words(text: &str) -> (spans: Vec<WordSpan>)
    ensures
        spans@ == word_spans(text@),
{
    let total: usize = text.unicode_len();
    let bytes: usize = text.as_bytes().len();
    let mut spans: Vec<WordSpan> = Vec::new();
    let mut at: usize = 0;
    let mut start: usize = 0;
    let mut in_word: bool = false;
    let mut i: usize = 0;
    let ghost mut closed: Seq<(int, int)> = Seq::empty();
    let ghost mut first: int = 0;
    proof {
        assert(text@.take(0) =~= Seq::<char>::empty());
        assert(encode_utf8(text@.take(0)) =~= Seq::<u8>::empty());
    }
    for c in it: text.chars()
        invariant
            i == it.index(),
            it.seq() == text@,
            total == text@.len(),
            bytes == encode_utf8(text@).len(),
            i <= total,
            at == byte_offset(text@, i as int),
            at <= bytes,
            in_word == (i > 0 && alphabetic(text@[i - 1])),
            in_word ==> 0 <= first < i && start == byte_offset(text@, first) && start <= at,
            words(text@.take(i as int)) == if in_word {
                closed.push((first, i as int))
            } else {
                closed
            },
            spans@.len() == closed.len(),
            forall|k: int| 0 <= k < closed.len() ==> spans@[k] == span_of(text@, #[trigger] closed[k]),
    {
        let ghost prefix = text@.take(i as int);
        let ghost longer = text@.take(i + 1);
        proof {
            lemma_byte_offset_step(text@, i as int);
            assert(longer.drop_last() =~= prefix);
            assert(longer[i as int] == c);
            if i > 0 {
                assert(longer[i - 1] == text@[i - 1]);
            }
        }
        let letter = is_alphabetic(c);
        let width = utf8_width(c);
        if letter {
            if !in_word {
                start = at;
                in_word = true;
                proof {
                    first = i as int;
                }
            } else {
                proof {
                    assert(closed.push((first, i as int)).drop_last() =~= closed);
                }
            }
        } else {
            if in_word {
                let ghost word = (first, i as int);
                spans.push(WordSpan { offset: start, length: at - start });
                proof {
                    closed = closed.push(word);
                }
                in_word = false;
            }
        }
        at = at + width;
        i = i + 1;
    }
    proof {
        assert(text@.take(i as int) =~= text@);
    }
    if in_word {
        let ghost word = (first, i as int);
        spans.push(WordSpan { offset: start, length: at - start });
        proof {
            closed = closed.push(word);
        }
    }
    assert(spans@ =~= word_spans(text@));
    spans
}

/// The finding for a word that the dictionary does not know.
pub open spec fn finding_of(missed: Misspelling) -> AnnotationView {
    AnnotationView {
        offset: missed.span.offset as nat,
        length: missed.span.length as nat,
        message: MESSAGE@,
        kind: AnnotationKind::Spelling,
        suggestions: missed.suggestions.deep_view(),
    }
}

/// The findings for the words that the dictionary does not know, in their
/// order.
pub open spec fn findings_of(missed: Seq<Misspelling>) -> Seq<AnnotationView> {
    Seq::new(missed.len(), |i: int| finding_of(missed[i]))
}

/// Whether a word counts as misspelt, given what the dictionary said of it.
/// A word counts as misspelt only if the dictionary was sure: where it
/// could not be asked, the word passes.
pub fn is_misspelt(known: Option<bool>) -> (misspelt: bool)
    ensures
        misspelt == (known == Some(false)),
{
    match known {
        Some(known) => !known,
        None => false,
    }
}

/// Makes the findings of a check out of the words that the dictionary does
/// not know, ready to be handed to the host. Where a suggestion cannot be
/// handed over as zero-terminated text, nothing is returned.
pub fn spelling_findings(missed: &Vec<Misspelling>) -> (findings: Option<AnnotationArray>)
    ensures
        findings is Some <==> all_cross(findings_of(missed@)),
        findings is Some ==> all_fresh(&findings->0) && annotation_data(findings->0@)
            == encoded_all(findings_of(missed@)),
{
    let mut annotations: Vec<Annotation> = Vec::new();
    let mut i: usize = 0;
    while i < missed.len()
        invariant
            i <= missed@.len(),
            annotations@.len() == i,
            forall|j: int| 0 <= j < i ==> (#[trigger] annotations@[j])@ == finding_of(missed@[j]),
        decreases missed@.len() - i,
    {
        let word = &missed[i];
        let suggestions = word.suggestions.clone();
        assert(suggestions.deep_view() =~= word.suggestions.deep_view());
        annotations.push(
            Annotation {
                offset: word.span.offset,
                length: word.span.length,
                message: String::from_str(MESSAGE),
                kind: AnnotationKind::Spelling,
                suggestions,
            },
        );
        i = i + 1;
    }
    assert(annotation_views(annotations@) =~= findings_of(missed@));
    export_annotations(&annotations)
}

} // verus!
