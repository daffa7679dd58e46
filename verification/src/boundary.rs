//! Character boundaries: where a text may be cut without splitting a
//! character.
//!
//! The scanner works on byte offsets, and hands out string slices. These
//! lemmas show that the offsets it computes from whole-character delimiters
//! and from ASCII line terminators are character boundaries of the text.

use vstd::prelude::*;
use vstd::string::StringSliceAdditionalSpecFns;
use vstd::utf8::*;

verus! {

/// In a valid text, an offset before the end is a character boundary exactly
/// when the byte there is not a continuation byte; the end is always one.
pub proof fn lemma_boundary_by_byte(text: Seq<u8>, index: int)
    requires
        valid_utf8(text),
        0 <= index <= text.len(),
    ensures
        is_char_boundary(text, index) <==> (index == text.len() || !is_continuation_byte(
            text[index],
        )),
{
    if index == text.len() {
        is_char_boundary_start_end_of_seq(text);
    } else {
        is_char_boundary_iff_not_is_continuation_byte(text, index);
    }
}

/// A valid text that begins with a valid text `prefix` has a character
/// boundary where `prefix` ends.
pub proof fn lemma_prefix_boundary(text: Seq<u8>, prefix: Seq<u8>)
    requires
        valid_utf8(text),
        valid_utf8(prefix),
        prefix.len() <= text.len(),
        text.subrange(0, prefix.len() as int) == prefix,
    ensures
        is_char_boundary(text, prefix.len() as int),
    decreases prefix.len(),
{
    if prefix.len() > 0 {
        assert(text[0] == text.subrange(0, prefix.len() as int)[0]);
        let width = length_of_first_scalar(prefix);
        assert(width == length_of_first_scalar(text));
        assert(width <= prefix.len());
        let rest = pop_first_scalar(prefix);
        let tail = pop_first_scalar(text);
        assert(tail.subrange(0, rest.len() as int) =~= rest) by {
            assert forall|i: int| 0 <= i < rest.len() implies tail[i] == rest[i] by {
                assert(text[i + width] == text.subrange(0, prefix.len() as int)[i + width]);
            }
        }
        lemma_prefix_boundary(tail, rest);
    }
}

/// Where a non-empty valid pattern occurs in a valid text, the occurrence
/// begins and ends on character boundaries of the text.
pub proof fn lemma_occurrence_boundaries(text: Seq<u8>, at: int, pattern: Seq<u8>)
    requires
        valid_utf8(text),
        valid_utf8(pattern),
        pattern.len() > 0,
        0 <= at,
        at + pattern.len() <= text.len(),
        text.subrange(at, at + pattern.len()) == pattern,
    ensures
        is_char_boundary(text, at),
        is_char_boundary(text, at + pattern.len()),
{
    let end = at + pattern.len();
    assert(text[at] == text.subrange(at, end)[0]);
    lemma_boundary_by_byte(pattern, 0);
    lemma_boundary_by_byte(text, at);
    valid_utf8_split(text, at);
    let tail = text.subrange(at, text.len() as int);
    assert(tail.subrange(0, pattern.len() as int) =~= pattern) by {
        assert forall|i: int| 0 <= i < pattern.len() implies tail[i] == pattern[i] by {
            assert(text[at + i] == text.subrange(at, end)[i]);
        }
    }
    lemma_prefix_boundary(tail, pattern);
    lemma_boundary_by_byte(tail, pattern.len() as int);
    lemma_boundary_by_byte(text, end);
}

/// In a valid text, the offset just after an ASCII byte is a character
/// boundary, and so is the offset of the ASCII byte itself.
pub proof fn lemma_ascii_boundaries(text: Seq<u8>, index: int)
    requires
        valid_utf8(text),
        0 <= index < text.len(),
        text[index] < 0x80,
    ensures
        is_char_boundary(text, index),
        is_char_boundary(text, index + 1),
{
    let pattern = seq![text[index]];
    assert(valid_utf8(pattern)) by {
        reveal_with_fuel(valid_utf8, 2);
        assert(pop_first_scalar(pattern).len() == 0);
    }
    assert(text.subrange(index, index + 1) =~= pattern);
    lemma_occurrence_boundaries(text, index, pattern);
}

/// The bytes of a string slice are a valid text.
pub proof fn lemma_str_valid(s: &str)
    ensures
        valid_utf8(s.spec_bytes()),
{
    encode_utf8_valid_utf8(s@);
}

/// The part of `text` between two character boundaries.
pub fn substring<'a>(text: &'a str, start: usize, end: usize) -> (part: &'a str)
    requires
        start <= end <= text.spec_bytes().len(),
        is_char_boundary(text.spec_bytes(), start as int),
        is_char_boundary(text.spec_bytes(), end as int),
    ensures
        part.spec_bytes() == text.spec_bytes().subrange(start as int, end as int),
{
    let (head, _) = text.split_at(end);
    proof {
        lemma_str_valid(text);
        lemma_str_valid(head);
        lemma_boundary_by_byte(text.spec_bytes(), start as int);
        lemma_boundary_by_byte(head.spec_bytes(), start as int);
    }
    let (_, part) = head.split_at(start);
    assert(part.spec_bytes() =~= text.spec_bytes().subrange(start as int, end as int));
    part
}

} // verus!
