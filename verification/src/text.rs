//! Text: bytes read as characters, whitespace, and trimming.

use vstd::prelude::*;
use vstd::utf8::{encode_utf8, valid_utf8};

verus! {

/// `core::str::Utf8Error`, which says why bytes are not text. Nothing is
/// known of what it holds.
#[verifier::external_type_specification]
#[verifier::external_body]
pub struct ExUtf8Error(core::str::Utf8Error);

/// `core::str::from_utf8` gives the bytes as text where they are well-formed
/// UTF-8, and an error where they are not. The text is the same bytes, read
/// as characters.
pub assume_specification<'a>[ core::str::from_utf8 ](bytes: &'a [u8]) -> (text: Result<
    &'a str,
    core::str::Utf8Error,
>)
    ensures
        match text {
            Ok(t) => valid_utf8(bytes@) && encode_utf8(t@) == bytes@,
            Err(_) => !valid_utf8(bytes@),
        },
;

/// The characters that count as whitespace: those with the Unicode property
/// `White_Space`.
pub open spec fn is_whitespace(c: char) -> bool {
    let code = c as u32;
    ||| 0x0009 <= code <= 0x000D
    ||| code == 0x0020
    ||| code == 0x0085
    ||| code == 0x00A0
    ||| code == 0x1680
    ||| 0x2000 <= code <= 0x200A
    ||| code == 0x2028
    ||| code == 0x2029
    ||| code == 0x202F
    ||| code == 0x205F
    ||| code == 0x3000
}

/// The text without its leading whitespace.
pub open spec fn trim_start(text: Seq<char>) -> Seq<char>
    decreases text.len(),
{
    if text.len() > 0 && is_whitespace(text.first()) {
        trim_start(text.drop_first())
    } else {
        text
    }
}

/// The text without its trailing whitespace.
pub open spec fn trim_end(text: Seq<char>) -> Seq<char>
    decreases text.len(),
{
    if text.len() > 0 && is_whitespace(text.last()) {
        trim_end(text.drop_last())
    } else {
        text
    }
}

/// The text without the whitespace that surrounds it.
pub open spec fn trim(text: Seq<char>) -> Seq<char> {
    trim_end(trim_start(text))
}

/// Whether a character is whitespace.
pub fn char_is_whitespace(c: char) -> (white: bool)
    ensures
        white == is_whitespace(c),
{
    let code: u32 = c as u32;
    (0x0009 <= code && code <= 0x000D) || code == 0x0020 || code == 0x0085 || code == 0x00A0
        || code == 0x1680 || (0x2000 <= code && code <= 0x200A) || code == 0x2028 || code
        == 0x2029 || code == 0x202F || code == 0x205F || code == 0x3000
}

/// Leading whitespace ends at `start`: the text without it is what follows `start`.
proof fn lemma_trim_start_skips(text: Seq<char>, start: int)
    requires
        0 <= start <= text.len(),
        forall|j: int| 0 <= j < start ==> is_whitespace(#[trigger] text[j]),
        start < text.len() ==> !is_whitespace(text[start]),
    ensures
        trim_start(text) == text.skip(start),
    decreases start,
{
    if start > 0 {
        lemma_trim_start_skips(text.drop_first(), start - 1);
    }
}

/// Trailing whitespace begins at `end`: the text without it is what precedes `end`.
proof fn lemma_trim_end_takes(text: Seq<char>, end: int)
    requires
        0 <= end <= text.len(),
        forall|j: int| end <= j < text.len() ==> is_whitespace(#[trigger] text[j]),
        0 < end ==> !is_whitespace(text[end - 1]),
    ensures
        trim_end(text) == text.take(end),
    decreases text.len() - end,
{
    if end < text.len() {
        lemma_trim_end_takes(text.drop_last(), end);
    }
}

/// The number of characters of a text once the whitespace around it is removed.
pub fn trimmed_length(text: &str) -> (length: usize)
    ensures
        length == trim(text@).len(),
{
    let total: usize = text.unicode_len();
    let mut seen: usize = 0;
    let mut found: bool = false;
    let mut start: usize = 0;
    let mut end: usize = 0;
    let chars = text.chars();
    for c in it: chars
        invariant
            it.seq() == text@,
            total == text@.len(),
            seen == it.index(),
            !found ==> forall|j: int| 0 <= j < seen ==> is_whitespace(#[trigger] text@[j]),
            found ==> start < end <= seen,
            found ==> forall|j: int| 0 <= j < start ==> is_whitespace(#[trigger] text@[j]),
            found ==> !is_whitespace(text@[start as int]),
            found ==> !is_whitespace(text@[end - 1]),
            found ==> forall|j: int| end <= j < seen ==> is_whitespace(#[trigger] text@[j]),
    {
        if !char_is_whitespace(c) {
            if !found {
                found = true;
                start = seen;
            }
            end = seen + 1;
        }
        seen = seen + 1;
    }
    if found {
        proof {
            lemma_trim_start_skips(text@, start as int);
            lemma_trim_end_takes(text@.skip(start as int), end - start);
        }
        end - start
    } else {
        proof {
            lemma_trim_start_skips(text@, text@.len() as int);
        }
        0
    }
}

} // verus!
