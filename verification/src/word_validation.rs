//! Choosing the word to guess from a list ordered from most to least common.

use crate::random::choose_word;
use vstd::prelude::*;

verus! {

/// How many of the most common words are eligible when the word has five letters or more.
pub const LONG_WORD_POOL: usize = 1000;

/// How many of the most common words are eligible when the word has four letters.
pub const FOUR_LETTER_POOL: usize = 700;

/// How many of the most common words are eligible when the word has three letters or fewer.
pub const SHORT_WORD_POOL: usize = 500;

/// The largest pool that a word length allows.
pub open spec fn pool_limit(word_length: usize) -> nat {
    if word_length >= 5 {
        LONG_WORD_POOL as nat
    } else if word_length == 4 {
        FOUR_LETTER_POOL as nat
    } else {
        SHORT_WORD_POOL as nat
    }
}

/// The number of leading words that form the pool: the limit for the word
/// length, or every word where the list is shorter than that.
pub open spec fn pool_size(available: nat, word_length: usize) -> nat {
    if available <= pool_limit(word_length) {
        available
    } else {
        pool_limit(word_length)
    }
}

/// The pool holds the first 1000 words where the word length is five or
/// more, the first 700 where it is four and the first 500 where it is less,
/// and the whole list where the list is shorter than that.
pub proof fn lemma_pool_tiers(available: nat, word_length: usize)
    ensures
        pool_size(available, word_length) <= available,
        word_length >= 5 ==> pool_size(available, word_length) == if available < 1000 {
            available
        } else {
            1000
        },
        word_length == 4 ==> pool_size(available, word_length) == if available < 700 {
            available
        } else {
            700
        },
        word_length <= 3 ==> pool_size(available, word_length) == if available < 500 {
            available
        } else {
            500
        },
{
}

/// The words eligible for selection: the first `pool_size` words of the list.
pub fn candidate_pool<'a>(words: &'a [String], word_length: usize) -> (pool: &'a [String])
    ensures
        pool@ == words@.take(pool_size(words@.len(), word_length) as int),
        pool@.len() == pool_size(words@.len(), word_length),
{
    let limit: usize = if word_length >= 5 {
        LONG_WORD_POOL
    } else if word_length == 4 {
        FOUR_LETTER_POOL
    } else {
        SHORT_WORD_POOL
    };
    let size: usize = if words.len() <= limit {
        words.len()
    } else {
        limit
    };
    vstd::slice::slice_subrange(words, 0, size)
}

/// Picks the word to guess: one of the words of the candidate pool, each
/// with the same chance, or nothing where the list is empty.
///
/// The list is taken to be ordered from the most common word to the least
/// common one; nothing checks that.
pub fn get_random_word<'a>(words: &'a [String], word_length: usize) -> (word: Option<&'a str>)
    ensures
        words@.len() == 0 <==> word is None,
        word matches Some(w) ==> exists|i: int|
            0 <= i < pool_size(words@.len(), word_length) && w@ == #[trigger] words@[i]@,
{
    let pool = candidate_pool(words, word_length);
    let mut rng = rand::thread_rng();
    match choose_word(pool, &mut rng) {
        Some(picked) => {
            proof {
                let i = choose|i: int| 0 <= i < pool@.len() && *picked == #[trigger] pool@[i];
                assert(picked@ == words@[i]@);
            }
            Some(picked.as_str())
        },
        None => None,
    }
}

/// Whether two texts hold the same characters.
fn same_text(left: &str, right: &str) -> (same: bool)
    ensures
        same == (left@ == right@),
{
    let left_bytes = left.as_bytes();
    let right_bytes = right.as_bytes();
    proof {
        vstd::utf8::encode_utf8_decode_utf8(left@);
        vstd::utf8::encode_utf8_decode_utf8(right@);
    }
    if left_bytes.len() != right_bytes.len() {
        return false;
    }
    let mut at: usize = 0;
    while at < left_bytes.len()
        invariant
            left_bytes@.len() == right_bytes@.len(),
            at <= left_bytes@.len(),
            forall|j: int| 0 <= j < at ==> left_bytes@[j] == right_bytes@[j],
            left_bytes@ == right_bytes@ ==> left@ == right@,
            left@ == right@ ==> left_bytes@ == right_bytes@,
        decreases left_bytes@.len() - at,
    {
        if left_bytes[at] != right_bytes[at] {
            return false;
        }
        at = at + 1;
    }
    assert(left_bytes@ =~= right_bytes@);
    true
}

/// The place of a word in a list: that of its first occurrence, counted
/// from zero, or nothing where the list does not hold the word.
pub fn word_position(words: &[String], word: &str) -> (position: Option<usize>)
    ensures
        match position {
            Some(place) => {
                &&& place < words@.len()
                &&& words@[place as int]@ == word@
                &&& forall|j: int| 0 <= j < place ==> (#[trigger] words@[j])@ != word@
            },
            None => forall|j: int| 0 <= j < words@.len() ==> (#[trigger] words@[j])@ != word@,
        },
{
    let mut at: usize = 0;
    while at < words.len()
        invariant
            at <= words@.len(),
            forall|j: int| 0 <= j < at ==> (#[trigger] words@[j])@ != word@,
        decreases words@.len() - at,
    {
        if same_text(words[at].as_str(), word) {
            return Some(at);
        }
        at = at + 1;
    }
    None
}

} // verus!
