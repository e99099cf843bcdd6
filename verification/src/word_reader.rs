//! Reading a word list: one word per line, kept where its length is the wanted one.

use crate::text::{trim, trimmed_length};
use vstd::prelude::*;
use vstd::utf8::{decode_utf8, valid_utf8};

verus! {

/// The byte that ends a line.
pub const LINE_FEED: u8 = 0x0A;

/// The byte that may stand before the line feed and then belongs to the line's end.
pub const CARRIAGE_RETURN: u8 = 0x0D;

/// The number of bytes before the first line feed, or the number of all
/// bytes where there is no line feed.
pub open spec fn line_length(bytes: Seq<u8>) -> nat
    decreases bytes.len(),
{
    if bytes.len() == 0 || bytes.first() == LINE_FEED {
        0
    } else {
        1 + line_length(bytes.drop_first())
    }
}

/// A line without the carriage return at its end, if it has one.
pub open spec fn without_carriage_return(line: Seq<u8>) -> Seq<u8> {
    if line.len() > 0 && line.last() == CARRIAGE_RETURN {
        line.drop_last()
    } else {
        line
    }
}

/// The first line of a content that is not empty. A line feed ends it, and
/// with the line feed goes a carriage return before it; a last line that no
/// line feed ends is kept whole.
pub open spec fn first_line(bytes: Seq<u8>) -> Seq<u8> {
    let length = line_length(bytes);
    if length < bytes.len() {
        without_carriage_return(bytes.take(length as int))
    } else {
        bytes
    }
}

/// What follows the first line and its line feed.
pub open spec fn after_first_line(bytes: Seq<u8>) -> Seq<u8> {
    let length = line_length(bytes);
    if length < bytes.len() {
        bytes.skip(length as int + 1)
    } else {
        Seq::empty()
    }
}

/// The lines of a content, in their order.
pub open spec fn split_lines(bytes: Seq<u8>) -> Seq<Seq<u8>>
    decreases bytes.len(),
{
    if bytes.len() == 0 {
        Seq::empty()
    } else {
        seq![first_line(bytes)] + split_lines(after_first_line(bytes))
    }
}

/// Whether a line is kept: it is well-formed UTF-8, and its text without the
/// whitespace around it has `length` characters.
pub open spec fn is_word_of_length(line: Seq<u8>, length: nat) -> bool {
    valid_utf8(line) && trim(decode_utf8(line)).len() == length
}

/// `is_word_of_length` for one length, as a predicate on lines.
pub open spec fn kept(length: nat) -> spec_fn(Seq<u8>) -> bool {
    |line: Seq<u8>| is_word_of_length(line, length)
}

/// The text of a line.
pub open spec fn text_of() -> spec_fn(Seq<u8>) -> Seq<char> {
    |line: Seq<u8>| decode_utf8(line)
}

/// The words of a content that have the wanted length: the text of each
/// kept line, whitespace included, in the order of the lines.
pub open spec fn words_by_length(content: Seq<u8>, length: nat) -> Seq<Seq<char>> {
    split_lines(content).filter(kept(length)).map_values(text_of())
}

/// The places of the kept lines among all lines, in rising order.
pub open spec fn kept_places(lines: Seq<Seq<u8>>, length: nat) -> Seq<int>
    decreases lines.len(),
{
    if lines.len() == 0 {
        Seq::empty()
    } else {
        let before = kept_places(lines.drop_last(), length);
        if is_word_of_length(lines.last(), length) {
            before.push(lines.len() - 1)
        } else {
            before
        }
    }
}

/// Whether `words` are the kept lines in the order of the lines: `places`
/// rise, each is the place of a kept line, none of the kept lines is left
/// out, and each word is the text of the line at the place that goes with it.
pub open spec fn keeps_line_order(
    lines: Seq<Seq<u8>>,
    places: Seq<int>,
    words: Seq<Seq<char>>,
    length: nat,
) -> bool {
    &&& places.len() == words.len()
    &&& forall|i: int, j: int|
        0 <= i < j < places.len() ==> #[trigger] places[i] < #[trigger] places[j]
    &&& forall|i: int|
        0 <= i < places.len() ==> {
            let place = #[trigger] places[i];
            &&& 0 <= place < lines.len()
            &&& is_word_of_length(lines[place], length)
            &&& words[i] == decode_utf8(lines[place])
        }
    &&& forall|place: int|
        0 <= place < lines.len() && is_word_of_length(#[trigger] lines[place], length)
            ==> places.contains(place)
}

/// `length` bytes without a line feed, and then a line feed or the end:
/// that is the line's length.
proof fn lemma_line_length(bytes: Seq<u8>, length: int)
    requires
        0 <= length <= bytes.len(),
        forall|j: int| 0 <= j < length ==> #[trigger] bytes[j] != LINE_FEED,
        length < bytes.len() ==> bytes[length] == LINE_FEED,
    ensures
        line_length(bytes) == length,
    decreases length,
{
    if length > 0 {
        lemma_line_length(bytes.drop_first(), length - 1);
    }
}

/// Filtering takes the lines at the kept places, and no others.
proof fn lemma_filter_takes_kept_places(lines: Seq<Seq<u8>>, length: nat)
    ensures
        keeps_line_order(
            lines,
            kept_places(lines, length),
            lines.filter(kept(length)).map_values(text_of()),
            length,
        ),
    decreases lines.len(),
{
    reveal(Seq::filter);
    if lines.len() > 0 {
        let front = lines.drop_last();
        lemma_filter_takes_kept_places(front, length);
        let places = kept_places(lines, length);
        let front_places = kept_places(front, length);
        assert forall|place: int|
            0 <= place < lines.len() && is_word_of_length(
                #[trigger] lines[place],
                length,
            ) implies places.contains(place) by {
            if place == lines.len() - 1 {
                assert(places[places.len() - 1] == place);
            } else {
                assert(front[place] == lines[place]);
                let i = choose|i: int| 0 <= i < front_places.len() && front_places[i] == place;
                assert(places[i] == place);
            }
        }
    }
}

/// Every word has the wanted length once the whitespace around it is removed.
pub proof fn lemma_words_have_length(content: Seq<u8>, length: nat)
    ensures
        forall|i: int|
            0 <= i < words_by_length(content, length).len() ==> trim(
                #[trigger] words_by_length(content, length)[i],
            ).len() == length,
{
    let lines = split_lines(content);
    assert forall|i: int| 0 <= i < words_by_length(content, length).len() implies trim(
        #[trigger] words_by_length(content, length)[i],
    ).len() == length by {
        lines.lemma_filter_pred(kept(length), i);
    }
}

/// The words come in the order of their lines: the word at each place of the
/// result is the text of the kept line at the same place among the kept
/// lines, whose places among all lines rise, and no kept line is left out.
pub proof fn lemma_words_keep_line_order(content: Seq<u8>, length: nat)
    ensures
        keeps_line_order(
            split_lines(content),
            kept_places(split_lines(content), length),
            words_by_length(content, length),
            length,
        ),
{
    lemma_filter_takes_kept_places(split_lines(content), length);
}

/// The words of a content are the word of its first line, if that line is
/// kept, and then the words of what follows the line.
proof fn lemma_words_by_first_line(bytes: Seq<u8>, length: nat)
    requires
        bytes.len() > 0,
    ensures
        words_by_length(bytes, length) == if is_word_of_length(first_line(bytes), length) {
            seq![decode_utf8(first_line(bytes))] + words_by_length(after_first_line(bytes), length)
        } else {
            words_by_length(after_first_line(bytes), length)
        },
{
    let line = first_line(bytes);
    let rest = split_lines(after_first_line(bytes));
    Seq::filter_distributes_over_add(seq![line], rest, kept(length));
    assert(seq![line].filter(kept(length)) == if is_word_of_length(line, length) {
        seq![line]
    } else {
        Seq::empty()
    }) by {
        reveal_with_fuel(Seq::filter, 2);
    }
    let selected = rest.filter(kept(length));
    if is_word_of_length(line, length) {
        assert((seq![line] + selected).map_values(text_of()) =~= seq![decode_utf8(line)]
            + selected.map_values(text_of()));
    }
}

/// An empty content has no words.
proof fn lemma_no_words_in_empty_content(length: nat)
    ensures
        words_by_length(Seq::empty(), length) == Seq::<Seq<char>>::empty(),
{
    reveal(Seq::filter);
}

/// Where the line that begins at `start` ends: at the next line feed, or at
/// the end of the content.
fn find_line_end(content: &[u8], start: usize) -> (end: usize)
    requires
        start <= content@.len(),
    ensures
        start <= end <= content@.len(),
        end - start == line_length(content@.skip(start as int)),
{
    let mut end: usize = start;
    while end < content.len() && content[end] != LINE_FEED
        invariant
            start <= end <= content@.len(),
            forall|j: int| start <= j < end ==> #[trigger] content@[j] != LINE_FEED,
        decreases content@.len() - end,
    {
        end = end + 1;
    }
    proof {
        lemma_line_length(content@.skip(start as int), end - start);
    }
    end
}

/// The line that begins at `start`, and where the content goes on after it.
fn read_line<'a>(content: &'a [u8], start: usize) -> (read: (&'a [u8], usize))
    requires
        start < content@.len(),
    ensures
        read.0@ == first_line(content@.skip(start as int)),
        start < read.1 <= content@.len(),
        content@.skip(read.1 as int) == after_first_line(content@.skip(start as int)),
{
    let end = find_line_end(content, start);
    let ended = end < content.len();
    let text_end: usize = if ended && start < end && content[end - 1] == CARRIAGE_RETURN {
        end - 1
    } else {
        end
    };
    let next: usize = if ended {
        end + 1
    } else {
        end
    };
    (vstd::slice::slice_subrange(content, start, text_end), next)
}

/// The words of a word list's content that have the wanted length.
///
/// The content is taken line by line. A line that is not well-formed UTF-8 is
/// passed over. Of the others, those are kept whose text, without the
/// whitespace around it, has `length` characters. A kept line is returned as
/// it stands, whitespace included, and the kept lines come in their order.
/// Where no line is kept the list is empty.
pub fn words_of_length(length: usize, content: &[u8]) -> (words: Vec<String>)
    ensures
        words.deep_view() == words_by_length(content@, length as nat),
        forall|i: int| 0 <= i < words@.len() ==> trim(#[trigger] words@[i]@).len() == length,
        keeps_line_order(
            split_lines(content@),
            kept_places(split_lines(content@), length as nat),
            words.deep_view(),
            length as nat,
        ),
{
    let mut words: Vec<String> = Vec::new();
    let mut start: usize = 0;
    assert(content@.skip(0) =~= content@);
    assert(words.deep_view() + words_by_length(content@, length as nat) =~= words_by_length(
        content@,
        length as nat,
    ));
    while start < content.len()
        invariant
            start <= content@.len(),
            words.deep_view() + words_by_length(content@.skip(start as int), length as nat)
                == words_by_length(content@, length as nat),
        decreases content@.len() - start,
    {
        let ghost before = words.deep_view();
        let (line, next) = read_line(content, start);
        proof {
            lemma_words_by_first_line(content@.skip(start as int), length as nat);
        }
        match core::str::from_utf8(line) {
            Ok(text) => {
                proof {
                    vstd::utf8::encode_utf8_decode_utf8(text@);
                }
                if trimmed_length(text) == length {
                    words.push(text.to_owned());
                    assert(words.deep_view() =~= before.push(text@));
                }
            },
            Err(_) => {},
        }
        start = next;
    }
    proof {
        lemma_no_words_in_empty_content(length as nat);
        lemma_words_have_length(content@, length as nat);
        assert forall|i: int| 0 <= i < words@.len() implies trim(#[trigger] words@[i]@).len()
            == length by {
            assert(words.deep_view()[i] == words@[i]@);
        }
        lemma_words_keep_line_order(content@, length as nat);
    }
    words
}

/// `std::io::Error`, the reason why a source could not be read. Nothing is
/// known of what it holds.
#[verifier::external_type_specification]
#[verifier::external_body]
pub struct ExIoError(std::io::Error);

/// The words of a word list that have the wanted length, from what reading
/// the list's source gave: its content, or the error that kept it from being
/// read.
///
/// A source that could not be read is a failure, and the failure is the
/// error that reading gave. A source that was read never is: its words are
/// those of `words_of_length`, and where none has the wanted length the
/// list is empty.
pub fn get_words_by_length(length: usize, source: std::io::Result<Vec<u8>>) -> (result:
    std::io::Result<Vec<String>>)
    ensures
        match source {
            Ok(content) => {
                &&& result matches Ok(words)
                &&& words.deep_view() == words_by_length(content@, length as nat)
                &&& forall|i: int|
                    0 <= i < words@.len() ==> trim(#[trigger] words@[i]@).len() == length
                &&& keeps_line_order(
                    split_lines(content@),
                    kept_places(split_lines(content@), length as nat),
                    words.deep_view(),
                    length as nat,
                )
            },
            Err(error) => result == Err::<Vec<String>, std::io::Error>(error),
        },
{
    match source {
        Ok(content) => Ok(words_of_length(length, content.as_slice())),
        Err(error) => Err(error),
    }
}

} // verus!
