//! Reading a side of a puzzle from a line of text.
use vstd::prelude::*;
use crate::characters::whitespace;
use crate::present::line_texts;

verus! {

/// The words of `text`: its longest runs of characters that are not white
/// space, in order. White space parts the words and belongs to none.
pub open spec fn words_of(text: Seq<char>) -> Seq<Seq<char>>
    decreases text.len(),
{
    if text.len() == 0 {
        Seq::empty()
    } else {
        let before = words_of(text.drop_last());
        if whitespace(text.last()) {
            before
        } else if ends_in_word(text.drop_last()) {
            before.drop_last().push(before.last().push(text.last()))
        } else {
            before.push(seq![text.last()])
        }
    }
}

/// Whether `text` ends in the middle of a word: it is not empty, and its last
/// character is no white space.
pub open spec fn ends_in_word(text: Seq<char>) -> bool {
    text.len() > 0 && !whitespace(text.last())
}

/// The words of `line`: its longest runs of characters that are not white
/// space, in order.
pub fn split_words(line: &str) -> (words: Vec<String>)
    ensures
        line_texts(words@) == words_of(line@),
{
    broadcast use vstd::string::group_string_axioms;

    let mut words: Vec<String> = Vec::new();
    let mut current = String::new();
    let mut in_word = false;
    let ghost text = line@;
    assert(text.take(0) =~= Seq::<char>::empty());
    for c in iter: line.chars()
        invariant
            iter.seq() == text,
            text == line@,
            in_word == ends_in_word(text.take(iter.index() as int)),
            in_word ==> line_texts(words@).push(current@) == words_of(
                text.take(iter.index() as int),
            ),
            !in_word ==> line_texts(words@) == words_of(text.take(iter.index() as int)),
            !in_word ==> current@.len() == 0,
    {
        let ghost at = iter.index() as int;
        let ghost before = text.take(at);
        let ghost after = text.take(at + 1);
        proof {
            assert(after.drop_last() =~= before);
            assert(after.last() == c);
        }
        if c.is_whitespace() {
            if in_word {
                let ghost done = line_texts(words@);
                words.push(current);
                assert(line_texts(words@) =~= done.push(current@));
                current = String::new();
                in_word = false;
            }
        } else {
            let ghost done = line_texts(words@);
            let ghost word = current@;
            current.push(c);
            proof {
                if in_word {
                    assert(done.push(word).drop_last() =~= done);
                    assert(done.push(word).last() == word);
                } else {
                    assert(word.push(c) =~= seq![c]);
                }
            }
            in_word = true;
        }
    }
    assert(text.take(text.len() as int) =~= text);
    if in_word {
        let ghost done = line_texts(words@);
        words.push(current);
        assert(line_texts(words@) =~= done.push(current@));
    }
    words
}

} // verus!
