//! The letters of a puzzle: each letter that stands in a word, once, in the
//! order of first appearance.
use vstd::prelude::*;
use crate::assignment::position;
use crate::puzzle::occurs;
use crate::text::{char_rows, chars_of_all, texts};

verus! {

/// `seen`, followed by the characters of `text` that are neither in `seen` nor
/// earlier in `text`, in the order in which they stand in `text`.
pub open spec fn gather(seen: Seq<char>, text: Seq<char>) -> Seq<char>
    decreases text.len(),
{
    if text.len() == 0 {
        seen
    } else {
        let before = gather(seen, text.drop_last());
        if before.contains(text.last()) {
            before
        } else {
            before.push(text.last())
        }
    }
}

/// The characters that stand in `words`, each once, in the order in which
/// they first appear when the words are read one after the other.
pub open spec fn distinct_letters(words: Seq<Seq<char>>) -> Seq<char>
    decreases words.len(),
{
    if words.len() == 0 {
        Seq::empty()
    } else {
        gather(distinct_letters(words.drop_last()), words.last())
    }
}

/// Gathering adds exactly the characters of the text and repeats none.
pub proof fn lemma_gather(seen: Seq<char>, text: Seq<char>)
    requires
        seen.no_duplicates(),
    ensures
        gather(seen, text).no_duplicates(),
        forall|c: char| #[trigger]
            gather(seen, text).contains(c) <==> seen.contains(c) || text.contains(c),
    decreases text.len(),
{
    if text.len() > 0 {
        let shorter = text.drop_last();
        let before = gather(seen, shorter);
        lemma_gather(seen, shorter);
        assert forall|c: char| #[trigger]
            gather(seen, text).contains(c) <==> seen.contains(c) || text.contains(c) by {
            if text.contains(c) {
                let j = choose|j: int| 0 <= j < text.len() && text[j] == c;
                if j < text.len() - 1 {
                    assert(shorter[j] == c);
                    assert(shorter.contains(c));
                }
            }
            if shorter.contains(c) {
                let j = choose|j: int| 0 <= j < shorter.len() && shorter[j] == c;
                assert(text[j] == c);
            }
            assert(text[text.len() - 1] == text.last());
            if before.contains(text.last()) {
            } else {
                let after = before.push(text.last());
                assert(after[after.len() - 1] == text.last());
                if before.contains(c) {
                    let j = choose|j: int| 0 <= j < before.len() && before[j] == c;
                    assert(after[j] == c);
                }
                if after.contains(c) {
                    let j = choose|j: int| 0 <= j < after.len() && after[j] == c;
                    if j < before.len() {
                        assert(before[j] == c);
                    }
                }
            }
        }
    }
}

/// Gathering characters of which none stands twice, with nothing seen before,
/// gives them back as they are.
pub proof fn lemma_gather_of_distinct(text: Seq<char>)
    requires
        text.no_duplicates(),
    ensures
        gather(Seq::empty(), text) == text,
    decreases text.len(),
{
    if text.len() > 0 {
        let shorter = text.drop_last();
        lemma_gather_of_distinct(shorter);
        if shorter.contains(text.last()) {
            let j = choose|j: int| 0 <= j < shorter.len() && shorter[j] == text.last();
            assert(text[j] == text[text.len() - 1]);
        }
        assert(shorter.push(text.last()) =~= text);
    } else {
        assert(gather(Seq::empty(), text) =~= text);
    }
}

/// The distinct letters of some words are the characters that occur in them,
/// none of them twice.
pub proof fn lemma_distinct_letters(words: Seq<Seq<char>>)
    ensures
        distinct_letters(words).no_duplicates(),
        forall|c: char| #[trigger] distinct_letters(words).contains(c) <==> occurs(words, c),
    decreases words.len(),
{
    if words.len() > 0 {
        let shorter = words.drop_last();
        lemma_distinct_letters(shorter);
        lemma_gather(distinct_letters(shorter), words.last());
        assert forall|c: char| #[trigger]
            distinct_letters(words).contains(c) <==> occurs(words, c) by {
            if occurs(words, c) {
                let (i, j) = choose|i: int, j: int|
                    0 <= i < words.len() && 0 <= j < words[i].len() && #[trigger] words[i][j]
                        == c;
                if i < words.len() - 1 {
                    assert(shorter[i][j] == c);
                    assert(occurs(shorter, c));
                } else {
                    assert(words.last()[j] == c);
                    assert(words.last().contains(c));
                }
            }
            if occurs(shorter, c) {
                let (i, j) = choose|i: int, j: int|
                    0 <= i < shorter.len() && 0 <= j < shorter[i].len() && #[trigger] shorter[i][j]
                        == c;
                assert(words[i][j] == c);
            }
            if words.last().contains(c) {
                let j = choose|j: int| 0 <= j < words.last().len() && words.last()[j] == c;
                assert(words[words.len() - 1][j] == c);
            }
        }
    } else {
        assert forall|c: char| #[trigger]
            distinct_letters(words).contains(c) <==> occurs(words, c) by {
            assert(!Seq::<char>::empty().contains(c));
        }
    }
}

/// The letters of `words`, each once, in the order of first appearance.
pub fn unique_letters(words: &Vec<Vec<char>>) -> (letters: Vec<char>)
    ensures
        letters@ == distinct_letters(char_rows(words@)),
        letters@.no_duplicates(),
        forall|c: char| #[trigger] letters@.contains(c) <==> occurs(char_rows(words@), c),
{
    let ghost all = char_rows(words@);
    let mut letters: Vec<char> = Vec::new();
    let mut index: usize = 0;
    proof {
        assert(all.take(0) =~= Seq::<Seq<char>>::empty());
    }
    while index < words.len()
        invariant
            index <= words.len(),
            all == char_rows(words@),
            letters@ == distinct_letters(all.take(index as int)),
        decreases words.len() - index,
    {
        let word = &words[index];
        let ghost before = letters@;
        let mut at: usize = 0;
        proof {
            assert(word@.take(0) =~= Seq::<char>::empty());
        }
        while at < word.len()
            invariant
                at <= word.len(),
                letters@ == gather(before, word@.take(at as int)),
            decreases word.len() - at,
        {
            proof {
                assert(word@.take(at + 1).drop_last() =~= word@.take(at as int));
                assert(word@.take(at + 1).last() == word[at as int]);
            }
            if position(&letters, word[at]).is_none() {
                letters.push(word[at]);
            }
            at += 1;
        }
        proof {
            assert(word@.take(word.len() as int) =~= word@);
            assert(all.take(index + 1).drop_last() =~= all.take(index as int));
            assert(all.take(index + 1).last() == word@);
        }
        index += 1;
    }
    proof {
        assert(all.take(words.len() as int) =~= all);
        lemma_distinct_letters(all);
    }
    letters
}

/// The letters of `words`, each once, in the order of first appearance.
/// Upper and lower case are different letters.
pub fn extract_unique_letters(words: Vec<&str>) -> (letters: Vec<char>)
    ensures
        letters@ == distinct_letters(texts(words@)),
        letters@.no_duplicates(),
        forall|c: char| #[trigger] letters@.contains(c) <==> occurs(texts(words@), c),
{
    let rows = chars_of_all(&words);
    unique_letters(&rows)
}

} // verus!
