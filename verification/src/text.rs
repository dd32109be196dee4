//! Words as sequences of characters.
use vstd::prelude::*;

verus! {

/// The words of a list, each as the sequence of its characters.
pub open spec fn texts(words: Seq<&str>) -> Seq<Seq<char>> {
    Seq::new(words.len(), |i: int| words[i]@)
}

/// The words of a list of character vectors, each as a sequence.
pub open spec fn char_rows(words: Seq<Vec<char>>) -> Seq<Seq<char>> {
    Seq::new(words.len(), |i: int| words[i]@)
}

/// The characters of `word`, in order.
pub fn chars_of(word: &str) -> (chars: Vec<char>)
    ensures
        chars@ == word@,
{
    let mut chars: Vec<char> = Vec::new();
    broadcast use vstd::string::group_string_axioms;

    for c in iter: word.chars()
        invariant
            iter.seq() == word@,
            chars@ == iter.seq().take(iter.index() as int),
    {
        chars.push(c);
    }
    assert(chars@ == word@);
    chars
}

/// The characters of each word of `words`, in order.
pub fn chars_of_all(words: &Vec<&str>) -> (rows: Vec<Vec<char>>)
    ensures
        char_rows(rows@) == texts(words@),
{
    let mut rows: Vec<Vec<char>> = Vec::new();
    let mut index: usize = 0;
    while index < words.len()
        invariant
            index <= words.len(),
            rows.len() == index,
            forall|i: int| 0 <= i < index ==> (#[trigger] rows[i])@ == words[i]@,
        decreases words.len() - index,
    {
        let chars = chars_of(words[index]);
        rows.push(chars);
        index += 1;
    }
    assert(char_rows(rows@) =~= texts(words@));
    rows
}

} // verus!
