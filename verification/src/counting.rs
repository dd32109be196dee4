//! Counting: how many different values fit into a range.
use vstd::prelude::*;
use vstd::set_lib::{lemma_int_range, lemma_len_subset, set_int_range};

verus! {

/// Integers that all lie in a range of `bound` values and are all different
/// are at most `bound` many.
pub proof fn lemma_distinct_in_range(values: Seq<int>, bound: nat)
    requires
        values.no_duplicates(),
        forall|i: int| 0 <= i < values.len() ==> 0 <= #[trigger] values[i] < bound,
    ensures
        values.len() <= bound,
{
    let range = set_int_range(0, bound as int);
    lemma_int_range(0, bound as int);
    assert(values.to_set().subset_of(range)) by {
        assert forall|v: int| values.to_set().contains(v) implies range.contains(v) by {
            let i = choose|i: int| 0 <= i < values.len() && values[i] == v;
            assert(0 <= values[i] < bound);
        }
    }
    lemma_len_subset(values.to_set(), range);
    values.unique_seq_to_set();
}

/// The code point of a character is below the end of the code space.
pub proof fn lemma_code_point_bounded(c: char)
    ensures
        0 <= (c as int) < 0x11_0000,
{
}

/// Characters that are all different are at most as many as there are code
/// points.
pub proof fn lemma_distinct_chars_bounded(letters: Seq<char>)
    requires
        letters.no_duplicates(),
    ensures
        letters.len() <= 0x11_0000,
{
    let codes = Seq::new(letters.len(), |i: int| letters[i] as int);
    assert forall|i: int, j: int| 0 <= i < codes.len() && 0 <= j < codes.len() && i != j implies codes[i]
        != codes[j] by {
        assert(letters[i] != letters[j]);
    }
    assert forall|i: int| 0 <= i < codes.len() implies 0 <= #[trigger] codes[i] < 0x11_0000 by {
        lemma_code_point_bounded(letters[i]);
    }
    lemma_distinct_in_range(codes, 0x11_0000);
}

} // verus!

