//! Small operations on text that the rest of the library compares and builds.
use vstd::prelude::*;
use vstd::string::StrSliceExecFns;

verus! {

/// Whether two strings hold the same characters.
pub fn same_text(a: &str, b: &str) -> (r: bool)
    ensures
        r == (a@ == b@),
{
    let n = a.unicode_len();
    if n != b.unicode_len() {
        return false;
    }
    let mut i: usize = 0;
    while i < n
        invariant
            n == a@.len(),
            n == b@.len(),
            i <= n,
            forall|j: int| 0 <= j < i ==> a@[j] == b@[j],
        decreases n - i,
    {
        if a.get_char(i) != b.get_char(i) {
            return false;
        }
        i += 1;
    }
    proof {
        assert(a@ =~= b@);
    }
    true
}


/// A list of distinct names that all occur in `names` is no longer than it.
pub proof fn lemma_distinct_within(stack: Seq<Seq<char>>, names: Seq<Seq<char>>)
    requires
        stack.no_duplicates(),
        forall|i: int| 0 <= i < stack.len() ==> names.contains(#[trigger] stack[i]),
    ensures
        stack.len() <= names.len(),
{
    broadcast use vstd::seq_lib::seq_to_set_is_finite;
    stack.unique_seq_to_set();
    names.lemma_cardinality_of_set();
    assert forall|n: Seq<char>| stack.to_set().contains(n) implies names.to_set().contains(n) by {
        let i = choose|i: int| 0 <= i < stack.len() && stack[i] == n;
        assert(names.contains(stack[i]));
    }
    vstd::set_lib::lemma_len_subset(stack.to_set(), names.to_set());
}

} // verus!
