//! The document tree that configuration files are read into: scalars,
//! sequences and mappings, with merge keys already expanded.
use vstd::prelude::*;
use crate::text::same_text;

verus! {

/// One node of a document. Numbers are held in their written form.
pub enum Node {
    Null,
    Bool(bool),
    Number(String),
    Str(String),
    Sequence(Vec<Node>),
    Mapping(Vec<(Node, Node)>),
}

/// Whether `key` is the string `name`.
pub open spec fn is_key(key: Node, name: Seq<char>) -> bool {
    match key {
        Node::Str(s) => s@ == name,
        _ => false,
    }
}

/// The value of the first entry of a mapping whose key is the string `name`.
pub open spec fn lookup(entries: Seq<(Node, Node)>, name: Seq<char>) -> Option<Node>
    decreases entries.len(),
{
    if entries.len() == 0 {
        None
    } else if is_key(entries[0].0, name) {
        Some(entries[0].1)
    } else {
        lookup(entries.drop_first(), name)
    }
}

/// Whether some key of a mapping is the string `name`.
pub open spec fn has_key(entries: Seq<(Node, Node)>, name: Seq<char>) -> bool {
    lookup(entries, name) is Some
}

/// Finds the value stored under the string key `name`.
pub fn mapping_get<'a>(entries: &'a Vec<(Node, Node)>, name: &str) -> (r: Option<&'a Node>)
    ensures
        match r {
            Some(n) => lookup(entries@, name@) == Some(*n),
            None => lookup(entries@, name@) is None,
        },
{
    let mut i: usize = 0;
    proof {
        assert(entries@.subrange(0, entries@.len() as int) =~= entries@);
    }
    while i < entries.len()
        invariant
            i <= entries@.len(),
            lookup(entries@, name@) == lookup(entries@.subrange(i as int, entries@.len() as int), name@),
        decreases entries.len() - i,
    {
        let ghost rest = entries@.subrange(i as int, entries@.len() as int);
        proof {
            assert(rest.drop_first() =~= entries@.subrange(i + 1, entries@.len() as int));
        }
        if let Node::Str(s) = &entries[i].0 {
            if same_text(s.as_str(), name) {
                return Some(&entries[i].1);
            }
        }
        i += 1;
    }
    proof {
        assert(entries@.subrange(i as int, entries@.len() as int).len() == 0);
    }
    None
}


/// A key that `lookup` finds stands at some position of the mapping.
pub proof fn lemma_key_index(entries: Seq<(Node, Node)>, name: Seq<char>) -> (k: int)
    requires
        lookup(entries, name) is Some,
    ensures
        0 <= k < entries.len(),
        is_key(entries[k].0, name),
    decreases entries.len(),
{
    if is_key(entries[0].0, name) {
        0
    } else {
        let k = lemma_key_index(entries.drop_first(), name);
        k + 1
    }
}

} // verus!
