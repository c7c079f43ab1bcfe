//! Field extractors: typed values read out of document nodes, with anything
//! of another shape read as absent.
use vstd::prelude::*;
use vstd::string::StringExecFns;
use crate::doc::Node;
use crate::vars::Variables;

verus! {

/// The characters of each string of a sequence.
pub open spec fn texts(v: Seq<String>) -> Seq<Seq<char>> {
    v.map_values(|s: String| s@)
}

/// The characters of an optional string.
pub open spec fn opt_text(o: Option<String>) -> Option<Seq<char>> {
    match o {
        Some(s) => Some(s@),
        None => None,
    }
}

/// The characters of each string of an optional list.
pub open spec fn opt_texts(o: Option<Vec<String>>) -> Option<Seq<Seq<char>>> {
    match o {
        Some(v) => Some(texts(v@)),
        None => None,
    }
}

/// The mapping held by an optional variable table.
pub open spec fn opt_vars(o: Option<Variables>) -> Option<Map<Seq<char>, Seq<char>>> {
    match o {
        Some(v) => Some(v@),
        None => None,
    }
}

/// A node read as a string: only a string node is one.
pub open spec fn string_of(n: Node) -> Option<Seq<char>> {
    match n {
        Node::Str(s) => Some(s@),
        _ => None,
    }
}

/// The strings among a sequence of nodes, in order; other nodes are skipped.
pub open spec fn strings_in(items: Seq<Node>) -> Seq<Seq<char>>
    decreases items.len(),
{
    if items.len() == 0 {
        Seq::empty()
    } else {
        let rest = strings_in(items.drop_last());
        match items.last() {
            Node::Str(s) => rest.push(s@),
            _ => rest,
        }
    }
}

/// A node read as a list of strings: one string is a list of one.
pub open spec fn strings_of(n: Node) -> Option<Seq<Seq<char>>> {
    match n {
        Node::Str(s) => Some(seq![s@]),
        Node::Sequence(items) => Some(strings_in(items@)),
        _ => None,
    }
}

/// The text that a scalar stands for as a variable value.
pub open spec fn scalar_text(n: Node) -> Option<Seq<char>> {
    match n {
        Node::Str(s) => Some(s@),
        Node::Number(s) => Some(s@),
        Node::Bool(b) => Some(if b { "true"@ } else { "false"@ }),
        _ => None,
    }
}

/// The variables that the entries of a mapping define, a later entry
/// replacing an earlier one; entries whose key is not a string or whose value
/// is not a scalar are skipped.
pub open spec fn vars_in(entries: Seq<(Node, Node)>) -> Map<Seq<char>, Seq<char>>
    decreases entries.len(),
{
    if entries.len() == 0 {
        Map::empty()
    } else {
        let rest = vars_in(entries.drop_last());
        match (entries.last().0, scalar_text(entries.last().1)) {
            (Node::Str(k), Some(v)) => rest.insert(k@, v),
            _ => rest,
        }
    }
}

/// A node read as a variable mapping: only a mapping node is one.
pub open spec fn vars_of(n: Node) -> Option<Map<Seq<char>, Seq<char>>> {
    match n {
        Node::Mapping(entries) => Some(vars_in(entries@)),
        _ => None,
    }
}

/// Reads a node as a string.
pub fn parse_value_as_string(val: &Node) -> (r: Option<String>)
    ensures
        opt_text(r) == string_of(*val),
{
    match val {
        Node::Str(s) => Some(s.clone()),
        _ => None,
    }
}

/// Reads a node as a list of strings.
pub fn parse_value_as_strings(val: &Node) -> (r: Option<Vec<String>>)
    ensures
        opt_texts(r) == strings_of(*val),
{
    match val {
        Node::Str(s) => {
            let v = vec![s.clone()];
            proof {
                assert(texts(v@) =~= seq![s@]);
            }
            Some(v)
        },
        Node::Sequence(items) => {
            let mut res: Vec<String> = Vec::new();
            let mut i: usize = 0;
            while i < items.len()
                invariant
                    i <= items@.len(),
                    texts(res@) == strings_in(items@.take(i as int)),
                decreases items.len() - i,
            {
                proof {
                    assert(items@.take(i + 1).drop_last() =~= items@.take(i as int));
                }
                let ghost before = res@;
                if let Node::Str(s) = &items[i] {
                    res.push(s.clone());
                    proof {
                        assert(texts(res@) =~= texts(before).push(s@));
                    }
                }
                i += 1;
            }
            proof {
                assert(items@.take(i as int) =~= items@);
            }
            Some(res)
        },
        _ => None,
    }
}

/// The text of a scalar node, for use as a variable value.
pub fn scalar_as_text(val: &Node) -> (r: Option<String>)
    ensures
        opt_text(r) == scalar_text(*val),
{
    match val {
        Node::Str(s) => Some(s.clone()),
        Node::Number(s) => Some(s.clone()),
        Node::Bool(b) => {
            if *b {
                Some(String::from_str("true"))
            } else {
                Some(String::from_str("false"))
            }
        },
        _ => None,
    }
}

/// Reads a node as a variable mapping.
pub fn parse_value_as_map(val: &Node) -> (r: Option<Variables>)
    ensures
        opt_vars(r) == vars_of(*val),
{
    match val {
        Node::Mapping(entries) => {
            let mut res = Variables::new();
            let mut i: usize = 0;
            while i < entries.len()
                invariant
                    i <= entries@.len(),
                    res@ == vars_in(entries@.take(i as int)),
                decreases entries.len() - i,
            {
                proof {
                    assert(entries@.take(i + 1).drop_last() =~= entries@.take(i as int));
                }
                if let Node::Str(k) = &entries[i].0 {
                    if let Some(v) = scalar_as_text(&entries[i].1) {
                        res.insert(k.clone(), v);
                    }
                }
                i += 1;
            }
            proof {
                assert(entries@.take(i as int) =~= entries@);
            }
            Some(res)
        },
        _ => None,
    }
}

} // verus!
