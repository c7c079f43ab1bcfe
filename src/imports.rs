//! The files that a configuration is layered on: the entries of its import
//! key, each read as a file name relative to the importing file's directory.
use vstd::prelude::*;
use vstd::string::StrSliceExecFns;
use crate::doc::{lookup, mapping_get, Node};
use crate::paths::{file_name_part, join, join_path, last_segment, strip_leading_separator, strip_root};

verus! {

/// The top-level key that lists the files a configuration is layered on.
pub open spec fn import_key() -> Seq<char> {
    seq!['i', 'n', 'c', 'l', 'u', 'd', 'e']
}

/// The file that a `project` entry names: the project's last segment taken as
/// a sister directory of `dir`, and `file` within it.
pub open spec fn project_path(dir: Seq<char>, project: Seq<char>, file: Seq<char>) -> Seq<char> {
    join(dir, join(join(".."@, last_segment(project)), file))
}

/// The file that one import entry names, if it names one.
pub open spec fn target_of(dir: Seq<char>, n: Node) -> Option<Seq<char>> {
    match n {
        Node::Str(s) => Some(join(dir, strip_root(s@))),
        Node::Mapping(m) => match lookup(m@, "local"@) {
            Some(Node::Str(l)) => Some(join(dir, strip_root(l@))),
            _ => match lookup(m@, "project"@) {
                Some(Node::Str(p)) => match lookup(m@, "file"@) {
                    None => Some(project_path(dir, p@, ".gitlab-ci.yml"@)),
                    Some(Node::Str(f)) => Some(project_path(dir, p@, f@)),
                    _ => None,
                },
                _ => None,
            },
        },
        _ => None,
    }
}

/// The files that a list of import entries names, in order.
pub open spec fn targets_in(dir: Seq<char>, items: Seq<Node>) -> Seq<Seq<char>>
    decreases items,
{
    if items.len() == 0 {
        Seq::empty()
    } else {
        targets_in(dir, items.drop_last()) + targets_of(dir, items.last())
    }
}

/// The files that the value of an import key names, in order: a list names
/// those of its entries in turn.
pub open spec fn targets_of(dir: Seq<char>, n: Node) -> Seq<Seq<char>>
    decreases n,
{
    match n {
        Node::Sequence(items) => targets_in(dir, items@),
        _ => match target_of(dir, n) {
            Some(t) => seq![t],
            None => Seq::empty(),
        },
    }
}

/// Whether `s` is the import key.
pub fn is_import_key(s: &str) -> (r: bool)
    ensures
        r == (s@ == import_key()),
{
    if s.unicode_len() != 7 {
        return false;
    }
    let r = s.get_char(0) == 'i' && s.get_char(1) == 'n' && s.get_char(2) == 'c'
        && s.get_char(3) == 'l' && s.get_char(4) == 'u' && s.get_char(5) == 'd'
        && s.get_char(6) == 'e';
    proof {
        if r {
            assert(s@ =~= import_key());
        }
    }
    r
}

/// The value of the import key of a mapping, if it has one.
pub fn import_entry(entries: &Vec<(Node, Node)>) -> (r: Option<&Node>)
    ensures
        match r {
            Some(n) => lookup(entries@, import_key()) == Some(*n),
            None => lookup(entries@, import_key()) is None,
        },
{
    let mut i: usize = 0;
    proof {
        assert(entries@.subrange(0, entries@.len() as int) =~= entries@);
    }
    while i < entries.len()
        invariant
            i <= entries@.len(),
            lookup(entries@, import_key()) == lookup(
                entries@.subrange(i as int, entries@.len() as int),
                import_key(),
            ),
        decreases entries.len() - i,
    {
        let ghost rest = entries@.subrange(i as int, entries@.len() as int);
        proof {
            assert(rest.drop_first() =~= entries@.subrange(i + 1, entries@.len() as int));
        }
        if let Node::Str(s) = &entries[i].0 {
            if is_import_key(s.as_str()) {
                return Some(&entries[i].1);
            }
        }
        i += 1;
    }
    proof {
        assert(entries@.subrange(i as int, entries@.len() as int).len() == 0);
    }
    None
}

/// The file that a `project` entry names.
fn project_file(dir: &str, project: &str, file: &str) -> (r: String)
    ensures
        r@ == project_path(dir@, project@, file@),
{
    let name = file_name_part(project);
    let sister = join_path("..", name.as_str());
    let within = join_path(sister.as_str(), file);
    join_path(dir, within.as_str())
}

/// The file that one import entry names, if it names one.
pub fn import_target(dir: &str, n: &Node) -> (r: Option<String>)
    ensures
        match r {
            Some(t) => target_of(dir@, *n) == Some(t@),
            None => target_of(dir@, *n) is None,
        },
{
    match n {
        Node::Str(s) => {
            let rel = strip_leading_separator(s.as_str());
            Some(join_path(dir, rel.as_str()))
        },
        Node::Mapping(m) => {
            if let Some(Node::Str(l)) = mapping_get(m, "local") {
                let rel = strip_leading_separator(l.as_str());
                return Some(join_path(dir, rel.as_str()));
            }
            match mapping_get(m, "project") {
                Some(Node::Str(p)) => match mapping_get(m, "file") {
                    None => Some(project_file(dir, p.as_str(), ".gitlab-ci.yml")),
                    Some(Node::Str(f)) => Some(project_file(dir, p.as_str(), f.as_str())),
                    _ => None,
                },
                _ => None,
            }
        },
        _ => None,
    }
}

/// The files that the value of an import key names, in order.
pub fn import_targets(dir: &str, n: &Node) -> (r: Vec<String>)
    ensures
        r@.map_values(|s: String| s@) == targets_of(dir@, *n),
    decreases *n,
{
    let mut res: Vec<String> = Vec::new();
    match n {
        Node::Sequence(items) => {
            let mut i: usize = 0;
            while i < items.len()
                invariant
                    *n == Node::Sequence(*items),
                    i <= items@.len(),
                    res@.map_values(|s: String| s@) == targets_in(dir@, items@.take(i as int)),
                decreases items.len() - i,
            {
                proof {
                    assert(items@.take(i + 1).drop_last() =~= items@.take(i as int));
                }
                let ghost before = res@;
                proof {
                    assert(decreases_to!(*n => (*n)->Sequence_0));
                    vstd::std_specs::vec::axiom_vec_index_decreases(*items, i as int);
                }
                let mut more = import_targets(dir, &items[i]);
                let ghost added = more@;
                res.append(&mut more);
                proof {
                    assert(res@.map_values(|s: String| s@) =~= before.map_values(|s: String| s@)
                        + added.map_values(|s: String| s@));
                }
                i += 1;
            }
            proof {
                assert(items@.take(i as int) =~= items@);
            }
        },
        _ => {
            if let Some(t) = import_target(dir, n) {
                res.push(t);
            }
            proof {
                assert(res@.map_values(|s: String| s@) =~= targets_of(dir@, *n));
            }
        },
    }
    res
}

} // verus!
