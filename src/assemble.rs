//! Assembly of a configuration from a set of documents keyed by file name:
//! the files it imports first, then its global variables, stages and jobs.
use vstd::prelude::*;
use vstd::string::StringExecFns;
use crate::config::{GitlabCIConfig, JobTable};
use crate::doc::{lookup, mapping_get, Node};
use crate::extract::{parse_value_as_strings, strings_in, texts};
use crate::imports::{import_entry, import_key, import_targets, targets_of};
use crate::paths::{dir_of, parent_dir};
use crate::resolve::{build_jobs, on_stack, table_ok};
use crate::text::{lemma_distinct_within, same_text};
use crate::vars::Variables;

verus! {

/// The document stored under `path`: the first entry of that name.
pub open spec fn source_of(files: Seq<(String, Node)>, path: Seq<char>) -> Option<Node>
    decreases files.len(),
{
    if files.len() == 0 {
        None
    } else if files[0].0@ == path {
        Some(files[0].1)
    } else {
        source_of(files.drop_first(), path)
    }
}

/// The names under which documents are stored.
pub open spec fn file_names(files: Seq<(String, Node)>) -> Seq<Seq<char>> {
    files.map_values(|e: (String, Node)| e.0@)
}

/// The entries of a document whose root is a mapping; none otherwise.
pub open spec fn top_of(doc: Node) -> Seq<(Node, Node)> {
    match doc {
        Node::Mapping(entries) => entries@,
        _ => Seq::empty(),
    }
}

/// The global variables that a mapping defines: string values only, a later
/// entry replacing an earlier one.
pub open spec fn global_vars_in(entries: Seq<(Node, Node)>) -> Map<Seq<char>, Seq<char>>
    decreases entries.len(),
{
    if entries.len() == 0 {
        Map::empty()
    } else {
        let rest = global_vars_in(entries.drop_last());
        match entries.last() {
            (Node::Str(k), Node::Str(v)) => rest.insert(k@, v@),
            _ => rest,
        }
    }
}

/// The global variables of a file's top-level mapping.
pub open spec fn globals_of(top: Seq<(Node, Node)>) -> Map<Seq<char>, Seq<char>> {
    match lookup(top, "variables"@) {
        Some(Node::Mapping(entries)) => global_vars_in(entries@),
        _ => Map::empty(),
    }
}

/// The stage names of a file's top-level mapping, in order.
pub open spec fn stages_of(top: Seq<(Node, Node)>) -> Seq<Seq<char>> {
    match lookup(top, "stages"@) {
        Some(Node::Sequence(items)) => strings_in(items@),
        _ => Seq::empty(),
    }
}

/// The imported files that are read: those that are stored and are not
/// already being read further up.
pub open spec fn loadable(
    targets: Seq<Seq<char>>,
    files: Seq<(String, Node)>,
    stack: Seq<Seq<char>>,
) -> Seq<Seq<char>>
    decreases targets.len(),
{
    if targets.len() == 0 {
        Seq::empty()
    } else {
        let rest = loadable(targets.drop_last(), files, stack);
        let t = targets.last();
        if source_of(files, t) is Some && !stack.contains(t) {
            rest.push(t)
        } else {
            rest
        }
    }
}

/// Always true: names a configuration that an imported file may have been
/// assembled on, so that the solver can find it as a witness.
pub open spec fn witness_hint(prev: Option<GitlabCIConfig>) -> bool {
    true
}

/// Whether `acc` is what layering the `loaded` files, in order, on `base`
/// leaves as the nearest configuration, while the files in `stack` are being
/// read: `base` itself where none was loaded, else the configuration
/// assembled from the last file on top of what the others left.
pub open spec fn layered_ok(
    acc: Option<GitlabCIConfig>,
    loaded: Seq<Seq<char>>,
    base: Option<GitlabCIConfig>,
    files: Seq<(String, Node)>,
    stack: Seq<Seq<char>>,
) -> bool
    decreases files.len() - stack.len(), loaded.len(),
{
    if loaded.len() == 0 {
        acc == base
    } else {
        &&& acc is Some
        &&& acc->Some_0.file@ == loaded.last()
        &&& source_of(files, loaded.last()) is Some
        &&& exists|prev: Option<GitlabCIConfig>|
            #![trigger witness_hint(prev)]
            witness_hint(prev) && layered_ok(prev, loaded.drop_last(), base, files, stack) && assembled(
                acc->Some_0,
                source_of(files, loaded.last())->Some_0,
                loaded.last(),
                files,
                prev,
                stack,
            )
    }
}

/// The configuration that a parent link points to.
pub open spec fn unboxed(chain: Option<Box<GitlabCIConfig>>) -> Option<GitlabCIConfig> {
    match chain {
        Some(b) => Some(*b),
        None => None,
    }
}

/// The files that the document at `path` imports and that are read, while
/// the files in `stack` are being read.
pub open spec fn imported(
    doc: Node,
    path: Seq<char>,
    files: Seq<(String, Node)>,
    stack: Seq<Seq<char>>,
) -> Seq<Seq<char>> {
    match lookup(top_of(doc), import_key()) {
        Some(n) => loadable(targets_of(dir_of(path), n), files, stack.push(path)),
        None => Seq::empty(),
    }
}

/// Whether `c` is the configuration that the document `doc`, stored at
/// `path`, assembles to on top of `parent`.
pub open spec fn assembled(
    c: GitlabCIConfig,
    doc: Node,
    path: Seq<char>,
    files: Seq<(String, Node)>,
    parent: Option<GitlabCIConfig>,
    stack: Seq<Seq<char>>,
) -> bool
    decreases files.len() - stack.len(), 0nat,
{
    &&& stack.len() < files.len()
    &&& c.file@ == path
    &&& c.variables@ == globals_of(top_of(doc))
    &&& texts(c.stages@) == stages_of(top_of(doc))
    &&& table_ok(c.jobs@, top_of(doc), c.parent)
    &&& layered_ok(unboxed(c.parent), imported(doc, path, files, stack), parent, files, stack.push(path))
}

/// Finds the document stored under `path`.
pub fn find_source<'a>(files: &'a Vec<(String, Node)>, path: &str) -> (r: Option<&'a Node>)
    ensures
        match r {
            Some(n) => source_of(files@, path@) == Some(*n),
            None => source_of(files@, path@) is None,
        },
{
    let mut i: usize = 0;
    proof {
        assert(files@.subrange(0, files@.len() as int) =~= files@);
    }
    while i < files.len()
        invariant
            i <= files@.len(),
            source_of(files@, path@) == source_of(files@.subrange(i as int, files@.len() as int), path@),
        decreases files.len() - i,
    {
        let ghost rest = files@.subrange(i as int, files@.len() as int);
        proof {
            assert(rest.drop_first() =~= files@.subrange(i + 1, files@.len() as int));
        }
        if same_text(files[i].0.as_str(), path) {
            return Some(&files[i].1);
        }
        i += 1;
    }
    proof {
        assert(files@.subrange(i as int, files@.len() as int).len() == 0);
    }
    None
}

proof fn lemma_source_listed(files: Seq<(String, Node)>, path: Seq<char>)
    requires
        source_of(files, path) is Some,
    ensures
        file_names(files).contains(path),
    decreases files.len(),
{
    if files[0].0@ == path {
        assert(file_names(files)[0] == path);
    } else {
        lemma_source_listed(files.drop_first(), path);
        let k = choose|k: int| 0 <= k < file_names(files.drop_first()).len()
            && file_names(files.drop_first())[k] == path;
        assert(file_names(files)[k + 1] == path);
    }
}

/// The global variables of a file's top-level mapping.
pub fn global_variables(top: &Vec<(Node, Node)>) -> (r: Variables)
    ensures
        r@ == globals_of(top@),
{
    let mut res = Variables::new();
    if let Some(Node::Mapping(entries)) = mapping_get(top, "variables") {
        let mut i: usize = 0;
        while i < entries.len()
            invariant
                i <= entries@.len(),
                res@ == global_vars_in(entries@.take(i as int)),
            decreases entries.len() - i,
        {
            proof {
                assert(entries@.take(i + 1).drop_last() =~= entries@.take(i as int));
            }
            if let (Node::Str(k), Node::Str(v)) = (&entries[i].0, &entries[i].1) {
                res.insert(k.clone(), v.clone());
            }
            i += 1;
        }
        proof {
            assert(entries@.take(i as int) =~= entries@);
        }
    }
    res
}

/// The stage names of a file's top-level mapping, in order.
pub fn stage_names(top: &Vec<(Node, Node)>) -> (r: Vec<String>)
    ensures
        texts(r@) == stages_of(top@),
{
    match mapping_get(top, "stages") {
        Some(n) => match n {
            Node::Sequence(_) => match parse_value_as_strings(n) {
                Some(v) => v,
                None => Vec::new(),
            },
            _ => {
                let v: Vec<String> = Vec::new();
                proof {
                    assert(texts(v@) =~= Seq::empty());
                }
                v
            },
        },
        None => {
            let v: Vec<String> = Vec::new();
            proof {
                assert(texts(v@) =~= Seq::empty());
            }
            v
        },
    }
}

/// Assembles the configuration stored at `gitlab_file` on top of `parent`:
/// the files it imports are assembled first, each on top of the one before,
/// and skipped where they are not stored or are already being read in
/// `stack`.
pub fn parse_aux(
    files: &Vec<(String, Node)>,
    gitlab_file: &str,
    parent: Option<GitlabCIConfig>,
    stack: &mut Vec<String>,
) -> (c: GitlabCIConfig)
    requires
        source_of(files@, gitlab_file@) is Some,
        texts(old(stack)@).no_duplicates(),
        forall|i: int|
            0 <= i < old(stack)@.len() ==> file_names(files@).contains(#[trigger] texts(old(stack)@)[i]),
        !texts(old(stack)@).contains(gitlab_file@),
    ensures
        final(stack)@ == old(stack)@,
        assembled(
            c,
            source_of(files@, gitlab_file@)->Some_0,
            gitlab_file@,
            files@,
            parent,
            texts(old(stack)@),
        ),
    decreases files@.len() - stack@.len(),
{
    let doc = find_source(files, gitlab_file).unwrap();
    let ghost outer = texts(stack@);
    let ghost inner = outer.push(gitlab_file@);
    proof {
        lemma_source_listed(files@, gitlab_file@);
        assert forall|i: int| 0 <= i < inner.len() implies file_names(files@).contains(#[trigger] inner[i]) by {
            if i < outer.len() {
                assert(inner[i] == outer[i]);
            }
        }
        lemma_distinct_within(inner, file_names(files@));
    }
    let dir = parent_dir(gitlab_file);
    stack.push(String::from_str(gitlab_file));
    proof {
        assert(texts(stack@) =~= inner);
    }
    let mut acc = parent;
    let ghost base = acc;
    if let Node::Mapping(top) = doc {
        if let Some(imports) = import_entry(top) {
            let targets = import_targets(dir.as_str(), imports);
            let ghost ts = targets@.map_values(|s: String| s@);
            let mut i: usize = 0;
            while i < targets.len()
                invariant
                    i <= targets@.len(),
                    ts == targets@.map_values(|s: String| s@),
                    texts(stack@) == inner,
                    stack@.len() == old(stack)@.len() + 1,
                    stack@.drop_last() == old(stack)@,
                    inner.no_duplicates(),
                    forall|k: int|
                        0 <= k < inner.len() ==> file_names(files@).contains(#[trigger] inner[k]),
                    inner.len() <= files@.len(),
                    layered_ok(acc, loadable(ts.take(i as int), files@, inner), base, files@, inner),
                decreases targets.len() - i,
            {
                proof {
                    assert(ts.take(i + 1).drop_last() =~= ts.take(i as int));
                }
                let t: &str = targets[i].as_str();
                if find_source(files, t).is_some() && !on_stack(stack, t) {
                    let ghost prev = acc;
                    let ghost done = loadable(ts.take(i as int), files@, inner);
                    let next = parse_aux(files, t, acc, stack);
                    proof {
                        let now = done.push(t@);
                        assert(now.drop_last() =~= done);
                        assert(layered_ok(prev, now.drop_last(), base, files@, inner));
                        assert(assembled(next, source_of(files@, now.last())->Some_0, now.last(), files@, prev, inner));
                        assert(ts.take(i + 1).last() == t@);
                        assert(loadable(ts.take(i + 1), files@, inner) == now);
                        assert(witness_hint(prev));
                        assert(layered_ok(Some(next), now, base, files@, inner));
                    }
                    acc = Some(next);
                }
                i += 1;
            }
            proof {
                assert(ts.take(i as int) =~= ts);
            }
        }
    }
    let ghost before_pop = stack@;
    stack.pop();
    proof {
        assert(stack@ =~= before_pop.drop_last());
    }
    let chain = match acc {
        Some(p) => Some(Box::new(p)),
        None => None,
    };
    let (variables, stages, jobs) = match doc {
        Node::Mapping(top) => (global_variables(top), stage_names(top), build_jobs(&chain, top)),
        _ => {
            let v: Vec<String> = Vec::new();
            proof {
                assert(texts(v@) =~= Seq::empty());
            }
            (Variables::new(), v, JobTable::new())
        },
    };
    GitlabCIConfig { file: String::from_str(gitlab_file), parent: chain, variables, stages, jobs }
}

/// Why a configuration could not be assembled.
pub enum ParseError {
    /// No document is stored under the name asked for.
    NotFound,
}

/// Assembles the configuration stored at `gitlab_file`, with the documents
/// of every file it imports taken from `files`. Only a missing root document
/// is an error: an import that is not stored contributes nothing.
pub fn parse(files: &Vec<(String, Node)>, gitlab_file: &str) -> (r: Result<GitlabCIConfig, ParseError>)
    ensures
        r is Ok <==> source_of(files@, gitlab_file@) is Some,
        r matches Ok(c) ==> assembled(
            c,
            source_of(files@, gitlab_file@)->Some_0,
            gitlab_file@,
            files@,
            None,
            Seq::empty(),
        ),
{
    if find_source(files, gitlab_file).is_none() {
        return Err(ParseError::NotFound);
    }
    let mut stack: Vec<String> = Vec::new();
    proof {
        assert(texts(stack@) =~= Seq::empty());
    }
    Ok(parse_aux(files, gitlab_file, None, &mut stack))
}

} // verus!

