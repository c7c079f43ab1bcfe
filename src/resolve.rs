//! Extension resolution: building each job of a file once, together with the
//! jobs it extends, found first among the other jobs of the same file and
//! then along the chain of configurations that the file was layered on.
//!
//! Jobs are built in the order of the file's keys; a job that another one
//! extends is built on demand, before it. A job is built once: whoever
//! extends it later gets the same job. A name whose job is still being built
//! (an extends cycle) resolves to nothing.
use vstd::prelude::*;
use vstd::string::StringExecFns;
use std::rc::Rc;
use crate::config::{find_in, lookup_in, GitlabCIConfig, JobTable};
use crate::doc::{has_key, lemma_key_index, lookup, mapping_get, Node};
use crate::extract::texts;
use crate::imports::{import_key, is_import_key};
use crate::job::{extends_names, field_strings, parse_raw_job, raw_matches, Job};
use crate::text::{lemma_distinct_within, same_text};

verus! {

/// Whether a top-level key names a job: every key but the three that
/// configure the file itself.
pub open spec fn is_job_name(n: Seq<char>) -> bool {
    n != "variables"@ && n != "stages"@ && n != import_key()
}

/// The text of a string key; the empty text for any other key.
pub open spec fn key_text(key: Node) -> Seq<char> {
    match key {
        Node::Str(s) => s@,
        _ => Seq::empty(),
    }
}

/// Whether `key` is a string key of `top` that defines a job.
pub open spec fn names_job(key: Node, top: Seq<(Node, Node)>) -> bool {
    &&& key is Str
    &&& is_job_name(key_text(key))
    &&& lookup(top, key_text(key)) matches Some(Node::Mapping(_))
}

/// The names of the string keys of a mapping (other keys give the empty name).
pub open spec fn key_names(top: Seq<(Node, Node)>) -> Seq<Seq<char>> {
    top.map_values(|e: (Node, Node)| key_text(e.0))
}

/// Whether a name that job `own` extends is another job key of the same file.
pub open spec fn is_sibling(m: Seq<char>, own: Seq<char>, top: Seq<(Node, Node)>) -> bool {
    m != own && is_job_name(m) && has_key(top, m)
}

/// Whether a sibling `m` is built, or reused, as a parent while the jobs in
/// `stack` are being built: it must define a job and not be in progress.
pub open spec fn sibling_taken(m: Seq<char>, top: Seq<(Node, Node)>, stack: Seq<Seq<char>>) -> bool {
    (lookup(top, m) matches Some(Node::Mapping(_))) && !stack.contains(m)
}

/// The names that the job under `n` in `top` extends.
pub open spec fn extends_of(top: Seq<(Node, Node)>, n: Seq<char>) -> Seq<Seq<char>> {
    match lookup(top, n) {
        Some(Node::Mapping(body)) => match field_strings(lookup(body@, "extends"@)) {
            Some(names) => names,
            None => Seq::empty(),
        },
        _ => Seq::empty(),
    }
}

/// The order of building, by name: `under` maps each job built so far to the
/// jobs that were in progress when it was built. This gives `under` after
/// building `n` while the jobs in `stack` are in progress.
pub open spec fn built_under(
    n: Seq<char>,
    stack: Seq<Seq<char>>,
    top: Seq<(Node, Node)>,
    under: Map<Seq<char>, Seq<Seq<char>>>,
) -> Map<Seq<char>, Seq<Seq<char>>>
    decreases top.len() - stack.len(), 0int,
{
    if stack.len() < top.len() {
        visit_extends(extends_of(top, n), 0, n, stack.push(n), top, under).insert(n, stack)
    } else {
        under
    }
}

/// `under` after building, from the `i`th on, the siblings named in `names`
/// that job `own` extends and that are not built yet; `stack` holds `own`
/// and the jobs in progress before it.
pub open spec fn visit_extends(
    names: Seq<Seq<char>>,
    i: int,
    own: Seq<char>,
    stack: Seq<Seq<char>>,
    top: Seq<(Node, Node)>,
    under: Map<Seq<char>, Seq<Seq<char>>>,
) -> Map<Seq<char>, Seq<Seq<char>>>
    decreases top.len() - stack.len(), names.len() - i,
{
    if i < 0 || i >= names.len() {
        under
    } else {
        let m = names[i];
        let next = if is_sibling(m, own, top) && sibling_taken(m, top, stack) && !under.contains_key(m) {
            built_under(m, stack, top, under)
        } else {
            under
        };
        visit_extends(names, i + 1, own, stack, top, next)
    }
}

/// `under` after building, from the `i`th key of `top` on, each job that is
/// not built yet.
pub open spec fn visit_keys(
    top: Seq<(Node, Node)>,
    i: int,
    under: Map<Seq<char>, Seq<Seq<char>>>,
) -> Map<Seq<char>, Seq<Seq<char>>>
    decreases top.len() - i,
{
    if i < 0 || i >= top.len() {
        under
    } else {
        let k = key_text(top[i].0);
        let next = if names_job(top[i].0, top) && !under.contains_key(k) {
            built_under(k, Seq::empty(), top, under)
        } else {
            under
        };
        visit_keys(top, i + 1, next)
    }
}

/// For each job of `top`, the jobs that were in progress when it was built.
pub open spec fn build_stacks(top: Seq<(Node, Node)>) -> Map<Seq<char>, Seq<Seq<char>>> {
    visit_keys(top, 0, Map::empty())
}

/// Whether `parents` are what the extended `names` of job `own` resolve to,
/// while the jobs in `stack` (`own` among them) are in progress: a sibling
/// that is not in progress gives its job in `jobs`; one in progress, or not
/// a mapping, gives nothing; any other name is looked up along `chain`, and
/// a name found nowhere gives nothing.
pub open spec fn resolved(
    names: Seq<Seq<char>>,
    parents: Seq<Rc<Job>>,
    own: Seq<char>,
    top: Seq<(Node, Node)>,
    chain: Option<Box<GitlabCIConfig>>,
    jobs: Map<Seq<char>, Job>,
    stack: Seq<Seq<char>>,
) -> bool
    decreases names.len(),
{
    if names.len() == 0 {
        parents.len() == 0
    } else {
        let n = names.last();
        let rest = names.drop_last();
        if is_sibling(n, own, top) {
            if sibling_taken(n, top, stack) {
                &&& parents.len() > 0
                &&& jobs.contains_key(n)
                &&& *parents.last() == jobs[n]
                &&& resolved(rest, parents.drop_last(), own, top, chain, jobs, stack)
            } else {
                resolved(rest, parents, own, top, chain, jobs, stack)
            }
        } else {
            match find_in(chain, n) {
                Some(p) => {
                    &&& parents.len() > 0
                    &&& *parents.last() == p
                    &&& resolved(rest, parents.drop_last(), own, top, chain, jobs, stack)
                },
                None => resolved(rest, parents, own, top, chain, jobs, stack),
            }
        }
    }
}

/// Whether the entry `n` of `jobs` is the job that `top` defines under `n`,
/// with its parents resolved while the jobs that `under` gives for it were in
/// progress.
pub open spec fn entry_ok(
    jobs: Map<Seq<char>, Job>,
    n: Seq<char>,
    top: Seq<(Node, Node)>,
    chain: Option<Box<GitlabCIConfig>>,
    under: Map<Seq<char>, Seq<Seq<char>>>,
) -> bool {
    &&& under.contains_key(n)
    &&& is_job_name(n)
    &&& match lookup(top, n) {
        Some(Node::Mapping(body)) => raw_matches(jobs[n], body@),
        _ => false,
    }
    &&& resolved(extends_names(jobs[n]), jobs[n].extends_jobs@, n, top, chain, jobs, under[n].push(n))
}

/// Whether `jobs` holds exactly the jobs built in the order that `under`
/// records, each one as `entry_ok` says.
pub open spec fn table_inv(
    jobs: Map<Seq<char>, Job>,
    under: Map<Seq<char>, Seq<Seq<char>>>,
    top: Seq<(Node, Node)>,
    chain: Option<Box<GitlabCIConfig>>,
) -> bool {
    &&& jobs.dom() == under.dom()
    &&& forall|n: Seq<char>| #[trigger] jobs.contains_key(n) ==> entry_ok(jobs, n, top, chain, under)
}

/// Whether `jobs` holds the jobs of the mapping `top`: every key that defines
/// a job, each built once, in key order, with its extended jobs resolved
/// along `chain`.
pub open spec fn table_ok(
    jobs: Map<Seq<char>, Job>,
    top: Seq<(Node, Node)>,
    chain: Option<Box<GitlabCIConfig>>,
) -> bool {
    &&& table_inv(jobs, build_stacks(top), top, chain)
    &&& forall|n: Seq<char>|
        (is_job_name(n) && (#[trigger] lookup(top, n) matches Some(Node::Mapping(_))))
            ==> jobs.contains_key(n)
}

/// Whether `stack` names distinct keys of `top`.
pub open spec fn stack_ok(stack: Seq<Seq<char>>, top: Seq<(Node, Node)>) -> bool {
    &&& stack.no_duplicates()
    &&& forall|i: int| 0 <= i < stack.len() ==> key_names(top).contains(#[trigger] stack[i])
}

/// Resolution stays true as the job table grows.
pub proof fn lemma_resolved_grow(
    names: Seq<Seq<char>>,
    parents: Seq<Rc<Job>>,
    own: Seq<char>,
    top: Seq<(Node, Node)>,
    chain: Option<Box<GitlabCIConfig>>,
    jobs: Map<Seq<char>, Job>,
    more: Map<Seq<char>, Job>,
    stack: Seq<Seq<char>>,
)
    requires
        resolved(names, parents, own, top, chain, jobs, stack),
        jobs.submap_of(more),
    ensures
        resolved(names, parents, own, top, chain, more, stack),
    decreases names.len(),
{
    if names.len() > 0 {
        let n = names.last();
        let rest = names.drop_last();
        if is_sibling(n, own, top) {
            if sibling_taken(n, top, stack) {
                lemma_resolved_grow(rest, parents.drop_last(), own, top, chain, jobs, more, stack);
            } else {
                lemma_resolved_grow(rest, parents, own, top, chain, jobs, more, stack);
            }
        } else {
            if find_in(chain, n) is Some {
                lemma_resolved_grow(rest, parents.drop_last(), own, top, chain, jobs, more, stack);
            } else {
                lemma_resolved_grow(rest, parents, own, top, chain, jobs, more, stack);
            }
        }
    }
}

proof fn lemma_table_grow(
    jobs: Map<Seq<char>, Job>,
    under: Map<Seq<char>, Seq<Seq<char>>>,
    n: Seq<char>,
    j: Job,
    s: Seq<Seq<char>>,
    top: Seq<(Node, Node)>,
    chain: Option<Box<GitlabCIConfig>>,
)
    requires
        table_inv(jobs, under, top, chain),
        !jobs.contains_key(n),
        is_job_name(n),
        lookup(top, n) matches Some(Node::Mapping(body)) && raw_matches(j, body@),
        resolved(extends_names(j), j.extends_jobs@, n, top, chain, jobs.insert(n, j), s.push(n)),
    ensures
        table_inv(jobs.insert(n, j), under.insert(n, s), top, chain),
        jobs.submap_of(jobs.insert(n, j)),
        under.submap_of(under.insert(n, s)),
{
    let more = jobs.insert(n, j);
    assert(more.dom() =~= under.insert(n, s).dom());
    assert forall|k: Seq<char>| #[trigger] more.contains_key(k) implies entry_ok(
        more,
        k,
        top,
        chain,
        under.insert(n, s),
    ) by {
        if k != n {
            assert(entry_ok(jobs, k, top, chain, under));
            lemma_resolved_grow(
                extends_names(jobs[k]),
                jobs[k].extends_jobs@,
                k,
                top,
                chain,
                jobs,
                more,
                under[k].push(k),
            );
        }
    }
}

/// Whether `name` is one of the names in `stack`.
pub fn on_stack(stack: &Vec<String>, name: &str) -> (r: bool)
    ensures
        r == texts(stack@).contains(name@),
{
    let mut i: usize = 0;
    while i < stack.len()
        invariant
            i <= stack@.len(),
            forall|k: int| 0 <= k < i ==> texts(stack@)[k] != name@,
        decreases stack.len() - i,
    {
        if same_text(stack[i].as_str(), name) {
            assert(texts(stack@)[i as int] == name@);
            return true;
        }
        i += 1;
    }
    false
}

/// Whether a top-level key names a job.
pub fn is_job_key(k: &str) -> (r: bool)
    ensures
        r == is_job_name(k@),
{
    !same_text(k, "variables") && !same_text(k, "stages") && !is_import_key(k)
}

/// Whether the key `name` of `top` holds a mapping.
fn defines_job(top: &Vec<(Node, Node)>, name: &str) -> (r: bool)
    ensures
        r == (lookup(top@, name@) matches Some(Node::Mapping(_))),
{
    match mapping_get(top, name) {
        Some(Node::Mapping(_)) => true,
        _ => false,
    }
}

/// Builds the job `job_name` of the mapping `top`, after building the jobs
/// it extends that are not in `jobs` yet, and files it in `jobs`. `stack`
/// holds the jobs in progress; `chain` is the configuration the file is
/// layered on; `under` records the order of building so far.
pub fn parse_job(
    chain: &Option<Box<GitlabCIConfig>>,
    job_name: &str,
    top: &Vec<(Node, Node)>,
    stack: &mut Vec<String>,
    jobs: &mut JobTable,
    Ghost(under): Ghost<Map<Seq<char>, Seq<Seq<char>>>>,
) -> (r: Rc<Job>)
    requires
        stack_ok(texts(old(stack)@), top@),
        !texts(old(stack)@).contains(job_name@),
        is_job_name(job_name@),
        lookup(top@, job_name@) matches Some(Node::Mapping(_)),
        table_inv(old(jobs)@, under, top@, *chain),
        !old(jobs)@.contains_key(job_name@),
        forall|k: Seq<char>| texts(old(stack)@).contains(k) ==> !old(jobs)@.contains_key(k),
    ensures
        final(stack)@ == old(stack)@,
        table_inv(final(jobs)@, built_under(job_name@, texts(old(stack)@), top@, under), top@, *chain),
        old(jobs)@.submap_of(final(jobs)@),
        under.submap_of(built_under(job_name@, texts(old(stack)@), top@, under)),
        final(jobs)@.contains_key(job_name@),
        final(jobs)@[job_name@] == *r,
        forall|k: Seq<char>| texts(old(stack)@).contains(k) ==> !final(jobs)@.contains_key(k),
    decreases top@.len() - stack@.len(),
{
    let body = match mapping_get(top, job_name).unwrap() {
        Node::Mapping(b) => b,
        _ => vstd::pervasive::unreached(),
    };
    let ghost outer = texts(stack@);
    let ghost inner = outer.push(job_name@);
    let raw = parse_raw_job(body);
    proof {
        let k = lemma_key_index(top@, job_name@);
        assert(key_names(top@)[k] == job_name@);
        assert(stack_ok(inner, top@)) by {
            assert forall|i: int| 0 <= i < inner.len() implies key_names(top@).contains(#[trigger] inner[i]) by {
                if i < outer.len() {
                    assert(inner[i] == outer[i]);
                }
            }
        }
        lemma_distinct_within(inner, key_names(top@));
    }
    stack.push(String::from_str(job_name));
    proof {
        assert(texts(stack@) =~= inner);
    }
    let Job { stage, before_script, script, variables, extends, extends_jobs: _ } = raw;
    let mut parents: Vec<Rc<Job>> = Vec::new();
    let ghost mut cur = under;
    let ghost names = extends_of(top@, job_name@);
    proof {
        assert(inner.contains(job_name@)) by {
            assert(inner[outer.len() as int] == job_name@);
        }
        assert(forall|k: Seq<char>| outer.contains(k) ==> inner.contains(k)) by {
            assert forall|k: Seq<char>| outer.contains(k) implies inner.contains(k) by {
                let i = choose|i: int| 0 <= i < outer.len() && outer[i] == k;
                assert(inner[i] == k);
            }
        }
    }
    if let Some(list) = &extends {
        proof {
            assert(names == texts(list@));
        }
        let mut i: usize = 0;
        while i < list.len()
            invariant
                names == texts(list@),
                i <= list@.len(),
                texts(stack@) == inner,
                stack@.len() == old(stack)@.len() + 1,
                stack@.drop_last() == old(stack)@,
                stack_ok(inner, top@),
                inner.len() <= top@.len(),
                inner.contains(job_name@),
                table_inv(jobs@, cur, top@, *chain),
                old(jobs)@.submap_of(jobs@),
                under.submap_of(cur),
                forall|k: Seq<char>| inner.contains(k) ==> !jobs@.contains_key(k),
                visit_extends(names, 0, job_name@, inner, top@, under) == visit_extends(
                    names,
                    i as int,
                    job_name@,
                    inner,
                    top@,
                    cur,
                ),
                resolved(names.take(i as int), parents@, job_name@, top@, *chain, jobs@, inner),
            decreases list.len() - i,
        {
            let ghost done = parents@;
            let ghost before = jobs@;
            proof {
                assert(names.take(i + 1).drop_last() =~= names.take(i as int));
                assert(names.take(i + 1).last() == names[i as int]);
            }
            let n: &str = list[i].as_str();
            if !same_text(n, job_name) && is_job_key(n) && mapping_get(top, n).is_some() {
                if defines_job(top, n) && !on_stack(stack, n) {
                    let found = match jobs.get(n) {
                        Some(p) => Some(p.clone()),
                        None => None,
                    };
                    match found {
                        Some(p) => {
                            parents.push(p);
                        },
                        None => {
                            let p = parse_job(chain, n, top, stack, jobs, Ghost(cur));
                            proof {
                                lemma_resolved_grow(
                                    names.take(i as int),
                                    done,
                                    job_name@,
                                    top@,
                                    *chain,
                                    before,
                                    jobs@,
                                    inner,
                                );
                                let prev = cur;
                                cur = built_under(n@, inner, top@, cur);
                                assert(under.submap_of(cur)) by {
                                    assert forall|k: Seq<char>| #[trigger] under.contains_key(k) implies cur.contains_key(k)
                                        && cur[k] == under[k] by {
                                        assert(prev.contains_key(k));
                                    }
                                }
                            }
                            parents.push(p);
                        },
                    }
                    proof {
                        assert(parents@.drop_last() =~= done);
                        assert(old(jobs)@.submap_of(jobs@)) by {
                            assert forall|k: Seq<char>| #[trigger] old(jobs)@.contains_key(k) implies jobs@.contains_key(k)
                                && jobs@[k] == old(jobs)@[k] by {
                                assert(before.contains_key(k));
                            }
                        }
                    }
                }
            } else {
                if let Some(p) = lookup_in(chain, n) {
                    parents.push(p);
                    proof {
                        assert(parents@.drop_last() =~= done);
                    }
                }
            }
            i += 1;
        }
        proof {
            assert(names.take(i as int) =~= names);
        }
    }
    let ghost before_pop = stack@;
    stack.pop();
    proof {
        assert(stack@ =~= before_pop.drop_last());
    }
    let j = Job { stage, before_script, script, variables, extends, extends_jobs: parents };
    let r = Rc::new(j);
    proof {
        assert(raw_matches(j, body@));
        assert(extends_names(j) == names);
        assert(outer.len() < top@.len());
        assert(built_under(job_name@, outer, top@, under) == cur.insert(job_name@, outer));
        lemma_resolved_grow(names, parents@, job_name@, top@, *chain, jobs@, jobs@.insert(job_name@, j), inner);
        lemma_table_grow(jobs@, cur, job_name@, j, outer, top@, *chain);
    }
    jobs.insert(String::from_str(job_name), r.clone());
    r
}

/// Builds every job of a file's top-level mapping, in the order of its keys,
/// resolving extended jobs along `chain`.
pub fn build_jobs(chain: &Option<Box<GitlabCIConfig>>, top: &Vec<(Node, Node)>) -> (r: JobTable)
    ensures
        table_ok(r@, top@, *chain),
{
    let mut jobs = JobTable::new();
    let ghost mut cur: Map<Seq<char>, Seq<Seq<char>>> = Map::empty();
    let mut i: usize = 0;
    proof {
        assert(jobs@.dom() =~= cur.dom());
    }
    while i < top.len()
        invariant
            i <= top@.len(),
            table_inv(jobs@, cur, top@, *chain),
            build_stacks(top@) == visit_keys(top@, i as int, cur),
            forall|k: int|
                0 <= k < i && names_job(#[trigger] top@[k].0, top@) ==> jobs@.contains_key(
                    key_text(top@[k].0),
                ),
        decreases top.len() - i,
    {
        let ghost before = jobs@;
        if let Node::Str(k) = &top[i].0 {
            if is_job_key(k.as_str()) && defines_job(top, k.as_str()) && !jobs.contains_key(k.as_str()) {
                let mut progress: Vec<String> = Vec::new();
                proof {
                    assert(texts(progress@) =~= Seq::<Seq<char>>::empty());
                }
                let _ = parse_job(chain, k.as_str(), top, &mut progress, &mut jobs, Ghost(cur));
                proof {
                    cur = built_under(k@, Seq::empty(), top@, cur);
                }
            }
        }
        proof {
            assert forall|k: int|
                0 <= k < i + 1 && names_job(#[trigger] top@[k].0, top@) implies jobs@.contains_key(
                key_text(top@[k].0),
            ) by {
                if k < i {
                    assert(before.contains_key(key_text(top@[k].0)));
                }
            }
        }
        i += 1;
    }
    proof {
        assert forall|n: Seq<char>|
            (is_job_name(n) && (#[trigger] lookup(top@, n) matches Some(Node::Mapping(_))))
            implies jobs@.contains_key(n) by {
            let k = lemma_key_index(top@, n);
            assert(names_job(top@[k].0, top@));
        }
    }
    jobs
}

} // verus!
