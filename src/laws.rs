//! Properties that relate several results of the library.
use vstd::prelude::*;
use std::rc::Rc;
use crate::assemble::{assembled, imported, layered_ok, source_of, top_of, unboxed, witness_hint};
use crate::config::{chain_merged, config_merged, find_in, find_job, GitlabCIConfig};
use crate::doc::{has_key, lookup, Node};
use crate::extract::{opt_text, opt_texts, opt_vars, texts};
use crate::job::{extends_names, layered, merged, own_variables, raw_matches, Job};
use crate::resolve::{build_stacks, entry_ok, is_sibling, resolved, sibling_taken, table_inv, table_ok};

verus! {

/// The configurations of a parent chain, the farthest first.
pub open spec fn ancestors(chain: Option<Box<GitlabCIConfig>>) -> Seq<GitlabCIConfig>
    decreases chain,
{
    match chain {
        Some(c) => ancestors(c.parent).push(*c),
        None => Seq::empty(),
    }
}

/// The own global variables of each configuration in turn, later ones
/// overriding.
pub open spec fn fold_own(configs: Seq<GitlabCIConfig>) -> Map<Seq<char>, Seq<char>>
    decreases configs.len(),
{
    if configs.len() == 0 {
        Map::empty()
    } else {
        fold_own(configs.drop_last()).union_prefer_right(configs.last().variables@)
    }
}

proof fn lemma_chain_fold(chain: Option<Box<GitlabCIConfig>>)
    ensures
        chain_merged(chain) == fold_own(ancestors(chain)),
    decreases chain,
{
    if let Some(c) = chain {
        lemma_chain_fold(c.parent);
        assert(ancestors(chain).drop_last() =~= ancestors(c.parent));
    }
}

/// The merged global variables of a configuration are the own variables of
/// its ancestors, from the farthest to the nearest, and then its own, each
/// overriding what came before.
pub proof fn law_config_merge_order(c: GitlabCIConfig)
    ensures
        config_merged(c) == fold_own(ancestors(c.parent).push(c)),
{
    lemma_chain_fold(c.parent);
    assert(ancestors(c.parent).push(c).drop_last() =~= ancestors(c.parent));
}

/// An extended name that no job of the file and no job along the chain
/// defines adds no parent: resolving the names with it and without it
/// accepts the same parents.
pub proof fn law_undefined_extends_adds_nothing(
    names: Seq<Seq<char>>,
    missing: Seq<char>,
    parents: Seq<Rc<Job>>,
    own: Seq<char>,
    top: Seq<(Node, Node)>,
    chain: Option<Box<GitlabCIConfig>>,
    jobs: Map<Seq<char>, Job>,
    stack: Seq<Seq<char>>,
)
    requires
        !has_key(top, missing),
        find_in(chain, missing) is None,
    ensures
        resolved(names.push(missing), parents, own, top, chain, jobs, stack) == resolved(
            names,
            parents,
            own,
            top,
            chain,
            jobs,
            stack,
        ),
{
    assert(names.push(missing).drop_last() =~= names);
}

/// A job that extends only a job that was in progress when it was built
/// (an extends cycle) gets no parent.
pub proof fn law_extends_cycle_is_cut(
    jobs: Map<Seq<char>, Job>,
    top: Seq<(Node, Node)>,
    chain: Option<Box<GitlabCIConfig>>,
    a: Seq<char>,
    b: Seq<char>,
)
    requires
        table_ok(jobs, top, chain),
        jobs.contains_key(b),
        a != b,
        extends_names(jobs[b]) == seq![a],
        jobs.contains_key(a),
        build_stacks(top)[b].contains(a),
    ensures
        jobs[b].extends_jobs@.len() == 0,
{
    let under = build_stacks(top);
    assert(entry_ok(jobs, b, top, chain, under));
    assert(entry_ok(jobs, a, top, chain, under));
    assert(has_key(top, a));
    let s = under[b].push(b);
    assert(s.contains(a)) by {
        let i = choose|i: int| 0 <= i < under[b].len() && under[b][i] == a;
        assert(s[i] == a);
    }
    assert(seq![a].drop_last() =~= Seq::<Seq<char>>::empty());
    assert(seq![a].last() == a);
    assert(resolved(Seq::empty(), jobs[b].extends_jobs@, b, top, chain, jobs, s));
}

/// Two configurations assembled from the same documents, file and parent
/// agree on their own global variables, their stages, the names of their
/// jobs and each job's own fields, and the file of their nearest parent.
pub proof fn law_assembly_own_parts_agree(
    c1: GitlabCIConfig,
    c2: GitlabCIConfig,
    doc: Node,
    path: Seq<char>,
    files: Seq<(String, Node)>,
    parent: Option<GitlabCIConfig>,
    stack: Seq<Seq<char>>,
)
    requires
        assembled(c1, doc, path, files, parent, stack),
        assembled(c2, doc, path, files, parent, stack),
    ensures
        c1.file@ == c2.file@,
        c1.variables@ == c2.variables@,
        texts(c1.stages@) == texts(c2.stages@),
        c1.jobs@.dom() == c2.jobs@.dom(),
        forall|n: Seq<char>| #[trigger]
            c1.jobs@.contains_key(n) ==> own_variables(c1.jobs@[n]) == own_variables(c2.jobs@[n])
                && extends_names(c1.jobs@[n]) == extends_names(c2.jobs@[n]),
        imported(doc, path, files, stack).len() > 0 ==> {
            &&& unboxed(c1.parent) is Some
            &&& unboxed(c2.parent) is Some
            &&& unboxed(c1.parent)->Some_0.file@ == unboxed(c2.parent)->Some_0.file@
        },
        imported(doc, path, files, stack).len() == 0 ==> unboxed(c1.parent) == unboxed(c2.parent),
{
    assert(c1.jobs@.dom() =~= c2.jobs@.dom());
}

/// No job is a parent of one of its own parents: of two jobs that extend
/// each other, at most one keeps the other.
pub proof fn law_no_job_is_its_own_grandparent(j: Job, i: int, k: int)
    requires
        0 <= i < j.extends_jobs@.len(),
        0 <= k < j.extends_jobs@[i].extends_jobs@.len(),
    ensures
        *j.extends_jobs@[i].extends_jobs@[k] != j,
{
    let p = *j.extends_jobs@[i];
    let g = *p.extends_jobs@[k];
    assert(decreases_to!(j => j.extends_jobs));
    vstd::std_specs::vec::axiom_vec_index_decreases(j.extends_jobs, i);
    assert(decreases_to!(j => p));
    vstd::std_specs::vec::axiom_vec_index_decreases(p.extends_jobs, k);
    assert(decreases_to!(p => g));
    assert(decreases_to!(j => g));
}

/// Whether two jobs have the same own fields.
pub open spec fn same_fields(j1: Job, j2: Job) -> bool {
    &&& opt_text(j1.stage) == opt_text(j2.stage)
    &&& opt_texts(j1.before_script) == opt_texts(j2.before_script)
    &&& opt_texts(j1.script) == opt_texts(j2.script)
    &&& opt_vars(j1.variables) == opt_vars(j2.variables)
    &&& opt_texts(j1.extends) == opt_texts(j2.extends)
}

/// Whether two lookups found jobs alike: both nothing, or jobs with the same
/// own fields and the same merged variables.
pub open spec fn same_find(o1: Option<Job>, o2: Option<Job>) -> bool {
    match (o1, o2) {
        (None, None) => true,
        (Some(j1), Some(j2)) => same_fields(j1, j2) && merged(j1) == merged(j2),
        _ => false,
    }
}

/// The job named `name` in an optional configuration or its parents.
pub open spec fn find_opt(c: Option<GitlabCIConfig>, name: Seq<char>) -> Option<Job> {
    match c {
        Some(p) => find_job(p, name),
        None => None,
    }
}

/// Whether every name finds alike jobs along two chains.
pub open spec fn chains_agree(ch1: Option<Box<GitlabCIConfig>>, ch2: Option<Box<GitlabCIConfig>>) -> bool {
    forall|n: Seq<char>| #[trigger] same_find(find_in(ch1, n), find_in(ch2, n))
}

/// Whether every name finds alike jobs in two optional configurations.
pub open spec fn opts_agree(a1: Option<GitlabCIConfig>, a2: Option<GitlabCIConfig>) -> bool {
    forall|n: Seq<char>| #[trigger] same_find(find_opt(a1, n), find_opt(a2, n))
}

proof fn lemma_find_in_unboxed(ch: Option<Box<GitlabCIConfig>>, n: Seq<char>)
    ensures
        find_in(ch, n) == find_opt(unboxed(ch), n),
{
}

proof fn lemma_resolved_agree(
    names: Seq<Seq<char>>,
    ps1: Seq<Rc<Job>>,
    ps2: Seq<Rc<Job>>,
    own: Seq<char>,
    top: Seq<(Node, Node)>,
    ch1: Option<Box<GitlabCIConfig>>,
    ch2: Option<Box<GitlabCIConfig>>,
    jobs1: Map<Seq<char>, Job>,
    jobs2: Map<Seq<char>, Job>,
    under: Map<Seq<char>, Seq<Seq<char>>>,
    stack: Seq<Seq<char>>,
)
    requires
        resolved(names, ps1, own, top, ch1, jobs1, stack),
        resolved(names, ps2, own, top, ch2, jobs2, stack),
        table_inv(jobs1, under, top, ch1),
        table_inv(jobs2, under, top, ch2),
        chains_agree(ch1, ch2),
    ensures
        layered(ps1) == layered(ps2),
    decreases ps1, names.len(),
{
    if names.len() > 0 {
        let n = names.last();
        let rest = names.drop_last();
        if is_sibling(n, own, top) {
            if sibling_taken(n, top, stack) {
                let p1 = jobs1[n];
                let p2 = jobs2[n];
                assert(entry_ok(jobs1, n, top, ch1, under));
                assert(entry_ok(jobs2, n, top, ch2, under));
                let body = lookup(top, n)->Some_0->Mapping_0;
                assert(raw_matches(p1, body@) && raw_matches(p2, body@));
                assert(own_variables(p1) == own_variables(p2));
                assert(decreases_to!(ps1 => p1.extends_jobs@));
                lemma_resolved_agree(
                    extends_names(p1),
                    p1.extends_jobs@,
                    p2.extends_jobs@,
                    n,
                    top,
                    ch1,
                    ch2,
                    jobs1,
                    jobs2,
                    under,
                    under[n].push(n),
                );
                assert(merged(p1) == merged(p2));
                lemma_resolved_agree(rest, ps1.drop_last(), ps2.drop_last(), own, top, ch1, ch2, jobs1, jobs2, under, stack);
                assert(*ps1.last() == p1 && *ps2.last() == p2);
            } else {
                lemma_resolved_agree(rest, ps1, ps2, own, top, ch1, ch2, jobs1, jobs2, under, stack);
            }
        } else {
            assert(same_find(find_in(ch1, n), find_in(ch2, n)));
            if find_in(ch1, n) is Some {
                lemma_resolved_agree(rest, ps1.drop_last(), ps2.drop_last(), own, top, ch1, ch2, jobs1, jobs2, under, stack);
            } else {
                lemma_resolved_agree(rest, ps1, ps2, own, top, ch1, ch2, jobs1, jobs2, under, stack);
            }
        }
    }
}

proof fn lemma_entry_agree(
    n: Seq<char>,
    top: Seq<(Node, Node)>,
    ch1: Option<Box<GitlabCIConfig>>,
    ch2: Option<Box<GitlabCIConfig>>,
    jobs1: Map<Seq<char>, Job>,
    jobs2: Map<Seq<char>, Job>,
    under: Map<Seq<char>, Seq<Seq<char>>>,
)
    requires
        jobs1.contains_key(n),
        table_inv(jobs1, under, top, ch1),
        table_inv(jobs2, under, top, ch2),
        chains_agree(ch1, ch2),
    ensures
        jobs2.contains_key(n),
        same_find(Some(jobs1[n]), Some(jobs2[n])),
{
    assert(jobs2.contains_key(n));
    let p1 = jobs1[n];
    let p2 = jobs2[n];
    assert(entry_ok(jobs1, n, top, ch1, under));
    assert(entry_ok(jobs2, n, top, ch2, under));
    let body = lookup(top, n)->Some_0->Mapping_0;
    assert(raw_matches(p1, body@) && raw_matches(p2, body@));
    lemma_resolved_agree(
        extends_names(p1),
        p1.extends_jobs@,
        p2.extends_jobs@,
        n,
        top,
        ch1,
        ch2,
        jobs1,
        jobs2,
        under,
        under[n].push(n),
    );
}

/// The merged global variables of an optional configuration; none for none.
pub open spec fn merged_opt(c: Option<GitlabCIConfig>) -> Map<Seq<char>, Seq<char>> {
    match c {
        Some(p) => config_merged(p),
        None => Map::empty(),
    }
}

/// Whether two configurations have the same file and merged global
/// variables, and every name finds alike jobs in them.
pub open spec fn link_agrees(c1: GitlabCIConfig, c2: GitlabCIConfig) -> bool {
    &&& c1.file@ == c2.file@
    &&& config_merged(c1) == config_merged(c2)
    &&& opts_agree(Some(c1), Some(c2))
}

/// Whether two parent chains agree link by link, and have the same length.
pub open spec fn links_agree(ch1: Option<Box<GitlabCIConfig>>, ch2: Option<Box<GitlabCIConfig>>) -> bool
    decreases ch1,
{
    match (ch1, ch2) {
        (None, None) => true,
        (Some(b1), Some(b2)) => link_agrees(*b1, *b2) && links_agree(b1.parent, b2.parent),
        _ => false,
    }
}

/// Whether two configurations and their whole parent chains agree link by
/// link.
pub open spec fn configs_agree(c1: GitlabCIConfig, c2: GitlabCIConfig) -> bool {
    link_agrees(c1, c2) && links_agree(c1.parent, c2.parent)
}

/// `configs_agree` for optional configurations: both none, or both agree.
pub open spec fn opt_configs_agree(a1: Option<GitlabCIConfig>, a2: Option<GitlabCIConfig>) -> bool {
    match (a1, a2) {
        (None, None) => true,
        (Some(c1), Some(c2)) => configs_agree(c1, c2),
        _ => false,
    }
}

proof fn lemma_links_refl(ch: Option<Box<GitlabCIConfig>>)
    ensures
        links_agree(ch, ch),
    decreases ch,
{
    if let Some(b) = ch {
        lemma_links_refl(b.parent);
        assert forall|n: Seq<char>| #[trigger] same_find(find_opt(Some(*b), n), find_opt(Some(*b), n)) by {
            match find_opt(Some(*b), n) {
                Some(j) => {},
                None => {},
            }
        }
    }
}

proof fn lemma_opt_configs_agree_finds(a1: Option<GitlabCIConfig>, a2: Option<GitlabCIConfig>)
    requires
        opt_configs_agree(a1, a2),
    ensures
        opts_agree(a1, a2),
        merged_opt(a1) == merged_opt(a2),
{
    if a1 is None {
        assert forall|n: Seq<char>| #[trigger] same_find(find_opt(a1, n), find_opt(a2, n)) by {}
    }
}

proof fn lemma_assembled_agree(
    c1: GitlabCIConfig,
    c2: GitlabCIConfig,
    doc: Node,
    path: Seq<char>,
    files: Seq<(String, Node)>,
    parent1: Option<GitlabCIConfig>,
    parent2: Option<GitlabCIConfig>,
    stack: Seq<Seq<char>>,
)
    requires
        assembled(c1, doc, path, files, parent1, stack),
        assembled(c2, doc, path, files, parent2, stack),
        opt_configs_agree(parent1, parent2),
    ensures
        configs_agree(c1, c2),
    decreases files.len() - stack.len(), 0nat,
{
    lemma_layered_agree(
        unboxed(c1.parent),
        unboxed(c2.parent),
        imported(doc, path, files, stack),
        parent1,
        parent2,
        files,
        stack.push(path),
    );
    lemma_opt_configs_agree_finds(unboxed(c1.parent), unboxed(c2.parent));
    assert(chain_merged(c1.parent) == merged_opt(unboxed(c1.parent)));
    assert(chain_merged(c2.parent) == merged_opt(unboxed(c2.parent)));
    assert forall|n: Seq<char>| #[trigger] same_find(find_in(c1.parent, n), find_in(c2.parent, n)) by {
        lemma_find_in_unboxed(c1.parent, n);
        lemma_find_in_unboxed(c2.parent, n);
        assert(same_find(find_opt(unboxed(c1.parent), n), find_opt(unboxed(c2.parent), n)));
    }
    assert forall|n: Seq<char>| #[trigger] same_find(find_opt(Some(c1), n), find_opt(Some(c2), n)) by {
        let top = top_of(doc);
        assert(table_ok(c1.jobs@, top, c1.parent) && table_ok(c2.jobs@, top, c2.parent));
        if c1.jobs@.contains_key(n) {
            lemma_entry_agree(n, top, c1.parent, c2.parent, c1.jobs@, c2.jobs@, build_stacks(top));
        } else if c2.jobs@.contains_key(n) {
            assert(c1.jobs@.dom() == build_stacks(top).dom());
        } else {
            assert(same_find(find_in(c1.parent, n), find_in(c2.parent, n)));
        }
    }
}

proof fn lemma_layered_agree(
    a1: Option<GitlabCIConfig>,
    a2: Option<GitlabCIConfig>,
    loaded: Seq<Seq<char>>,
    base1: Option<GitlabCIConfig>,
    base2: Option<GitlabCIConfig>,
    files: Seq<(String, Node)>,
    stack: Seq<Seq<char>>,
)
    requires
        layered_ok(a1, loaded, base1, files, stack),
        layered_ok(a2, loaded, base2, files, stack),
        opt_configs_agree(base1, base2),
    ensures
        opt_configs_agree(a1, a2),
    decreases files.len() - stack.len(), loaded.len(),
{
    if loaded.len() > 0 {
        let doc = source_of(files, loaded.last())->Some_0;
        let prev1 = choose|prev: Option<GitlabCIConfig>|
            #![trigger witness_hint(prev)]
            witness_hint(prev) && layered_ok(prev, loaded.drop_last(), base1, files, stack) && assembled(
                a1->Some_0,
                doc,
                loaded.last(),
                files,
                prev,
                stack,
            );
        let prev2 = choose|prev: Option<GitlabCIConfig>|
            #![trigger witness_hint(prev)]
            witness_hint(prev) && layered_ok(prev, loaded.drop_last(), base2, files, stack) && assembled(
                a2->Some_0,
                doc,
                loaded.last(),
                files,
                prev,
                stack,
            );
        lemma_layered_agree(prev1, prev2, loaded.drop_last(), base1, base2, files, stack);
        lemma_assembled_agree(a1->Some_0, a2->Some_0, doc, loaded.last(), files, prev1, prev2, stack);
    }
}

/// Two configurations assembled from the same documents, file and parent
/// agree link by link along their whole parent chains: at each link the
/// same file, the same merged global variables, and for every name either no
/// job or jobs with the same own fields and merged variables.
pub proof fn law_assembly_chains_agree(
    c1: GitlabCIConfig,
    c2: GitlabCIConfig,
    doc: Node,
    path: Seq<char>,
    files: Seq<(String, Node)>,
    parent: Option<GitlabCIConfig>,
    stack: Seq<Seq<char>>,
)
    requires
        assembled(c1, doc, path, files, parent, stack),
        assembled(c2, doc, path, files, parent, stack),
    ensures
        configs_agree(c1, c2),
        c1.jobs@.dom() == c2.jobs@.dom(),
{
    if let Some(p) = parent {
        lemma_links_refl(p.parent);
        assert forall|n: Seq<char>| #[trigger] same_find(find_opt(Some(p), n), find_opt(Some(p), n)) by {
            match find_opt(Some(p), n) {
                Some(j) => {},
                None => {},
            }
        }
    }
    lemma_assembled_agree(c1, c2, doc, path, files, parent, parent, stack);
    assert(c1.jobs@.dom() =~= c2.jobs@.dom());
}

/// Two configurations assembled from the same documents, file and parent
/// have the same merged global variables.
pub proof fn law_assembly_merged_variables_agree(
    c1: GitlabCIConfig,
    c2: GitlabCIConfig,
    doc: Node,
    path: Seq<char>,
    files: Seq<(String, Node)>,
    parent: Option<GitlabCIConfig>,
    stack: Seq<Seq<char>>,
)
    requires
        assembled(c1, doc, path, files, parent, stack),
        assembled(c2, doc, path, files, parent, stack),
    ensures
        config_merged(c1) == config_merged(c2),
{
    law_assembly_chains_agree(c1, c2, doc, path, files, parent, stack);
}

/// Two configurations assembled from the same documents, file and parent
/// have the same jobs by name, and a job found by name in one has the same
/// own fields and merged variables as the job of that name in the other.
pub proof fn law_assembly_jobs_agree(
    c1: GitlabCIConfig,
    c2: GitlabCIConfig,
    doc: Node,
    path: Seq<char>,
    files: Seq<(String, Node)>,
    parent: Option<GitlabCIConfig>,
    stack: Seq<Seq<char>>,
)
    requires
        assembled(c1, doc, path, files, parent, stack),
        assembled(c2, doc, path, files, parent, stack),
    ensures
        c1.jobs@.dom() == c2.jobs@.dom(),
        forall|n: Seq<char>| #[trigger] same_find(find_job(c1, n), find_job(c2, n)),
{
    law_assembly_chains_agree(c1, c2, doc, path, files, parent, stack);
    assert forall|n: Seq<char>| #[trigger] same_find(find_job(c1, n), find_job(c2, n)) by {
        assert(same_find(find_opt(Some(c1), n), find_opt(Some(c2), n)));
    }
}

} // verus!
