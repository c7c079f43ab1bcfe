//! Configurations: the jobs, stages and global variables of one file, and
//! the configuration that the files it pulls in resolve to.
use vstd::prelude::*;
use std::rc::Rc;
use crate::job::Job;
use crate::text::same_text;
use crate::vars::Variables;

verus! {

/// The table that a sequence of writes leaves behind, the last write of each
/// name winning.
pub open spec fn jobs_written(writes: Seq<(String, Rc<Job>)>) -> Map<Seq<char>, Job>
    decreases writes.len(),
{
    if writes.len() == 0 {
        Map::empty()
    } else {
        jobs_written(writes.drop_last()).insert(writes.last().0@, *writes.last().1)
    }
}

/// Jobs by name.
pub struct JobTable {
    writes: Vec<(String, Rc<Job>)>,
}

impl View for JobTable {
    type V = Map<Seq<char>, Job>;

    closed spec fn view(&self) -> Map<Seq<char>, Job> {
        jobs_written(self.writes@)
    }
}

impl JobTable {
    /// The empty table.
    pub fn new() -> (r: JobTable)
        ensures
            r@ == Map::<Seq<char>, Job>::empty(),
    {
        JobTable { writes: Vec::new() }
    }

    /// Files `job` under `name`, replacing any job of that name.
    pub fn insert(&mut self, name: String, job: Rc<Job>)
        ensures
            final(self)@ == old(self)@.insert(name@, *job),
    {
        let ghost before = self.writes@;
        self.writes.push((name, job));
        proof {
            assert(self.writes@.drop_last() =~= before);
        }
    }

    /// The job filed under `name`, if any.
    pub fn get(&self, name: &str) -> (r: Option<&Rc<Job>>)
        ensures
            match r {
                Some(j) => self@.contains_key(name@) && self@[name@] == **j,
                None => !self@.contains_key(name@),
            },
    {
        let ghost all = self.writes@;
        let mut i: usize = self.writes.len();
        proof {
            assert(all.take(i as int) =~= all);
        }
        while i > 0
            invariant
                all == self.writes@,
                i <= all.len(),
                jobs_written(all).contains_key(name@) == jobs_written(all.take(i as int)).contains_key(name@),
                jobs_written(all).contains_key(name@) ==> jobs_written(all)[name@] == jobs_written(all.take(i as int))[name@],
            decreases i,
        {
            proof {
                assert(all.take(i as int).drop_last() =~= all.take(i - 1));
            }
            if same_text(self.writes[i - 1].0.as_str(), name) {
                return Some(&self.writes[i - 1].1);
            }
            i -= 1;
        }
        None
    }

    /// Whether a job is filed under `name`.
    pub fn contains_key(&self, name: &str) -> (r: bool)
        ensures
            r == self@.contains_key(name@),
    {
        self.get(name).is_some()
    }
}

/// The configuration of one file, on top of the configuration that the
/// files it pulls in resolve to.
pub struct GitlabCIConfig {
    pub file: String,
    /// The nearest configuration that this one was layered on.
    pub parent: Option<Box<GitlabCIConfig>>,
    /// Global variables defined in this file.
    pub variables: Variables,
    /// Stage names, in their declared order.
    pub stages: Vec<String>,
    /// Jobs defined in this file.
    pub jobs: JobTable,
}

/// The job named `name` in a chain of configurations, nearest first.
pub open spec fn find_in(chain: Option<Box<GitlabCIConfig>>, name: Seq<char>) -> Option<Job>
    decreases chain,
{
    match chain {
        Some(c) => if c.jobs@.contains_key(name) {
            Some(c.jobs@[name])
        } else {
            find_in(c.parent, name)
        },
        None => None,
    }
}

/// The job named `name` in a configuration or, failing that, in its parents.
pub open spec fn find_job(c: GitlabCIConfig, name: Seq<char>) -> Option<Job> {
    if c.jobs@.contains_key(name) {
        Some(c.jobs@[name])
    } else {
        find_in(c.parent, name)
    }
}

/// The global variables of a chain of configurations: the farthest first, the
/// nearest last.
pub open spec fn chain_merged(chain: Option<Box<GitlabCIConfig>>) -> Map<Seq<char>, Seq<char>>
    decreases chain,
{
    match chain {
        Some(c) => chain_merged(c.parent).union_prefer_right(c.variables@),
        None => Map::empty(),
    }
}

/// All global variables of a configuration: its parents' first, then its own.
pub open spec fn config_merged(c: GitlabCIConfig) -> Map<Seq<char>, Seq<char>> {
    chain_merged(c.parent).union_prefer_right(c.variables@)
}

/// Looks up a job in a chain of configurations, nearest first.
pub fn lookup_in(chain: &Option<Box<GitlabCIConfig>>, job_name: &str) -> (r: Option<Rc<Job>>)
    ensures
        match r {
            Some(j) => find_in(*chain, job_name@) == Some(*j),
            None => find_in(*chain, job_name@) is None,
        },
    decreases *chain,
{
    match chain {
        Some(c) => c.lookup_job(job_name),
        None => None,
    }
}

impl GitlabCIConfig {
    /// The global variables merged over the whole chain of parents.
    pub fn get_merged_variables(&self) -> (r: Variables)
        ensures
            r@ == config_merged(*self),
    {
        let mut results = Variables::new();
        self.calculate_variables(&mut results);
        proof {
            assert(results@ =~= config_merged(*self));
        }
        results
    }

    /// Finds a job in this configuration or, failing that, in its parents.
    pub fn lookup_job(&self, job_name: &str) -> (r: Option<Rc<Job>>)
        ensures
            match r {
                Some(j) => find_job(*self, job_name@) == Some(*j),
                None => find_job(*self, job_name@) is None,
            },
        decreases *self,
    {
        if let Some(job) = self.jobs.get(job_name) {
            Some(job.clone())
        } else {
            match &self.parent {
                Some(parent) => parent.lookup_job(job_name),
                None => None,
            }
        }
    }

    /// Writes the merged global variables over `variables`.
    fn calculate_variables(&self, variables: &mut Variables)
        ensures
            final(variables)@ == old(variables)@.union_prefer_right(config_merged(*self)),
        decreases *self,
    {
        if let Some(parent) = &self.parent {
            parent.calculate_variables(variables);
        }
        variables.extend(&self.variables);
        proof {
            assert(variables@ =~= old(variables)@.union_prefer_right(config_merged(*self)));
        }
    }
}

} // verus!
