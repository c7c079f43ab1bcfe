//! Jobs: units of work that inherit variables from the jobs they extend.
use vstd::prelude::*;
use std::rc::Rc;
use crate::doc::{lookup, mapping_get, Node};
use crate::extract::{
    opt_text, opt_texts, opt_vars, parse_value_as_map, parse_value_as_string,
    parse_value_as_strings, string_of, strings_of, vars_of,
};
use crate::vars::Variables;

verus! {

/// A job: its commands, its own variables, the names it extends and the
/// jobs those names were resolved to. A later parent's variables override
/// an earlier one's, and the job's own override them all.
pub struct Job {
    pub stage: Option<String>,
    pub before_script: Option<Vec<String>>,
    pub script: Option<Vec<String>>,
    /// The job's own variables; more may come from the jobs it extends.
    pub variables: Option<Variables>,
    pub extends: Option<Vec<String>>,
    /// The resolved parents, in the order of `extends`.
    pub extends_jobs: Vec<Rc<Job>>,
}

/// The job's own variables, empty where it defines none.
pub open spec fn own_variables(j: Job) -> Map<Seq<char>, Seq<char>> {
    match j.variables {
        Some(v) => v@,
        None => Map::empty(),
    }
}

/// The names that the job extends, none where it extends nothing.
pub open spec fn extends_names(j: Job) -> Seq<Seq<char>> {
    match opt_texts(j.extends) {
        Some(names) => names,
        None => Seq::empty(),
    }
}

/// The merged variables of each of `parents` in turn, later ones overriding.
pub open spec fn layered(parents: Seq<Rc<Job>>) -> Map<Seq<char>, Seq<char>>
    decreases parents,
{
    if parents.len() == 0 {
        Map::empty()
    } else {
        layered(parents.drop_last()).union_prefer_right(merged(*parents.last()))
    }
}

/// All variables of a job: those of its parents in order, then its own.
pub open spec fn merged(j: Job) -> Map<Seq<char>, Seq<char>>
    decreases j,
{
    layered(j.extends_jobs@).union_prefer_right(own_variables(j))
}

/// Reads an optional field node as a string.
pub open spec fn field_string(n: Option<Node>) -> Option<Seq<char>> {
    match n {
        Some(v) => string_of(v),
        None => None,
    }
}

/// Reads an optional field node as a list of strings.
pub open spec fn field_strings(n: Option<Node>) -> Option<Seq<Seq<char>>> {
    match n {
        Some(v) => strings_of(v),
        None => None,
    }
}

/// Reads an optional field node as a variable mapping.
pub open spec fn field_vars(n: Option<Node>) -> Option<Map<Seq<char>, Seq<char>>> {
    match n {
        Some(v) => vars_of(v),
        None => None,
    }
}

/// Whether the job's own fields are those that the mapping `body` gives.
pub open spec fn raw_matches(j: Job, body: Seq<(Node, Node)>) -> bool {
    &&& opt_text(j.stage) == field_string(lookup(body, "stage"@))
    &&& opt_texts(j.before_script) == field_strings(lookup(body, "before_script"@))
    &&& opt_texts(j.script) == field_strings(lookup(body, "script"@))
    &&& opt_vars(j.variables) == field_vars(lookup(body, "variables"@))
    &&& opt_texts(j.extends) == field_strings(lookup(body, "extends"@))
}

impl Job {
    /// The job's variables merged over all that it extends.
    pub fn get_merged_variables(&self) -> (r: Variables)
        ensures
            r@ == merged(*self),
    {
        let mut results = Variables::new();
        self.calculate_variables(&mut results);
        proof {
            assert(results@ =~= merged(*self));
        }
        results
    }

    /// Writes the job's merged variables over `variables`.
    fn calculate_variables(&self, variables: &mut Variables)
        ensures
            final(variables)@ == old(variables)@.union_prefer_right(merged(*self)),
        decreases *self,
    {
        let ghost start = variables@;
        let mut i: usize = 0;
        while i < self.extends_jobs.len()
            invariant
                i <= self.extends_jobs@.len(),
                variables@ == start.union_prefer_right(layered(self.extends_jobs@.take(i as int))),
            decreases self.extends_jobs.len() - i,
        {
            let parent: &Job = &self.extends_jobs[i];
            proof {
                assert(self.extends_jobs@.take(i + 1).drop_last() =~= self.extends_jobs@.take(i as int));
            }
            parent.calculate_variables(variables);
            proof {
                assert(variables@ =~= start.union_prefer_right(layered(self.extends_jobs@.take(i + 1))));
            }
            i += 1;
        }
        proof {
            assert(self.extends_jobs@.take(i as int) =~= self.extends_jobs@);
        }
        if let Some(own) = &self.variables {
            variables.extend(own);
        }
        proof {
            assert(variables@ =~= start.union_prefer_right(merged(*self)));
        }
    }
}

/// Builds a job from the mapping that defines it, with no parents resolved.
pub fn parse_raw_job(yml: &Vec<(Node, Node)>) -> (j: Job)
    ensures
        raw_matches(j, yml@),
        j.extends_jobs@.len() == 0,
{
    let stage = match mapping_get(yml, "stage") {
        Some(n) => parse_value_as_string(n),
        None => None,
    };
    let before_script = match mapping_get(yml, "before_script") {
        Some(n) => parse_value_as_strings(n),
        None => None,
    };
    let script = match mapping_get(yml, "script") {
        Some(n) => parse_value_as_strings(n),
        None => None,
    };
    let extends = match mapping_get(yml, "extends") {
        Some(n) => parse_value_as_strings(n),
        None => None,
    };
    let variables = match mapping_get(yml, "variables") {
        Some(n) => parse_value_as_map(n),
        None => None,
    };
    Job { stage, before_script, script, variables, extends, extends_jobs: Vec::new() }
}

} // verus!
