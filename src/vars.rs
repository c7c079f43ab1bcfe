//! Variable mappings: names to values, where a later write of a name
//! replaces the earlier one.
use vstd::prelude::*;
use crate::text::same_text;

verus! {

/// The mapping that a sequence of writes leaves behind, the last write of
/// each name winning.
pub open spec fn written(writes: Seq<(String, String)>) -> Map<Seq<char>, Seq<char>>
    decreases writes.len(),
{
    if writes.len() == 0 {
        Map::empty()
    } else {
        written(writes.drop_last()).insert(writes.last().0@, writes.last().1@)
    }
}

/// A mapping from variable names to values.
pub struct Variables {
    writes: Vec<(String, String)>,
}

impl View for Variables {
    type V = Map<Seq<char>, Seq<char>>;

    closed spec fn view(&self) -> Map<Seq<char>, Seq<char>> {
        written(self.writes@)
    }
}

impl Variables {
    /// The empty mapping.
    pub fn new() -> (r: Variables)
        ensures
            r@ == Map::<Seq<char>, Seq<char>>::empty(),
    {
        Variables { writes: Vec::new() }
    }

    /// Sets `name` to `value`, replacing any earlier value.
    pub fn insert(&mut self, name: String, value: String)
        ensures
            final(self)@ == old(self)@.insert(name@, value@),
    {
        let ghost before = self.writes@;
        self.writes.push((name, value));
        proof {
            assert(self.writes@.drop_last() =~= before);
        }
    }

    /// The value of `name`, if it is set.
    pub fn get(&self, name: &str) -> (r: Option<&String>)
        ensures
            match r {
                Some(v) => self@.contains_key(name@) && self@[name@] == v@,
                None => !self@.contains_key(name@),
            },
    {
        let ghost all = self.writes@;
        let mut i: usize = self.writes.len();
        proof {
            assert(all.take(i as int) =~= all);
        }
        while i > 0
            invariant
                all == self.writes@,
                i <= all.len(),
                written(all).contains_key(name@) == written(all.take(i as int)).contains_key(name@),
                written(all).contains_key(name@) ==> written(all)[name@] == written(all.take(i as int))[name@],
            decreases i,
        {
            proof {
                assert(all.take(i as int).drop_last() =~= all.take(i - 1));
            }
            if same_text(self.writes[i - 1].0.as_str(), name) {
                return Some(&self.writes[i - 1].1);
            }
            i -= 1;
        }
        None
    }

    /// The writes that built the mapping, in order: replaying them, a later
    /// write of a name replacing an earlier one, gives the mapping.
    pub fn writes(&self) -> (r: Vec<(String, String)>)
        ensures
            written(r@) == self@,
    {
        let mut r: Vec<(String, String)> = Vec::new();
        let mut i: usize = 0;
        while i < self.writes.len()
            invariant
                i <= self.writes@.len(),
                r@ == self.writes@.take(i as int),
            decreases self.writes.len() - i,
        {
            let name = self.writes[i].0.clone();
            let value = self.writes[i].1.clone();
            r.push((name, value));
            proof {
                assert(r@ =~= self.writes@.take(i + 1));
            }
            i += 1;
        }
        proof {
            assert(self.writes@.take(i as int) =~= self.writes@);
        }
        r
    }

    /// Whether `name` is set.
    pub fn contains_key(&self, name: &str) -> (r: bool)
        ensures
            r == self@.contains_key(name@),
    {
        self.get(name).is_some()
    }

    /// Writes every variable of `other` over this mapping.
    pub fn extend(&mut self, other: &Variables)
        ensures
            final(self)@ == old(self)@.union_prefer_right(other@),
    {
        let ghost start = self@;
        let mut i: usize = 0;
        while i < other.writes.len()
            invariant
                i <= other.writes@.len(),
                self@ == start.union_prefer_right(written(other.writes@.take(i as int))),
            decreases other.writes.len() - i,
        {
            let ghost before = self.writes@;
            let name = other.writes[i].0.clone();
            let value = other.writes[i].1.clone();
            self.writes.push((name, value));
            proof {
                assert(self.writes@.drop_last() =~= before);
                assert(other.writes@.take(i + 1).drop_last() =~= other.writes@.take(i as int));
                assert(self@ =~= start.union_prefer_right(written(other.writes@.take(i + 1))));
            }
            i += 1;
        }
        proof {
            assert(other.writes@.take(i as int) =~= other.writes@);
        }
    }
}

} // verus!
