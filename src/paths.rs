//! File names as the library handles them: `/`-separated text, joined
//! without consulting any file system.
use vstd::prelude::*;
use vstd::string::{StrSliceExecFns, StringExecFns};

verus! {

/// The position of the last `/` in `p`, or -1 where there is none.
pub open spec fn last_slash(p: Seq<char>) -> int
    decreases p.len(),
{
    if p.len() == 0 {
        -1
    } else if p.last() == '/' {
        p.len() - 1
    } else {
        last_slash(p.drop_last())
    }
}

/// The directory part of a file name: all before the last `/`, or the root
/// `/` itself where that is the only separator.
pub open spec fn dir_of(p: Seq<char>) -> Seq<char> {
    if last_slash(p) < 0 {
        Seq::empty()
    } else if last_slash(p) == 0 {
        p.take(1)
    } else {
        p.take(last_slash(p))
    }
}

/// The last segment of a `/`-separated name.
pub open spec fn last_segment(p: Seq<char>) -> Seq<char> {
    p.skip(last_slash(p) + 1)
}

/// `rel` taken relative to the directory `dir`.
pub open spec fn join(dir: Seq<char>, rel: Seq<char>) -> Seq<char> {
    if dir.len() == 0 {
        rel
    } else if dir.last() == '/' {
        dir + rel
    } else {
        dir + seq!['/'] + rel
    }
}

/// A name with one leading separator removed, if it has one.
pub open spec fn strip_root(p: Seq<char>) -> Seq<char> {
    if p.len() > 0 && (p[0] == '/' || p[0] == '\\') {
        p.drop_first()
    } else {
        p
    }
}

proof fn lemma_last_slash_range(p: Seq<char>)
    ensures
        -1 <= last_slash(p) < p.len(),
        last_slash(p) >= 0 ==> p[last_slash(p)] == '/',
        forall|k: int| last_slash(p) < k < p.len() ==> p[k] != '/',
    decreases p.len(),
{
    if p.len() > 0 && p.last() != '/' {
        lemma_last_slash_range(p.drop_last());
        assert forall|k: int| last_slash(p) < k < p.len() implies p[k] != '/' by {
            if k < p.len() - 1 {
                assert(p[k] == p.drop_last()[k]);
            }
        }
    }
}

/// The position of the last `/` in `p`, if any.
fn find_last_slash(p: &str) -> (r: Option<usize>)
    ensures
        match r {
            Some(k) => k as int == last_slash(p@),
            None => last_slash(p@) == -1,
        },
{
    let mut i: usize = p.unicode_len();
    proof {
        assert(p@.take(i as int) =~= p@);
    }
    while i > 0
        invariant
            i <= p@.len(),
            last_slash(p@) == last_slash(p@.take(i as int)),
        decreases i,
    {
        proof {
            assert(p@.take(i as int).drop_last() =~= p@.take(i - 1));
        }
        if p.get_char(i - 1) == '/' {
            return Some(i - 1);
        }
        i -= 1;
    }
    None
}

/// The directory part of a file name.
pub fn parent_dir(p: &str) -> (r: String)
    ensures
        r@ == dir_of(p@),
{
    proof {
        lemma_last_slash_range(p@);
    }
    match find_last_slash(p) {
        Some(k) => {
            if k == 0 {
                String::from_str(p.substring_char(0, 1))
            } else {
                String::from_str(p.substring_char(0, k))
            }
        },
        None => String::new(),
    }
}

/// The last segment of a `/`-separated name.
pub fn file_name_part(p: &str) -> (r: String)
    ensures
        r@ == last_segment(p@),
{
    proof {
        lemma_last_slash_range(p@);
    }
    let n = p.unicode_len();
    match find_last_slash(p) {
        Some(k) => String::from_str(p.substring_char(k + 1, n)),
        None => {
            proof {
                assert(p@.skip(0) =~= p@);
            }
            String::from_str(p)
        },
    }
}

/// `rel` taken relative to the directory `dir`.
pub fn join_path(dir: &str, rel: &str) -> (r: String)
    ensures
        r@ == join(dir@, rel@),
{
    let n = dir.unicode_len();
    if n == 0 {
        String::from_str(rel)
    } else if dir.get_char(n - 1) == '/' {
        String::from_str(dir).concat(rel)
    } else {
        proof {
            reveal_strlit("/");
            assert("/"@ =~= seq!['/']);
        }
        String::from_str(dir).concat("/").concat(rel)
    }
}

/// Removes one leading separator, if there is one.
pub fn strip_leading_separator(p: &str) -> (r: String)
    ensures
        r@ == strip_root(p@),
{
    let n = p.unicode_len();
    if n > 0 && (p.get_char(0) == '/' || p.get_char(0) == '\\') {
        proof {
            assert(p@.subrange(1, n as int) =~= p@.drop_first());
        }
        String::from_str(p.substring_char(1, n))
    } else {
        String::from_str(p)
    }
}

} // verus!
