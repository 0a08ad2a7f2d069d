//! The common-prefix detector: whether every entry of an archive lies under
//! one top-level name, with the rejection of entry paths that could reach
//! outside the destination.
use vstd::prelude::*;
use crate::placement::UnpackError;

verus! {

/// The index of the first `/` in `p`, or its length if it has none.
pub open spec fn first_slash(p: Seq<char>) -> nat
    decreases p.len(),
{
    if p.len() == 0 || p[0] == '/' {
        0
    } else {
        1 + first_slash(p.drop_first())
    }
}

/// The first component of a relative path.
pub open spec fn first_component(p: Seq<char>) -> Seq<char> {
    p.take(first_slash(p) as int)
}

/// Whether a `..` component starts at index `i` of `p`.
pub open spec fn parent_at(p: Seq<char>, i: int) -> bool {
    &&& 0 <= i
    &&& i + 2 <= p.len()
    &&& p[i] == '.'
    &&& p[i + 1] == '.'
    &&& (i == 0 || p[i - 1] == '/')
    &&& (i + 2 == p.len() || p[i + 2] == '/')
}

/// An entry path that can be extracted safely: relative, not starting at
/// `.`, and without any `..` component.
pub open spec fn acceptable_entry_path(p: Seq<char>) -> bool {
    &&& p.len() > 0
    &&& p[0] != '/'
    &&& first_component(p) != seq!['.']
    &&& !exists|i: int| parent_at(p, i)
}

/// What the detector reports for a sequence of entry paths: an error where
/// one of them is not acceptable, else whether all share the first one's
/// top-level component.
pub open spec fn common_top_level_of(paths: Seq<Seq<char>>) -> Result<bool, UnpackError> {
    if exists|i: int| 0 <= i < paths.len() && !acceptable_entry_path(#[trigger] paths[i]) {
        Err(UnpackError::UnsupportedPath)
    } else {
        Ok(forall|i: int| 0 <= i < paths.len() ==> first_component(#[trigger] paths[i]) == first_component(paths[0]))
    }
}

proof fn lemma_first_slash(p: Seq<char>, j: int)
    requires
        0 <= j <= p.len(),
        forall|k: int| 0 <= k < j ==> p[k] != '/',
        j == p.len() || p[j] == '/',
    ensures
        first_slash(p) == j,
    decreases j,
{
    if j > 0 {
        assert forall|k: int| 0 <= k < j - 1 implies p.drop_first()[k] != '/' by {
            assert(p.drop_first()[k] == p[k + 1]);
        }
        lemma_first_slash(p.drop_first(), j - 1);
    }
}

/// The index of the first `/` in `p`, or its length.
fn first_slash_exec(p: &str) -> (r: usize)
    ensures
        r == first_slash(p@),
        r <= p@.len(),
{
    let len = p.unicode_len();
    let mut j: usize = 0;
    while j < len && p.get_char(j) != '/'
        invariant
            j <= len,
            len == p@.len(),
            forall|k: int| 0 <= k < j ==> p@[k] != '/',
        decreases len - j,
    {
        j = j + 1;
    }
    proof {
        lemma_first_slash(p@, j as int);
    }
    j
}

/// The first component of a relative path.
pub fn first_component_exec(p: &str) -> (r: String)
    ensures
        r@ == first_component(p@),
{
    let j = first_slash_exec(p);
    p.substring_char(0, j).to_string()
}

/// Whether an entry path can be extracted safely.
pub fn acceptable_entry_path_exec(p: &str) -> (r: bool)
    ensures
        r == acceptable_entry_path(p@),
{
    let len = p.unicode_len();
    if len == 0 {
        return false;
    }
    if p.get_char(0) == '/' {
        return false;
    }
    let j = first_slash_exec(p);
    if j == 1 && p.get_char(0) == '.' {
        proof {
            assert(first_component(p@) =~= seq!['.']);
        }
        return false;
    }
    proof {
        if first_component(p@) == seq!['.'] {
            assert(first_component(p@).len() == 1);
            assert(first_component(p@)[0] == p@[0]);
        }
    }
    let mut i: usize = 0;
    while i < len
        invariant
            i <= len,
            len == p@.len(),
            forall|k: int| 0 <= k < i ==> !parent_at(p@, k),
        decreases len - i,
    {
        if len - i >= 2 && p.get_char(i) == '.' && p.get_char(i + 1) == '.'
            && (i == 0 || p.get_char(i - 1) == '/') && (i + 2 == len || p.get_char(i + 2) == '/') {
            proof {
                assert(parent_at(p@, i as int));
            }
            return false;
        }
        i = i + 1;
    }
    proof {
        assert forall|k: int| !parent_at(p@, k) by {
            if 0 <= k && k < len {
            }
        }
    }
    true
}

/// Whether all entry paths share one top-level component; an error where an
/// entry path is absolute or holds a component that is not a plain name. No
/// entries at all share it trivially.
pub fn common_top_level(paths: &Vec<String>) -> (r: Result<bool, UnpackError>)
    ensures
        r == common_top_level_of(paths@.map_values(|s: String| s@)),
{
    let ghost ps = paths@.map_values(|s: String| s@);
    if paths.len() == 0 {
        return Ok(true);
    }
    let first = first_component_exec(paths[0].as_str());
    let mut same = true;
    let mut i: usize = 0;
    while i < paths.len()
        invariant
            i <= paths.len(),
            paths.len() > 0,
            ps == paths@.map_values(|s: String| s@),
            first@ == first_component(ps[0]),
            forall|k: int| 0 <= k < i ==> acceptable_entry_path(#[trigger] ps[k]),
            same == forall|k: int| 0 <= k < i ==> first_component(#[trigger] ps[k]) == first_component(ps[0]),
        decreases paths.len() - i,
    {
        if !acceptable_entry_path_exec(paths[i].as_str()) {
            proof {
                assert(!acceptable_entry_path(ps[i as int]));
            }
            return Err(UnpackError::UnsupportedPath);
        }
        let c = first_component_exec(paths[i].as_str());
        if c != first {
            same = false;
        }
        proof {
            assert(ps[i as int] == paths@[i as int]@);
        }
        i = i + 1;
    }
    Ok(same)
}

} // verus!
