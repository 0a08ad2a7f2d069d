//! The stem of an archive's file name: the name without its extension, and
//! without a `.tar` that stands before that extension.
use vstd::prelude::*;

verus! {

/// The last component of a path, as std's `Path::file_name` gives it.
pub uninterp spec fn file_name_of(path: Seq<char>) -> Option<Seq<char>>;

/// The view of an optional string.
pub open spec fn option_view(o: Option<String>) -> Option<Seq<char>> {
    match o {
        Some(s) => Some(s@),
        None => None,
    }
}

/// Relies on std's `Path::file_name`: the final component of a path, if there
/// is one. The path is a `str`, so the component is valid UTF-8.
#[verifier::external_body]
fn file_name(path: &str) -> (r: Option<String>)
    ensures
        option_view(r) == file_name_of(path@),
{
    std::path::Path::new(path).file_name().map(|n| n.to_string_lossy().into_owned())
}

/// The index of the last `.` in `n`, or -1 if there is none.
pub open spec fn last_dot(n: Seq<char>) -> int
    decreases n.len(),
{
    if n.len() == 0 {
        -1
    } else if n.last() == '.' {
        n.len() - 1
    } else {
        last_dot(n.drop_last())
    }
}

proof fn lemma_last_dot(n: Seq<char>)
    ensures
        -1 <= last_dot(n) < n.len(),
        last_dot(n) >= 0 ==> n[last_dot(n)] == '.',
        forall|k: int| last_dot(n) < k < n.len() ==> n[k] != '.',
    decreases n.len(),
{
    if n.len() > 0 && n.last() != '.' {
        lemma_last_dot(n.drop_last());
        assert forall|k: int| last_dot(n) < k < n.len() implies n[k] != '.' by {
            if k < n.len() - 1 {
                assert(n[k] == n.drop_last()[k]);
            }
        }
    }
}

pub open spec fn dot_dot() -> Seq<char> {
    seq!['.', '.']
}

/// A file name without its extension. A leading dot starts no extension, and
/// `..` has none.
pub open spec fn strip_extension(n: Seq<char>) -> Seq<char> {
    if n == dot_dot() || last_dot(n) <= 0 {
        n
    } else {
        n.take(last_dot(n))
    }
}

/// Whether a file name ends in the extension `tar`.
pub open spec fn has_tar_extension(n: Seq<char>) -> bool {
    n != dot_dot() && last_dot(n) > 0 && n.skip(last_dot(n) + 1) == seq!['t', 'a', 'r']
}

/// The stem of a file name: `foo.tar.gz` and `foo.tar` give `foo`,
/// `foo.bar.gz` gives `foo.bar`.
pub open spec fn name_stem(n: Seq<char>) -> Seq<char> {
    let s = strip_extension(n);
    if has_tar_extension(s) {
        strip_extension(s)
    } else {
        s
    }
}

/// The position of the last `.` in `n`, if there is one.
fn find_last_dot(n: &str) -> (r: Option<usize>)
    ensures
        match r {
            Some(d) => d as int == last_dot(n@),
            None => last_dot(n@) == -1,
        },
{
    let len = n.unicode_len();
    let mut i: usize = len;
    proof {
        assert(n@.take(len as int) =~= n@);
    }
    while i > 0
        invariant
            i <= len,
            len == n@.len(),
            last_dot(n@) == last_dot(n@.take(i as int)),
        decreases i,
    {
        proof {
            assert(n@.take(i as int).drop_last() =~= n@.take(i - 1));
        }
        if n.get_char(i - 1) == '.' {
            return Some(i - 1);
        }
        i = i - 1;
    }
    None
}

fn is_dot_dot(n: &str) -> (r: bool)
    ensures
        r == (n@ == dot_dot()),
{
    if n.unicode_len() != 2 {
        return false;
    }
    let r = n.get_char(0) == '.' && n.get_char(1) == '.';
    proof {
        if r {
            assert(n@ =~= dot_dot());
        }
    }
    r
}

fn strip_extension_exec(n: &str) -> (r: &str)
    ensures
        r@ == strip_extension(n@),
{
    if is_dot_dot(n) {
        return n;
    }
    proof {
        lemma_last_dot(n@);
    }
    match find_last_dot(n) {
        Some(d) => {
            if d == 0 {
                n
            } else {
                n.substring_char(0, d)
            }
        },
        None => n,
    }
}

fn has_tar_extension_exec(n: &str) -> (r: bool)
    ensures
        r == has_tar_extension(n@),
{
    if is_dot_dot(n) {
        return false;
    }
    proof {
        lemma_last_dot(n@);
    }
    match find_last_dot(n) {
        Some(d) => {
            if d == 0 {
                return false;
            }
            let len = n.unicode_len();
            if len - d != 4 {
                proof {
                    assert(n@.skip(d + 1).len() != 3);
                }
                return false;
            }
            let r = n.get_char(d + 1) == 't' && n.get_char(d + 2) == 'a' && n.get_char(d + 3) == 'r';
            proof {
                if r {
                    assert(n@.skip(d + 1) =~= seq!['t', 'a', 'r']);
                } else if n@.skip(d + 1) == seq!['t', 'a', 'r'] {
                    assert(n@.skip(d + 1)[0] == n@[d + 1]);
                    assert(n@.skip(d + 1)[1] == n@[d + 2]);
                    assert(n@.skip(d + 1)[2] == n@[d + 3]);
                }
            }
            r
        },
        None => false,
    }
}

/// The stem of a file name.
pub fn stem_of_name(name: &str) -> (r: String)
    ensures
        r@ == name_stem(name@),
{
    let s = strip_extension_exec(name);
    if has_tar_extension_exec(s) {
        strip_extension_exec(s).to_string()
    } else {
        s.to_string()
    }
}

/// The stem of the file name of `path`; `None` where the path has no file name.
pub fn file_stem(path: &str) -> (r: Option<String>)
    ensures
        option_view(r) == match file_name_of(path@) {
            Some(n) => Some(name_stem(n)),
            None => None,
        },
{
    match file_name(path) {
        Some(n) => Some(stem_of_name(n.as_str())),
        None => None,
    }
}

} // verus!
