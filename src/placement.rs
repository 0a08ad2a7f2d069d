//! Where unpacked content goes. The archive is extracted into a staging
//! directory inside the destination; what the staging directory then holds
//! decides the final rename: a single child moves up into the destination
//! under its own name, several children move together as the staging
//! directory renamed after the archive's stem.
use vstd::prelude::*;
use crate::stem::{file_stem, file_name_of, name_stem, option_view};

verus! {

/// What the staging directory holds after extraction.
pub enum DirContents {
    /// Directory is empty
    Empty,
    /// Directory holds only one child (file or directory), by name
    One(String),
    /// Directory holds several children
    Multiple,
}

impl DirContents {
    /// Classifies a directory by the names of its first children, as a
    /// directory listing yields them (two suffice).
    pub fn new(children: &Vec<String>) -> (r: DirContents)
        ensures
            children@.len() == 0 ==> r is Empty,
            children@.len() == 1 ==> (r matches DirContents::One(n) && n@ == children@[0]@),
            children@.len() >= 2 ==> r is Multiple,
    {
        if children.len() == 0 {
            DirContents::Empty
        } else if children.len() == 1 {
            DirContents::One(children[0].clone())
        } else {
            DirContents::Multiple
        }
    }
}

/// The final step of an unpack.
pub enum Placement {
    /// Nothing was extracted.
    Empty,
    /// Rename the single extracted child `from` to `to`.
    MoveChild { from: String, to: String },
    /// Rename the staging directory to `to`.
    MoveStaging { to: String },
}

/// Why an archive cannot be placed or extracted.
#[derive(PartialEq, Eq, Structural, Debug, Clone, Copy)]
pub enum UnpackError {
    /// An entry path is absolute, or holds a component that is not a plain name.
    UnsupportedPath,
    /// The archive's file name yields no usable directory name.
    StemDerivation,
    /// The path that the content would be renamed to exists already.
    TargetExists,
}

/// A name that can stand as one component under a directory.
pub open spec fn is_single_component(n: Seq<char>) -> bool {
    &&& n.len() > 0
    &&& n != seq!['.']
    &&& n != seq!['.', '.']
    &&& forall|i: int| 0 <= i < n.len() ==> n[i] != '/'
}

/// `name` under the directory `dir`.
pub open spec fn join(dir: Seq<char>, name: Seq<char>) -> Seq<char> {
    if dir.len() == 0 || dir.last() == '/' {
        dir + name
    } else {
        dir + seq!['/'] + name
    }
}

pub fn is_single_component_exec(n: &str) -> (r: bool)
    ensures
        r == is_single_component(n@),
{
    let len = n.unicode_len();
    if len == 0 {
        return false;
    }
    if len == 1 && n.get_char(0) == '.' {
        proof {
            assert(n@ =~= seq!['.']);
        }
        return false;
    }
    if len == 2 && n.get_char(0) == '.' && n.get_char(1) == '.' {
        proof {
            assert(n@ =~= seq!['.', '.']);
        }
        return false;
    }
    proof {
        if len == 1 && n@ == seq!['.'] {
            assert(n@[0] == '.');
        }
        if len == 2 && n@ == seq!['.', '.'] {
            assert(n@[0] == '.' && n@[1] == '.');
        }
    }
    let mut i: usize = 0;
    while i < len
        invariant
            i <= len,
            len == n@.len(),
            forall|k: int| 0 <= k < i ==> n@[k] != '/',
        decreases len - i,
    {
        if n.get_char(i) == '/' {
            return false;
        }
        i = i + 1;
    }
    true
}

pub fn join_exec(dir: &str, name: &str) -> (r: String)
    ensures
        r@ == join(dir@, name@),
{
    let len = dir.unicode_len();
    let mut r = dir.to_string();
    if len > 0 && dir.get_char(len - 1) != '/' {
        r.append("/");
        proof {
            reveal_strlit("/");
        }
    }
    r.append(name);
    proof {
        if len > 0 {
            assert(dir@.last() == dir@[len - 1]);
        }
        assert(r@ =~= join(dir@, name@));
    }
    r
}

/// Whether `r` is the placement that `contents` calls for, with the archive's
/// stem `stem`, the staging directory `staging` and the destination
/// `destination`.
pub open spec fn placed(
    contents: &DirContents,
    stem: Option<Seq<char>>,
    staging: Seq<char>,
    destination: Seq<char>,
    r: Result<Placement, UnpackError>,
) -> bool {
    match contents {
        DirContents::Empty => r matches Ok(Placement::Empty),
        DirContents::One(n) => if is_single_component(n@) {
            r matches Ok(Placement::MoveChild { from, to })
                && from@ == join(staging, n@) && to@ == join(destination, n@)
        } else {
            r == Err::<Placement, UnpackError>(UnpackError::UnsupportedPath)
        },
        DirContents::Multiple => match stem {
            Some(s) => if is_single_component(s) {
                r matches Ok(Placement::MoveStaging { to }) && to@ == join(destination, s)
            } else {
                r == Err::<Placement, UnpackError>(UnpackError::StemDerivation)
            },
            None => r == Err::<Placement, UnpackError>(UnpackError::StemDerivation),
        },
    }
}

/// The stem of the archive at `path`, as `file_stem` derives it.
pub open spec fn archive_stem_of(path: Seq<char>) -> Option<Seq<char>> {
    match file_name_of(path) {
        Some(n) => Some(name_stem(n)),
        None => None,
    }
}

/// The placement that the staging directory's contents call for, given the
/// archive's stem (`None` where its path has no file name).
pub fn place(contents: &DirContents, archive_stem: &Option<String>, staging: &str, destination: &str) -> (r: Result<Placement, UnpackError>)
    ensures
        placed(contents, option_view(*archive_stem), staging@, destination@, r),
{
    match contents {
        DirContents::Empty => Ok(Placement::Empty),
        DirContents::One(n) => {
            if is_single_component_exec(n.as_str()) {
                Ok(Placement::MoveChild {
                    from: join_exec(staging, n.as_str()),
                    to: join_exec(destination, n.as_str()),
                })
            } else {
                Err(UnpackError::UnsupportedPath)
            }
        },
        DirContents::Multiple => match archive_stem {
            Some(s) => {
                if is_single_component_exec(s.as_str()) {
                    Ok(Placement::MoveStaging { to: join_exec(destination, s.as_str()) })
                } else {
                    Err(UnpackError::StemDerivation)
                }
            },
            None => Err(UnpackError::StemDerivation),
        },
    }
}

/// The placement that the staging directory's contents call for, for the
/// archive at `archive`.
pub fn unpack_placement(contents: &DirContents, archive: &str, staging: &str, destination: &str) -> (r: Result<Placement, UnpackError>)
    ensures
        placed(contents, archive_stem_of(archive@), staging@, destination@, r),
{
    let stem = file_stem(archive);
    place(contents, &stem, staging, destination)
}

/// What `confirm` gives for a placement whose target exists or not.
pub open spec fn confirmed(p: Placement, target_exists: bool) -> Result<Placement, UnpackError> {
    if target_exists && !(p is Empty) {
        Err(UnpackError::TargetExists)
    } else {
        Ok(p)
    }
}

/// A placement goes ahead only where its target does not exist yet: an
/// existing file or directory is neither merged into nor overwritten.
pub fn confirm(p: Placement, target_exists: bool) -> (r: Result<Placement, UnpackError>)
    ensures
        r == confirmed(p, target_exists),
{
    match p {
        Placement::Empty => Ok(p),
        _ => {
            if target_exists {
                Err(UnpackError::TargetExists)
            } else {
                Ok(p)
            }
        },
    }
}

/// The summary line of an unpack.
pub open spec fn report_text(p: Placement) -> Seq<char> {
    match p {
        Placement::Empty => "empty tarball"@,
        Placement::MoveChild { from, to } => "unpacked to "@ + to@,
        Placement::MoveStaging { to } => "unpacked to "@ + to@,
    }
}

/// The summary line of an unpack that ends in `p`.
pub fn report(p: &Placement) -> (r: String)
    ensures
        r@ == report_text(*p),
{
    match p {
        Placement::Empty => String::from_str("empty tarball"),
        Placement::MoveChild { from, to } => {
            let mut s = String::from_str("unpacked to ");
            s.append(to.as_str());
            s
        },
        Placement::MoveStaging { to } => {
            let mut s = String::from_str("unpacked to ");
            s.append(to.as_str());
            s
        },
    }
}

/// An archive whose one top-level entry is `n` unpacks to `n` directly under
/// the destination, not to `n` inside a directory of the same name, and the
/// summary names that path.
pub proof fn lemma_single_child_collapses(
    n: String,
    stem: Option<Seq<char>>,
    staging: Seq<char>,
    destination: Seq<char>,
    r: Result<Placement, UnpackError>,
)
    requires
        is_single_component(n@),
        placed(&DirContents::One(n), stem, staging, destination, r),
    ensures
        r matches Ok(Placement::MoveChild { from, to }) && to@ == join(destination, n@)
            && from@ == join(staging, n@),
        r matches Ok(p) && confirmed(p, false) == Ok::<Placement, UnpackError>(p)
            && report_text(p) == "unpacked to "@ + join(destination, n@),
{
}

/// An archive with several top-level entries unpacks into one new directory
/// directly under the destination, named after the archive's stem.
pub proof fn lemma_several_children_wrapped(
    stem: Seq<char>,
    staging: Seq<char>,
    destination: Seq<char>,
    r: Result<Placement, UnpackError>,
)
    requires
        is_single_component(stem),
        placed(&DirContents::Multiple, Some(stem), staging, destination, r),
    ensures
        r matches Ok(Placement::MoveStaging { to }) && to@ == join(destination, stem),
        r matches Ok(p) && confirmed(p, false) == Ok::<Placement, UnpackError>(p)
            && report_text(p) == "unpacked to "@ + join(destination, stem),
{
}

/// An empty archive moves nothing into the destination and reports
/// "empty tarball".
pub proof fn lemma_empty_moves_nothing(
    stem: Option<Seq<char>>,
    staging: Seq<char>,
    destination: Seq<char>,
    r: Result<Placement, UnpackError>,
)
    requires
        placed(&DirContents::Empty, stem, staging, destination, r),
    ensures
        r == Ok::<Placement, UnpackError>(Placement::Empty),
        confirmed(Placement::Empty, true) == Ok::<Placement, UnpackError>(Placement::Empty),
        report_text(Placement::Empty) == "empty tarball"@,
{
}

} // verus!
