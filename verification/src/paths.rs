//! Path strings: joining a relative name onto a directory, and the parent
//! of a path as the standard library computes it.
use vstd::prelude::*;

use crate::text::{chars_of, push_str, string_of};

verus! {

/// `PathBuf::join` with a relative name on Unix: a `/` goes between the two
/// unless the directory is empty or already ends in one.
pub open spec fn joined(dir: Seq<char>, name: Seq<char>) -> Seq<char> {
    if dir.len() == 0 || dir.last() == '/' {
        dir + name
    } else {
        dir + seq!['/'] + name
    }
}

/// Joins the relative `name` (no leading `/`) onto `dir`.
pub fn join_path(dir: &str, name: &str) -> (p: String)
    requires
        name@.len() > 0 ==> name@[0] != '/',
    ensures
        p@ == joined(dir@, name@),
{
    let d = chars_of(dir);
    let mut out: Vec<char> = Vec::new();
    push_str(&mut out, dir);
    if d.len() > 0 && d[d.len() - 1] != '/' {
        out.push('/');
    }
    push_str(&mut out, name);
    assert(out@ =~= joined(dir@, name@));
    string_of(out.as_slice())
}

/// What `Path::parent` returns for a path: the path without its last
/// component, or nothing for the root and the empty path.
pub uninterp spec fn parent_of(path: Seq<char>) -> Option<Seq<char>>;

/// `std::path::Path::parent`, its result as a string.
#[verifier::external_body]
pub(crate) fn path_parent(path: &str) -> (r: Option<String>)
    ensures
        match r {
            Some(p) => parent_of(path@) == Some(p@),
            None => parent_of(path@) is None,
        },
{
    std::path::Path::new(path).parent().map(|p| p.to_string_lossy().into_owned())
}

} // verus!
