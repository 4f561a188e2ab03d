//! Splitting `/`-separated paths.
use vstd::prelude::*;

use crate::error::WemError;
use crate::text::{chars_of, string_of, string_of_range};

verus! {

/// `k` is the last position after the first character at which `p` holds `/`.
pub open spec fn is_last_sep(p: Seq<char>, k: int) -> bool {
    &&& 1 <= k < p.len()
    &&& p[k] == '/'
    &&& forall|j: int| k < j < p.len() ==> p[j] != '/'
}

/// The path without its last component: everything before the last `/`
/// (a `/` at the very start does not count).
pub fn del_filename(path: String) -> (r: Result<String, WemError>)
    requires
        path@.len() >= 1,
    ensures
        match r {
            Ok(s) => exists|k: int| is_last_sep(path@, k) && s@ == path@.take(k),
            Err(e) => e == WemError::NoParentPath && forall|j: int| 1 <= j < path@.len() ==> path@[j] != '/',
        },
{
    let p = chars_of(path.as_str());
    let mut i = p.len() - 1;
    while i > 0
        invariant
            p@ == path@,
            i < p@.len(),
            forall|j: int| i < j < p@.len() ==> p@[j] != '/',
        decreases i,
    {
        if p[i] == '/' {
            let s = string_of_range(&p, 0, i);
            assert(is_last_sep(path@, i as int));
            assert(p@.subrange(0, i as int) =~= path@.take(i as int));
            return Ok(s);
        }
        i = i - 1;
    }
    Err(WemError::NoParentPath)
}

/// `k` is the first position at which `p` holds `/`.
pub open spec fn is_first_sep(p: Seq<char>, k: int) -> bool {
    &&& 0 <= k < p.len()
    &&& p[k] == '/'
    &&& forall|j: int| 0 <= j < k ==> p[j] != '/'
}

/// The characters before the first `/`, in reverse order.
pub fn path_to_filename(path: &String) -> (r: Result<String, WemError>)
    ensures
        match r {
            Ok(s) => exists|k: int| is_first_sep(path@, k) && s@ == path@.take(k).reverse(),
            Err(e) => e == WemError::NoPathSeparator && forall|j: int| 0 <= j < path@.len() ==> path@[j] != '/',
        },
{
    let p = chars_of(path.as_str());
    let mut i: usize = 0;
    while i < p.len()
        invariant
            p@ == path@,
            i <= p@.len(),
            forall|j: int| 0 <= j < i ==> p@[j] != '/',
        decreases p.len() - i,
    {
        if p[i] == '/' {
            let mut rev: Vec<char> = Vec::new();
            let mut j = i;
            while j > 0
                invariant
                    j <= i < p@.len(),
                    p@ == path@,
                    rev@ == path@.take(i as int).subrange(j as int, i as int).reverse(),
                decreases j,
            {
                rev.push(p[j - 1]);
                j = j - 1;
                assert(rev@ =~= path@.take(i as int).subrange(j as int, i as int).reverse());
            }
            assert(path@.take(i as int).subrange(0, i as int) =~= path@.take(i as int));
            assert(is_first_sep(path@, i as int));
            return Ok(string_of(&rev));
        }
        i = i + 1;
    }
    Err(WemError::NoPathSeparator)
}


/// The characters of `p` after its last `/` (all of `p` where it has none).
pub open spec fn tail_part(p: Seq<char>) -> Seq<char>
    decreases p.len(),
{
    if p.len() == 0 || p.last() == '/' {
        Seq::empty()
    } else {
        tail_part(p.drop_last()).push(p.last())
    }
}

/// The final component of a path on a Unix-like system, as std's
/// `Path::file_name` documents it: separators and `.` components at the end
/// are passed over, a final `..` gives none, and so does a path that ends
/// in no normal component (empty, `/`, or a leading `.`).
pub open spec fn file_name_of(path: Seq<char>) -> Option<Seq<char>>
    decreases path.len(),
{
    if path.len() == 0 {
        None
    } else if path.last() == '/' {
        file_name_of(path.drop_last())
    } else {
        let t = tail_part(path);
        if t == "."@ {
            file_name_of(path.drop_last())
        } else if t == ".."@ {
            None
        } else {
            Some(t)
        }
    }
}

/// std's `Path::new(path).file_name()`, as a string.
/// Trusted: the result is `file_name_of` of the path, the final component
/// as std's documentation of `Path::components` and `Path::file_name`
/// describes it for Unix-like systems (repeated separators, a trailing
/// separator and `.` components past the start are normalized away; a
/// final `..`, a root or a leading `.` is no file name). A component of a
/// `&str` is valid UTF-8, so the conversion back to a string does not fail.
#[verifier::external_body]
fn path_file_name(path: &str) -> (r: Option<String>)
    ensures
        file_name_of(path@) == (match r {
            Some(n) => Some(n@),
            None => None,
        }),
{
    match std::path::Path::new(path).file_name() {
        Some(n) => n.to_str().map(String::from),
        None => None,
    }
}

/// The file name of each path; a path without one is reported as
/// `WemError::NoFileName`.
pub fn file_names(paths: &Vec<String>) -> (r: Result<Vec<String>, WemError>)
    ensures
        match r {
            Ok(v) => v@.len() == paths@.len() && forall|i: int|
                0 <= i < paths@.len() ==> file_name_of(#[trigger] paths@[i]@) == Some(v@[i]@),
            Err(e) => e == WemError::NoFileName && exists|i: int|
                0 <= i < paths@.len() && (#[trigger] file_name_of(paths@[i]@)) is None,
        },
{
    let mut names: Vec<String> = Vec::new();
    let mut i: usize = 0;
    while i < paths.len()
        invariant
            i <= paths@.len(),
            names@.len() == i,
            forall|j: int| 0 <= j < i ==> file_name_of(#[trigger] paths@[j]@) == Some(names@[j]@),
        decreases paths.len() - i,
    {
        match path_file_name(paths[i].as_str()) {
            Some(n) => names.push(n),
            None => {
                assert(file_name_of(paths@[i as int]@) is None);
                return Err(WemError::NoFileName);
            },
        }
        i = i + 1;
    }
    Ok(names)
}

} // verus!
