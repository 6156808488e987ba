//! Directories as sequences of components, and the project that a directory
//! lies in.
//!
//! A path is split at `/`. Empty components are dropped, and so is a
//! component `.` unless the path begins with it. An absolute path has the
//! component `/` in front.

use vstd::prelude::*;
use crate::table::texts;
use crate::text::same_text;

verus! {

/// A component is kept unless it is empty, or is a `.` that does not begin the
/// path.
pub open spec fn kept(component: Seq<char>, begins_path: bool) -> bool {
    component.len() > 0 && (begins_path || component != seq!['.'])
}

/// The part of `path` from `start` up to `end`, as a list of one component or
/// of none.
pub open spec fn component_at(path: Seq<char>, start: int, end: int) -> Seq<Seq<char>> {
    if kept(path.subrange(start, end), start == 0) {
        seq![path.subrange(start, end)]
    } else {
        Seq::empty()
    }
}

/// The components of `path` from the one that began at `start` on, where the
/// characters before `at` have been read.
pub open spec fn components_from(path: Seq<char>, start: int, at: int) -> Seq<Seq<char>>
    decreases path.len() - at,
{
    if at >= path.len() {
        component_at(path, start, path.len() as int)
    } else if path[at] == '/' {
        component_at(path, start, at) + components_from(path, at + 1, at + 1)
    } else {
        components_from(path, start, at + 1)
    }
}

/// The components of `path`.
pub open spec fn components(path: Seq<char>) -> Seq<Seq<char>> {
    if path.len() > 0 && path[0] == '/' {
        seq![seq!['/']] + components_from(path, 0, 0)
    } else {
        components_from(path, 0, 0)
    }
}

/// Every component of `root` is the component of `dir` at the same place.
pub open spec fn is_prefix(root: Seq<Seq<char>>, dir: Seq<Seq<char>>) -> bool {
    root.len() <= dir.len() && forall|i: int| 0 <= i < root.len() ==> root[i] == dir[i]
}

/// The component of `dir` just below the first of `roots` that `dir` lies in
/// or is. There is none where `dir` is that root, or lies in no root.
pub open spec fn project_below(roots: Seq<Seq<Seq<char>>>, dir: Seq<Seq<char>>) -> Option<
    Seq<char>,
>
    decreases roots.len(),
{
    if roots.len() == 0 {
        None
    } else if is_prefix(roots[0], dir) {
        if dir.len() > roots[0].len() {
            Some(dir[roots[0].len() as int])
        } else {
            None
        }
    } else {
        project_below(roots.skip(1), dir)
    }
}

/// The components of each of `roots`.
pub open spec fn all_components(roots: Seq<Seq<char>>) -> Seq<Seq<Seq<char>>> {
    Seq::new(roots.len(), |i: int| components(roots[i]))
}

/// The name of the project that the directory `cwd` lies in, given the root
/// directories in their declared order.
pub open spec fn project_dir(roots: Seq<Seq<char>>, cwd: Seq<char>) -> Option<Seq<char>> {
    project_below(all_components(roots), components(cwd))
}

/// The text that an optional string holds.
pub open spec fn optional_text(value: Option<String>) -> Option<Seq<char>> {
    match value {
        Some(text) => Some(text@),
        None => None,
    }
}

/// Splits `path` into its components.
pub fn split_path(path: &str) -> (parts: Vec<String>)
    ensures
        texts(parts@) == components(path@),
{
    let n = path.unicode_len();
    let mut parts: Vec<String> = Vec::new();
    if n > 0 && path.get_char(0) == '/' {
        parts.push(String::from_str("/"));
        proof {
            reveal_strlit("/");
            assert(parts@[0]@ =~= seq!['/']);
        }
    }
    let ghost front = texts(parts@);
    assert(front =~= if path@.len() > 0 && path@[0] == '/' {
        seq![seq!['/']]
    } else {
        Seq::empty()
    });
    let mut start: usize = 0;
    let mut at: usize = 0;
    while at < n
        invariant
            n == path@.len(),
            start <= at <= n,
            front + components_from(path@, 0, 0) == components(path@),
            texts(parts@) + components_from(path@, start as int, at as int) == front
                + components_from(path@, 0, 0),
        decreases n - at,
    {
        if path.get_char(at) == '/' {
            let ghost before = texts(parts@);
            let piece = path.substring_char(start, at);
            let keep = at > start && (start == 0 || !same_text(piece, "."));
            proof {
                reveal_strlit(".");
                assert("."@ =~= seq!['.']);
                assert(keep == kept(path@.subrange(start as int, at as int), start == 0));
            }
            if keep {
                parts.push(String::from_str(piece));
                assert(texts(parts@) =~= before + component_at(path@, start as int, at as int));
            }
            assert(texts(parts@) + components_from(path@, at as int + 1, at as int + 1)
                =~= before + components_from(path@, start as int, at as int));
            start = at + 1;
        }
        at += 1;
    }
    let ghost before = texts(parts@);
    let piece = path.substring_char(start, n);
    let keep = n > start && (start == 0 || !same_text(piece, "."));
    proof {
        reveal_strlit(".");
        assert("."@ =~= seq!['.']);
        assert(keep == kept(path@.subrange(start as int, n as int), start == 0));
    }
    if keep {
        parts.push(String::from_str(piece));
        assert(texts(parts@) =~= before + component_at(path@, start as int, n as int));
    }
    assert(texts(parts@) =~= before + components_from(path@, start as int, n as int));
    parts
}

/// Tells whether `dir` lies in `root` or is `root`.
pub fn lies_in(root: &Vec<String>, dir: &Vec<String>) -> (inside: bool)
    ensures
        inside == is_prefix(texts(root@), texts(dir@)),
{
    if root.len() > dir.len() {
        return false;
    }
    let mut i: usize = 0;
    while i < root.len()
        invariant
            i <= root@.len(),
            root@.len() <= dir@.len(),
            forall|j: int| 0 <= j < i ==> texts(root@)[j] == texts(dir@)[j],
        decreases root@.len() - i,
    {
        if !same_text(root[i].as_str(), dir[i].as_str()) {
            assert(texts(root@)[i as int] != texts(dir@)[i as int]);
            return false;
        }
        i += 1;
    }
    true
}

/// The name of the project that the directory `cwd` lies in: the component of
/// `cwd` just below the first of `roots` that `cwd` lies in or is. There is
/// none where `cwd` is that root itself, or lies in no root.
pub fn resolve_project_dir(roots: &Vec<String>, cwd: &str) -> (project: Option<String>)
    ensures
        optional_text(project) == project_dir(texts(roots@), cwd@),
{
    let dir = split_path(cwd);
    let ghost all = all_components(texts(roots@));
    let mut i: usize = 0;
    assert(all.skip(0) =~= all);
    while i < roots.len()
        invariant
            i <= roots@.len(),
            all == all_components(texts(roots@)),
            texts(dir@) == components(cwd@),
            project_below(all, texts(dir@)) == project_below(all.skip(i as int), texts(dir@)),
        decreases roots@.len() - i,
    {
        let root = split_path(roots[i].as_str());
        assert(all.skip(i as int)[0] == texts(root@));
        assert(all.skip(i as int).skip(1) =~= all.skip(i as int + 1));
        if lies_in(&root, &dir) {
            if dir.len() > root.len() {
                return Some(dir[root.len()].clone());
            } else {
                return None;
            }
        }
        i += 1;
    }
    None
}

} // verus!
