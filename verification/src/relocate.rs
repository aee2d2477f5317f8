//! Moving a dynamic source to a new directory: which dynamic directories
//! are copied, and which stored paths change.

use vstd::prelude::*;
use crate::dynamic::strings_view;
use crate::loghistory::{file_name_of, path_file_name};

verus! {

/// Whether two paths are equal as `std::path::PathBuf` compares them.
pub uninterp spec fn path_equal(a: Seq<char>, b: Seq<char>) -> bool;

/// Whether `path` starts with `base` as `std::path::Path::starts_with`
/// compares them.
pub uninterp spec fn path_starts_with(path: Seq<char>, base: Seq<char>) -> bool;

/// The text of `base.join(name)` for `std::path::Path`.
pub uninterp spec fn path_joined(base: Seq<char>, name: Seq<char>) -> Seq<char>;

/// `PathBuf::from(a) == PathBuf::from(b)`
#[verifier::external_body]
fn paths_equal(a: &str, b: &str) -> (r: bool)
    ensures
        r == path_equal(a@, b@),
{
    std::path::PathBuf::from(a) == std::path::PathBuf::from(b)
}

/// `Path::new(path).starts_with(base)`
#[verifier::external_body]
fn path_has_base(path: &str, base: &str) -> (r: bool)
    ensures
        r == path_starts_with(path@, base@),
{
    std::path::Path::new(path).starts_with(base)
}

/// `Path::new(base).join(name)`, as text; paths given as text join to text.
#[verifier::external_body]
fn join_path(base: &str, name: &str) -> (r: String)
    ensures
        r@ == path_joined(base@, name@),
{
    std::path::Path::new(base).join(name).to_string_lossy().to_string()
}

/// A new directory inside the current one is refused.
pub open spec fn nested_move(old_path: Seq<char>, new_path: Seq<char>) -> bool {
    !path_equal(old_path, new_path) && path_starts_with(new_path, old_path)
}

pub fn is_nested_move(old_path: &str, new_path: &str) -> (r: bool)
    ensures
        r == nested_move(old_path@, new_path@),
{
    !paths_equal(old_path, new_path) && path_has_base(new_path, old_path)
}

/// A dynamic directory to copy: `(from, to)`.
#[derive(Debug, PartialEq)]
pub struct DirMove {
    pub from: String,
    pub to: String,
}

/// The directory copy for a dynamic stored at `dir`, when it moves: a
/// dynamic with a directory that has a name, going to a different place
/// in the new source directory.
pub open spec fn dir_move_of(new_path: Seq<char>, dir: Seq<char>) -> Option<(Seq<char>, Seq<char>)> {
    if dir.len() == 0 {
        None
    } else {
        match path_file_name(dir) {
            Some(name) => if path_equal(dir, path_joined(new_path, name)) {
                None
            } else {
                Some((dir, path_joined(new_path, name)))
            },
            None => None,
        }
    }
}

/// The copies for all dynamics, in order.
pub open spec fn dir_moves(new_path: Seq<char>, dirs: Seq<Seq<char>>) -> Seq<(Seq<char>, Seq<char>)>
    decreases dirs.len(),
{
    if dirs.len() == 0 {
        Seq::empty()
    } else {
        let prev = dir_moves(new_path, dirs.drop_last());
        match dir_move_of(new_path, dirs.last()) {
            Some(m) => prev.push(m),
            None => prev,
        }
    }
}

pub open spec fn moves_view(s: Seq<DirMove>) -> Seq<(Seq<char>, Seq<char>)> {
    s.map_values(|m: DirMove| (m.from@, m.to@))
}

fn dir_move(new_path: &str, dir: &String) -> (r: Option<DirMove>)
    ensures
        match r {
            Some(m) => dir_move_of(new_path@, dir@) == Some((m.from@, m.to@)),
            None => dir_move_of(new_path@, dir@) is None,
        },
{
    if dir.as_str().is_empty() {
        return None;
    }
    match file_name_of(dir.as_str()) {
        Some(name) => {
            let to = join_path(new_path, name.as_str());
            if paths_equal(dir.as_str(), to.as_str()) {
                None
            } else {
                Some(DirMove { from: dir.clone(), to })
            }
        },
        None => None,
    }
}

/// The directories to copy when a source moves to `new_path`, given the
/// stored directories of its dynamics (the move itself, with its checks
/// that a target does not exist yet, is done by the caller).
pub fn plan_dir_moves(new_path: &str, dirs: &Vec<String>) -> (r: Vec<DirMove>)
    ensures
        moves_view(r@) == dir_moves(new_path@, strings_view(dirs@)),
{
    let mut out: Vec<DirMove> = Vec::new();
    let n = dirs.len();
    proof {
        assert(strings_view(dirs@).take(0) =~= Seq::<Seq<char>>::empty());
        assert(moves_view(out@) =~= Seq::<(Seq<char>, Seq<char>)>::empty());
    }
    for i in 0..n
        invariant
            n == dirs@.len(),
            moves_view(out@) == dir_moves(new_path@, strings_view(dirs@).take(i as int)),
    {
        proof {
            assert(strings_view(dirs@).take(i + 1).drop_last() =~= strings_view(dirs@).take(i as int));
            assert(strings_view(dirs@).take(i + 1).last() == dirs@[i as int]@);
        }
        match dir_move(new_path, &dirs[i]) {
            Some(m) => {
                let ghost before = out@;
                let ghost mv = (m.from@, m.to@);
                out.push(m);
                proof {
                    assert(moves_view(out@) =~= moves_view(before).push(mv));
                }
            },
            None => {},
        }
    }
    proof {
        assert(strings_view(dirs@).take(n as int) =~= strings_view(dirs@));
    }
    out
}

/// The stored directory of a dynamic after the move, when it changes: a
/// dynamic with a directory that has a name gets that name inside the
/// new source directory.
pub open spec fn new_dir_of(new_path: Seq<char>, dir: Seq<char>) -> Option<Seq<char>> {
    match path_file_name(dir) {
        Some(name) => if dir.len() > 0 && !path_equal(dir, path_joined(new_path, name)) {
            Some(path_joined(new_path, name))
        } else {
            None
        },
        None => None,
    }
}

/// The stored directory of a dynamic after the move, when it changes.
pub fn relocated_dir(new_path: &str, dir: &String) -> (r: Option<String>)
    ensures
        match r {
            Some(d) => new_dir_of(new_path@, dir@) == Some(d@),
            None => new_dir_of(new_path@, dir@) is None,
        },
{
    match file_name_of(dir.as_str()) {
        Some(name) => {
            let to = join_path(new_path, name.as_str());
            if !dir.as_str().is_empty() && !paths_equal(dir.as_str(), to.as_str()) {
                Some(to)
            } else {
                None
            }
        },
        None => None,
    }
}

/// The whole plan of moving a source from `old_path` to `new_path`: the
/// directory copies, and for each dynamic its new stored directory
/// (`None` where it stays).
#[derive(Debug, PartialEq)]
pub struct SourceMove {
    /// The new path is the old one: nothing is copied or changed.
    pub unchanged: bool,
    pub moves: Vec<DirMove>,
    pub new_dirs: Vec<Option<String>>,
}

pub open spec fn opt_view(o: Option<String>) -> Option<Seq<char>> {
    match o {
        Some(s) => Some(s@),
        None => None,
    }
}

/// What the plan holds: nothing moves when the path is unchanged; else the
/// copies of [`dir_moves`] and the directories of [`new_dir_of`].
pub open spec fn source_move_is(
    m: SourceMove,
    old_path: Seq<char>,
    new_path: Seq<char>,
    dirs: Seq<Seq<char>>,
) -> bool {
    &&& m.unchanged == path_equal(old_path, new_path)
    &&& m.new_dirs@.len() == dirs.len()
    &&& if path_equal(old_path, new_path) {
        &&& m.moves@.len() == 0
        &&& forall|i: int| 0 <= i < dirs.len() ==> (#[trigger] m.new_dirs@[i]) is None
    } else {
        &&& moves_view(m.moves@) == dir_moves(new_path, dirs)
        &&& forall|i: int|
            0 <= i < dirs.len() ==> opt_view(#[trigger] m.new_dirs@[i]) == new_dir_of(new_path, dirs[i])
    }
}

/// Plans moving a source from `old_path` to `new_path`, where its dynamics
/// are stored at `dirs`: `None` when the new path lies inside the old one
/// (refused); no copies and no changed directory when the path is the
/// same; else the copies and new directories of every dynamic.
pub fn plan_source_move(old_path: &str, new_path: &str, dirs: &Vec<String>) -> (r: Option<SourceMove>)
    ensures
        r is None <==> nested_move(old_path@, new_path@),
        r matches Some(m) ==> source_move_is(m, old_path@, new_path@, strings_view(dirs@)),
{
    if is_nested_move(old_path, new_path) {
        return None;
    }
    let unchanged = paths_equal(old_path, new_path);
    let moves = if unchanged {
        Vec::new()
    } else {
        plan_dir_moves(new_path, dirs)
    };
    let mut new_dirs: Vec<Option<String>> = Vec::new();
    let n = dirs.len();
    for i in 0..n
        invariant
            n == dirs@.len(),
            new_dirs@.len() == i,
            unchanged == path_equal(old_path@, new_path@),
            forall|k: int|
                0 <= k < i ==> if unchanged {
                    (#[trigger] new_dirs@[k]) is None
                } else {
                    opt_view(#[trigger] new_dirs@[k]) == new_dir_of(new_path@, dirs@[k]@)
                },
    {
        if unchanged {
            new_dirs.push(None);
        } else {
            let d = relocated_dir(new_path, &dirs[i]);
            proof {
                assert(opt_view(d) == new_dir_of(new_path@, dirs@[i as int]@));
            }
            new_dirs.push(d);
        }
    }
    let r = SourceMove { unchanged, moves, new_dirs };
    proof {
        assert forall|i: int| 0 <= i < n implies opt_view(#[trigger] r.new_dirs@[i]) == new_dir_of(
            new_path@,
            strings_view(dirs@)[i],
        ) || unchanged by {
            assert(strings_view(dirs@)[i] == dirs@[i]@);
        }
    }
    Some(r)
}

} // verus!
