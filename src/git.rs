//! Version-control status reports, and the rules that classify a file's status.
use vstd::prelude::*;
use vstd::string::*;

verus! {

/// One changed file and its one-letter status code.
#[derive(Clone, Debug)]
pub struct GitFileStatus {
    pub path: String,
    pub status: String,
}

/// The branch, the unstaged changes and the staged changes of a repository.
#[derive(Clone, Debug)]
pub struct GitRepoStatus {
    pub branch: String,
    pub changes: Vec<GitFileStatus>,
    pub staged: Vec<GitFileStatus>,
}

/// One commit of the history.
#[derive(Clone, Debug)]
pub struct CommitInfo {
    pub id: String,
    pub message: String,
    pub author: String,
    pub date: String,
    pub parent_ids: Vec<String>,
}

/// The status bits of one file, in the working tree and in the index.
#[derive(Clone, Copy, Debug, PartialEq, Eq)]
pub struct StatusFlags {
    pub wt_new: bool,
    pub wt_modified: bool,
    pub wt_deleted: bool,
    pub wt_renamed: bool,
    pub wt_typechange: bool,
    pub index_new: bool,
    pub index_modified: bool,
    pub index_deleted: bool,
    pub index_renamed: bool,
    pub index_typechange: bool,
}

/// The number of commits listed when the caller names no limit.
pub const DEFAULT_HISTORY_LIMIT: usize = 50;

/// The branch name reported when the head is not on a branch.
pub open spec fn detached_name() -> Seq<char> {
    "DETACHED"@
}

/// The code of a working-tree change: U(ntracked), M(odified), D(eleted),
/// or ? for a rename or type change; none where the file is unchanged.
pub open spec fn worktree_code(f: StatusFlags) -> Option<Seq<char>> {
    if f.wt_new {
        Some("U"@)
    } else if f.wt_modified {
        Some("M"@)
    } else if f.wt_deleted {
        Some("D"@)
    } else if f.wt_renamed || f.wt_typechange {
        Some("?"@)
    } else {
        None
    }
}

/// The code of a staged change: A(dded), M(odified), D(eleted), or ? for a
/// rename or type change; none where nothing is staged.
pub open spec fn index_code(f: StatusFlags) -> Option<Seq<char>> {
    if f.index_new {
        Some("A"@)
    } else if f.index_modified {
        Some("M"@)
    } else if f.index_deleted {
        Some("D"@)
    } else if f.index_renamed || f.index_typechange {
        Some("?"@)
    } else {
        None
    }
}

/// The status of `path` as a working-tree change, if it is one.
pub fn worktree_status(path: &str, f: &StatusFlags) -> (r: Option<GitFileStatus>)
    ensures
        r is Some <==> worktree_code(*f) is Some,
        r matches Some(s) ==> s.path@ == path@ && Some(s.status@) == worktree_code(*f),
{
    let code = if f.wt_new {
        "U"
    } else if f.wt_modified {
        "M"
    } else if f.wt_deleted {
        "D"
    } else if f.wt_renamed || f.wt_typechange {
        "?"
    } else {
        return None;
    };
    Some(GitFileStatus { path: String::from_str(path), status: String::from_str(code) })
}

/// The status of `path` as a staged change, if it is one.
pub fn index_status(path: &str, f: &StatusFlags) -> (r: Option<GitFileStatus>)
    ensures
        r is Some <==> index_code(*f) is Some,
        r matches Some(s) ==> s.path@ == path@ && Some(s.status@) == index_code(*f),
{
    let code = if f.index_new {
        "A"
    } else if f.index_modified {
        "M"
    } else if f.index_deleted {
        "D"
    } else if f.index_renamed || f.index_typechange {
        "?"
    } else {
        return None;
    };
    Some(GitFileStatus { path: String::from_str(path), status: String::from_str(code) })
}

/// The working-tree changes of `entries`, in order.
pub open spec fn changes_of(entries: Seq<(Seq<char>, StatusFlags)>) -> Seq<(Seq<char>, Seq<char>)>
    decreases entries.len(),
{
    if entries.len() == 0 {
        Seq::empty()
    } else {
        let rest = changes_of(entries.drop_last());
        match worktree_code(entries.last().1) {
            Some(c) => rest.push((entries.last().0, c)),
            None => rest,
        }
    }
}

/// The staged changes of `entries`, in order.
pub open spec fn staged_of(entries: Seq<(Seq<char>, StatusFlags)>) -> Seq<(Seq<char>, Seq<char>)>
    decreases entries.len(),
{
    if entries.len() == 0 {
        Seq::empty()
    } else {
        let rest = staged_of(entries.drop_last());
        match index_code(entries.last().1) {
            Some(c) => rest.push((entries.last().0, c)),
            None => rest,
        }
    }
}

/// The plain view of a list of file statuses.
pub open spec fn statuses_view(v: Seq<GitFileStatus>) -> Seq<(Seq<char>, Seq<char>)> {
    v.map_values(|s: GitFileStatus| (s.path@, s.status@))
}

/// The plain view of status entries.
pub open spec fn entries_view(v: Seq<(String, StatusFlags)>) -> Seq<(Seq<char>, StatusFlags)> {
    v.map_values(|e: (String, StatusFlags)| (e.0@, e.1))
}

/// The repository status from the head's branch name (none when detached)
/// and each file's status bits: a file can be both changed and staged.
pub fn repo_status(branch: Option<String>, entries: &Vec<(String, StatusFlags)>) -> (r: GitRepoStatus)
    ensures
        r.branch@ == match branch {
            Some(b) => b@,
            None => detached_name(),
        },
        statuses_view(r.changes@) == changes_of(entries_view(entries@)),
        statuses_view(r.staged@) == staged_of(entries_view(entries@)),
{
    let branch = match branch {
        Some(b) => b,
        None => String::from_str("DETACHED"),
    };
    let mut changes: Vec<GitFileStatus> = Vec::new();
    let mut staged: Vec<GitFileStatus> = Vec::new();
    let ghost ev = entries_view(entries@);
    let mut i: usize = 0;
    while i < entries.len()
        invariant
            0 <= i <= entries@.len(),
            ev == entries_view(entries@),
            statuses_view(changes@) == changes_of(ev.subrange(0, i as int)),
            statuses_view(staged@) == staged_of(ev.subrange(0, i as int)),
        decreases entries@.len() - i,
    {
        let path = entries[i].0.as_str();
        let flags = entries[i].1;
        proof {
            assert(ev.subrange(0, i + 1).drop_last() =~= ev.subrange(0, i as int));
            assert(ev.subrange(0, i + 1).last() == ev[i as int]);
        }
        match worktree_status(path, &flags) {
            Some(s) => {
                changes.push(s);
                assert(statuses_view(changes@) =~= changes_of(ev.subrange(0, i + 1)));
            },
            None => {
                assert(statuses_view(changes@) =~= changes_of(ev.subrange(0, i + 1)));
            },
        }
        match index_status(path, &flags) {
            Some(s) => {
                staged.push(s);
                assert(statuses_view(staged@) =~= staged_of(ev.subrange(0, i + 1)));
            },
            None => {
                assert(statuses_view(staged@) =~= staged_of(ev.subrange(0, i + 1)));
            },
        }
        i += 1;
    }
    assert(ev.subrange(0, i as int) =~= ev);
    GitRepoStatus { branch, changes, staged }
}

/// How many commits to list: the caller's limit, else `DEFAULT_HISTORY_LIMIT`.
pub fn history_limit(limit: Option<usize>) -> (r: usize)
    ensures
        r == match limit {
            Some(n) => n,
            None => DEFAULT_HISTORY_LIMIT,
        },
{
    match limit {
        Some(n) => n,
        None => DEFAULT_HISTORY_LIMIT,
    }
}

/// The refspec that pushes `branch` to the branch of the same name.
pub fn push_refspec(branch: &str) -> (r: String)
    ensures
        r@ == "refs/heads/"@ + branch@ + ":refs/heads/"@ + branch@,
{
    let mut s = String::from_str("refs/heads/");
    s.append(branch);
    s.append(":refs/heads/");
    s.append(branch);
    s
}

} // verus!
