//! Deterministic, read-only directory walking, as a state machine: the
//! walker says what to look at next (list a directory, examine a path),
//! is told what was found, and decides. Entries are visited depth-first in
//! sorted order, symlinks are never followed, and version-control
//! directories are skipped.

use vstd::prelude::*;
use crate::order::{is_perm, sort_order, sorted_stable};
use crate::paths::{file_name_chars, file_name_spec};
use crate::provenance::{join_path, strs_view};
use crate::text::{chars_of, eq_lit, push_char, push_str, vv};

verus! {

/// A regular file found during the walk.
pub struct Entry {
    pub path: String,
    pub size: u64,
}

/// Work the walker still has to do.
pub enum Task {
    /// A directory to list.
    Dir(String),
    /// A directory entry to examine.
    Path(String),
}

/// The value of a [`Task`].
pub enum TaskV {
    Dir(Seq<char>),
    Path(Seq<char>),
}

impl View for Task {
    type V = TaskV;

    open spec fn view(&self) -> TaskV {
        match self {
            Task::Dir(p) => TaskV::Dir(p@),
            Task::Path(p) => TaskV::Path(p@),
        }
    }
}

/// What the walker asks for next.
pub enum Step {
    /// List this directory and report with [`Walker::listed`].
    List(String),
    /// Read this path's own metadata (not following a link) and report
    /// with [`Walker::examined`].
    Examine(String),
    /// Nothing is left.
    Done,
}

/// What a path's own metadata says it is.
pub enum Meta {
    Symlink,
    Dir,
    File(u64),
    Other,
}

/// What examining a path yields for the caller.
pub enum Found {
    /// A regular file to visit.
    File(Entry),
    /// A problem to report.
    Warning(String),
    /// Nothing to report.
    Nothing,
}

/// A walk in progress: the tasks still pending, the next one last.
pub struct Walker {
    pub pending: Vec<Task>,
}

/// The values of a list of tasks.
pub open spec fn tasks_view(v: Seq<Task>) -> Seq<TaskV> {
    v.map_values(|t: Task| t@)
}

/// Directory names that never hold dependency payloads.
pub open spec fn is_vcs_dir(name: Seq<char>) -> bool {
    name == ".git"@ || name == ".hg"@ || name == ".svn"@
}

/// `cannot read <path>: <reason>`.
pub open spec fn cannot_read(path: Seq<char>, reason: Seq<char>) -> Seq<char> {
    "cannot read "@ + path + ": "@ + reason
}

/// `cannot stat <path>: <reason>`.
pub open spec fn cannot_stat(path: Seq<char>, reason: Seq<char>) -> Seq<char> {
    "cannot stat "@ + path + ": "@ + reason
}

/// The children of `dir`, one `Path` task each, so that they are taken
/// in name order: `p` sorts the names, and the last task is taken first.
pub open spec fn child_tasks(dir: Seq<char>, names: Seq<Seq<char>>, p: Seq<usize>) -> Seq<TaskV> {
    Seq::new(p.len(), |i: int| TaskV::Path(join_path(dir, names[p[p.len() - 1 - i] as int])))
}

/// The message a failed read gives.
pub fn read_warning(path: &str, reason: &str) -> (r: String)
    ensures
        r@ == cannot_read(path@, reason@),
{
    let mut s = String::new();
    push_str(&mut s, "cannot read ");
    push_str(&mut s, path);
    push_str(&mut s, ": ");
    push_str(&mut s, reason);
    s
}

fn join_exec(dir: &str, name: &str) -> (r: String)
    ensures
        r@ == join_path(dir@, name@),
{
    let nc = chars_of(name);
    if nc.len() > 0 && nc[0] == '/' {
        return String::from_str(name);
    }
    let dc = chars_of(dir);
    let mut s = String::from_str(dir);
    if !(dc.len() == 0 || dc[dc.len() - 1] == '/') {
        push_char(&mut s, '/');
    }
    push_str(&mut s, name);
    s
}

impl Walker {
    /// A walk that starts by listing `root`.
    pub fn new(root: &str) -> (w: Walker)
        ensures
            tasks_view(w.pending@) == seq![TaskV::Dir(root@)],
    {
        let mut pending: Vec<Task> = Vec::new();
        pending.push(Task::Dir(String::from_str(root)));
        assert(tasks_view(pending@) =~= seq![TaskV::Dir(root@)]);
        Walker { pending }
    }

    /// Takes the next task: the last one pending.
    pub fn next(&mut self) -> (s: Step)
        ensures
            tasks_view(old(self).pending@).len() == 0 ==> s is Done && final(self).pending@.len() == 0,
            tasks_view(old(self).pending@).len() > 0 ==> {
                &&& tasks_view(final(self).pending@) == tasks_view(old(self).pending@).drop_last()
                &&& match tasks_view(old(self).pending@).last() {
                    TaskV::Dir(p) => s matches Step::List(q) && q@ == p,
                    TaskV::Path(p) => s matches Step::Examine(q) && q@ == p,
                }
            },
    {
        let ghost before = self.pending@;
        match self.pending.pop() {
            None => Step::Done,
            Some(t) => {
                assert(tasks_view(self.pending@) =~= tasks_view(before).drop_last());
                match t {
                    Task::Dir(p) => Step::List(p),
                    Task::Path(p) => Step::Examine(p),
                }
            },
        }
    }

    /// Reports the listing of `dir`: the names of its entries, or why it
    /// could not be listed. The entries are queued to be examined in name
    /// order; a failure gives a warning and nothing is queued.
    pub fn listed(&mut self, dir: &str, listing: Result<Vec<String>, String>) -> (w: Option<String>)
        ensures
            match listing {
                Ok(names) => w is None && exists|p: Seq<usize>|
                    {
                        &&& is_perm(p, names.len() as nat)
                        &&& sorted_stable(strs_view(names@), p)
                        &&& tasks_view(final(self).pending@) == tasks_view(old(self).pending@) + child_tasks(
                            dir@,
                            strs_view(names@),
                            p,
                        )
                    },
                Err(e) => w matches Some(m) && m@ == cannot_read(dir@, e@) && final(self).pending@
                    == old(self).pending@,
            },
    {
        match listing {
            Err(e) => Some(read_warning(dir, e.as_str())),
            Ok(names) => {
                let ghost nv = strs_view(names@);
                let mut keys: Vec<Vec<char>> = Vec::new();
                let mut k: usize = 0;
                while k < names.len()
                    invariant
                        k <= names.len(),
                        nv == strs_view(names@),
                        keys.len() == k,
                        forall|m: int| 0 <= m < k ==> (#[trigger] keys@[m])@ == nv[m],
                    decreases names.len() - k,
                {
                    keys.push(chars_of(names[k].as_str()));
                    k = k + 1;
                }
                assert(vv(keys@) =~= nv);
                let order = sort_order(&keys);
                let ghost start = tasks_view(self.pending@);
                let ghost want = child_tasks(dir@, nv, order@);
                let n = order.len();
                let mut i: usize = 0;
                while i < n
                    invariant
                        i <= n,
                        n == order.len(),
                        is_perm(order@, names.len() as nat),
                        nv == strs_view(names@),
                        want == child_tasks(dir@, nv, order@),
                        tasks_view(self.pending@) == start + want.take(i as int),
                    decreases n - i,
                {
                    let idx = order[n - 1 - i];
                    let path = join_exec(dir, names[idx].as_str());
                    let ghost before = tasks_view(self.pending@);
                    self.pending.push(Task::Path(path));
                    assert(want[i as int] == TaskV::Path(join_path(dir@, nv[idx as int])));
                    assert(tasks_view(self.pending@) =~= before.push(want[i as int]));
                    assert(want.take(i + 1) =~= want.take(i as int).push(want[i as int]));
                    i = i + 1;
                }
                assert(want.take(n as int) =~= want);
                None
            },
        }
    }

    /// Reports what examining `path` (without following links) found. A
    /// regular file is to be visited; a directory is queued for listing
    /// unless it is a version-control one; symlinks and anything else are
    /// passed over; a failure gives a warning.
    pub fn examined(&mut self, path: &str, meta: Result<Meta, String>) -> (f: Found)
        ensures
            match meta {
                Err(e) => f matches Found::Warning(m) && m@ == cannot_stat(path@, e@)
                    && final(self).pending@ == old(self).pending@,
                Ok(Meta::File(size)) => f matches Found::File(en) && en.path@ == path@ && en.size == size
                    && final(self).pending@ == old(self).pending@,
                Ok(Meta::Dir) => f is Nothing && if (file_name_spec(path@) matches Some(n) && is_vcs_dir(n)) {
                    final(self).pending@ == old(self).pending@
                } else {
                    tasks_view(final(self).pending@) == tasks_view(old(self).pending@).push(TaskV::Dir(path@))
                },
                Ok(_) => f is Nothing && final(self).pending@ == old(self).pending@,
            },
    {
        match meta {
            Err(e) => {
                let mut s = String::new();
                push_str(&mut s, "cannot stat ");
                push_str(&mut s, path);
                push_str(&mut s, ": ");
                push_str(&mut s, e.as_str());
                Found::Warning(s)
            },
            Ok(Meta::File(size)) => Found::File(Entry { path: String::from_str(path), size }),
            Ok(Meta::Dir) => {
                let pc = chars_of(path);
                let skip = match file_name_chars(&pc) {
                    Some(n) => eq_lit(&n, ".git") || eq_lit(&n, ".hg") || eq_lit(&n, ".svn"),
                    None => false,
                };
                if !skip {
                    let ghost before = tasks_view(self.pending@);
                    self.pending.push(Task::Dir(String::from_str(path)));
                    assert(tasks_view(self.pending@) =~= before.push(TaskV::Dir(path@)));
                }
                Found::Nothing
            },
            Ok(_) => Found::Nothing,
        }
    }
}

} // verus!
