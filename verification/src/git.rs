//! The repository-action abstraction: the sum of the operation kinds
//! the batch runner schedules, each carrying its own parameters and a
//! stable display name, plus the action-level error type.

use vstd::prelude::*;

use crate::branches::GitBranches;
use crate::clone::GitClone;
use crate::fetch::fetch_name;
use crate::fetch::GitFetch;
use crate::status::GitStatus;
use crate::text::str_eq;

verus! {

/// The failure of one repository operation: a message rendered on that
/// task's line. It never aborts sibling tasks.
pub struct GitError {
    pub message: String,
}

/// One unit of work: a single repository operation, consumed exactly
/// once by execution.
pub enum GitAction {
    Status(GitStatus),
    Fetch(GitFetch),
    Clone(GitClone),
    Branches(GitBranches),
}

/// The stable display name used as the progress-line prefix: the
/// repository path, the remote URL, or `<remote> from <dir>`.
pub open spec fn action_name_spec(action: GitAction) -> Seq<char> {
    match action {
        GitAction::Status(s) => s.dir@,
        GitAction::Fetch(f) => fetch_name(f.remote@, f.dir@),
        GitAction::Clone(c) => c.remote_url@,
        GitAction::Branches(b) => b.repo_path@,
    }
}

impl GitAction {
    /// The stable display name of this action.
    pub fn get_name(&self) -> (s: String)
        ensures
            s@ =~= action_name_spec(*self),
    {
        match self {
            GitAction::Status(st) => st.get_name(),
            GitAction::Fetch(f) => f.get_name(),
            GitAction::Clone(c) => c.get_name(),
            GitAction::Branches(b) => b.get_name(),
        }
    }
}

/// Strips the scan root from a repository path for display, yielding a
/// path relative to the current directory.
pub fn relative_path(dir: &str, root: &str) -> (s: String)
    ensures
        dir@.len() >= root@.len() && dir@.take(root@.len() as int) == root@ ==> s@ =~= seq!['.']
            + dir@.skip(root@.len() as int),
        !(dir@.len() >= root@.len() && dir@.take(root@.len() as int) == root@) ==> s@ =~= seq!['.']
            + dir@,
{
    proof {
        reveal_strlit(".");
    }
    let dlen = dir.unicode_len();
    let rlen = root.unicode_len();
    if dlen >= rlen {
        let head = dir.substring_char(0, rlen);
        if str_eq(head, root) {
            let tail = dir.substring_char(rlen, dlen);
            return String::from_str(".").concat(tail);
        }
    }
    String::from_str(".").concat(dir)
}

} // verus!
