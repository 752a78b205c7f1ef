//! The clone action: planning which repositories to clone where, SSH
//! transport detection, and the success summary.

use vstd::prelude::*;

use crate::text::contains_seq;
use crate::text::str_contains;

verus! {

/// One repository to clone: its remote URL and the local path it goes
/// to.
pub struct GitRepo {
    pub remote_url: String,
    pub local_path: String,
}

/// The clone action: the remote URL, the destination path, and whether
/// the URL's transport calls for SSH credentials.
pub struct GitClone {
    pub remote_url: String,
    pub local_path: String,
    pub use_ssh: bool,
}

/// The SSH transport marker in a remote URL.
pub open spec fn ssh_marker() -> Seq<char> {
    seq!['g', 'i', 't', '@']
}

/// A URL indicates SSH transport when it carries the SSH marker.
pub open spec fn is_ssh_url(url: Seq<char>) -> bool {
    contains_seq(url, ssh_marker())
}

/// Whether the URL indicates SSH transport.
pub fn uses_ssh(url: &str) -> (r: bool)
    ensures
        r == is_ssh_url(url@),
{
    proof {
        reveal_strlit("git@");
        assert("git@"@ =~= ssh_marker());
    }
    str_contains(url, "git@")
}

/// The last separator-delimited segment of `s`.
pub open spec fn last_seg(s: Seq<char>) -> Seq<char>
    decreases s.len(),
{
    if s.len() == 0 {
        Seq::empty()
    } else if s.last() == '/' {
        Seq::empty()
    } else {
        last_seg(s.drop_last()).push(s.last())
    }
}

/// The prefix of `s` up to (excluding) its first dot.
pub open spec fn before_dot(s: Seq<char>) -> Seq<char>
    decreases s.len(),
{
    if s.len() == 0 {
        Seq::empty()
    } else if s.first() == '.' {
        Seq::empty()
    } else {
        seq![s.first()] + before_dot(s.drop_first())
    }
}

/// The repository name a remote URL implies: the last
/// separator-delimited segment, up to its first dot.
pub open spec fn repo_name_of(url: Seq<char>) -> Seq<char> {
    before_dot(last_seg(url))
}

proof fn lemma_last_seg_at(s: Seq<char>, k: int)
    requires
        0 <= k <= s.len(),
        k == 0 || s[k - 1] == '/',
        forall|j: int| k <= j < s.len() ==> s[j] != '/',
    ensures
        last_seg(s) =~= s.subrange(k, s.len() as int),
    decreases s.len(),
{
    if s.len() == 0 {
    } else if k == s.len() {
        assert(s.last() == '/');
    } else {
        assert(s[s.len() - 1] != '/');
        lemma_last_seg_at(s.drop_last(), k);
        assert(s.subrange(k, s.len() as int) =~= s.drop_last().subrange(
            k,
            s.len() - 1,
        ).push(s.last()));
    }
}

proof fn lemma_before_dot_at(s: Seq<char>, m: int)
    requires
        0 <= m <= s.len(),
        forall|j: int| 0 <= j < m ==> s[j] != '.',
        m == s.len() || s[m] == '.',
    ensures
        before_dot(s) =~= s.subrange(0, m),
    decreases s.len(),
{
    if s.len() == 0 {
    } else if s.first() == '.' {
        assert(m == 0);
    } else {
        assert(m >= 1);
        lemma_before_dot_at(s.drop_first(), m - 1);
        assert(s.subrange(0, m) =~= seq![s.first()] + s.drop_first().subrange(0, m - 1));
    }
}

/// Extracts the repository name from a remote URL.
pub fn repo_name(url: &str) -> (name: String)
    ensures
        name@ =~= repo_name_of(url@),
{
    let len = url.unicode_len();
    let mut start: usize = 0;
    let mut i: usize = 0;
    while i < len
        invariant
            len == url@.len(),
            i <= len,
            start <= i,
            start == 0 || url@[start - 1] == '/',
            forall|j: int| start <= j < i ==> url@[j] != '/',
        decreases len - i,
    {
        if url.get_char(i) == '/' {
            start = i + 1;
        }
        i += 1;
    }
    let mut end: usize = start;
    let mut found = false;
    while !found && end < len
        invariant
            len == url@.len(),
            start <= end <= len,
            forall|j: int| start <= j < end ==> url@[j] != '.',
            found ==> end < len && url@[end as int] == '.',
        decreases len - end, (if found { 0int } else { 1int }),
    {
        if url.get_char(end) == '.' {
            found = true;
        } else {
            end += 1;
        }
    }
    let name = url.substring_char(start, end);
    proof {
        lemma_last_seg_at(url@, start as int);
        let t = url@.subrange(start as int, len as int);
        lemma_before_dot_at(t, end - start);
        assert(t.subrange(0, end - start) =~= url@.subrange(start as int, end as int));
    }
    name.to_owned()
}

impl GitClone {
    /// The display name: the remote URL.
    pub fn get_name(&self) -> (s: String)
        ensures
            s@ == self.remote_url@,
    {
        self.remote_url.clone()
    }

    /// Builds the clone action for one configured repository,
    /// selecting SSH credentials exactly when the URL carries the SSH
    /// marker.
    pub fn from_repo(repo: GitRepo) -> (c: GitClone)
        ensures
            c.remote_url == repo.remote_url,
            c.local_path == repo.local_path,
            c.use_ssh == is_ssh_url(repo.remote_url@),
    {
        let use_ssh = uses_ssh(repo.remote_url.as_str());
        GitClone { remote_url: repo.remote_url, local_path: repo.local_path, use_ssh }
    }
}

/// The clone destination for a URL passed as an argument: the
/// repository name under the local root.
pub fn clone_target(local_path: &str, url: &str) -> (p: String)
    ensures
        p@ =~= local_path@ + seq!['/'] + repo_name_of(url@),
{
    proof {
        reveal_strlit("/");
    }
    String::from_str(local_path).concat("/").concat(repo_name(url).as_str())
}

/// Plans the whole clone batch: one action per URL argument, cloned
/// under the local root, then one per configured repository, in order;
/// every action selects SSH credentials exactly when its URL carries
/// the SSH marker.
pub fn plan_clones(remote_urls: &Vec<String>, local_path: &str, clone_repos: Vec<GitRepo>) -> (plan:
    Vec<GitClone>)
    ensures
        plan@.len() == remote_urls@.len() + clone_repos@.len(),
        forall|i: int|
            0 <= i < remote_urls@.len() ==> {
                let c = #[trigger] plan@[i];
                c.remote_url == remote_urls@[i] && c.local_path@ =~= local_path@ + seq!['/']
                    + repo_name_of(remote_urls@[i]@) && c.use_ssh == is_ssh_url(remote_urls@[i]@)
            },
        forall|j: int|
            0 <= j < clone_repos@.len() ==> {
                let c = #[trigger] plan@[remote_urls@.len() + j];
                c.remote_url == clone_repos@[j].remote_url && c.local_path
                    == clone_repos@[j].local_path && c.use_ssh == is_ssh_url(
                    clone_repos@[j].remote_url@,
                )
            },
{
    let mut plan: Vec<GitClone> = Vec::new();
    let mut i: usize = 0;
    while i < remote_urls.len()
        invariant
            i <= remote_urls.len(),
            plan@.len() == i,
            forall|k: int|
                0 <= k < i ==> {
                    let c = #[trigger] plan@[k];
                    c.remote_url == remote_urls@[k] && c.local_path@ =~= local_path@ + seq!['/']
                        + repo_name_of(remote_urls@[k]@) && c.use_ssh == is_ssh_url(
                        remote_urls@[k]@,
                    )
                },
        decreases remote_urls.len() - i,
    {
        let url = remote_urls[i].clone();
        let target = clone_target(local_path, url.as_str());
        let use_ssh = uses_ssh(url.as_str());
        plan.push(GitClone { remote_url: url, local_path: target, use_ssh });
        i += 1;
    }
    let mut repos = clone_repos;
    let ghost repos_view = repos@;
    let mut j: usize = 0;
    while j < repos.len()
        invariant
            repos@ == repos_view,
            j <= repos.len(),
            plan@.len() == remote_urls@.len() + j,
            forall|k: int|
                0 <= k < remote_urls@.len() ==> {
                    let c = #[trigger] plan@[k];
                    c.remote_url == remote_urls@[k] && c.local_path@ =~= local_path@ + seq!['/']
                        + repo_name_of(remote_urls@[k]@) && c.use_ssh == is_ssh_url(
                        remote_urls@[k]@,
                    )
                },
            forall|k: int|
                0 <= k < j ==> {
                    let c = #[trigger] plan@[remote_urls@.len() + k];
                    c.remote_url == repos_view[k].remote_url && c.local_path
                        == repos_view[k].local_path && c.use_ssh == is_ssh_url(
                        repos_view[k].remote_url@,
                    )
                },
        decreases repos.len() - j,
    {
        let repo = GitRepo {
            remote_url: repos[j].remote_url.clone(),
            local_path: repos[j].local_path.clone(),
        };
        plan.push(GitClone::from_repo(repo));
        j += 1;
    }
    plan
}

/// The success summary naming the destination path.
pub fn clone_summary(local_path: &str) -> (s: String)
    ensures
        s@ =~= "Remote repo cloned locally at "@ + local_path@,
{
    String::from_str("Remote repo cloned locally at ").concat(local_path)
}

} // verus!
