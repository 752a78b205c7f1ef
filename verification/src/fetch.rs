//! The fetch action: resolves the named remote, downloads objects with
//! transfer progress, and summarizes what was received. A missing
//! remote and a failed download are non-fatal outcomes, not errors.

use vstd::prelude::*;

use crate::git::GitError;
use crate::text::dec_str;
use crate::text::str_eq;
use crate::text::u64_to_string;

verus! {

/// The fetch action for one repository: the repository path and the
/// name of the remote to fetch from.
pub struct GitFetch {
    pub dir: String,
    pub remote: String,
}

/// The fetch display name: `<remote> from <dir>`.
pub open spec fn fetch_name(remote: Seq<char>, dir: Seq<char>) -> Seq<char> {
    remote + " from "@ + dir
}

impl GitFetch {
    /// The display name: `<remote> from <dir>`.
    pub fn get_name(&self) -> (s: String)
        ensures
            s@ =~= fetch_name(self.remote@, self.dir@),
    {
        self.remote.clone().concat(" from ").concat(self.dir.as_str())
    }
}

/// The non-fatal message when the repository has no remote of the
/// wanted name.
pub open spec fn missing_remote_msg(remote: Seq<char>, dir: Seq<char>) -> Seq<char> {
    "remote named "@ + remote + " not found for "@ + dir
}

/// Decides the fetch against the repository's remote list: `None`
/// proceeds with the download, `Some` carries the descriptive
/// non-fatal outcome for a remote that is absent.
pub fn fetch_plan(remotes: &Vec<String>, remote: &str, dir: &str) -> (r: Option<String>)
    ensures
        (r is None) <==> (exists|k: int| 0 <= k < remotes@.len() && #[trigger] remotes@[k]@
            == remote@),
        r matches Some(m) ==> m@ =~= missing_remote_msg(remote@, dir@),
{
    let mut k: usize = 0;
    while k < remotes.len()
        invariant
            k <= remotes.len(),
            forall|k0: int| 0 <= k0 < k ==> #[trigger] remotes@[k0]@ != remote@,
        decreases remotes.len() - k,
    {
        if str_eq(remotes[k].as_str(), remote) {
            return None;
        }
        k += 1;
    }
    Some(
        String::from_str("remote named ").concat(remote).concat(" not found for ").concat(dir),
    )
}

/// The non-fatal summary when the object download itself fails.
pub fn download_failed_msg(err: &GitError) -> (s: String)
    ensures
        s@ =~= "Failed with error: "@ + err.message@,
{
    String::from_str("Failed with error: ").concat(err.message.as_str())
}

/// The transfer summary: indexed over total objects and bytes
/// received, noting local-object reuse when there was any.
pub open spec fn fetch_summary_spec(indexed: nat, total: nat, bytes: nat, local: nat) -> Seq<
    char,
> {
    let base = "Received "@ + dec_str(indexed) + "/"@ + dec_str(total) + " objects in "@ + dec_str(
        bytes,
    ) + " bytes"@;
    if local > 0 {
        base + " (used "@ + dec_str(local) + " local objects)"@
    } else {
        base
    }
}

/// Renders the transfer summary from the download statistics.
pub fn fetch_summary(indexed: u64, total: u64, bytes: u64, local: u64) -> (s: String)
    ensures
        s@ =~= fetch_summary_spec(indexed as nat, total as nat, bytes as nat, local as nat),
{
    let base = String::from_str("Received ").concat(u64_to_string(indexed).as_str()).concat(
        "/",
    ).concat(u64_to_string(total).as_str()).concat(" objects in ").concat(
        u64_to_string(bytes).as_str(),
    ).concat(" bytes");
    if local > 0 {
        base.concat(" (used ").concat(u64_to_string(local).as_str()).concat(" local objects)")
    } else {
        base
    }
}

} // verus!
