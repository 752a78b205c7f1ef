//! The create command's decisions: which hosting platform a name
//! selects and what the repository-creation response means.

use vstd::prelude::*;

use crate::text::str_eq;

verus! {

/// The remote hosting platform a repository can be created on.
#[derive(Clone, Copy, PartialEq, Eq, Structural, Debug)]
pub enum GitPlatform {
    Github,
}

impl GitPlatform {
    /// Selects the platform by name; only the GitHub name is
    /// supported.
    pub fn from_str(platform: &str) -> (r: Option<GitPlatform>)
        ensures
            (r is Some) <==> platform@ == "github"@,
            r is Some ==> r->0 is Github,
    {
        if str_eq(platform, "github") {
            Some(GitPlatform::Github)
        } else {
            None
        }
    }
}

/// Decides the outcome of the repository-creation response: any
/// reported error wins and carries the first error message; otherwise
/// the clone URL is required and returned.
pub fn create_response_outcome(errors: &Vec<String>, clone_url: Option<String>) -> (r: Result<
    String,
    String,
>)
    ensures
        errors@.len() > 0 ==> (r matches Err(m) && m@ == errors@[0]@),
        errors@.len() == 0 && clone_url is Some ==> (r matches Ok(u) && u == clone_url->0),
        errors@.len() == 0 && clone_url is None ==> (r matches Err(m) && m@
            == "Failed to get remote url from response"@),
{
    if errors.len() > 0 {
        Err(errors[0].clone())
    } else {
        match clone_url {
            Some(url) => Ok(url),
            None => Err(String::from_str("Failed to get remote url from response")),
        }
    }
}

} // verus!
