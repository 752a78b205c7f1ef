//! Configuration data: the ignore-filter list with its compiled
//! patterns, the repositories to clone, and the SSH credential
//! settings with the decision they imply.

use vstd::prelude::*;

use crate::clone::GitRepo;
use crate::pattern::regex_new;
use crate::pattern::regex_pattern;

verus! {

/// SSH credential settings: the key file, the user name, and whether
/// the agent is used instead of the key file.
pub struct SSHConfig {
    pub private_key: String,
    pub username: String,
    pub ssh_agent: bool,
}

impl Default for SSHConfig {
    /// An empty configuration: no key, no user, no agent.
    fn default() -> (c: SSHConfig)
        ensures
            c.private_key@ =~= Seq::<char>::empty(),
            c.username@ =~= Seq::<char>::empty(),
            !c.ssh_agent,
    {
        SSHConfig { private_key: String::new(), username: String::new(), ssh_agent: false }
    }
}

/// The full configuration: the ignore names and their compiled
/// patterns, the repositories to clone, and the optional SSH settings.
pub struct GGConf {
    pub filter_list: Vec<String>,
    pub filter_list_regex: Vec<regex::Regex>,
    pub clone_repos: Vec<GitRepo>,
    pub ssh_config: Option<SSHConfig>,
}

impl GGConf {
    /// An empty configuration.
    pub fn default() -> (c: GGConf)
        ensures
            c.filter_list@.len() == 0,
            c.filter_list_regex@.len() == 0,
            c.clone_repos@.len() == 0,
            c.ssh_config is None,
    {
        GGConf {
            filter_list: Vec::new(),
            filter_list_regex: Vec::new(),
            clone_repos: Vec::new(),
            ssh_config: None,
        }
    }
}

/// The ignore pattern compiled for one configured name: it matches the
/// name anywhere below a directory.
pub open spec fn ignore_pattern_of(name: Seq<char>) -> Seq<char> {
    ".*/"@ + name + "?*"@
}

/// The filter names that are always excluded, appended to the
/// configured ones.
pub open spec fn default_filters() -> Seq<Seq<char>> {
    seq![".idea"@, ".DS_Store"@]
}

/// The error message for a name whose pattern does not compile.
pub open spec fn invalid_pattern_msg(pattern: Seq<char>) -> Seq<char> {
    "failed to construct regex "@ + pattern
}

/// The full filter name list a configuration implies: the configured
/// names followed by the built-in defaults.
pub open spec fn filter_names(conf: GGConf) -> Seq<Seq<char>> {
    conf.filter_list.deep_view() + default_filters()
}

/// The message reports the pattern of one of the names.
pub open spec fn reported_invalid(names: Seq<Seq<char>>, m: Seq<char>) -> bool {
    exists|i: int| 0 <= i < names.len() && m == invalid_pattern_msg(ignore_pattern_of(#[trigger] names[i]))
}

fn ignore_pattern(name: &str) -> (p: String)
    ensures
        p@ =~= ignore_pattern_of(name@),
{
    String::from_str(".*/").concat(name).concat("?*")
}

/// Compiles the filter list: the configured names followed by the
/// built-in defaults become `filter_list`, and their patterns are
/// compiled into `filter_list_regex`, in the same order. A name whose
/// pattern does not compile is reported and leaves the configuration
/// unchanged.
pub fn create_filter_list(conf: &mut GGConf) -> (r: Result<(), String>)
    ensures
        r is Ok ==> {
            let names = filter_names(*old(conf));
            let compiled = final(conf).filter_list_regex@;
            &&& final(conf).filter_list.deep_view() =~= names
            &&& compiled.len() == names.len()
            &&& forall|i: int|
                0 <= i < names.len() ==> regex_pattern(#[trigger] compiled[i])
                    == ignore_pattern_of(names[i])
        },
        r is Ok ==> final(conf).clone_repos == old(conf).clone_repos && final(conf).ssh_config
            == old(conf).ssh_config,
        r matches Err(m) ==> *final(conf) == *old(conf) && reported_invalid(
            filter_names(*old(conf)),
            m@,
        ),
{
    let ghost names = filter_names(*conf);
    let mut filters: Vec<String> = Vec::new();
    let mut i: usize = 0;
    while i < conf.filter_list.len()
        invariant
            *conf == *old(conf),
            names == filter_names(*conf),
            i <= conf.filter_list.len(),
            filters.deep_view() =~= conf.filter_list.deep_view().take(i as int),
        decreases conf.filter_list.len() - i,
    {
        let ghost before = filters.deep_view();
        let entry = conf.filter_list[i].clone();
        proof {
            assert(entry@ == conf.filter_list@[i as int]@);
        }
        filters.push(entry);
        proof {
            let dv = filters.deep_view();
            let tk = conf.filter_list.deep_view().take(i as int + 1);
            assert(before.len() == i);
            assert(dv.len() == tk.len());
            assert forall|j: int| 0 <= j < dv.len() implies dv[j] == tk[j] by {
                if j < i {
                    assert(dv[j] == before[j]);
                } else {
                    assert(filters@[j] == entry);
                }
            }
            assert(dv =~= tk);
        }
        i += 1;
    }
    proof {
        assert(conf.filter_list.deep_view().take(conf.filter_list@.len() as int)
            =~= conf.filter_list.deep_view());
        reveal_strlit(".idea");
        reveal_strlit(".DS_Store");
    }
    filters.push(String::from_str(".idea"));
    filters.push(String::from_str(".DS_Store"));
    proof {
        assert(filters.deep_view() =~= names);
    }
    let mut regexes: Vec<regex::Regex> = Vec::new();
    let mut k: usize = 0;
    while k < filters.len()
        invariant
            *conf == *old(conf),
            names == filter_names(*conf),
            k <= filters.len(),
            filters.deep_view() =~= names,
            regexes@.len() == k,
            forall|k0: int|
                0 <= k0 < k ==> regex_pattern(#[trigger] regexes@[k0]) == ignore_pattern_of(
                    names[k0],
                ),
        decreases filters.len() - k,
    {
        let pattern = ignore_pattern(filters[k].as_str());
        match regex_new(pattern.as_str()) {
            Some(re) => {
                regexes.push(re);
            },
            None => {
                let msg = String::from_str("failed to construct regex ").concat(pattern.as_str());
                proof {
                    assert(msg@ == invalid_pattern_msg(ignore_pattern_of(names[k as int]))) by {
                        assert(msg@ =~= invalid_pattern_msg(ignore_pattern_of(names[k as int])));
                    }
                    assert(reported_invalid(names, msg@));
                }
                return Err(msg);
            },
        }
        k += 1;
    }
    conf.filter_list = filters;
    conf.filter_list_regex = regexes;
    Ok(())
}

/// How network authentication will be performed over SSH transport.
pub enum CredentialPlan {
    Agent { username: String },
    KeyFile { username: String, private_key: String },
}

/// Decides the credential source from the SSH settings: the agent
/// exactly when `ssh_agent` is set, else the configured key file, in
/// both cases under the configured user name.
pub fn ssh_auth_callback(conf: &SSHConfig) -> (p: CredentialPlan)
    ensures
        conf.ssh_agent ==> (p matches CredentialPlan::Agent { username } && username
            == conf.username),
        !conf.ssh_agent ==> (p matches CredentialPlan::KeyFile { username, private_key }
            && username == conf.username && private_key == conf.private_key),
{
    if conf.ssh_agent {
        CredentialPlan::Agent { username: conf.username.clone() }
    } else {
        CredentialPlan::KeyFile {
            username: conf.username.clone(),
            private_key: conf.private_key.clone(),
        }
    }
}

} // verus!
