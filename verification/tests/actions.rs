use gg::branches::branch_report;
use gg::branches::GitBranches;
use gg::clone::clone_summary;
use gg::clone::plan_clones;
use gg::clone::repo_name;
use gg::clone::uses_ssh;
use gg::clone::GitClone;
use gg::clone::GitRepo;
use gg::conf::create_filter_list;
use gg::conf::ssh_auth_callback;
use gg::conf::CredentialPlan;
use gg::conf::GGConf;
use gg::conf::SSHConfig;
use gg::create::create_response_outcome;
use gg::create::GitPlatform;
use gg::fetch::download_failed_msg;
use gg::fetch::fetch_plan;
use gg::fetch::fetch_summary;
use gg::fetch::GitFetch;
use gg::git::relative_path;
use gg::git::GitAction;
use gg::git::GitError;
use gg::status::EntryStatus;
use gg::status::GitStatus;

fn entry(
    wt_new: bool,
    wt_deleted: bool,
    wt_renamed: bool,
    wt_typechange: bool,
    wt_modified: bool,
) -> EntryStatus {
    EntryStatus { wt_new, wt_deleted, wt_renamed, wt_typechange, wt_modified }
}

#[test]
fn status_summary_exact() {
    let st = GitStatus { dir: String::from("/repo") };
    let entries = vec![entry(false, false, false, false, true)];
    assert_eq!(st.summarize(&entries, 2, 1), "modifications, 2 ahead, 1 behind");
    assert_eq!(st.summarize(&entries, 0, 0), "modifications");
}

#[test]
fn status_clean_repository_sentinel() {
    let st = GitStatus { dir: String::from("/repo") };
    let clean = vec![entry(false, false, false, false, false)];
    assert_eq!(st.summarize(&clean, 0, 0), "no changes");
    assert_eq!(st.summarize(&Vec::new(), 0, 0), "no changes");
}

#[test]
fn status_categories_deduplicated_and_sorted() {
    let st = GitStatus { dir: String::from("/repo") };
    let entries = vec![
        entry(true, false, false, false, true),
        entry(true, true, true, true, true),
        entry(false, false, true, false, false),
    ];
    assert_eq!(
        st.summarize(&entries, 0, 0),
        "deletions, modifications, new files, renames, typechanges"
    );
}

#[test]
fn status_is_idempotent_on_unmodified_repository() {
    // Two runs against the same observed state render the same line.
    let st = GitStatus { dir: String::from("/repo") };
    let clean: Vec<EntryStatus> = Vec::new();
    let first = st.summarize(&clean, 0, 0);
    let second = st.summarize(&clean, 0, 0);
    assert_eq!(first, second);
    assert_eq!(first, "no changes");
}

#[test]
fn status_ahead_only_when_nonzero() {
    let st = GitStatus { dir: String::from("/repo") };
    assert_eq!(st.summarize(&Vec::new(), 3, 0), "3 ahead");
    assert_eq!(st.summarize(&Vec::new(), 0, 4), "4 behind");
}

#[test]
fn fetch_name_and_plan() {
    let f = GitFetch { dir: String::from("/repo"), remote: String::from("origin") };
    assert_eq!(f.get_name(), "origin from /repo");
    let remotes = vec![String::from("upstream"), String::from("origin")];
    assert_eq!(fetch_plan(&remotes, "origin", "/repo"), None);
    let missing = fetch_plan(&vec![String::from("upstream")], "origin", "/repo");
    assert_eq!(missing, Some(String::from("remote named origin not found for /repo")));
}

#[test]
fn fetch_summary_exact() {
    assert_eq!(fetch_summary(3, 10, 999, 0), "Received 3/10 objects in 999 bytes");
    assert_eq!(
        fetch_summary(10, 10, 2048, 2),
        "Received 10/10 objects in 2048 bytes (used 2 local objects)"
    );
}

#[test]
fn fetch_download_failure_is_not_fatal_text() {
    let err = GitError { message: String::from("connection reset") };
    assert_eq!(download_failed_msg(&err), "Failed with error: connection reset");
}

#[test]
fn ssh_url_detection() {
    assert!(uses_ssh("git@github.com:user/repo.git"));
    assert!(!uses_ssh("https://github.com/user/repo.git"));
}

#[test]
fn repo_name_from_url() {
    assert_eq!(repo_name("https://host/user/repo.git"), "repo");
    assert_eq!(repo_name("git@github.com:user/tool.git"), "tool");
    assert_eq!(repo_name("plain"), "plain");
    assert_eq!(repo_name("trailing/"), "");
}

#[test]
fn clone_planning_detects_transport() {
    let args = vec![
        String::from("git@github.com:user/repo.git"),
        String::from("https://host/user/web.git"),
    ];
    let conf = vec![GitRepo {
        remote_url: String::from("git@host:team/conf.git"),
        local_path: String::from("/srv/conf"),
    }];
    let plan = plan_clones(&args, "/work", conf);
    assert_eq!(plan.len(), 3);
    assert_eq!(plan[0].remote_url, "git@github.com:user/repo.git");
    assert_eq!(plan[0].local_path, "/work/repo");
    assert!(plan[0].use_ssh);
    assert_eq!(plan[1].local_path, "/work/web");
    assert!(!plan[1].use_ssh);
    assert_eq!(plan[2].remote_url, "git@host:team/conf.git");
    assert_eq!(plan[2].local_path, "/srv/conf");
    assert!(plan[2].use_ssh);
}

#[test]
fn clone_summary_names_destination() {
    assert_eq!(
        clone_summary("/work/repo"),
        "Remote repo cloned locally at /work/repo"
    );
}

#[test]
fn branch_report_lines() {
    assert_eq!(branch_report("dev", None), "No such branch dev found");
    assert_eq!(branch_report("dev", Some((2, 0))), "Branch dev: 2 ahead");
    assert_eq!(branch_report("dev", Some((2, 3))), "Branch dev: 2 ahead, 3 behind");
    assert_eq!(branch_report("dev", Some((0, 0))), "Branch dev: ");
}

#[test]
fn branch_batch_skips_main_and_isolates_failures() {
    let gb = GitBranches {
        repo_path: String::from("/repo"),
        main_branch: String::from("master"),
    };
    let branches = vec![
        String::from("dev"),
        String::from("broken"),
        String::from("master"),
        String::from("feat"),
    ];
    let resolutions = vec![Some((1, 0)), None, Some((9, 9)), Some((0, 2))];
    let reports = gb.compare_branches(&branches, &resolutions);
    assert_eq!(
        reports,
        vec![
            String::from("Branch dev: 1 ahead"),
            String::from("No such branch broken found"),
            String::from("Branch feat: 2 behind"),
        ]
    );
    // The unresolvable branch affects its own line only.
    let resolved = vec![Some((1, 0)), Some((5, 5)), Some((9, 9)), Some((0, 2))];
    let again = gb.compare_branches(&branches, &resolved);
    assert_eq!(again[0], reports[0]);
    assert_eq!(again[2], reports[2]);
    assert_eq!(again[1], "Branch broken: 5 ahead, 5 behind");
}

#[test]
fn platform_selection() {
    assert_eq!(GitPlatform::from_str("github"), Some(GitPlatform::Github));
    assert_eq!(GitPlatform::from_str("gitlab"), None);
}

#[test]
fn create_response_decisions() {
    let no_errors: Vec<String> = Vec::new();
    assert_eq!(
        create_response_outcome(&no_errors, Some(String::from("https://h/u/r.git"))),
        Ok(String::from("https://h/u/r.git"))
    );
    assert_eq!(
        create_response_outcome(&no_errors, None),
        Err(String::from("Failed to get remote url from response"))
    );
    let errors = vec![String::from("name already taken"), String::from("other")];
    assert_eq!(
        create_response_outcome(&errors, Some(String::from("u"))),
        Err(String::from("name already taken"))
    );
}

#[test]
fn credential_plan_follows_agent_flag() {
    let agent = SSHConfig {
        private_key: String::from("/home/u/.ssh/id_rsa"),
        username: String::from("git"),
        ssh_agent: true,
    };
    match ssh_auth_callback(&agent) {
        CredentialPlan::Agent { username } => assert_eq!(username, "git"),
        CredentialPlan::KeyFile { .. } => panic!("agent configuration must use the agent"),
    }
    let keyed = SSHConfig { ssh_agent: false, ..agent };
    match ssh_auth_callback(&keyed) {
        CredentialPlan::KeyFile { username, private_key } => {
            assert_eq!(username, "git");
            assert_eq!(private_key, "/home/u/.ssh/id_rsa");
        }
        CredentialPlan::Agent { .. } => panic!("key configuration must use the key file"),
    }
}

#[test]
fn default_configurations_are_empty() {
    let ssh = SSHConfig::default();
    assert_eq!(ssh.private_key, "");
    assert_eq!(ssh.username, "");
    assert!(!ssh.ssh_agent);
    let conf = GGConf::default();
    assert!(conf.filter_list.is_empty());
    assert!(conf.filter_list_regex.is_empty());
    assert!(conf.clone_repos.is_empty());
    assert!(conf.ssh_config.is_none());
}

#[test]
fn filter_list_compilation_appends_defaults() {
    let mut conf = GGConf::default();
    conf.filter_list = vec![String::from("target")];
    assert_eq!(create_filter_list(&mut conf), Ok(()));
    assert_eq!(
        conf.filter_list,
        vec![
            String::from("target"),
            String::from(".idea"),
            String::from(".DS_Store"),
        ]
    );
    assert_eq!(conf.filter_list_regex.len(), 3);
}

#[test]
fn filter_list_reports_invalid_pattern() {
    let mut conf = GGConf::default();
    // An unclosed group cannot compile; the configuration is left
    // untouched and the message names the offending pattern.
    conf.filter_list = vec![String::from("(broken")];
    let result = create_filter_list(&mut conf);
    assert_eq!(
        result,
        Err(String::from("failed to construct regex .*/(broken?*"))
    );
    assert_eq!(conf.filter_list, vec![String::from("(broken")]);
    assert!(conf.filter_list_regex.is_empty());
}

#[test]
fn action_names_dispatch() {
    let status = GitAction::Status(GitStatus { dir: String::from("/repo") });
    assert_eq!(status.get_name(), "/repo");
    let fetch = GitAction::Fetch(GitFetch {
        dir: String::from("/repo"),
        remote: String::from("origin"),
    });
    assert_eq!(fetch.get_name(), "origin from /repo");
    let clone = GitAction::Clone(GitClone {
        remote_url: String::from("git@h:u/r.git"),
        local_path: String::from("/r"),
        use_ssh: true,
    });
    assert_eq!(clone.get_name(), "git@h:u/r.git");
    let branches = GitAction::Branches(GitBranches {
        repo_path: String::from("/repo"),
        main_branch: String::from("master"),
    });
    assert_eq!(branches.get_name(), "/repo");
}

#[test]
fn relative_path_strips_root() {
    assert_eq!(relative_path("/root/a", "/root"), "./a");
    assert_eq!(relative_path("/elsewhere/a", "/root"), "./elsewhere/a");
}
