use gg::git::GitAction;
use gg::git::GitError;
use gg::progress::run_batch;
use gg::progress::ProgressReporter;
use gg::progress::ProgressTracker;
use gg::progress::ReporterState;
use gg::status::EntryStatus;
use gg::status::GitStatus;

fn status_action(dir: &str) -> GitAction {
    GitAction::Status(GitStatus { dir: String::from(dir) })
}

#[test]
fn reporter_lifecycle_states() {
    let mut r = ProgressReporter::new("origin from /repo");
    assert_eq!(r.state(), ReporterState::Waiting);
    assert_eq!(r.message().as_str(), "Waiting for process to begin");
    r.start();
    assert_eq!(r.state(), ReporterState::Running);
    assert_eq!(r.message().as_str(), "Process is about to begin");
    r.finalize("all done");
    assert_eq!(r.state(), ReporterState::Done);
    assert_eq!(r.message().as_str(), "all done");
}

#[test]
fn reporter_failure_renders_error() {
    let mut r = ProgressReporter::new("/repo");
    r.start();
    r.abandon(&GitError { message: String::from("bad object") });
    assert_eq!(r.state(), ReporterState::Failed);
    assert_eq!(r.message().as_str(), "bad object");
}

#[test]
fn transfer_phases_reset_eta_once_per_transition() {
    let mut r = ProgressReporter::new("/repo");
    r.start();
    // Entering the downloading sub-phase resets the estimate once.
    assert!(r.transfer_update(5, 10, 0, 100));
    assert_eq!(r.position(), 5);
    assert_eq!(r.length(), 10);
    assert_eq!(r.message().as_str(), "Downloading object (100 bytes)");
    // Staying in the sub-phase does not reset it again.
    assert!(!r.transfer_update(7, 10, 0, 200));
    // Counter equality switches to indexing, resetting once.
    assert!(r.transfer_update(10, 10, 8, 300));
    assert_eq!(r.position(), 8);
    assert_eq!(r.message().as_str(), "Indexing object");
    assert!(!r.transfer_update(10, 10, 9, 300));
    assert_eq!(r.position(), 9);
    assert_eq!(r.message().as_str(), "Indexing object");
}

#[test]
fn tracker_resolves_parallelism() {
    assert_eq!(ProgressTracker::new(Some(1), 4).jobs(), 1);
    assert_eq!(ProgressTracker::new(Some(3), 4).jobs(), 3);
    assert_eq!(ProgressTracker::new(Some(0), 4).jobs(), 4);
    assert_eq!(ProgressTracker::new(None, 8).jobs(), 8);
}

#[test]
fn sequential_mode_runs_in_submission_order() {
    let mut t = ProgressTracker::new(Some(1), 4);
    t.start_task(status_action("/first"));
    t.start_task(status_action("/second"));
    assert_eq!(t.begin_next(), Some(0));
    // One worker: nothing else may start while the first task runs.
    assert_eq!(t.begin_next(), None);
    assert_eq!(t.state_of(1), ReporterState::Waiting);
    t.complete_task(0, Ok(String::from("no changes")));
    assert_eq!(t.state_of(0), ReporterState::Done);
    assert_eq!(t.begin_next(), Some(1));
    t.complete_task(1, Err(GitError { message: String::from("broken") }));
    assert_eq!(t.state_of(1), ReporterState::Failed);
    assert_eq!(t.message_of(1).as_str(), "broken");
    assert!(t.all_terminal());
}

#[test]
fn bounded_parallelism_caps_running_tasks() {
    let mut t = ProgressTracker::new(Some(2), 4);
    t.start_task(status_action("/a"));
    t.start_task(status_action("/b"));
    t.start_task(status_action("/c"));
    assert_eq!(t.begin_next(), Some(0));
    assert_eq!(t.begin_next(), Some(1));
    // Both workers busy: the third task must wait.
    assert_eq!(t.begin_next(), None);
    assert_eq!(t.running_count(), 2);
    t.complete_task(0, Ok(String::from("done")));
    assert_eq!(t.begin_next(), Some(2));
    assert_eq!(t.running_count(), 2);
}

#[test]
fn failed_task_never_aborts_siblings() {
    let mut t = ProgressTracker::new(Some(1), 1);
    t.start_task(status_action("/bad"));
    t.start_task(status_action("/good"));
    assert_eq!(t.begin_next(), Some(0));
    t.complete_task(0, Err(GitError { message: String::from("cannot open") }));
    assert_eq!(t.begin_next(), Some(1));
    t.complete_task(1, Ok(String::from("no changes")));
    assert!(t.all_terminal());
    let lines = t.join();
    assert_eq!(lines.len(), 2);
    assert_eq!(lines[0], "/bad cannot open");
    assert_eq!(lines[1], "/good no changes");
}

#[test]
fn tracker_forwards_progress_to_the_running_task() {
    let mut t = ProgressTracker::new(Some(2), 2);
    t.start_task(status_action("/a"));
    t.start_task(status_action("/b"));
    assert_eq!(t.begin_next(), Some(0));
    assert_eq!(t.begin_next(), Some(1));
    assert!(t.transfer_progress(1, 3, 9, 0, 555));
    assert_eq!(t.position_of(1), 3);
    assert_eq!(t.length_of(1), 9);
    assert_eq!(t.message_of(1).as_str(), "Downloading object (555 bytes)");
    // The other running task's line is untouched.
    assert_eq!(t.message_of(0).as_str(), "Process is about to begin");
    t.report_message(0, "resolving deltas");
    assert_eq!(t.message_of(0).as_str(), "resolving deltas");
    t.complete_task(0, Ok(String::from("done")));
    t.complete_task(1, Ok(String::from("done")));
    assert!(t.all_terminal());
}

#[test]
fn two_repositories_status_batch() {
    // One repository with a modified tracked file, one fully clean:
    // the batch renders one line with the modifications category and
    // one with the no-changes sentinel, and finishes both.
    let actions = vec![status_action("/modified"), status_action("/clean")];
    let t = run_batch(actions, |a: &GitAction| {
        let st = match a {
            GitAction::Status(s) => s,
            _ => panic!("only status actions were submitted"),
        };
        let entries = if st.dir == "/modified" {
            vec![EntryStatus {
                wt_new: false,
                wt_deleted: false,
                wt_renamed: false,
                wt_typechange: false,
                wt_modified: true,
            }]
        } else {
            Vec::new()
        };
        Ok(st.summarize(&entries, 0, 0))
    });
    assert!(t.all_terminal());
    let lines = t.join();
    assert_eq!(lines.len(), 2);
    assert!(lines.iter().any(|l| l.contains("modifications")));
    assert!(lines.iter().any(|l| l.contains("no changes")));
}

#[test]
fn missing_remote_is_a_non_fatal_outcome() {
    // A fetch whose repository has no remote of the wanted name ends
    // Done with the descriptive message, not Failed, and the batch
    // still completes.
    let fetch = GitAction::Fetch(gg::fetch::GitFetch {
        dir: String::from("/repo"),
        remote: String::from("origin"),
    });
    let t = run_batch(vec![fetch], |a: &GitAction| {
        let f = match a {
            GitAction::Fetch(f) => f,
            _ => panic!("only fetch actions were submitted"),
        };
        let remotes = vec![String::from("upstream")];
        match gg::fetch::fetch_plan(&remotes, f.remote.as_str(), f.dir.as_str()) {
            Some(msg) => Ok(msg),
            None => Ok(String::from("fetched")),
        }
    });
    assert_eq!(t.state_of(0), ReporterState::Done);
    assert_eq!(
        t.message_of(0).as_str(),
        "remote named origin not found for /repo"
    );
    assert!(t.all_terminal());
}
