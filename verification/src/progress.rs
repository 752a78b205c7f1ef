//! Per-task progress reporting and the task scheduler.
//!
//! A `ProgressReporter` is the display handle of exactly one task: its
//! lifecycle is the state machine Waiting, then Running, then exactly
//! one terminal state (Done or Failed), and while running it renders
//! the transfer counters, switching between the downloading and
//! indexing sub-phases. A `ProgressTracker` owns one reporter per
//! submitted action, starts tasks with bounded parallelism (strictly
//! in submission order when the parallelism is one), and is the single
//! place where a task's terminal transition happens.

use vstd::prelude::*;

use crate::git::action_name_spec;
use crate::git::GitAction;
use crate::git::GitError;
use crate::text::dec_str;
use crate::text::u64_to_string;

verus! {

/// The lifecycle state of one progress line.
#[derive(Clone, Copy, PartialEq, Eq, Structural, Debug)]
pub enum ReporterState {
    Waiting,
    Running,
    Done,
    Failed,
}

/// The sub-phase of a running transfer, decided by the equality of the
/// received and total object counters.
#[derive(Clone, Copy, PartialEq, Eq, Structural, Debug)]
pub enum Step {
    Waiting,
    Downloading,
    Unpacking,
}

/// A state from which no further transition is permitted.
pub open spec fn is_terminal(s: ReporterState) -> bool {
    s is Done || s is Failed
}

/// The only legal state changes: Waiting to Running, and Running to a
/// terminal state.
pub open spec fn valid_transition(pre: ReporterState, post: ReporterState) -> bool {
    ||| (pre is Waiting && post is Running)
    ||| (pre is Running && is_terminal(post))
}

/// The mathematical model of one reporter: its display fields plus the
/// full sequence of states it has entered, in order.
pub struct ReporterView {
    pub state: ReporterState,
    pub label: Seq<char>,
    pub position: nat,
    pub length: nat,
    pub message: Seq<char>,
    pub step: Step,
    pub history: Seq<ReporterState>,
}

/// The per-task display handle: one progress line bound to exactly one
/// action.
pub struct ProgressReporter {
    state: ReporterState,
    label: String,
    position: u64,
    length: u64,
    message: String,
    step: Step,
    history: Ghost<Seq<ReporterState>>,
}

impl View for ProgressReporter {
    type V = ReporterView;

    closed spec fn view(&self) -> ReporterView {
        ReporterView {
            state: self.state,
            label: self.label@,
            position: self.position as nat,
            length: self.length as nat,
            message: self.message@,
            step: self.step,
            history: self.history@,
        }
    }
}

/// The sub-phase the counters select: transferring while received and
/// total differ, indexing once they are equal.
pub open spec fn transfer_step(received: nat, total: nat) -> Step {
    if received != total {
        Step::Downloading
    } else {
        Step::Unpacking
    }
}

/// The message rendered while objects are being received.
pub open spec fn downloading_msg(bytes: nat) -> Seq<char> {
    "Downloading object ("@ + dec_str(bytes) + " bytes)"@
}

/// The reporter invariant: the recorded history is exactly the states
/// entered so far, starting at Waiting, ending at the current state,
/// every step a legal transition.
pub open spec fn wf_report(v: ReporterView) -> bool {
    &&& v.history.len() >= 1
    &&& v.history.first() is Waiting
    &&& v.history.last() == v.state
    &&& forall|i: int|
        0 <= i < v.history.len() - 1 ==> valid_transition(
            #[trigger] v.history[i],
            v.history[i + 1],
        )
}

impl ProgressReporter {
    /// The reporter invariant, on this reporter's model.
    pub open spec fn wf(&self) -> bool {
        wf_report(self@)
    }

    /// A fresh reporter for one task line, waiting to begin.
    pub fn new(label: &str) -> (r: ProgressReporter)
        ensures
            r.wf(),
            r@.state is Waiting,
            r@.label == label@,
            r@.position == 0,
            r@.length == 0,
            r@.message == "Waiting for process to begin"@,
            r@.step is Waiting,
            r@.history =~= seq![ReporterState::Waiting],
    {
        let ghost h0: Seq<ReporterState> = seq![ReporterState::Waiting];
        ProgressReporter {
            state: ReporterState::Waiting,
            label: String::from_str(label),
            position: 0,
            length: 0,
            message: String::from_str("Waiting for process to begin"),
            step: Step::Waiting,
            history: Ghost(h0),
        }
    }

    /// Entry to Running: the elapsed measurement starts afresh and the
    /// line announces the start.
    pub fn start(&mut self)
        requires
            old(self).wf(),
            old(self)@.state is Waiting,
        ensures
            final(self).wf(),
            final(self)@.state is Running,
            final(self)@.history =~= old(self)@.history.push(ReporterState::Running),
            final(self)@.label == old(self)@.label,
            final(self)@.position == old(self)@.position,
            final(self)@.length == old(self)@.length,
            final(self)@.step == old(self)@.step,
            final(self)@.message == "Process is about to begin"@,
    {
        self.state = ReporterState::Running;
        self.message = String::from_str("Process is about to begin");
        let ghost h = self.history@.push(ReporterState::Running);
        self.history = Ghost(h);
    }

    /// Updates the line's message; permitted only before a terminal
    /// state is reached.
    pub fn report_message(&mut self, msg: &str)
        requires
            old(self).wf(),
            !is_terminal(old(self)@.state),
        ensures
            final(self).wf(),
            final(self)@ == (ReporterView { message: msg@, ..old(self)@ }),
    {
        self.message = String::from_str(msg);
    }

    /// One progress callback from a running transfer: renders the
    /// counters and switches the sub-phase on counter equality. The
    /// result says whether the sub-phase changed; the caller resets
    /// its rate estimate exactly then, once per transition.
    pub fn transfer_update(&mut self, received: u64, total: u64, indexed: u64, bytes: u64) -> (eta_reset: bool)
        requires
            old(self).wf(),
            old(self)@.state is Running,
        ensures
            final(self).wf(),
            final(self)@.state is Running,
            final(self)@.history == old(self)@.history,
            final(self)@.label == old(self)@.label,
            final(self)@.length == total,
            final(self)@.step == transfer_step(received as nat, total as nat),
            eta_reset == (final(self)@.step != old(self)@.step),
            received != total ==> final(self)@.position == received && final(self)@.message
                =~= downloading_msg(bytes as nat),
            received == total ==> final(self)@.position == indexed,
            received == total ==> final(self)@.message == (if old(self)@.step is Unpacking {
                old(self)@.message
            } else {
                "Indexing object"@
            }),
    {
        self.length = total;
        if received != total {
            self.position = received;
            self.message = String::from_str("Downloading object (").concat(
                u64_to_string(bytes).as_str(),
            ).concat(" bytes)");
            let changed = !matches!(self.step, Step::Downloading);
            self.step = Step::Downloading;
            proof {
                assert(self@.message =~= downloading_msg(bytes as nat));
            }
            changed
        } else {
            self.position = indexed;
            let changed = !matches!(self.step, Step::Unpacking);
            if changed {
                self.message = String::from_str("Indexing object");
            }
            self.step = Step::Unpacking;
            changed
        }
    }

    /// The successful terminal transition: the line renders the final
    /// summary.
    pub fn finalize(&mut self, status: &str)
        requires
            old(self).wf(),
            old(self)@.state is Running,
        ensures
            final(self).wf(),
            final(self)@.state is Done,
            final(self)@.history =~= old(self)@.history.push(ReporterState::Done),
            final(self)@.label == old(self)@.label,
            final(self)@.position == old(self)@.position,
            final(self)@.length == old(self)@.length,
            final(self)@.step == old(self)@.step,
            final(self)@.message == status@,
    {
        self.state = ReporterState::Done;
        self.message = String::from_str(status);
        let ghost h = self.history@.push(ReporterState::Done);
        self.history = Ghost(h);
    }

    /// The failing terminal transition: the line renders the error
    /// message.
    pub fn abandon(&mut self, err: &GitError)
        requires
            old(self).wf(),
            old(self)@.state is Running,
        ensures
            final(self).wf(),
            final(self)@.state is Failed,
            final(self)@.history =~= old(self)@.history.push(ReporterState::Failed),
            final(self)@.label == old(self)@.label,
            final(self)@.position == old(self)@.position,
            final(self)@.length == old(self)@.length,
            final(self)@.step == old(self)@.step,
            final(self)@.message == err.message@,
    {
        self.state = ReporterState::Failed;
        self.message = err.message.clone();
        let ghost h = self.history@.push(ReporterState::Failed);
        self.history = Ghost(h);
    }

    /// The current lifecycle state.
    pub fn state(&self) -> (s: ReporterState)
        ensures
            s == self@.state,
    {
        self.state
    }

    /// The display label.
    pub fn label(&self) -> (l: &String)
        ensures
            l@ == self@.label,
    {
        &self.label
    }

    /// The last rendered message.
    pub fn message(&self) -> (m: &String)
        ensures
            m@ == self@.message,
    {
        &self.message
    }

    /// The determinate progress position.
    pub fn position(&self) -> (p: u64)
        ensures
            p == self@.position,
    {
        self.position
    }

    /// The determinate progress length.
    pub fn length(&self) -> (l: u64)
        ensures
            l == self@.length,
    {
        self.length
    }
}

/// Every reporter's observed state sequence is a prefix of Waiting,
/// Running, then exactly one terminal state. In particular, Running
/// never follows a terminal state, and no reporter enters more than
/// one terminal state.
pub proof fn lemma_reporter_history(v: ReporterView)
    requires
        wf_report(v),
    ensures
        v.history =~= seq![ReporterState::Waiting] || v.history =~= seq![
            ReporterState::Waiting,
            ReporterState::Running,
        ] || v.history =~= seq![
            ReporterState::Waiting,
            ReporterState::Running,
            ReporterState::Done,
        ] || v.history =~= seq![
            ReporterState::Waiting,
            ReporterState::Running,
            ReporterState::Failed,
        ],
        v.history.len() <= 3,
{
    let h = v.history;
    if h.len() >= 2 {
        assert(valid_transition(h[0], h[1]));
        assert(h[1] is Running);
    }
    if h.len() >= 3 {
        assert(valid_transition(h[1], h[2]));
        assert(is_terminal(h[2]));
    }
    if h.len() >= 4 {
        assert(valid_transition(h[2], h[3]));
        assert(false);
    }
}

/// A finished reporter entered exactly the states Waiting, Running and
/// its single terminal state, in that order: no terminal state was
/// ever left, and only the last state entered is terminal.
pub proof fn lemma_terminal_history(v: ReporterView)
    requires
        wf_report(v),
        is_terminal(v.state),
    ensures
        v.history =~= seq![ReporterState::Waiting, ReporterState::Running, v.state],
        forall|i: int| 0 <= i < v.history.len() - 1 ==> !is_terminal(#[trigger] v.history[i]),
{
    lemma_reporter_history(v);
}

/// One submitted task: the action and the reporter bound to it.
pub struct TaskSlot {
    action: GitAction,
    reporter: ProgressReporter,
}

/// The model of one submitted task.
pub struct TaskView {
    pub action: GitAction,
    pub reporter: ReporterView,
}

impl View for TaskSlot {
    type V = TaskView;

    closed spec fn view(&self) -> TaskView {
        TaskView { action: self.action, reporter: self.reporter@ }
    }
}

/// The model of the scheduler: the configured parallelism and the
/// submitted tasks in submission order.
pub struct TrackerView {
    pub jobs: int,
    pub tasks: Seq<TaskView>,
}

/// The scheduler: owns one reporter per submitted action, starts tasks
/// with at most `jobs` running at once (strictly in submission order
/// when `jobs` is one), and performs every terminal transition.
pub struct ProgressTracker {
    jobs: usize,
    tasks: Vec<TaskSlot>,
}

impl View for ProgressTracker {
    type V = TrackerView;

    closed spec fn view(&self) -> TrackerView {
        TrackerView {
            jobs: self.jobs as int,
            tasks: Seq::new(self.tasks@.len(), |i: int| self.tasks@[i]@),
        }
    }
}

/// The reporter states of the tasks, in submission order.
pub open spec fn states_of(tasks: Seq<TaskView>) -> Seq<ReporterState> {
    tasks.map_values(|t: TaskView| t.reporter.state)
}

/// A task that has left the waiting state.
pub open spec fn started(s: ReporterState) -> bool {
    !(s is Waiting)
}

/// How many of the states are Running.
pub open spec fn count_running(states: Seq<ReporterState>) -> int
    decreases states.len(),
{
    if states.len() == 0 {
        0
    } else {
        count_running(states.drop_last()) + (if states.last() is Running {
            1int
        } else {
            0int
        })
    }
}

proof fn lemma_count_running_nonneg(states: Seq<ReporterState>)
    ensures
        count_running(states) >= 0,
    decreases states.len(),
{
    if states.len() > 0 {
        lemma_count_running_nonneg(states.drop_last());
    }
}

proof fn lemma_count_running_push(states: Seq<ReporterState>, x: ReporterState)
    ensures
        count_running(states.push(x)) == count_running(states) + (if x is Running {
            1int
        } else {
            0int
        }),
{
    assert(states.push(x).drop_last() =~= states);
    assert(states.push(x).last() == x);
}

proof fn lemma_count_running_update(states: Seq<ReporterState>, i: int, x: ReporterState)
    requires
        0 <= i < states.len(),
    ensures
        count_running(states.update(i, x)) == count_running(states) - (if states[i] is Running {
            1int
        } else {
            0int
        }) + (if x is Running {
            1int
        } else {
            0int
        }),
    decreases states.len(),
{
    let t = states.update(i, x);
    if i == states.len() - 1 {
        assert(t.drop_last() =~= states.drop_last());
        assert(t.last() == x);
    } else {
        assert(t.drop_last() =~= states.drop_last().update(i, x));
        assert(t.last() == states.last());
        lemma_count_running_update(states.drop_last(), i, x);
    }
}

proof fn lemma_count_running_at_least_one(states: Seq<ReporterState>, i: int)
    requires
        0 <= i < states.len(),
        states[i] is Running,
    ensures
        count_running(states) >= 1,
    decreases states.len(),
{
    if i == states.len() - 1 {
        lemma_count_running_nonneg(states.drop_last());
    } else {
        lemma_count_running_at_least_one(states.drop_last(), i);
    }
}

proof fn lemma_count_running_none(states: Seq<ReporterState>)
    requires
        forall|a: int| 0 <= a < states.len() ==> !((#[trigger] states[a]) is Running),
    ensures
        count_running(states) == 0,
    decreases states.len(),
{
    if states.len() > 0 {
        lemma_count_running_none(states.drop_last());
    }
}

/// The line the display renders for one finished task.
pub open spec fn render_line(v: ReporterView) -> Seq<char> {
    v.label + seq![' '] + v.message
}

/// The parallelism a job setting selects: one means strictly
/// sequential execution; zero or absent falls back to the host's
/// parallelism.
pub open spec fn resolve_jobs(settings: Option<usize>, host: int) -> int {
    match settings {
        Option::Some(n) => if n == 0 {
            host
        } else {
            n as int
        },
        Option::None => host,
    }
}

/// The scheduler invariant: at least one worker; every reporter
/// well-formed and labeled with its action's name; at most `jobs`
/// tasks running; started tasks form a prefix of the submission order;
/// and with one worker, a task starts only after every earlier task
/// finished.
pub open spec fn wf_tracker(v: TrackerView) -> bool {
    &&& v.jobs >= 1
    &&& forall|i: int| 0 <= i < v.tasks.len() ==> wf_report((#[trigger] v.tasks[i]).reporter)
    &&& forall|i: int|
        0 <= i < v.tasks.len() ==> (#[trigger] v.tasks[i]).reporter.label == action_name_spec(
            v.tasks[i].action,
        )
    &&& count_running(states_of(v.tasks)) <= v.jobs
    &&& forall|i: int, j: int|
        0 <= i < j < v.tasks.len() && started((#[trigger] v.tasks[j]).reporter.state) ==> started(
            (#[trigger] v.tasks[i]).reporter.state,
        )
    &&& v.jobs == 1 ==> forall|i: int, j: int|
        0 <= i < j < v.tasks.len() && started((#[trigger] v.tasks[j]).reporter.state)
            ==> is_terminal((#[trigger] v.tasks[i]).reporter.state)
}

/// Replacing one running task's reporter by a well-formed started one
/// (the same task, label and all) keeps the scheduler invariant.
proof fn lemma_wf_after_task_change(pre: TrackerView, post: TrackerView, i: int)
    requires
        wf_tracker(pre),
        0 <= i < pre.tasks.len(),
        post.jobs == pre.jobs,
        post.tasks.len() == pre.tasks.len(),
        forall|j: int| 0 <= j < pre.tasks.len() && j != i ==> post.tasks[j] == pre.tasks[j],
        post.tasks[i].action == pre.tasks[i].action,
        post.tasks[i].reporter.label == pre.tasks[i].reporter.label,
        wf_report(post.tasks[i].reporter),
        pre.tasks[i].reporter.state is Running,
        started(post.tasks[i].reporter.state),
    ensures
        wf_tracker(post),
{
    let s_pre = states_of(pre.tasks);
    let s_post = states_of(post.tasks);
    assert(s_post =~= s_pre.update(i, post.tasks[i].reporter.state));
    lemma_count_running_update(s_pre, i, post.tasks[i].reporter.state);
    assert(count_running(s_post) <= pre.jobs);
    assert forall|a: int, b: int|
        0 <= a < b < post.tasks.len() && started(
            (#[trigger] post.tasks[b]).reporter.state,
        ) implies started((#[trigger] post.tasks[a]).reporter.state) by {
        if b == i {
            assert(started(pre.tasks[b].reporter.state));
        }
        if a == i {
        } else {
            assert(started(pre.tasks[b].reporter.state));
            assert(started(pre.tasks[a].reporter.state));
        }
    }
    if post.jobs == 1 {
        assert forall|a: int, b: int|
            0 <= a < b < post.tasks.len() && started(
                (#[trigger] post.tasks[b]).reporter.state,
            ) implies is_terminal((#[trigger] post.tasks[a]).reporter.state) by {
            if b == i {
                assert(started(pre.tasks[b].reporter.state));
                assert(is_terminal(pre.tasks[a].reporter.state));
            } else {
                assert(started(pre.tasks[b].reporter.state));
                if a == i {
                    assert(is_terminal(pre.tasks[i].reporter.state));
                    assert(false);
                } else {
                    assert(is_terminal(pre.tasks[a].reporter.state));
                }
            }
        }
    }
}

/// Starting the first waiting task while a worker is free keeps the
/// scheduler invariant.
proof fn lemma_wf_after_start(pre: TrackerView, post: TrackerView, i: int)
    requires
        wf_tracker(pre),
        0 <= i < pre.tasks.len(),
        post.jobs == pre.jobs,
        post.tasks.len() == pre.tasks.len(),
        forall|j: int| 0 <= j < pre.tasks.len() && j != i ==> post.tasks[j] == pre.tasks[j],
        post.tasks[i].action == pre.tasks[i].action,
        post.tasks[i].reporter.label == pre.tasks[i].reporter.label,
        wf_report(post.tasks[i].reporter),
        pre.tasks[i].reporter.state is Waiting,
        post.tasks[i].reporter.state is Running,
        forall|j: int| 0 <= j < i ==> started((#[trigger] pre.tasks[j]).reporter.state),
        count_running(states_of(pre.tasks)) < pre.jobs,
    ensures
        wf_tracker(post),
{
    let s_pre = states_of(pre.tasks);
    let s_post = states_of(post.tasks);
    assert(s_post =~= s_pre.update(i, ReporterState::Running));
    lemma_count_running_update(s_pre, i, ReporterState::Running);
    assert(count_running(s_post) <= pre.jobs);
    assert forall|a: int, b: int|
        0 <= a < b < post.tasks.len() && started(
            (#[trigger] post.tasks[b]).reporter.state,
        ) implies started((#[trigger] post.tasks[a]).reporter.state) by {
        if a != i {
            if b == i {
                assert(started(pre.tasks[a].reporter.state));
            } else {
                assert(started(pre.tasks[b].reporter.state));
                assert(started(pre.tasks[a].reporter.state));
            }
        }
    }
    if post.jobs == 1 {
        lemma_count_running_nonneg(s_pre);
        assert forall|a: int, b: int|
            0 <= a < b < post.tasks.len() && started(
                (#[trigger] post.tasks[b]).reporter.state,
            ) implies is_terminal((#[trigger] post.tasks[a]).reporter.state) by {
            if b == i {
                assert(started(pre.tasks[a].reporter.state));
                if pre.tasks[a].reporter.state is Running {
                    assert(s_pre[a] is Running);
                    lemma_count_running_at_least_one(s_pre, a);
                    assert(false);
                }
            } else if a == i {
                assert(started(pre.tasks[b].reporter.state));
                assert(is_terminal(pre.tasks[i].reporter.state));
                assert(false);
            } else {
                assert(started(pre.tasks[b].reporter.state));
                assert(is_terminal(pre.tasks[a].reporter.state));
            }
        }
    }
}

impl ProgressTracker {
    /// The scheduler invariant, on this scheduler's model.
    pub open spec fn wf(&self) -> bool {
        wf_tracker(self@)
    }

    /// Chooses the scheduling mode: a job count of exactly one selects
    /// strictly sequential execution; zero or absent falls back to the
    /// host's parallelism.
    pub fn new(threading_settings: Option<usize>, host_cpus: usize) -> (t: ProgressTracker)
        requires
            host_cpus >= 1,
        ensures
            t.wf(),
            t@.jobs == resolve_jobs(threading_settings, host_cpus as int),
            t@.tasks.len() == 0,
    {
        let jobs = match threading_settings {
            Some(n) => if n == 0 {
                host_cpus
            } else {
                n
            },
            None => host_cpus,
        };
        let t = ProgressTracker { jobs, tasks: Vec::new() };
        proof {
            assert(t@.tasks =~= Seq::<TaskView>::empty());
            assert(states_of(t@.tasks) =~= Seq::<ReporterState>::empty());
        }
        t
    }

    /// A fresh, untracked progress line.
    pub fn new_bar(&self, remote_url: &str) -> (r: ProgressReporter)
        ensures
            r.wf(),
            r@.state is Waiting,
            r@.label == remote_url@,
            r@.position == 0,
            r@.length == 0,
            r@.message == "Waiting for process to begin"@,
            r@.step is Waiting,
            r@.history =~= seq![ReporterState::Waiting],
    {
        ProgressReporter::new(remote_url)
    }

    /// Submits one action: allocates its progress line, waiting to be
    /// started.
    pub fn start_task(&mut self, action: GitAction)
        requires
            old(self).wf(),
        ensures
            final(self).wf(),
            final(self)@.jobs == old(self)@.jobs,
            final(self)@.tasks.len() == old(self)@.tasks.len() + 1,
            forall|i: int|
                0 <= i < old(self)@.tasks.len() ==> final(self)@.tasks[i] == old(self)@.tasks[i],
            final(self)@.tasks.last().action == action,
            final(self)@.tasks.last().reporter.state is Waiting,
            final(self)@.tasks.last().reporter.label == action_name_spec(action),
            final(self)@.tasks.last().reporter.history =~= seq![ReporterState::Waiting],
    {
        let name = action.get_name();
        let reporter = ProgressReporter::new(name.as_str());
        let ghost pre = self@;
        let ghost new_reporter = reporter@;
        self.tasks.push(TaskSlot { action, reporter });
        proof {
            assert(self@.tasks.len() == pre.tasks.len() + 1);
            assert(forall|i: int| 0 <= i < pre.tasks.len() ==> self@.tasks[i] == pre.tasks[i]);
            assert(self@.tasks.last() == (TaskView { action, reporter: new_reporter }));
            assert(states_of(self@.tasks) =~= states_of(pre.tasks).push(ReporterState::Waiting));
            lemma_count_running_push(states_of(pre.tasks), ReporterState::Waiting);
            assert forall|i: int| 0 <= i < self@.tasks.len() implies wf_report(
                (#[trigger] self@.tasks[i]).reporter,
            ) by {
                if i < pre.tasks.len() {
                    assert(self@.tasks[i] == pre.tasks[i]);
                    assert(wf_report(pre.tasks[i].reporter));
                } else {
                    assert(self@.tasks[i] == self@.tasks.last());
                }
            }
            assert forall|i: int| 0 <= i < self@.tasks.len() implies (
            #[trigger] self@.tasks[i]).reporter.label == action_name_spec(
                self@.tasks[i].action,
            ) by {
                if i < pre.tasks.len() {
                    assert(self@.tasks[i] == pre.tasks[i]);
                    assert(pre.tasks[i].reporter.label == action_name_spec(pre.tasks[i].action));
                } else {
                    assert(self@.tasks[i] == self@.tasks.last());
                }
            }
            assert forall|a: int, b: int|
                0 <= a < b < self@.tasks.len() && started(
                    (#[trigger] self@.tasks[b]).reporter.state,
                ) implies started((#[trigger] self@.tasks[a]).reporter.state) by {
                assert(self@.tasks[a] == pre.tasks[a]);
                if b < pre.tasks.len() {
                    assert(self@.tasks[b] == pre.tasks[b]);
                    assert(started(pre.tasks[b].reporter.state));
                    assert(started(pre.tasks[a].reporter.state));
                } else {
                    assert(self@.tasks[b] == self@.tasks.last());
                }
            }
            if self@.jobs == 1 {
                assert forall|a: int, b: int|
                    0 <= a < b < self@.tasks.len() && started(
                        (#[trigger] self@.tasks[b]).reporter.state,
                    ) implies is_terminal((#[trigger] self@.tasks[a]).reporter.state) by {
                    assert(self@.tasks[a] == pre.tasks[a]);
                    if b < pre.tasks.len() {
                        assert(self@.tasks[b] == pre.tasks[b]);
                        assert(started(pre.tasks[b].reporter.state));
                        assert(is_terminal(pre.tasks[a].reporter.state));
                    } else {
                        assert(self@.tasks[b] == self@.tasks.last());
                    }
                }
            }
        }
    }

    /// Counts the tasks now running.
    pub fn running_count(&self) -> (r: usize)
        ensures
            r == count_running(states_of(self@.tasks)),
    {
        let n = self.tasks.len();
        let mut running: usize = 0;
        let mut k: usize = 0;
        while k < n
            invariant
                n == self@.tasks.len(),
                k <= n,
                running == count_running(states_of(self@.tasks).take(k as int)),
                running <= k,
            decreases n - k,
        {
            proof {
                let s = states_of(self@.tasks);
                assert(s.take(k as int + 1).drop_last() =~= s.take(k as int));
                assert(s.take(k as int + 1).last() == s[k as int]);
            }
            if matches!(self.tasks[k].reporter.state(), ReporterState::Running) {
                running += 1;
            }
            k += 1;
        }
        proof {
            assert(states_of(self@.tasks).take(n as int) =~= states_of(self@.tasks));
        }
        running
    }

    /// Starts the first waiting task if a worker is free, and says
    /// which one it was.
    pub fn begin_next(&mut self) -> (r: Option<usize>)
        requires
            old(self).wf(),
        ensures
            final(self).wf(),
            final(self)@.jobs == old(self)@.jobs,
            final(self)@.tasks.len() == old(self)@.tasks.len(),
            r is None ==> *final(self) == *old(self) && (count_running(
                states_of(old(self)@.tasks),
            ) == old(self)@.jobs || forall|i: int|
                0 <= i < old(self)@.tasks.len() ==> started(
                    (#[trigger] old(self)@.tasks[i]).reporter.state,
                )),
            r matches Some(i) ==> {
                let pre = old(self)@.tasks[i as int].reporter;
                &&& 0 <= i < old(self)@.tasks.len()
                &&& pre.state is Waiting
                &&& (forall|j: int|
                    0 <= j < i ==> started((#[trigger] old(self)@.tasks[j]).reporter.state))
                &&& count_running(states_of(old(self)@.tasks)) < old(self)@.jobs
                &&& final(self)@.tasks =~= old(self)@.tasks.update(
                    i as int,
                    TaskView {
                        action: old(self)@.tasks[i as int].action,
                        reporter: ReporterView {
                            state: ReporterState::Running,
                            message: "Process is about to begin"@,
                            history: pre.history.push(ReporterState::Running),
                            ..pre
                        },
                    },
                )
            },
    {
        let running = self.running_count();
        if running >= self.jobs {
            return None;
        }
        let n = self.tasks.len();
        let mut i: usize = 0;
        while i < n
            invariant
                *self == *old(self),
                self.wf(),
                n == self@.tasks.len(),
                i <= n,
                running == count_running(states_of(self@.tasks)),
                running < self@.jobs,
                forall|j: int| 0 <= j < i ==> started((#[trigger] self@.tasks[j]).reporter.state),
            decreases n - i,
        {
            if matches!(self.tasks[i].reporter.state(), ReporterState::Waiting) {
                let ghost pre = self@;
                proof {
                    assert(wf_report(pre.tasks[i as int].reporter));
                }
                let mut slot = self.tasks.remove(i);
                proof {
                    assert(slot@ == pre.tasks[i as int]);
                }
                slot.reporter.start();
                let ghost new_view = slot@;
                self.tasks.insert(i, slot);
                proof {
                    assert(self@.tasks =~= pre.tasks.update(i as int, new_view));
                    assert(new_view == (TaskView {
                        action: pre.tasks[i as int].action,
                        reporter: ReporterView {
                            state: ReporterState::Running,
                            message: "Process is about to begin"@,
                            history: pre.tasks[i as int].reporter.history.push(
                                ReporterState::Running,
                            ),
                            ..pre.tasks[i as int].reporter
                        },
                    }));
                    lemma_wf_after_start(pre, self@, i as int);
                }
                return Some(i);
            }
            i += 1;
        }
        None
    }

    /// The single point where a task's terminal transition happens:
    /// success finalizes its line with the returned summary, failure
    /// abandons it with the error message — exactly one terminal
    /// transition per task, whatever the outcome.
    pub fn complete_task(&mut self, i: usize, outcome: Result<String, GitError>)
        requires
            old(self).wf(),
            i < old(self)@.tasks.len(),
            old(self)@.tasks[i as int].reporter.state is Running,
        ensures
            final(self).wf(),
            final(self)@.jobs == old(self)@.jobs,
            ({
                let pre = old(self)@.tasks[i as int].reporter;
                let new_state = if outcome is Ok {
                    ReporterState::Done
                } else {
                    ReporterState::Failed
                };
                let msg = match outcome {
                    Ok(m) => m@,
                    Err(e) => e.message@,
                };
                final(self)@.tasks =~= old(self)@.tasks.update(
                    i as int,
                    TaskView {
                        action: old(self)@.tasks[i as int].action,
                        reporter: ReporterView {
                            state: new_state,
                            message: msg,
                            history: pre.history.push(new_state),
                            ..pre
                        },
                    },
                )
            }),
    {
        let ghost pre = self@;
        proof {
            assert(wf_report(pre.tasks[i as int].reporter));
        }
        let mut slot = self.tasks.remove(i);
        proof {
            assert(slot@ == pre.tasks[i as int]);
        }
        match &outcome {
            Ok(m) => slot.reporter.finalize(m.as_str()),
            Err(e) => slot.reporter.abandon(e),
        }
        let ghost new_view = slot@;
        self.tasks.insert(i, slot);
        proof {
            assert(self@.tasks =~= pre.tasks.update(i as int, new_view));
            lemma_wf_after_task_change(pre, self@, i as int);
        }
    }

    /// Applies one running task's progress callback counters,
    /// reporting whether the caller should reset its rate estimate
    /// (exactly once per sub-phase transition).
    pub fn transfer_progress(
        &mut self,
        i: usize,
        received: u64,
        total: u64,
        indexed: u64,
        bytes: u64,
    ) -> (eta_reset: bool)
        requires
            old(self).wf(),
            i < old(self)@.tasks.len(),
            old(self)@.tasks[i as int].reporter.state is Running,
        ensures
            final(self).wf(),
            final(self)@.jobs == old(self)@.jobs,
            final(self)@.tasks.len() == old(self)@.tasks.len(),
            forall|j: int|
                0 <= j < old(self)@.tasks.len() && j != i ==> final(self)@.tasks[j] == old(
                    self,
                )@.tasks[j],
            ({
                let pre = old(self)@.tasks[i as int].reporter;
                let post = final(self)@.tasks[i as int].reporter;
                &&& final(self)@.tasks[i as int].action == old(self)@.tasks[i as int].action
                &&& post.state is Running
                &&& post.history == pre.history
                &&& post.label == pre.label
                &&& post.length == total
                &&& post.step == transfer_step(received as nat, total as nat)
                &&& eta_reset == (post.step != pre.step)
                &&& (received != total ==> post.position == received && post.message
                    =~= downloading_msg(bytes as nat))
                &&& (received == total ==> post.position == indexed)
                &&& (received == total ==> post.message == (if pre.step is Unpacking {
                    pre.message
                } else {
                    "Indexing object"@
                }))
            }),
    {
        let ghost pre = self@;
        proof {
            assert(wf_report(pre.tasks[i as int].reporter));
        }
        let mut slot = self.tasks.remove(i);
        proof {
            assert(slot@ == pre.tasks[i as int]);
        }
        let eta_reset = slot.reporter.transfer_update(received, total, indexed, bytes);
        let ghost new_view = slot@;
        self.tasks.insert(i, slot);
        proof {
            assert(self@.tasks =~= pre.tasks.update(i as int, new_view));
            lemma_wf_after_task_change(pre, self@, i as int);
        }
        eta_reset
    }

    /// Updates one running task's message.
    pub fn report_message(&mut self, i: usize, msg: &str)
        requires
            old(self).wf(),
            i < old(self)@.tasks.len(),
            old(self)@.tasks[i as int].reporter.state is Running,
        ensures
            final(self).wf(),
            final(self)@.jobs == old(self)@.jobs,
            final(self)@.tasks =~= old(self)@.tasks.update(
                i as int,
                TaskView {
                    action: old(self)@.tasks[i as int].action,
                    reporter: ReporterView {
                        message: msg@,
                        ..old(self)@.tasks[i as int].reporter
                    },
                },
            ),
    {
        let ghost pre = self@;
        proof {
            assert(wf_report(pre.tasks[i as int].reporter));
        }
        let mut slot = self.tasks.remove(i);
        proof {
            assert(slot@ == pre.tasks[i as int]);
        }
        slot.reporter.report_message(msg);
        let ghost new_view = slot@;
        self.tasks.insert(i, slot);
        proof {
            assert(self@.tasks =~= pre.tasks.update(i as int, new_view));
            lemma_wf_after_task_change(pre, self@, i as int);
        }
    }

    /// Whether every submitted task has reached a terminal state.
    pub fn all_terminal(&self) -> (r: bool)
        ensures
            r == (forall|i: int|
                0 <= i < self@.tasks.len() ==> is_terminal(
                    (#[trigger] self@.tasks[i]).reporter.state,
                )),
    {
        let n = self.tasks.len();
        let mut k: usize = 0;
        while k < n
            invariant
                n == self@.tasks.len(),
                k <= n,
                forall|j: int|
                    0 <= j < k ==> is_terminal((#[trigger] self@.tasks[j]).reporter.state),
            decreases n - k,
        {
            match self.tasks[k].reporter.state() {
                ReporterState::Done => {},
                ReporterState::Failed => {},
                _ => {
                    proof {
                        assert(!is_terminal(self@.tasks[k as int].reporter.state));
                    }
                    return false;
                },
            }
            k += 1;
        }
        true
    }

    /// Tears the display down once every task is terminal, rendering
    /// each task's final line in submission order.
    pub fn join(self) -> (lines: Vec<String>)
        requires
            self.wf(),
            forall|i: int|
                0 <= i < self@.tasks.len() ==> is_terminal(
                    (#[trigger] self@.tasks[i]).reporter.state,
                ),
        ensures
            lines.deep_view().len() == self@.tasks.len(),
            forall|i: int|
                0 <= i < self@.tasks.len() ==> lines.deep_view()[i] =~= render_line(
                    (#[trigger] self@.tasks[i]).reporter,
                ),
    {
        let mut lines: Vec<String> = Vec::new();
        let n = self.tasks.len();
        let mut k: usize = 0;
        while k < n
            invariant
                n == self@.tasks.len(),
                k <= n,
                lines.deep_view().len() == k,
                forall|j: int|
                    0 <= j < k ==> lines.deep_view()[j] =~= render_line(
                        (#[trigger] self@.tasks[j]).reporter,
                    ),
            decreases n - k,
        {
            let slot = &self.tasks[k];
            let line = slot.reporter.label().clone().concat(" ").concat(
                slot.reporter.message().as_str(),
            );
            proof {
                reveal_strlit(" ");
                assert(line@ =~= render_line(self@.tasks[k as int].reporter));
            }
            lines.push(line);
            k += 1;
        }
        lines
    }

    /// How many tasks have been submitted.
    pub fn len(&self) -> (n: usize)
        ensures
            n == self@.tasks.len(),
    {
        self.tasks.len()
    }

    /// The configured parallelism.
    pub fn jobs(&self) -> (j: usize)
        ensures
            j == self@.jobs,
    {
        self.jobs
    }

    /// The lifecycle state of one task.
    pub fn state_of(&self, i: usize) -> (s: ReporterState)
        requires
            i < self@.tasks.len(),
        ensures
            s == self@.tasks[i as int].reporter.state,
    {
        self.tasks[i].reporter.state()
    }

    /// The last rendered message of one task.
    pub fn message_of(&self, i: usize) -> (m: &String)
        requires
            i < self@.tasks.len(),
        ensures
            m@ == self@.tasks[i as int].reporter.message,
    {
        self.tasks[i].reporter.message()
    }

    /// The display label of one task.
    pub fn label_of(&self, i: usize) -> (l: &String)
        requires
            i < self@.tasks.len(),
        ensures
            l@ == self@.tasks[i as int].reporter.label,
    {
        self.tasks[i].reporter.label()
    }

    /// The progress position of one task.
    pub fn position_of(&self, i: usize) -> (p: u64)
        requires
            i < self@.tasks.len(),
        ensures
            p == self@.tasks[i as int].reporter.position,
    {
        self.tasks[i].reporter.position()
    }

    /// The progress length of one task.
    pub fn length_of(&self, i: usize) -> (l: u64)
        requires
            i < self@.tasks.len(),
        ensures
            l == self@.tasks[i as int].reporter.length,
    {
        self.tasks[i].reporter.length()
    }

    /// The action of one task.
    pub fn action_of(&self, i: usize) -> (a: &GitAction)
        requires
            i < self@.tasks.len(),
        ensures
            *a == self@.tasks[i as int].action,
    {
        &self.tasks[i].action
    }
}

/// With parallelism `n`, at most `n` tasks are ever simultaneously
/// running.
pub proof fn lemma_bounded_parallelism(t: &ProgressTracker)
    requires
        t.wf(),
    ensures
        count_running(states_of(t@.tasks)) <= t@.jobs,
{
}

/// With parallelism one, execution is strictly sequential in
/// submission order: while a task runs, every earlier task has
/// finished and no later task has started.
pub proof fn lemma_sequential_order(t: &ProgressTracker, i: int, j: int)
    requires
        t.wf(),
        t@.jobs == 1,
        0 <= i < t@.tasks.len(),
        0 <= j < t@.tasks.len(),
        i != j,
        t@.tasks[i].reporter.state is Running,
    ensures
        j < i ==> is_terminal(t@.tasks[j].reporter.state),
        j > i ==> t@.tasks[j].reporter.state is Waiting,
{
    if j > i {
        if started(t@.tasks[j].reporter.state) {
            assert(is_terminal(t@.tasks[i].reporter.state));
        }
    }
}

/// One task's terminal state and message are exactly what some
/// possible return of the executor on its action dictates: Done with
/// the summary on success, Failed with the error message on failure.
pub open spec fn task_matches_outcome<F: Fn(&GitAction) -> Result<String, GitError>>(
    exec_action: F,
    task: TaskView,
) -> bool {
    exists|ret: Result<String, GitError>|
        {
            &&& #[trigger] call_ensures(exec_action, (&task.action,), ret)
            &&& (task.reporter.state is Done <==> ret is Ok)
            &&& task.reporter.message == (match ret {
                Ok(m) => m@,
                Err(e) => e.message@,
            })
        }
}

/// Runs a whole batch strictly sequentially — the parallelism-one
/// mode: each action is executed to completion by `exec_action`, in
/// submission order, and every task ends in exactly one terminal
/// state carrying the outcome of its own execution; a failure is
/// captured by its own task's line and never aborts the batch.
pub fn run_batch<F: Fn(&GitAction) -> Result<String, GitError>>(
    actions: Vec<GitAction>,
    exec_action: F,
) -> (t: ProgressTracker)
    requires
        forall|a: &GitAction| #[trigger] call_requires(exec_action, (a,)),
    ensures
        t.wf(),
        t@.jobs == 1,
        t@.tasks.len() == actions@.len(),
        forall|i: int| 0 <= i < actions@.len() ==> (#[trigger] t@.tasks[i]).action == actions@[i],
        forall|i: int|
            0 <= i < actions@.len() ==> is_terminal((#[trigger] t@.tasks[i]).reporter.state),
        forall|i: int|
            0 <= i < actions@.len() ==> task_matches_outcome(exec_action, #[trigger] t@.tasks[i]),
{
    let mut t = ProgressTracker::new(Some(1), 1);
    let n = actions.len();
    let mut actions = actions;
    let ghost all = actions@;
    let mut s: usize = 0;
    while s < n
        invariant
            t.wf(),
            t@.jobs == 1,
            all.len() == n,
            actions@ =~= all.skip(s as int),
            s <= n,
            t@.tasks.len() == s,
            forall|i: int| 0 <= i < s ==> (#[trigger] t@.tasks[i]).action == all[i],
            forall|i: int| 0 <= i < s ==> (#[trigger] t@.tasks[i]).reporter.state is Waiting,
        decreases n - s,
    {
        let action = actions.remove(0);
        proof {
            assert(action == all[s as int]);
            assert(actions@ =~= all.skip(s as int + 1));
        }
        t.start_task(action);
        s += 1;
    }
    let mut i: usize = 0;
    while i < n
        invariant
            t.wf(),
            t@.jobs == 1,
            t@.tasks.len() == n,
            i <= n,
            forall|a: &GitAction| #[trigger] call_requires(exec_action, (a,)),
            forall|k: int| 0 <= k < n ==> (#[trigger] t@.tasks[k]).action == all[k],
            forall|k: int| 0 <= k < i ==> is_terminal((#[trigger] t@.tasks[k]).reporter.state),
            forall|k: int|
                0 <= k < i ==> task_matches_outcome(exec_action, #[trigger] t@.tasks[k]),
            forall|k: int| i <= k < n ==> (#[trigger] t@.tasks[k]).reporter.state is Waiting,
        decreases n - i,
    {
        let r = t.begin_next();
        match r {
            Some(k) => {
                proof {
                    assert(k == i);
                }
                let outcome = exec_action(t.action_of(k));
                let ghost chosen: Result<String, GitError> = outcome;
                t.complete_task(k, outcome);
                proof {
                    assert(call_ensures(exec_action, (&t@.tasks[i as int].action,), chosen));
                    assert(task_matches_outcome(exec_action, t@.tasks[i as int]));
                }
            },
            None => {
                proof {
                    let sts = states_of(t@.tasks);
                    assert(!started(t@.tasks[i as int].reporter.state));
                    assert forall|a: int| 0 <= a < n implies !((#[trigger] sts[a]) is Running) by {
                        assert(sts[a] == t@.tasks[a].reporter.state);
                        if a < i {
                            assert(is_terminal(t@.tasks[a].reporter.state));
                        } else {
                            assert(t@.tasks[a].reporter.state is Waiting);
                        }
                    }
                    lemma_count_running_none(sts);
                    assert(false);
                }
            },
        }
        i += 1;
    }
    t
}

} // verus!
