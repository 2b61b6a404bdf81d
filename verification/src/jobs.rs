//! The job table: background and stopped jobs.
//!
//! A job is known by its number and by the process that leads its process
//! group. Its state is what was last observed of that process.

use vstd::prelude::*;

use crate::numbers::{integer_of, parse_u32};
use crate::text::{chars_from, chars_of, join2, same_text, text_of};

pub mod laws;

verus! {

/// The state of a job.
#[derive(Debug, Clone, Copy, PartialEq, Eq, Structural)]
pub enum JobState {
    /// Running.
    Running,
    /// Stopped by a signal; it can be resumed.
    Stopped,
    /// Exited with this status.
    Done(i32),
    /// Terminated by this signal.
    Signaled(i32),
}

/// What was observed of a child process.
#[derive(Debug, Clone, Copy, PartialEq, Eq, Structural)]
pub enum ChildStatus {
    /// It exited with this status.
    Exited(i32),
    /// This signal terminated it.
    Signaled(i32),
    /// This signal stopped it.
    Stopped(i32),
    /// It runs again.
    Continued,
    /// Anything else, which does not change the state of a job.
    Unchanged,
}

/// The state of a job after its leader was observed.
pub open spec fn observed_state(status: ChildStatus) -> Option<JobState> {
    match status {
        ChildStatus::Exited(code) => Some(JobState::Done(code)),
        ChildStatus::Signaled(signal) => Some(JobState::Signaled(signal)),
        ChildStatus::Stopped(_) => Some(JobState::Stopped),
        ChildStatus::Continued => Some(JobState::Running),
        ChildStatus::Unchanged => None,
    }
}

/// A job has come to its end.
pub open spec fn finished(s: JobState) -> bool {
    s is Done || s is Signaled
}

/// The word that lists show for a state.
pub open spec fn state_label(s: JobState) -> Seq<char> {
    match s {
        JobState::Running => "Running"@,
        JobState::Stopped => "Stopped"@,
        JobState::Done(code) => if code == 0 {
            "Done"@
        } else {
            "Done(non-zero)"@
        },
        JobState::Signaled(_) => "Terminated"@,
    }
}

/// The number of the signal that the terminal sends to interrupt a job.
pub const INTERRUPT: i32 = 2;

/// The status for a signal: 128 more than its number.
pub open spec fn signal_status(signal: i32) -> i32 {
    if signal <= i32::MAX - 128 {
        (128 + signal) as i32
    } else {
        (128 + signal - 0x1_0000_0000) as i32
    }
}

/// The status for a signal: 128 more than its number.
pub fn status_of_signal(signal: i32) -> (r: i32)
    ensures
        r == signal_status(signal),
{
    signal.wrapping_add(128)
}

/// The exit status of a finished job: its own, or that for the signal that ended
/// it.
pub open spec fn exit_status(s: JobState) -> Option<i32> {
    match s {
        JobState::Done(code) => Some(code),
        JobState::Signaled(signal) => Some(signal_status(signal)),
        _ => None,
    }
}

impl JobState {
    /// Whether the job has come to its end.
    #[must_use]
    pub fn is_finished(&self) -> (r: bool)
        ensures
            r == finished(*self),
    {
        match self {
            JobState::Done(_) => true,
            JobState::Signaled(_) => true,
            _ => false,
        }
    }

    /// The word that lists show for this state.
    #[must_use]
    pub fn label(&self) -> (r: &'static str)
        ensures
            r@ == state_label(*self),
    {
        match self {
            JobState::Running => "Running",
            JobState::Stopped => "Stopped",
            JobState::Done(code) => if *code == 0 {
                "Done"
            } else {
                "Done(non-zero)"
            },
            JobState::Signaled(_) => "Terminated",
        }
    }

    /// The exit status of a job in this state, if it is finished.
    #[must_use]
    pub fn exit_code(&self) -> (r: Option<i32>)
        ensures
            r == exit_status(*self),
    {
        match self {
            JobState::Done(code) => Some(*code),
            JobState::Signaled(signal) => Some(status_of_signal(*signal)),
            _ => None,
        }
    }
}

/// A background or stopped job.
#[derive(Debug, PartialEq, Eq)]
pub struct Job {
    /// The number by which users name the job.
    pub id: u32,
    /// The process group, to which signals for the job are sent.
    pub pgid: i32,
    /// The process that leads the group.
    pub leader: i32,
    /// The source text of the command.
    pub command: String,
    pub state: JobState,
    /// The current state has been shown to the user.
    pub notified: bool,
}

/// View of [`Job`].
pub ghost struct JobV {
    pub id: u32,
    pub pgid: i32,
    pub leader: i32,
    pub command: Seq<char>,
    pub state: JobState,
    pub notified: bool,
}

impl View for Job {
    type V = JobV;

    open spec fn view(&self) -> JobV {
        JobV {
            id: self.id,
            pgid: self.pgid,
            leader: self.leader,
            command: self.command@,
            state: self.state,
            notified: self.notified,
        }
    }
}

impl Clone for Job {
    fn clone(&self) -> (r: Self)
        ensures
            r@ == self@,
    {
        Job {
            id: self.id,
            pgid: self.pgid,
            leader: self.leader,
            command: self.command.clone(),
            state: self.state,
            notified: self.notified,
        }
    }
}

/// The job table.
#[derive(Debug)]
pub struct JobTable {
    jobs: Vec<Job>,
    next_id: u32,
    current: Option<i32>,
    previous: Option<i32>,
}

/// View of [`JobTable`].
pub ghost struct JobTableV {
    /// The jobs, oldest first.
    pub jobs: Seq<JobV>,
    /// The number of the next job.
    pub next_id: u32,
    /// The leader of the job that was last put in the background or stopped.
    pub current: Option<i32>,
    /// The leader of the one before it.
    pub previous: Option<i32>,
}

/// The views of a list of jobs.
pub open spec fn jobs_view(s: Seq<Job>) -> Seq<JobV> {
    s.map_values(|j: Job| j@)
}

impl View for JobTable {
    type V = JobTableV;

    closed spec fn view(&self) -> JobTableV {
        JobTableV {
            jobs: jobs_view(self.jobs@),
            next_id: self.next_id,
            current: self.current,
            previous: self.previous,
        }
    }
}

// ---- the rules ----------------------------------------------------------------------------

/// The index of the first job from `i` on with number `id`, or the number of
/// jobs.
pub open spec fn id_from(s: Seq<JobV>, id: u32, i: int) -> int
    decreases s.len() - i,
{
    if i < 0 || i >= s.len() || s[i].id == id {
        i
    } else {
        id_from(s, id, i + 1)
    }
}

/// The job with number `id`.
pub open spec fn job_of(s: Seq<JobV>, id: u32) -> Option<JobV> {
    let i = id_from(s, id, 0);
    if i < s.len() {
        Some(s[i])
    } else {
        None
    }
}

/// The index of the first job from `i` on that `leader` leads, or the number of
/// jobs.
pub open spec fn leader_from(s: Seq<JobV>, leader: i32, i: int) -> int
    decreases s.len() - i,
{
    if i < 0 || i >= s.len() || s[i].leader == leader {
        i
    } else {
        leader_from(s, leader, i + 1)
    }
}

/// The job that `leader` leads.
pub open spec fn job_led_by(s: Seq<JobV>, leader: i32) -> Option<JobV> {
    let i = leader_from(s, leader, 0);
    if i < s.len() {
        Some(s[i])
    } else {
        None
    }
}

/// The number of the job that `leader` leads.
pub open spec fn id_led_by(s: Seq<JobV>, leader: Option<i32>) -> Option<u32> {
    match leader {
        None => None,
        Some(p) => match job_led_by(s, p) {
            Some(j) => Some(j.id),
            None => None,
        },
    }
}

/// The jobs without the one that `leader` leads.
pub open spec fn without_leader(s: Seq<JobV>, leader: i32) -> Seq<JobV> {
    let i = leader_from(s, leader, 0);
    if i < s.len() {
        s.remove(i)
    } else {
        s
    }
}

/// The table after a job was added.
pub open spec fn registered(
    t: JobTableV,
    pgid: i32,
    leader: i32,
    command: Seq<char>,
    state: JobState,
) -> JobTableV {
    JobTableV {
        jobs: without_leader(t.jobs, leader).push(
            JobV { id: t.next_id, pgid, leader, command, state, notified: false },
        ),
        next_id: (t.next_id + 1) as u32,
        current: Some(leader),
        previous: t.current,
    }
}

/// The table after job `id` was removed.
pub open spec fn removed(t: JobTableV, id: u32) -> JobTableV {
    let i = id_from(t.jobs, id, 0);
    if i >= t.jobs.len() {
        t
    } else {
        let leader = t.jobs[i].leader;
        let jobs = t.jobs.remove(i);
        if t.current == Some(leader) {
            JobTableV { jobs, current: t.previous, previous: None, ..t }
        } else if t.previous == Some(leader) {
            JobTableV { jobs, previous: None, ..t }
        } else {
            JobTableV { jobs, ..t }
        }
    }
}

/// The number of jobs whose command starts with `prefix`.
pub open spec fn count_with_prefix(s: Seq<JobV>, prefix: Seq<char>) -> nat
    decreases s.len(),
{
    if s.len() == 0 {
        0
    } else {
        count_with_prefix(s.drop_last(), prefix) + (if prefix.is_prefix_of(s.last().command) {
            1nat
        } else {
            0nat
        })
    }
}

/// The number of the first job whose command starts with `prefix`.
pub open spec fn first_with_prefix(s: Seq<JobV>, prefix: Seq<char>) -> Option<u32>
    decreases s.len(),
{
    if s.len() == 0 {
        None
    } else {
        match first_with_prefix(s.drop_last(), prefix) {
            Some(id) => Some(id),
            None => if prefix.is_prefix_of(s.last().command) {
                Some(s.last().id)
            } else {
                None
            },
        }
    }
}

/// A job specification without its `%`.
pub open spec fn spec_body(spec: Seq<char>) -> Seq<char> {
    if spec.len() > 0 && spec[0] == '%' {
        spec.skip(1)
    } else {
        spec
    }
}

/// The error for a specification that names no job.
pub open spec fn no_such_job(spec: Seq<char>) -> Seq<char> {
    spec + ": no such job"@
}

/// The job that was found, or the error that there is none.
pub open spec fn or_missing(found: Option<u32>, spec: Seq<char>) -> Result<u32, Seq<char>> {
    match found {
        Some(id) => Ok(id),
        None => Err(no_such_job(spec)),
    }
}

/// The number that a specification body writes.
pub open spec fn spec_number(rest: Seq<char>) -> Option<u32> {
    match integer_of(rest, false) {
        Some(n) if n <= u32::MAX => Some(n as u32),
        _ => None,
    }
}

/// The number of the job that a specification names: the current job, the
/// previous one, the one with a number, or the only one whose command starts
/// with a text.
pub open spec fn resolved(t: JobTableV, spec: Option<Seq<char>>) -> Result<u32, Seq<char>> {
    match spec {
        None => match id_led_by(t.jobs, t.current) {
            Some(id) => Ok(id),
            None => Err("current: no such job"@),
        },
        Some(spec) => {
            let rest = spec_body(spec);
            if rest == "+"@ || rest == "%"@ || rest.len() == 0 {
                or_missing(id_led_by(t.jobs, t.current), spec)
            } else if rest == "-"@ {
                or_missing(id_led_by(t.jobs, t.previous), spec)
            } else {
                match spec_number(rest) {
                    Some(n) => or_missing(
                        match job_of(t.jobs, n) {
                            Some(j) => Some(j.id),
                            None => None,
                        },
                        spec,
                    ),
                    None => if count_with_prefix(t.jobs, rest) > 1 {
                        Err(spec + ": ambiguous job spec"@)
                    } else {
                        or_missing(first_with_prefix(t.jobs, rest), spec)
                    },
                }
            }
        },
    }
}

/// A job is finished and has been shown.
pub open spec fn is_settled(j: JobV) -> bool {
    finished(j.state) && j.notified
}

/// The table after the jobs with these numbers were removed.
pub open spec fn purged(t: JobTableV, ids: Seq<u32>) -> JobTableV
    decreases ids.len(),
{
    if ids.len() == 0 {
        t
    } else {
        removed(purged(t, ids.drop_last()), ids.last())
    }
}

/// The numbers of the settled jobs.
pub open spec fn settled_ids(s: Seq<JobV>) -> Seq<u32>
    decreases s.len(),
{
    if s.len() == 0 {
        Seq::empty()
    } else if is_settled(s.last()) {
        settled_ids(s.drop_last()).push(s.last().id)
    } else {
        settled_ids(s.drop_last())
    }
}

/// All jobs shown.
pub open spec fn all_notified(t: JobTableV) -> JobTableV {
    JobTableV {
        jobs: t.jobs.map_values(|j: JobV| JobV { notified: true, ..j }),
        ..t
    }
}

/// The table after the process `pid` was observed, and the number of the job
/// whose state that changed.
pub open spec fn observed(t: JobTableV, pid: i32, status: ChildStatus) -> (JobTableV, Option<u32>) {
    let i = leader_from(t.jobs, pid, 0);
    match observed_state(status) {
        Some(state) if i < t.jobs.len() && state != t.jobs[i].state => (
            JobTableV {
                jobs: t.jobs.update(i, JobV { state, notified: false, ..t.jobs[i] }),
                ..t
            },
            Some(t.jobs[i].id),
        ),
        _ => (t, None),
    }
}

/// The table after several processes were observed in turn, and the numbers of
/// the jobs whose states that changed.
pub open spec fn all_observed(t: JobTableV, seen: Seq<(i32, ChildStatus)>) -> (JobTableV, Seq<u32>)
    decreases seen.len(),
{
    if seen.len() == 0 {
        (t, Seq::empty())
    } else {
        let before = all_observed(t, seen.drop_last());
        let (after, changed) = observed(before.0, seen.last().0, seen.last().1);
        (
            after,
            match changed {
                Some(id) => before.1.push(id),
                None => before.1,
            },
        )
    }
}

/// What waiting for a process comes to.
#[derive(Debug, Clone, Copy, PartialEq, Eq, Structural)]
pub enum Awaited {
    /// Its job ended with this status.
    Ended(i32),
    /// It leads no job, or none that can still change.
    Unknown,
    /// Its job has not ended: wait until a child changes.
    Block,
}

/// What waiting for process `pid` comes to. `none_left`: no child is left that
/// could change.
pub open spec fn awaited(s: Seq<JobV>, pid: i32, none_left: bool) -> Awaited {
    match job_led_by(s, pid) {
        None => Awaited::Unknown,
        Some(job) => match exit_status(job.state) {
            Some(code) => Awaited::Ended(code),
            None => if none_left {
                Awaited::Unknown
            } else {
                Awaited::Block
            },
        },
    }
}

/// The table after job `id` was resumed.
pub open spec fn resumed(t: JobTableV, id: u32) -> JobTableV {
    let i = id_from(t.jobs, id, 0);
    if i < t.jobs.len() {
        JobTableV {
            jobs: t.jobs.update(
                i,
                JobV { state: JobState::Running, notified: false, ..t.jobs[i] },
            ),
            ..t
        }
    } else {
        t
    }
}

/// What has become of the job in the foreground.
#[derive(Debug, Clone, Copy, PartialEq, Eq, Structural)]
pub enum Foreground {
    /// It is running: wait for it again.
    Running,
    /// It was stopped, with this status.
    Stopped(i32),
    /// It ended with this status, and is no job any more.
    Ended(i32),
    /// It was interrupted from the terminal, with this status, and is no job any
    /// more.
    Interrupted(i32),
}

/// The table after job `id` runs in the foreground and its leader was observed,
/// and what has become of it.
pub open spec fn foreground_observed(t: JobTableV, id: u32, status: ChildStatus) -> (
    JobTableV,
    Foreground,
) {
    let running = resumed(t, id);
    match job_of(running.jobs, id) {
        None => (t, Foreground::Ended(1)),
        Some(job) => {
            let after = observed(running, job.leader, status).0;
            match status {
                ChildStatus::Exited(code) => (removed(after, id), Foreground::Ended(code)),
                ChildStatus::Signaled(signal) => (
                    removed(after, id),
                    if signal == INTERRUPT {
                        Foreground::Interrupted(signal_status(signal))
                    } else {
                        Foreground::Ended(signal_status(signal))
                    },
                ),
                ChildStatus::Stopped(signal) => (after, Foreground::Stopped(signal_status(signal))),
                _ => (after, Foreground::Running),
            }
        },
    }
}

/// Some job is running.
pub open spec fn some_running(s: Seq<JobV>) -> bool {
    exists|i: int| 0 <= i < s.len() && (#[trigger] s[i]).state is Running
}

// ---- the table ----------------------------------------------------------------------------

proof fn lemma_id_from(s: Seq<JobV>, id: u32, i: int)
    requires
        0 <= i <= s.len(),
    ensures
        i <= id_from(s, id, i) <= s.len(),
    decreases s.len() - i,
{
    if i < s.len() && s[i].id != id {
        lemma_id_from(s, id, i + 1);
    }
}

proof fn lemma_leader_from(s: Seq<JobV>, leader: i32, i: int)
    requires
        0 <= i <= s.len(),
    ensures
        i <= leader_from(s, leader, i) <= s.len(),
    decreases s.len() - i,
{
    if i < s.len() && s[i].leader != leader {
        lemma_leader_from(s, leader, i + 1);
    }
}

/// A job that is not there cannot be resumed.
proof fn lemma_resumed_job(t: JobTableV, id: u32)
    ensures
        job_of(resumed(t, id).jobs, id) is None ==> resumed(t, id) == t,
{
    let i = id_from(t.jobs, id, 0);
    lemma_id_from(t.jobs, id, 0);
    if i < t.jobs.len() {
        lemma_id_is_absent(t.jobs, id, 0);
        lemma_id_is_absent(resumed(t, id).jobs, id, 0);
        lemma_id_from(resumed(t, id).jobs, id, 0);
        assert(resumed(t, id).jobs[i].id == id);
    }
}

impl JobTable {
    /// A table without jobs.
    #[must_use]
    pub fn new() -> (r: Self)
        ensures
            r@ == (JobTableV { jobs: Seq::empty(), next_id: 1, current: None, previous: None }),
    {
        let r = Self { jobs: Vec::new(), next_id: 1, current: None, previous: None };
        assert(r@.jobs =~= Seq::empty());
        r
    }

    fn index_of_id(&self, id: u32) -> (r: usize)
        ensures
            r == id_from(self@.jobs, id, 0),
            r <= self@.jobs.len(),
    {
        let mut i: usize = 0;
        while i < self.jobs.len() && self.jobs[i].id != id
            invariant
                i <= self.jobs@.len(),
                id_from(self@.jobs, id, 0) == id_from(self@.jobs, id, i as int),
            decreases self.jobs@.len() - i,
        {
            i += 1;
        }
        i
    }

    fn index_of_leader(&self, leader: i32) -> (r: usize)
        ensures
            r == leader_from(self@.jobs, leader, 0),
            r <= self@.jobs.len(),
    {
        let mut i: usize = 0;
        while i < self.jobs.len() && self.jobs[i].leader != leader
            invariant
                i <= self.jobs@.len(),
                leader_from(self@.jobs, leader, 0) == leader_from(self@.jobs, leader, i as int),
            decreases self.jobs@.len() - i,
        {
            i += 1;
        }
        i
    }

    fn add(&mut self, pgid: i32, leader: i32, command: String, state: JobState) -> (r: u32)
        requires
            old(self)@.next_id < u32::MAX,
        ensures
            final(self)@ == registered(old(self)@, pgid, leader, command@, state),
            r == old(self)@.next_id,
    {
        let id: u32 = self.next_id;
        let i: usize = self.index_of_leader(leader);
        if i < self.jobs.len() {
            let _ = self.jobs.remove(i);
        }
        self.jobs.push(Job { id, pgid, leader, command, state, notified: false });
        self.next_id = id + 1;
        self.previous = self.current;
        self.current = Some(leader);
        assert(self@.jobs =~= registered(old(self)@, pgid, leader, command@, state).jobs);
        id
    }

    /// Adds a job that has just been started and makes it the current one. A
    /// job that the same process led before is gone.
    pub fn register(&mut self, pgid: i32, leader: i32, command: String) -> (r: u32)
        requires
            old(self)@.next_id < u32::MAX,
        ensures
            final(self)@ == registered(old(self)@, pgid, leader, command@, JobState::Running),
            r == old(self)@.next_id,
    {
        self.add(pgid, leader, command, JobState::Running)
    }

    /// Adds a job that has just been stopped and makes it the current one.
    pub fn register_stopped(&mut self, pgid: i32, leader: i32, command: String) -> (r: u32)
        requires
            old(self)@.next_id < u32::MAX,
        ensures
            final(self)@ == registered(old(self)@, pgid, leader, command@, JobState::Stopped),
            r == old(self)@.next_id,
    {
        self.add(pgid, leader, command, JobState::Stopped)
    }

    /// The number that the next job will get.
    #[must_use]
    pub fn next_id(&self) -> (r: u32)
        ensures
            r == self@.next_id,
    {
        self.next_id
    }

    /// The job with number `id`.
    #[must_use]
    pub fn get(&self, id: u32) -> (r: Option<&Job>)
        ensures
            match r {
                Some(j) => job_of(self@.jobs, id) == Some(j@),
                None => job_of(self@.jobs, id) is None,
            },
    {
        let i: usize = self.index_of_id(id);
        if i < self.jobs.len() {
            Some(&self.jobs[i])
        } else {
            None
        }
    }

    /// The job with number `id`, to be changed.
    pub fn get_mut(&mut self, id: u32) -> (r: Option<&mut Job>)
        ensures
            match r {
                Some(j) => {
                    &&& job_of(old(self)@.jobs, id) == Some(j@)
                    &&& final(self)@ == (JobTableV {
                        jobs: old(self)@.jobs.update(
                            id_from(old(self)@.jobs, id, 0),
                            final(j)@,
                        ),
                        ..old(self)@
                    })
                },
                None => job_of(old(self)@.jobs, id) is None && final(self)@ == old(self)@,
            },
    {
        let i: usize = self.index_of_id(id);
        if i < self.jobs.len() {
            assert forall|x: Job|
                #[trigger] jobs_view(self.jobs@.update(i as int, x)) == jobs_view(
                    self.jobs@,
                ).update(i as int, x@) by {
                assert(jobs_view(self.jobs@.update(i as int, x)) =~= jobs_view(self.jobs@).update(
                    i as int,
                    x@,
                ));
            }
            Some(&mut self.jobs[i])
        } else {
            None
        }
    }

    /// The job that `leader` leads.
    #[must_use]
    pub fn get_by_leader(&self, leader: i32) -> (r: Option<&Job>)
        ensures
            match r {
                Some(j) => job_led_by(self@.jobs, leader) == Some(j@),
                None => job_led_by(self@.jobs, leader) is None,
            },
    {
        let i: usize = self.index_of_leader(leader);
        if i < self.jobs.len() {
            Some(&self.jobs[i])
        } else {
            None
        }
    }

    /// Every job, oldest first, which is the order of their numbers.
    pub fn iter(&self) -> (r: &Vec<Job>)
        ensures
            jobs_view(r@) == self@.jobs,
    {
        &self.jobs
    }

    /// Removes job `id`. The previous job takes the place of the current one.
    pub fn remove(&mut self, id: u32) -> (r: Option<Job>)
        ensures
            final(self)@ == removed(old(self)@, id),
            match r {
                Some(j) => job_of(old(self)@.jobs, id) == Some(j@),
                None => job_of(old(self)@.jobs, id) is None,
            },
    {
        let i: usize = self.index_of_id(id);
        if i >= self.jobs.len() {
            return None;
        }
        let leader: i32 = self.jobs[i].leader;
        let job = self.jobs.remove(i);
        if self.current == Some(leader) {
            self.current = self.previous;
            self.previous = None;
        } else if self.previous == Some(leader) {
            self.previous = None;
        }
        assert(self@.jobs =~= old(self)@.jobs.remove(i as int));
        Some(job)
    }

    fn id_led_by(&self, leader: Option<i32>) -> (r: Option<u32>)
        ensures
            r == id_led_by(self@.jobs, leader),
    {
        match leader {
            None => None,
            Some(p) => match self.get_by_leader(p) {
                Some(job) => Some(job.id),
                None => None,
            },
        }
    }

    /// The number of the current job.
    #[must_use]
    pub fn current_job_id(&self) -> (r: Option<u32>)
        ensures
            r == id_led_by(self@.jobs, self@.current),
    {
        self.id_led_by(self.current)
    }

    /// The number of the job that `spec` names: `%+`, `%%` or nothing for the
    /// current job, `%-` for the previous one, `%1` for a number, `%text` for
    /// the start of a command. The `%` may be left out.
    ///
    /// # Errors
    ///
    /// A message, if there is not exactly one such job.
    pub fn resolve_spec(&self, spec: Option<&str>) -> (r: Result<u32, String>)
        ensures
            match resolved(
                self@,
                match spec {
                    Some(s) => Some(s@),
                    None => None,
                },
            ) {
                Ok(id) => r == Ok::<u32, String>(id),
                Err(e) => r is Err && r->Err_0@ == e,
            },
    {
        let spec = match spec {
            None => {
                return match self.current_job_id() {
                    Some(id) => Ok(id),
                    None => Err("current: no such job".to_owned()),
                };
            },
            Some(s) => s,
        };
        let chars = chars_of(spec);
        let rest_chars = if chars.len() > 0 && chars[0] == '%' {
            chars_from(&chars, 1)
        } else {
            chars_from(&chars, 0)
        };
        assert(rest_chars@ =~= spec_body(spec@));
        let rest = text_of(&rest_chars);
        let found = if same_text(rest.as_str(), "+") || same_text(rest.as_str(), "%")
            || rest_chars.len() == 0 {
            self.current_job_id()
        } else if same_text(rest.as_str(), "-") {
            self.id_led_by(self.previous)
        } else {
            match parse_u32(rest.as_str()) {
                Some(n) => match self.get(n) {
                    Some(job) => Some(job.id),
                    None => None,
                },
                None => {
                    let (first, count) = self.find_prefix(&rest_chars);
                    if count > 1 {
                        return Err(join2(spec, ": ambiguous job spec"));
                    }
                    first
                },
            }
        };
        match found {
            Some(id) => Ok(id),
            None => Err(join2(spec, ": no such job")),
        }
    }

    /// The number of the first job whose command starts with `prefix`, and how
    /// many there are.
    fn find_prefix(&self, prefix: &Vec<char>) -> (r: (Option<u32>, usize))
        ensures
            r.0 == first_with_prefix(self@.jobs, prefix@),
            r.1 == count_with_prefix(self@.jobs, prefix@),
    {
        let ghost all = self@.jobs;
        let mut first: Option<u32> = None;
        let mut count: usize = 0;
        let mut i: usize = 0;
        assert(all.take(0) =~= Seq::empty());
        while i < self.jobs.len()
            invariant
                all == self@.jobs,
                count <= i <= self.jobs@.len(),
                first == first_with_prefix(all.take(i as int), prefix@),
                count == count_with_prefix(all.take(i as int), prefix@),
            decreases self.jobs@.len() - i,
        {
            let job = &self.jobs[i];
            if starts_with(job.command.as_str(), prefix) {
                count += 1;
                if first.is_none() {
                    first = Some(job.id);
                }
            }
            i += 1;
            assert(all.take(i as int).drop_last() =~= all.take(i - 1));
            assert(all.take(i as int).last() == job@);
        }
        assert(all.take(all.len() as int) =~= all);
        (first, count)
    }

    /// Records what was observed of process `pid`. Gives the number of the job
    /// that it leads, if that changed its state.
    pub fn apply_wait_status(&mut self, pid: i32, status: ChildStatus) -> (r: Option<u32>)
        ensures
            (final(self)@, r) == observed(old(self)@, pid, status),
    {
        let i: usize = self.index_of_leader(pid);
        let state = match status {
            ChildStatus::Exited(code) => JobState::Done(code),
            ChildStatus::Signaled(signal) => JobState::Signaled(signal),
            ChildStatus::Stopped(_) => JobState::Stopped,
            ChildStatus::Continued => JobState::Running,
            ChildStatus::Unchanged => {
                return None;
            },
        };
        if i >= self.jobs.len() || self.jobs[i].state == state {
            return None;
        }
        let mut job = self.jobs[i].clone();
        job.state = state;
        job.notified = false;
        let id: u32 = job.id;
        self.jobs.set(i, job);
        assert(self@.jobs =~= observed(old(self)@, pid, status).0.jobs);
        Some(id)
    }

    /// Records what was observed of the leader of job `id`, which runs in the
    /// foreground. A job that has ended leaves the table.
    pub fn observe_foreground(&mut self, id: u32, status: ChildStatus) -> (r: Foreground)
        ensures
            (final(self)@, r) == foreground_observed(old(self)@, id, status),
    {
        let ghost before = self@;
        self.mark_resumed(id);
        let leader: i32 = match self.get(id) {
            None => {
                proof {
                    lemma_resumed_job(before, id);
                }
                return Foreground::Ended(1);
            },
            Some(job) => job.leader,
        };
        let _ = self.apply_wait_status(leader, status);
        match status {
            ChildStatus::Exited(code) => {
                let _ = self.remove(id);
                Foreground::Ended(code)
            },
            ChildStatus::Signaled(signal) => {
                let _ = self.remove(id);
                if signal == INTERRUPT {
                    Foreground::Interrupted(status_of_signal(signal))
                } else {
                    Foreground::Ended(status_of_signal(signal))
                }
            },
            ChildStatus::Stopped(signal) => Foreground::Stopped(status_of_signal(signal)),
            _ => Foreground::Running,
        }
    }

    /// Records what was observed of several processes. Gives the numbers of the
    /// jobs whose states that changed.
    pub fn apply_all(&mut self, seen: &Vec<(i32, ChildStatus)>) -> (r: Vec<u32>)
        ensures
            (final(self)@, r@) == all_observed(old(self)@, seen@),
    {
        let mut r: Vec<u32> = Vec::new();
        let mut i: usize = 0;
        assert(seen@.take(0) =~= Seq::empty());
        assert(r@ =~= Seq::empty());
        while i < seen.len()
            invariant
                i <= seen@.len(),
                (self@, r@) == all_observed(old(self)@, seen@.take(i as int)),
            decreases seen@.len() - i,
        {
            let (pid, status) = seen[i];
            if let Some(id) = self.apply_wait_status(pid, status) {
                r.push(id);
            }
            i += 1;
            assert(seen@.take(i as int).drop_last() =~= seen@.take(i - 1));
            assert(seen@.take(i as int).last() == seen@[i - 1]);
        }
        assert(seen@.take(seen@.len() as int) =~= seen@);
        r
    }

    /// What waiting for process `pid` comes to.
    #[must_use]
    pub fn await_process(&self, pid: i32, none_left: bool) -> (r: Awaited)
        ensures
            r == awaited(self@.jobs, pid, none_left),
    {
        match self.get_by_leader(pid) {
            None => Awaited::Unknown,
            Some(job) => match job.state.exit_code() {
                Some(code) => Awaited::Ended(code),
                None => if none_left {
                    Awaited::Unknown
                } else {
                    Awaited::Block
                },
            },
        }
    }

    /// Marks job `id` as running.
    pub fn mark_resumed(&mut self, id: u32)
        ensures
            final(self)@ == resumed(old(self)@, id),
    {
        let i: usize = self.index_of_id(id);
        if i < self.jobs.len() {
            let mut job = self.jobs[i].clone();
            job.state = JobState::Running;
            job.notified = false;
            self.jobs.set(i, job);
        }
        assert(self@.jobs =~= resumed(old(self)@, id).jobs);
    }

    /// Marks every job as shown.
    pub fn mark_all_notified(&mut self)
        ensures
            final(self)@ == all_notified(old(self)@),
    {
        let ghost all = self@.jobs;
        let mut i: usize = 0;
        while i < self.jobs.len()
            invariant
                self.next_id == old(self).next_id,
                self.current == old(self).current,
                self.previous == old(self).previous,
                all == old(self)@.jobs,
                i <= self.jobs@.len() == all.len(),
                forall|k: int|
                    0 <= k < i ==> (#[trigger] self.jobs@[k])@ == (JobV {
                        notified: true,
                        ..all[k]
                    }),
                forall|k: int| i <= k < all.len() ==> (#[trigger] self.jobs@[k])@ == all[k],
            decreases self.jobs@.len() - i,
        {
            let mut job = self.jobs[i].clone();
            job.notified = true;
            self.jobs.set(i, job);
            i += 1;
        }
        assert(self@.jobs =~= all_notified(old(self)@).jobs);
    }

    /// Removes every job that is finished and has been shown.
    pub fn purge_finished_notified(&mut self)
        ensures
            final(self)@ == purged(old(self)@, settled_ids(old(self)@.jobs)),
    {
        let ghost all = self@.jobs;
        let mut ids: Vec<u32> = Vec::new();
        let mut i: usize = 0;
        assert(all.take(0) =~= Seq::empty());
        assert(ids@ =~= Seq::empty());
        while i < self.jobs.len()
            invariant
                all == self@.jobs,
                *self == *old(self),
                i <= self.jobs@.len(),
                ids@ == settled_ids(all.take(i as int)),
            decreases self.jobs@.len() - i,
        {
            let job = &self.jobs[i];
            if job.state.is_finished() && job.notified {
                ids.push(job.id);
            }
            i += 1;
            assert(all.take(i as int).drop_last() =~= all.take(i - 1));
            assert(all.take(i as int).last() == job@);
        }
        assert(all.take(all.len() as int) =~= all);
        let mut k: usize = 0;
        assert(ids@.take(0) =~= Seq::empty());
        while k < ids.len()
            invariant
                k <= ids@.len(),
                self@ == purged(old(self)@, ids@.take(k as int)),
            decreases ids@.len() - k,
        {
            let _ = self.remove(ids[k]);
            k += 1;
            assert(ids@.take(k as int).drop_last() =~= ids@.take(k - 1));
        }
        assert(ids@.take(ids@.len() as int) =~= ids@);
    }

    /// Whether a job is running.
    #[must_use]
    pub fn any_running(&self) -> (r: bool)
        ensures
            r == some_running(self@.jobs),
    {
        let mut i: usize = 0;
        while i < self.jobs.len()
            invariant
                i <= self.jobs@.len(),
                forall|k: int| 0 <= k < i ==> !((#[trigger] self@.jobs[k]).state is Running),
            decreases self.jobs@.len() - i,
        {
            assert(self@.jobs[i as int] == self.jobs@[i as int]@);
            if let JobState::Running = self.jobs[i].state {
                return true;
            }
            i += 1;
        }
        false
    }
}

/// A table whose first job gets number 0.
impl Default for JobTable {
    fn default() -> (r: Self)
        ensures
            r@ == (JobTableV { jobs: Seq::empty(), next_id: 0, current: None, previous: None }),
    {
        let r = Self { jobs: Vec::new(), next_id: 0, current: None, previous: None };
        assert(r@.jobs =~= Seq::empty());
        r
    }
}

/// Whether `s` starts with the characters of `prefix`.
fn starts_with(s: &str, prefix: &Vec<char>) -> (r: bool)
    ensures
        r == prefix@.is_prefix_of(s@),
{
    let v = chars_of(s);
    if prefix.len() > v.len() {
        return false;
    }
    let mut i: usize = 0;
    while i < prefix.len()
        invariant
            i <= prefix@.len() <= v@.len(),
            v@ == s@,
            forall|k: int| 0 <= k < i ==> prefix@[k] == v@[k],
        decreases prefix@.len() - i,
    {
        if prefix[i] != v[i] {
            assert(v@.subrange(0, prefix@.len() as int)[i as int] == v@[i as int]);
            return false;
        }
        i += 1;
    }
    assert(v@.subrange(0, prefix@.len() as int) =~= prefix@);
    true
}

// ---- laws ---------------------------------------------------------------------------------

/// The numbers of the jobs ascend and lie below the next one, and no process
/// leads two jobs.
pub open spec fn is_ordered(t: JobTableV) -> bool {
    &&& forall|i: int, j: int|
        0 <= i < j < t.jobs.len() ==> (#[trigger] t.jobs[i]).id < (#[trigger] t.jobs[j]).id
            && t.jobs[i].leader != t.jobs[j].leader
    &&& forall|i: int| 0 <= i < t.jobs.len() ==> (#[trigger] t.jobs[i]).id < t.next_id
}

proof fn lemma_leader_is_absent(s: Seq<JobV>, leader: i32, i: int)
    requires
        0 <= i <= s.len(),
    ensures
        forall|k: int|
            i <= k < leader_from(s, leader, i) ==> (#[trigger] s[k]).leader != leader,
    decreases s.len() - i,
{
    if i < s.len() && s[i].leader != leader {
        lemma_leader_is_absent(s, leader, i + 1);
    }
}

proof fn lemma_leader_found(s: Seq<JobV>, leader: i32, n: int, i: int)
    requires
        0 <= i <= n < s.len(),
        s[n].leader == leader,
        forall|k: int| 0 <= k < n ==> (#[trigger] s[k]).leader != leader,
    ensures
        leader_from(s, leader, i) == n,
    decreases n - i,
{
    if i < n {
        lemma_leader_found(s, leader, n, i + 1);
    }
}

/// A new job gets the next number, becomes the current job and comes last in the
/// list; the job that was current becomes the previous one.
pub proof fn law_registering_orders_jobs(
    t: JobTableV,
    pgid: i32,
    leader: i32,
    command: Seq<char>,
    state: JobState,
)
    requires
        is_ordered(t),
        t.next_id < u32::MAX,
    ensures
        ({
            let after = registered(t, pgid, leader, command, state);
            &&& is_ordered(after)
            &&& id_led_by(after.jobs, after.current) == Some(t.next_id)
            &&& after.previous == t.current
        }),
{
    let after = registered(t, pgid, leader, command, state);
    let n = leader_from(t.jobs, leader, 0);
    let kept = without_leader(t.jobs, leader);
    lemma_leader_from(t.jobs, leader, 0);
    lemma_leader_is_absent(t.jobs, leader, 0);
    lemma_leader_at(t.jobs, leader, 0);
    assert forall|k: int| 0 <= k < kept.len() implies (#[trigger] kept[k]).leader != leader by {
        if n < t.jobs.len() && k >= n {
            assert(kept[k] == t.jobs[k + 1]);
            assert(t.jobs[n].leader == leader);
        } else {
            assert(kept[k] == t.jobs[k]);
        }
    }
    assert forall|k: int| 0 <= k < kept.len() implies after.jobs[k] == #[trigger] kept[k] by {
    }
    lemma_leader_found(after.jobs, leader, kept.len() as int, 0);
}

/// Removing the current job makes the previous one current; removing any job
/// keeps the order of the others.
pub proof fn law_removing_promotes_previous(t: JobTableV, id: u32)
    requires
        is_ordered(t),
        job_of(t.jobs, id) is Some,
    ensures
        is_ordered(removed(t, id)),
        removed(t, id).jobs.len() == t.jobs.len() - 1,
        t.current == Some(job_of(t.jobs, id)->Some_0.leader) ==> removed(t, id).current
            == t.previous && removed(t, id).previous is None,
        t.current != Some(job_of(t.jobs, id)->Some_0.leader) ==> removed(t, id).current
            == t.current,
{
    lemma_id_from(t.jobs, id, 0);
}

proof fn lemma_id_is_absent(s: Seq<JobV>, id: u32, i: int)
    requires
        0 <= i <= s.len(),
    ensures
        forall|k: int| i <= k < id_from(s, id, i) ==> (#[trigger] s[k]).id != id,
        id_from(s, id, i) < s.len() ==> s[id_from(s, id, i)].id == id,
    decreases s.len() - i,
{
    if i < s.len() && s[i].id != id {
        lemma_id_is_absent(s, id, i + 1);
    }
}

proof fn lemma_removed(t: JobTableV, id: u32)
    requires
        is_ordered(t),
    ensures
        is_ordered(removed(t, id)),
        forall|j: JobV| #[trigger] removed(t, id).jobs.contains(j) <==> t.jobs.contains(j) && j.id
            != id,
{
    let n = id_from(t.jobs, id, 0);
    let after = removed(t, id).jobs;
    lemma_id_from(t.jobs, id, 0);
    lemma_id_is_absent(t.jobs, id, 0);
    assert forall|j: JobV| #[trigger] after.contains(j) <==> t.jobs.contains(j) && j.id != id by {
        if n < t.jobs.len() {
            if after.contains(j) {
                let k = after.index_of(j);
                assert(after[k] == t.jobs[if k < n {
                    k
                } else {
                    k + 1
                }]);
            }
            if t.jobs.contains(j) && j.id != id {
                let k = t.jobs.index_of(j);
                assert(after[if k < n {
                    k
                } else {
                    k - 1
                }] == j);
            }
        } else if t.jobs.contains(j) {
            assert(t.jobs[t.jobs.index_of(j)] == j);
        }
    }
}

/// Removing jobs leaves exactly the others.
pub proof fn lemma_purged(t: JobTableV, ids: Seq<u32>)
    requires
        is_ordered(t),
    ensures
        is_ordered(purged(t, ids)),
        forall|j: JobV| #[trigger] purged(t, ids).jobs.contains(j) <==> t.jobs.contains(j)
            && !ids.contains(j.id),
    decreases ids.len(),
{
    if ids.len() > 0 {
        let front = ids.drop_last();
        lemma_purged(t, front);
        lemma_removed(purged(t, front), ids.last());
        assert forall|j: JobV| #[trigger] purged(t, ids).jobs.contains(j) <==> t.jobs.contains(j)
            && !ids.contains(j.id) by {
            assert(purged(t, ids).jobs.contains(j) <==> purged(t, front).jobs.contains(j) && j.id
                != ids.last());
            if ids.contains(j.id) && j.id != ids.last() {
                let k = ids.index_of(j.id);
                assert(front[k] == j.id);
            }
            if front.contains(j.id) {
                let k = front.index_of(j.id);
                assert(ids[k] == j.id);
            }
            assert(ids[ids.len() - 1] == ids.last());
        }
    }
}

/// The numbers of the settled jobs are those of settled jobs, and all of them.
pub proof fn lemma_settled_ids(s: Seq<JobV>)
    ensures
        forall|id: u32| #[trigger] settled_ids(s).contains(id) <==> exists|k: int|
            0 <= k < s.len() && (#[trigger] s[k]).id == id && is_settled(s[k]),
    decreases s.len(),
{
    if s.len() > 0 {
        let front = s.drop_last();
        lemma_settled_ids(front);
        let ids = settled_ids(s);
        let before = settled_ids(front);
        assert forall|id: u32| #[trigger] ids.contains(id) <==> exists|k: int|
            0 <= k < s.len() && (#[trigger] s[k]).id == id && is_settled(s[k]) by {
            assert(before.contains(id) <==> exists|k: int|
                0 <= k < front.len() && (#[trigger] front[k]).id == id && is_settled(front[k]));
            if ids.contains(id) {
                let i = ids.index_of(id);
                if i < before.len() {
                    assert(before[i] == id);
                    let k = choose|k: int|
                        0 <= k < front.len() && (#[trigger] front[k]).id == id && is_settled(
                            front[k],
                        );
                    assert(s[k].id == id && is_settled(s[k]));
                } else {
                    assert(s[s.len() - 1].id == id);
                }
            }
            if exists|k: int|
                0 <= k < s.len() && (#[trigger] s[k]).id == id && is_settled(s[k]) {
                let k = choose|k: int|
                    0 <= k < s.len() && (#[trigger] s[k]).id == id && is_settled(s[k]);
                if k < front.len() {
                    assert(front[k].id == id && is_settled(front[k]));
                    let i = before.index_of(id);
                    assert(ids[i] == id);
                } else {
                    assert(ids[ids.len() - 1] == id);
                }
            }
        }
    }
}

/// Observing a process changes nothing but the state of the job that it leads,
/// and a state that did change has to be shown again.
pub proof fn law_observing_touches_one_job(t: JobTableV, pid: i32, status: ChildStatus, k: int)
    requires
        is_ordered(t),
        0 <= k < t.jobs.len(),
    ensures
        ({
            let (after, changed) = observed(t, pid, status);
            &&& is_ordered(after)
            &&& after.jobs.len() == t.jobs.len()
            &&& after.current == t.current
            &&& after.previous == t.previous
            &&& t.jobs[k].leader != pid ==> after.jobs[k] == t.jobs[k]
            &&& t.jobs[k].leader == pid && observed_state(status) is Some ==> {
                &&& after.jobs[k].state == observed_state(status)->Some_0
                &&& t.jobs[k].state != after.jobs[k].state ==> changed == Some(t.jobs[k].id)
                    && !after.jobs[k].notified
                &&& t.jobs[k].state == after.jobs[k].state ==> changed is None && after == t
            }
        }),
{
    lemma_leader_from(t.jobs, pid, 0);
    lemma_leader_is_absent(t.jobs, pid, 0);
    if t.jobs[k].leader == pid {
        assert forall|j: int| 0 <= j < k implies (#[trigger] t.jobs[j]).leader != pid by {
            assert(t.jobs[k].leader == pid);
        }
        lemma_leader_found(t.jobs, pid, k, 0);
    }
    assert(leader_from(t.jobs, pid, 0) < t.jobs.len() ==> t.jobs[leader_from(
        t.jobs,
        pid,
        0,
    )].leader == pid) by {
        lemma_leader_at(t.jobs, pid, 0);
    }
}

proof fn lemma_leader_at(s: Seq<JobV>, leader: i32, i: int)
    requires
        0 <= i <= s.len(),
    ensures
        leader_from(s, leader, i) < s.len() ==> s[leader_from(s, leader, i)].leader == leader,
    decreases s.len() - i,
{
    if i < s.len() && s[i].leader != leader {
        lemma_leader_at(s, leader, i + 1);
    }
}

} // verus!
