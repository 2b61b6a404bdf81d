//! What the job table promises of its jobs, by their numbers and processes.

use vstd::prelude::*;

use crate::jobs::{
    all_observed, awaited, count_with_prefix, exit_status, finished, first_with_prefix,
    foreground_observed, id_from, id_led_by, is_ordered, job_led_by, job_of, leader_from,
    lemma_id_from, lemma_id_is_absent, lemma_leader_at, lemma_leader_from, lemma_leader_is_absent,
    observed, registered, removed, resolved, resumed, without_leader, Awaited, ChildStatus,
    Foreground, JobState, JobTableV, JobV, INTERRUPT,
};
use crate::numbers::{decimal, integer_of, law_decimal_reads_back};

verus! {

/// A job is found by its number and by its process, and nothing else is found
/// by them.
pub proof fn law_jobs_are_found(t: JobTableV, k: int, id: u32, leader: i32)
    requires
        is_ordered(t),
        0 <= k < t.jobs.len(),
    ensures
        job_of(t.jobs, t.jobs[k].id) == Some(t.jobs[k]),
        job_led_by(t.jobs, t.jobs[k].leader) == Some(t.jobs[k]),
        match job_of(t.jobs, id) {
            Some(j) => j.id == id && t.jobs.contains(j),
            None => t.jobs[k].id != id,
        },
        match job_led_by(t.jobs, leader) {
            Some(j) => j.leader == leader && t.jobs.contains(j),
            None => t.jobs[k].leader != leader,
        },
{
    let s = t.jobs;
    lemma_id_from(s, s[k].id, 0);
    lemma_id_is_absent(s, s[k].id, 0);
    lemma_id_from(s, id, 0);
    lemma_id_is_absent(s, id, 0);
    lemma_leader_from(s, leader, 0);
    lemma_leader_is_absent(s, leader, 0);
    lemma_leader_at(s, leader, 0);
    lemma_leader_from(s, s[k].leader, 0);
    lemma_leader_is_absent(s, s[k].leader, 0);
    lemma_leader_at(s, s[k].leader, 0);
}

/// A job that is started gets a number that no job had, is the current one, and
/// is found as it was started. The job that was current is the previous one.
/// Every job of another process stays as it is.
pub proof fn law_started_jobs_are_known(
    t: JobTableV,
    pgid: i32,
    leader: i32,
    command: Seq<char>,
    state: JobState,
    other: JobV,
)
    requires
        is_ordered(t),
        t.next_id < u32::MAX,
    ensures
        ({
            let after = registered(t, pgid, leader, command, state);
            let job = JobV { id: t.next_id, pgid, leader, command, state, notified: false };
            &&& is_ordered(after)
            &&& job_of(t.jobs, job.id) is None
            &&& job_of(after.jobs, job.id) == Some(job)
            &&& job_led_by(after.jobs, leader) == Some(job)
            &&& resolved(after, None) == Ok::<u32, Seq<char>>(job.id)
            &&& other.leader != leader ==> (after.jobs.contains(other) <==> t.jobs.contains(other))
            &&& t.current is Some && t.current != Some(leader) ==> id_led_by(
                after.jobs,
                after.previous,
            ) == id_led_by(t.jobs, t.current)
        }),
{
    let after = registered(t, pgid, leader, command, state);
    let s = t.jobs;
    let kept = without_leader(s, leader);
    let n = leader_from(s, leader, 0);
    crate::jobs::law_registering_orders_jobs(t, pgid, leader, command, state);
    lemma_leader_from(s, leader, 0);
    lemma_id_from(s, t.next_id, 0);
    lemma_id_is_absent(s, t.next_id, 0);
    law_jobs_are_found(after, kept.len() as int, 0, 0);
    assert(after.jobs[kept.len() as int].leader == leader);
    lemma_leader_at(s, leader, 0);
    if other.leader != leader {
        lemma_kept(t, pgid, leader, command, state, other);
    }
    if let Some(c) = t.current {
        if c != leader {
            lemma_leader_from(s, c, 0);
            lemma_leader_at(s, c, 0);
            lemma_leader_from(after.jobs, c, 0);
            lemma_leader_at(after.jobs, c, 0);
            if leader_from(s, c, 0) < s.len() {
                let j = s[leader_from(s, c, 0)];
                lemma_kept(t, pgid, leader, command, state, j);
                let m = choose|m: int| 0 <= m < after.jobs.len() && after.jobs[m] == j;
                law_jobs_are_found(after, m, 0, 0);
            } else if leader_from(after.jobs, c, 0) < after.jobs.len() {
                let j = after.jobs[leader_from(after.jobs, c, 0)];
                lemma_kept(t, pgid, leader, command, state, j);
                let m = choose|m: int| 0 <= m < s.len() && s[m] == j;
                law_jobs_are_found(t, m, 0, c);
            }
        }
    }
}

proof fn lemma_kept(
    t: JobTableV,
    pgid: i32,
    leader: i32,
    command: Seq<char>,
    state: JobState,
    other: JobV,
)
    requires
        other.leader != leader,
    ensures
        registered(t, pgid, leader, command, state).jobs.contains(other) <==> t.jobs.contains(
            other,
        ),
{
    let s = t.jobs;
    let after = registered(t, pgid, leader, command, state).jobs;
    let n = leader_from(s, leader, 0);
    lemma_leader_from(s, leader, 0);
    lemma_leader_at(s, leader, 0);
    if s.contains(other) {
        let k = choose|k: int| 0 <= k < s.len() && s[k] == other;
        if n < s.len() && k > n {
            assert(after[k - 1] == other);
        } else {
            assert(after[k] == other);
        }
    }
    if after.contains(other) {
        let k = choose|k: int| 0 <= k < after.len() && after[k] == other;
        if n < s.len() && k >= n {
            assert(s[k + 1] == other);
        } else {
            assert(s[k] == other);
        }
    }
}

/// A job that is removed is not found any more, and every other job is.
pub proof fn law_removed_jobs_are_gone(t: JobTableV, id: u32, other: JobV)
    requires
        is_ordered(t),
    ensures
        job_of(removed(t, id).jobs, id) is None,
        removed(t, id).jobs.contains(other) <==> t.jobs.contains(other) && other.id != id,
        removed(t, id).next_id == t.next_id,
{
    let s = t.jobs;
    let after = removed(t, id).jobs;
    let i = id_from(s, id, 0);
    lemma_id_from(s, id, 0);
    lemma_id_is_absent(s, id, 0);
    lemma_id_from(after, id, 0);
    lemma_id_is_absent(after, id, 0);
    assert forall|k: int| 0 <= k < after.len() implies (#[trigger] after[k]).id != id
        && s.contains(after[k]) by {
        if i < s.len() && k >= i {
            assert(after[k] == s[k + 1]);
        } else {
            assert(after[k] == s[k]);
        }
    }
    if s.contains(other) && other.id != id {
        let k = choose|k: int| 0 <= k < s.len() && s[k] == other;
        if i < s.len() && k > i {
            assert(after[k - 1] == other);
        } else {
            assert(after[k] == other);
        }
    }
}

/// A job that ended by itself has the status that it ended with, and one that a
/// signal ended has 128 more than the signal's number. A job that is still
/// there has none.
pub proof fn law_ended_jobs_have_a_status(code: i32, signal: i32)
    requires
        0 < signal < 128,
    ensures
        exit_status(JobState::Done(code)) == Some(code),
        exit_status(JobState::Signaled(signal)) == Some((128 + signal) as i32),
        exit_status(JobState::Running) is None,
        exit_status(JobState::Stopped) is None,
        finished(JobState::Done(code)),
        finished(JobState::Signaled(signal)),
        !finished(JobState::Running),
        !finished(JobState::Stopped),
{
}

/// What is seen of a process becomes the state of its job: it ended, was
/// ended, was stopped or runs again. To wait for it then gives its status, or
/// goes on waiting.
pub proof fn law_what_is_seen_is_known(t: JobTableV, k: int, code: i32, signal: i32)
    requires
        is_ordered(t),
        0 <= k < t.jobs.len(),
        0 < signal < 128,
    ensures
        ({
            let pid = t.jobs[k].leader;
            let exited = observed(t, pid, ChildStatus::Exited(code)).0.jobs;
            let killed = observed(t, pid, ChildStatus::Signaled(signal)).0.jobs;
            let stopped = observed(t, pid, ChildStatus::Stopped(signal)).0.jobs;
            let continued = observed(t, pid, ChildStatus::Continued).0.jobs;
            &&& exited[k].state == JobState::Done(code)
            &&& killed[k].state == JobState::Signaled(signal)
            &&& stopped[k].state is Stopped
            &&& continued[k].state is Running
            &&& observed(t, pid, ChildStatus::Unchanged).0 == t
            &&& awaited(exited, pid, false) == Awaited::Ended(code)
            &&& awaited(killed, pid, false) == Awaited::Ended((128 + signal) as i32)
            &&& awaited(stopped, pid, false) is Block
            &&& awaited(continued, pid, false) is Block
            &&& awaited(continued, pid, true) is Unknown
        }),
{
    let pid = t.jobs[k].leader;
    crate::jobs::law_observing_touches_one_job(t, pid, ChildStatus::Exited(code), k);
    crate::jobs::law_observing_touches_one_job(t, pid, ChildStatus::Signaled(signal), k);
    crate::jobs::law_observing_touches_one_job(t, pid, ChildStatus::Stopped(signal), k);
    crate::jobs::law_observing_touches_one_job(t, pid, ChildStatus::Continued, k);
    law_jobs_are_found(t, k, 0, 0);
    lemma_leader_from(t.jobs, pid, 0);
    lemma_leader_at(t.jobs, pid, 0);
    law_jobs_are_found(observed(t, pid, ChildStatus::Exited(code)).0, k, 0, 0);
    law_jobs_are_found(observed(t, pid, ChildStatus::Signaled(signal)).0, k, 0, 0);
    law_jobs_are_found(observed(t, pid, ChildStatus::Stopped(signal)).0, k, 0, 0);
    law_jobs_are_found(observed(t, pid, ChildStatus::Continued).0, k, 0, 0);
}

/// Nobody waits for a process that leads no job.
pub proof fn law_strangers_are_not_awaited(t: JobTableV, pid: i32, none_left: bool)
    requires
        forall|k: int| 0 <= k < t.jobs.len() ==> (#[trigger] t.jobs[k]).leader != pid,
    ensures
        awaited(t.jobs, pid, none_left) is Unknown,
{
    lemma_leader_from(t.jobs, pid, 0);
    lemma_leader_at(t.jobs, pid, 0);
}

/// What is seen first is taken in first: two reports have the effect of the one
/// after the other.
pub proof fn law_reports_are_taken_in_turn(
    t: JobTableV,
    seen: Seq<(i32, ChildStatus)>,
    more: Seq<(i32, ChildStatus)>,
)
    ensures
        ({
            let first = all_observed(t, seen);
            let second = all_observed(first.0, more);
            &&& all_observed(t, seen + more).0 == second.0
            &&& all_observed(t, seen + more).1 == first.1 + second.1
        }),
    decreases more.len(),
{
    let first = all_observed(t, seen);
    if more.len() == 0 {
        assert(seen + more =~= seen);
        assert(first.1 + Seq::<u32>::empty() =~= first.1);
    } else {
        law_reports_are_taken_in_turn(t, seen, more.drop_last());
        assert((seen + more).drop_last() =~= seen + more.drop_last());
        assert((seen + more).last() == more.last());
        let before = all_observed(first.0, more.drop_last());
        if let Some(id) = observed(before.0, more.last().0, more.last().1).1 {
            assert((first.1 + before.1).push(id) =~= first.1 + before.1.push(id));
        }
    }
}

/// `%n` is the job with the number `n`, with or without the sign.
pub proof fn law_job_numbers_name_jobs(t: JobTableV, k: int, id: u32)
    requires
        is_ordered(t),
        0 <= k < t.jobs.len(),
    ensures
        ({
            let number = decimal(t.jobs[k].id as int);
            &&& resolved(t, Some(number)) == Ok::<u32, Seq<char>>(t.jobs[k].id)
            &&& resolved(t, Some(seq!['%'] + number)) == Ok::<u32, Seq<char>>(t.jobs[k].id)
        }),
        job_of(t.jobs, id) is None ==> resolved(t, Some(seq!['%'] + decimal(id as int))) is Err,
{
    reveal_strlit("+");
    reveal_strlit("%");
    reveal_strlit("-");
    law_jobs_are_found(t, k, id, 0);
    lemma_number_is_no_sign(t.jobs[k].id);
    lemma_number_is_no_sign(id);
    let number = decimal(t.jobs[k].id as int);
    assert((seq!['%'] + number).skip(1) =~= number);
    assert((seq!['%'] + decimal(id as int)).skip(1) =~= decimal(id as int));
}

proof fn lemma_number_is_no_sign(id: u32)
    ensures
        decimal(id as int).len() > 0,
        decimal(id as int) != "+"@,
        decimal(id as int) != "-"@,
        decimal(id as int) != "%"@,
        decimal(id as int)[0] != '%',
        integer_of(decimal(id as int), false) == Some(id as int),
{
    reveal_strlit("+");
    reveal_strlit("%");
    reveal_strlit("-");
    law_decimal_reads_back(id as int);
    crate::numbers::law_digits_read_back(id as nat);
    assert(crate::text::is_digit(decimal(id as int)[0]));
}

/// `%%`, `%+` and `%` are the current job, and `%-` is the previous one.
pub proof fn law_signs_name_jobs(t: JobTableV)
    ensures
        ({
            let current = id_led_by(t.jobs, t.current);
            let previous = id_led_by(t.jobs, t.previous);
            let named = |s: Seq<char>, id: Option<u32>| match id {
                Some(id) => resolved(t, Some(s)) == Ok::<u32, Seq<char>>(id),
                None => resolved(t, Some(s)) is Err,
            };
            &&& named(seq!['%', '%'], current)
            &&& named(seq!['%', '+'], current)
            &&& named(seq!['%'], current)
            &&& named(seq!['%', '-'], previous)
            &&& current is Some ==> resolved(t, None) == resolved(t, Some(seq!['%', '%']))
            &&& current is None ==> resolved(t, None) is Err
        }),
{
    reveal_strlit("+");
    reveal_strlit("%");
    reveal_strlit("-");
    assert(seq!['%', '%'].skip(1) =~= "%"@);
    assert(seq!['%', '+'].skip(1) =~= "+"@);
    assert(seq!['%', '-'].skip(1) =~= "-"@);
    assert(seq!['%'].skip(1) =~= Seq::<char>::empty());
}

/// `%text` is the one job whose command begins with the text. It is nobody
/// where no command does, or more than one.
pub proof fn law_beginnings_name_jobs(t: JobTableV, text: Seq<char>, k: int, m: int)
    requires
        text.len() > 0,
        !crate::text::is_digit(text[0]),
        text[0] != '+' && text[0] != '-' && text[0] != '%',
        0 <= k < t.jobs.len(),
    ensures
        text.is_prefix_of(t.jobs[k].command) && (forall|i: int|
            0 <= i < t.jobs.len() && i != k ==> !text.is_prefix_of((#[trigger] t.jobs[i]).command))
            ==> resolved(t, Some(seq!['%'] + text)) == Ok::<u32, Seq<char>>(t.jobs[k].id),
        (forall|i: int|
            0 <= i < t.jobs.len() ==> !text.is_prefix_of((#[trigger] t.jobs[i]).command))
            ==> resolved(t, Some(seq!['%'] + text)) is Err,
        k < m < t.jobs.len() && text.is_prefix_of(t.jobs[k].command) && text.is_prefix_of(
            t.jobs[m].command,
        ) ==> resolved(t, Some(seq!['%'] + text)) is Err,
{
    reveal_strlit("+");
    reveal_strlit("%");
    reveal_strlit("-");
    assert((seq!['%'] + text).skip(1) =~= text);
    assert(integer_of(text, false) is None) by {
        assert(!crate::numbers::all_digits(text));
    }
    lemma_prefixes(t.jobs, text, k, m);
}

proof fn lemma_prefixes(s: Seq<JobV>, text: Seq<char>, k: int, m: int)
    requires
        0 <= k < s.len(),
    ensures
        text.is_prefix_of(s[k].command) ==> count_with_prefix(s, text) >= 1,
        k < m < s.len() && text.is_prefix_of(s[k].command) && text.is_prefix_of(s[m].command)
            ==> count_with_prefix(s, text) >= 2,
        (forall|i: int| 0 <= i < s.len() ==> !text.is_prefix_of((#[trigger] s[i]).command))
            ==> count_with_prefix(s, text) == 0 && first_with_prefix(s, text) is None,
        text.is_prefix_of(s[k].command) && (forall|i: int|
            0 <= i < s.len() && i != k ==> !text.is_prefix_of((#[trigger] s[i]).command))
            ==> count_with_prefix(s, text) == 1 && first_with_prefix(s, text) == Some(s[k].id),
    decreases s.len(),
{
    let front = s.drop_last();
    assert forall|i: int| 0 <= i < front.len() implies #[trigger] front[i] == s[i] by {
    }
    assert(s.last() == s[s.len() - 1]);
    if front.len() > 0 {
        lemma_prefixes(front, text, if k < front.len() { k } else { 0 }, m);
    } else {
        reveal_with_fuel(count_with_prefix, 2);
        reveal_with_fuel(first_with_prefix, 2);
    }
}

/// A job that is resumed runs, and no other job is touched.
pub proof fn law_resumed_jobs_run(t: JobTableV, k: int, i: int)
    requires
        is_ordered(t),
        0 <= k < t.jobs.len(),
        0 <= i < t.jobs.len(),
    ensures
        ({
            let after = resumed(t, t.jobs[k].id);
            &&& is_ordered(after)
            &&& after.jobs.len() == t.jobs.len()
            &&& after.jobs[k].state is Running
            &&& after.jobs[k].command == t.jobs[k].command
            &&& after.jobs[k].id == t.jobs[k].id
            &&& after.jobs[k].leader == t.jobs[k].leader
            &&& i != k ==> after.jobs[i] == t.jobs[i]
            &&& after.current == t.current
            &&& after.previous == t.previous
            &&& after.next_id == t.next_id
        }),
{
    lemma_id_from(t.jobs, t.jobs[k].id, 0);
    lemma_id_is_absent(t.jobs, t.jobs[k].id, 0);
}

/// A job in the foreground that ends is gone, and its status is the result. One
/// that the terminal interrupted is told apart, and one that stops stays as a
/// stopped job.
pub proof fn law_the_foreground_is_watched(t: JobTableV, k: int, code: i32, signal: i32)
    requires
        is_ordered(t),
        0 <= k < t.jobs.len(),
        0 < signal < 128,
    ensures
        ({
            let id = t.jobs[k].id;
            let exited = foreground_observed(t, id, ChildStatus::Exited(code));
            let killed = foreground_observed(t, id, ChildStatus::Signaled(signal));
            let stopped = foreground_observed(t, id, ChildStatus::Stopped(signal));
            let continued = foreground_observed(t, id, ChildStatus::Continued);
            &&& job_of(exited.0.jobs, id) is None
            &&& exited.1 == Foreground::Ended(code)
            &&& job_of(killed.0.jobs, id) is None
            &&& killed.1 == if signal == INTERRUPT {
                Foreground::Interrupted((128 + signal) as i32)
            } else {
                Foreground::Ended((128 + signal) as i32)
            }
            &&& job_of(stopped.0.jobs, id) is Some
            &&& job_of(stopped.0.jobs, id)->Some_0.state is Stopped
            &&& stopped.1 == Foreground::Stopped((128 + signal) as i32)
            &&& job_of(continued.0.jobs, id) is Some
            &&& job_of(continued.0.jobs, id)->Some_0.state is Running
            &&& continued.1 is Running
        }),
{
    let id = t.jobs[k].id;
    let pid = t.jobs[k].leader;
    let running = resumed(t, id);
    law_resumed_jobs_run(t, k, k);
    law_jobs_are_found(running, k, 0, 0);
    law_what_is_seen_is_known(running, k, code, signal);
    let none = running.jobs[k];
    lemma_leader_from(running.jobs, pid, 0);
    lemma_leader_at(running.jobs, pid, 0);
    crate::jobs::law_observing_touches_one_job(running, pid, ChildStatus::Exited(code), k);
    crate::jobs::law_observing_touches_one_job(running, pid, ChildStatus::Signaled(signal), k);
    crate::jobs::law_observing_touches_one_job(running, pid, ChildStatus::Stopped(signal), k);
    crate::jobs::law_observing_touches_one_job(running, pid, ChildStatus::Continued, k);
    law_removed_jobs_are_gone(observed(running, pid, ChildStatus::Exited(code)).0, id, none);
    law_removed_jobs_are_gone(observed(running, pid, ChildStatus::Signaled(signal)).0, id, none);
    law_jobs_are_found(observed(running, pid, ChildStatus::Stopped(signal)).0, k, 0, 0);
    law_jobs_are_found(observed(running, pid, ChildStatus::Continued).0, k, 0, 0);
}

} // verus!
