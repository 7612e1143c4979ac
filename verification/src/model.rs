//! The mathematical model of the pool: worker lifecycle states, the multiset
//! of jobs currently held by workers, and the multiset of job ids handed out
//! so far, with the lemmas that track both through the pool's transitions.

use vstd::prelude::*;

verus! {

use vstd::multiset::Multiset;

/// The lifecycle of one worker: blocked on the queue, executing a claimed
/// job, or exited after observing the disconnect signal. `Terminated` is
/// terminal — no transition leaves it.
#[derive(Clone, Copy, Debug, PartialEq, Eq, Structural)]
pub enum WorkerState {
    Idle,
    Running(usize),
    Terminated,
}

/// The job a running worker holds (meaningful only for `Running`).
pub open spec fn job_of(w: WorkerState) -> usize {
    match w {
        WorkerState::Running(j) => j,
        _ => 0,
    }
}

/// The jobs one worker currently holds: one if it is running, none otherwise.
pub open spec fn run_ms(w: WorkerState) -> Multiset<usize> {
    match w {
        WorkerState::Running(j) => Multiset::empty().insert(j),
        _ => Multiset::empty(),
    }
}

/// The jobs one worker currently holds, as a sequence; used to state in what
/// order a single worker's claims reach the completion log.
pub open spec fn run_seq_of(w: WorkerState) -> Seq<usize> {
    match w {
        WorkerState::Running(j) => seq![j],
        _ => Seq::empty(),
    }
}

/// All jobs currently being executed, over the whole worker collection.
pub open spec fn running_jobs(ws: Seq<WorkerState>) -> Multiset<usize>
    decreases ws.len(),
{
    if ws.len() == 0 {
        Multiset::empty()
    } else {
        running_jobs(ws.drop_last()).add(run_ms(ws.last()))
    }
}

/// The job ids handed out by the first `n` submissions: `0 .. n`, each once.
pub open spec fn ids_upto(n: nat) -> Multiset<usize>
    decreases n,
{
    if n == 0 {
        Multiset::empty()
    } else {
        ids_upto((n - 1) as nat).insert((n - 1) as usize)
    }
}

/// A strictly decreasing measure for driving one worker to termination:
/// finishing, claiming and disconnecting each lower it.
pub open spec fn worker_measure(w: WorkerState) -> int {
    match w {
        WorkerState::Running(_) => 2,
        WorkerState::Idle => 1,
        WorkerState::Terminated => 0,
    }
}

/// Appending a worker adds exactly that worker's held jobs.
pub proof fn lemma_running_jobs_push(ws: Seq<WorkerState>, w: WorkerState)
    ensures
        running_jobs(ws.push(w)) == running_jobs(ws).add(run_ms(w)),
{
    assert(ws.push(w).drop_last() =~= ws);
    assert(ws.push(w).last() == w);
}

/// The number of copies of `v` in the sum of two multisets.
pub proof fn lemma_add_count(a: Multiset<usize>, b: Multiset<usize>, v: usize)
    ensures
        a.add(b).count(v) == a.count(v) + b.count(v),
{
    broadcast use vstd::multiset::group_multiset_axioms;
}

/// The number of copies of `v` after inserting `x` once.
pub proof fn lemma_insert_count(m: Multiset<usize>, x: usize, v: usize)
    ensures
        m.insert(x).count(v) == m.count(v) + if x == v { 1int } else { 0int },
{
    broadcast use vstd::multiset::group_multiset_axioms;
}

/// The number of copies of `v` after removing one present copy of `x`.
pub proof fn lemma_remove_count(m: Multiset<usize>, x: usize, v: usize)
    requires
        m.count(x) >= 1,
    ensures
        m.remove(x).count(v) == m.count(v) - if x == v { 1int } else { 0int },
{
    broadcast use vstd::multiset::group_multiset_axioms;
}

/// The number of copies of `v` one worker holds.
pub proof fn lemma_run_ms_count(w: WorkerState, v: usize)
    ensures
        run_ms(w).count(v) == if w == WorkerState::Running(v) { 1int } else { 0int },
{
    broadcast use vstd::multiset::group_multiset_axioms;

    match w {
        WorkerState::Running(j) => {
            assert(run_ms(w) == Multiset::empty().insert(j));
            lemma_insert_count(Multiset::empty(), j, v);
        }
        _ => {}
    }
}

/// Replacing the worker at `i` exchanges exactly that worker's held jobs:
/// both sides below hold the other workers' jobs plus `run_ms(ws[i])` plus
/// `run_ms(w)`, so the counts agree copy for copy.
pub proof fn lemma_running_jobs_update(ws: Seq<WorkerState>, i: int, w: WorkerState, v: usize)
    requires
        0 <= i < ws.len(),
    ensures
        running_jobs(ws.update(i, w)).count(v) + run_ms(ws[i]).count(v)
            == running_jobs(ws).count(v) + run_ms(w).count(v),
    decreases ws.len(),
{
    let u = ws.update(i, w);
    let wd = ws.drop_last();
    if i == ws.len() - 1 {
        assert(u.drop_last() =~= wd);
        assert(u.last() == w);
        assert(running_jobs(u) == running_jobs(wd).add(run_ms(w)));
        assert(running_jobs(ws) == running_jobs(wd).add(run_ms(ws[i])));
        lemma_add_count(running_jobs(wd), run_ms(w), v);
        lemma_add_count(running_jobs(wd), run_ms(ws[i]), v);
    } else {
        lemma_running_jobs_update(wd, i, w, v);
        assert(u.drop_last() =~= wd.update(i, w));
        assert(u.last() == ws.last());
        assert(running_jobs(u) == running_jobs(wd.update(i, w)).add(run_ms(ws.last())));
        assert(running_jobs(ws) == running_jobs(wd).add(run_ms(ws.last())));
        assert(wd[i] == ws[i]);
        lemma_add_count(running_jobs(wd.update(i, w)), run_ms(ws.last()), v);
        lemma_add_count(running_jobs(wd), run_ms(ws.last()), v);
    }
}

/// A collection with no running worker holds no jobs.
pub proof fn lemma_running_jobs_no_running(ws: Seq<WorkerState>)
    requires
        forall|i: int| 0 <= i < ws.len() ==> !((#[trigger] ws[i]) is Running),
    ensures
        running_jobs(ws) =~= Multiset::<usize>::empty(),
    decreases ws.len(),
{
    if ws.len() > 0 {
        lemma_running_jobs_no_running(ws.drop_last());
        assert(!(ws[ws.len() - 1] is Running));
    }
}

/// A running worker's job is among the jobs the collection holds.
pub proof fn lemma_running_jobs_member(ws: Seq<WorkerState>, a: int)
    requires
        0 <= a < ws.len(),
        ws[a] is Running,
    ensures
        running_jobs(ws).count(job_of(ws[a])) >= 1,
    decreases ws.len(),
{
    let j = job_of(ws[a]);
    let wd = ws.drop_last();
    lemma_add_count(running_jobs(wd), run_ms(ws.last()), j);
    if a == ws.len() - 1 {
        lemma_run_ms_count(ws.last(), j);
        assert(ws.last() == WorkerState::Running(j));
    } else {
        lemma_running_jobs_member(wd, a);
    }
}

/// Two distinct workers running the same job would put two copies of it
/// into the collection's multiset.
pub proof fn lemma_running_jobs_two(ws: Seq<WorkerState>, a: int, b: int)
    requires
        0 <= a < b < ws.len(),
        ws[a] is Running,
        ws[b] is Running,
        job_of(ws[a]) == job_of(ws[b]),
    ensures
        running_jobs(ws).count(job_of(ws[a])) >= 2,
    decreases ws.len(),
{
    let j = job_of(ws[a]);
    let wd = ws.drop_last();
    lemma_add_count(running_jobs(wd), run_ms(ws.last()), j);
    if b == ws.len() - 1 {
        lemma_run_ms_count(ws.last(), j);
        assert(ws.last() == WorkerState::Running(j));
        lemma_running_jobs_member(wd, a);
    } else {
        lemma_running_jobs_two(wd, a, b);
    }
}

/// Each id below `n` was handed out exactly once, and no other id at all.
pub proof fn lemma_ids_upto_count(n: nat, j: usize)
    requires
        n <= usize::MAX,
    ensures
        ids_upto(n).count(j) == if (j as nat) < n { 1nat } else { 0nat },
    decreases n,
{
    if n > 0 {
        lemma_ids_upto_count((n - 1) as nat, j);
    }
}

/// `n` submissions hand out `n` ids.
pub proof fn lemma_ids_upto_len(n: nat)
    ensures
        ids_upto(n).len() == n,
    decreases n,
{
    broadcast use vstd::multiset::group_multiset_properties;

    if n > 0 {
        lemma_ids_upto_len((n - 1) as nat);
    }
}

} // verus!
