//! Finalizing an operator graph: a schedule in which every operator runs
//! after the operators whose buffers it reads.

use vstd::prelude::*;
use crate::planner::{BufferRef, Node, Operator, PlanModel, QueryPlanner};
use crate::types::QueryError;

verus! {

/// A finalized operator graph.
#[derive(Debug)]
pub struct Executor {
    pub nodes: Vec<Node>,
    pub constants: Vec<String>,
    /// The order in which the operators run, by position in `nodes`.
    pub schedule: Vec<usize>,
    /// Buffers that must stay alive as long as the results.
    pub pinned: Vec<BufferRef>,
}

/// Whether the operator `id` runs before position `p` of the schedule.
pub open spec fn scheduled_before(schedule: Seq<usize>, id: usize, p: int) -> bool {
    exists|q: int| 0 <= q < p && #[trigger] schedule[q] == id
}

/// Whether every buffer that the operator at position `p` of the schedule
/// reads is written earlier in the schedule.
pub open spec fn inputs_met(nodes: Seq<Node>, schedule: Seq<usize>, p: int) -> bool {
    let inputs = nodes[schedule[p] as int].op.inputs();
    forall|k: int| 0 <= k < inputs.len() ==> scheduled_before(schedule, (#[trigger] inputs[k]).id, p)
}

/// A schedule runs every operator once, none of them an unconnected
/// placeholder, and each after the operators whose buffers it reads.
pub open spec fn valid_schedule(nodes: Seq<Node>, schedule: Seq<usize>) -> bool {
    &&& schedule.len() == nodes.len()
    &&& forall|p: int| 0 <= p < schedule.len() ==> (#[trigger] schedule[p]) < nodes.len()
    &&& schedule.no_duplicates()
    &&& forall|i: usize| i < nodes.len() ==> #[trigger] schedule.contains(i)
    &&& forall|i: int| 0 <= i < nodes.len() ==> !((#[trigger] nodes[i]).op is Placeholder)
    &&& forall|p: int| 0 <= p < schedule.len() ==> #[trigger] inputs_met(nodes, schedule, p)
}

/// Whether the operators can be scheduled at all: no placeholder is left
/// unconnected, and connecting placeholders has closed no cycle.
pub open spec fn schedulable(nodes: Seq<Node>) -> bool {
    exists|schedule: Seq<usize>| valid_schedule(nodes, schedule)
}

/// Whether the operator at `i` can run once the operators marked in `done`
/// have run.
pub open spec fn ready(nodes: Seq<Node>, done: Seq<bool>, i: int) -> bool {
    let inputs = nodes[i].op.inputs();
    &&& !(nodes[i].op is Placeholder)
    &&& forall|k: int|
        0 <= k < inputs.len() ==> (#[trigger] inputs[k]).id < done.len() && done[inputs[k].id as int]
}

spec fn stuck(nodes: Seq<Node>, done: Seq<bool>) -> bool {
    forall|i: int| 0 <= i < nodes.len() && !done[i] ==> !#[trigger] ready(nodes, done, i)
}

spec fn count_true(done: Seq<bool>) -> nat
    decreases done.len(),
{
    if done.len() == 0 {
        0
    } else {
        count_true(done.drop_last()) + if done.last() {
            1nat
        } else {
            0nat
        }
    }
}

proof fn lemma_count_update(done: Seq<bool>, i: int)
    requires
        0 <= i < done.len(),
        !done[i],
    ensures
        count_true(done.update(i, true)) == count_true(done) + 1,
    decreases done.len(),
{
    let later = done.update(i, true);
    if i == done.len() - 1 {
        assert(later.drop_last() == done.drop_last());
    } else {
        assert(later.drop_last() == done.drop_last().update(i, true));
        lemma_count_update(done.drop_last(), i);
    }
}

proof fn lemma_count_full(done: Seq<bool>)
    ensures
        count_true(done) <= done.len(),
        count_true(done) == done.len() <==> forall|i: int| 0 <= i < done.len() ==> done[i],
    decreases done.len(),
{
    if done.len() > 0 {
        lemma_count_full(done.drop_last());
        if count_true(done) == done.len() {
            assert forall|i: int| 0 <= i < done.len() implies done[i] by {
                if i < done.len() - 1 {
                    assert(done.drop_last()[i]);
                }
            }
        }
        if forall|i: int| 0 <= i < done.len() ==> done[i] {
            assert forall|i: int| 0 <= i < done.drop_last().len() implies done.drop_last()[i] by {
                assert(done[i]);
            }
        }
    }
}

proof fn first_pending(schedule: Seq<usize>, done: Seq<bool>, p: int) -> (m: int)
    requires
        0 <= p < schedule.len(),
        forall|q: int| 0 <= q < schedule.len() ==> (#[trigger] schedule[q]) < done.len(),
        !done[schedule[p] as int],
    ensures
        0 <= m <= p,
        !done[schedule[m] as int],
        forall|q: int| 0 <= q < m ==> done[(#[trigger] schedule[q]) as int],
    decreases p,
{
    if exists|q: int| 0 <= q < p && !done[(#[trigger] schedule[q]) as int] {
        let q = choose|q: int| 0 <= q < p && !done[(#[trigger] schedule[q]) as int];
        first_pending(schedule, done, q)
    } else {
        p
    }
}

proof fn lemma_stuck(nodes: Seq<Node>, done: Seq<bool>, schedule: Seq<usize>)
    requires
        done.len() == nodes.len(),
        nodes.len() <= usize::MAX,
        stuck(nodes, done),
        count_true(done) < done.len(),
    ensures
        !valid_schedule(nodes, schedule),
{
    if valid_schedule(nodes, schedule) {
        lemma_count_full(done);
        let u = choose|u: int| 0 <= u < done.len() && !done[u];
        assert(schedule.contains(u as usize));
        let found = choose|p: int| 0 <= p < schedule.len() && schedule[p] == u as usize;
        let m = first_pending(schedule, done, found);
        let node = schedule[m] as int;
        assert(!ready(nodes, done, node));
        assert(inputs_met(nodes, schedule, m));
        let inputs = nodes[node].op.inputs();
        assert forall|k: int| 0 <= k < inputs.len() implies (#[trigger] inputs[k]).id
            < done.len() && done[inputs[k].id as int] by {
            assert(scheduled_before(schedule, inputs[k].id, m));
            let q = choose|q: int| 0 <= q < m && #[trigger] schedule[q] == inputs[k].id;
            assert(done[schedule[q] as int]);
        }
        assert(ready(nodes, done, node));
    }
}

/// A well-formed plan without placeholders can be scheduled: its operators
/// can run in the order in which they were recorded.
pub proof fn lemma_direct_schedulable(plan: PlanModel)
    requires
        plan.well_formed(),
        plan.direct(),
        plan.nodes.len() <= usize::MAX,
    ensures
        schedulable(plan.nodes),
{
    let nodes = plan.nodes;
    let schedule = Seq::new(nodes.len(), |i: int| i as usize);
    assert forall|i: usize| i < nodes.len() implies #[trigger] schedule.contains(i) by {
        assert(schedule[i as int] == i);
    }
    assert forall|p: int| 0 <= p < schedule.len() implies #[trigger] inputs_met(
        nodes,
        schedule,
        p,
    ) by {
        let inputs = nodes[schedule[p] as int].op.inputs();
        assert(plan.admits(p, nodes[p].op, nodes[p].tag));
        assert forall|k: int| 0 <= k < inputs.len() implies scheduled_before(
            schedule,
            (#[trigger] inputs[k]).id,
            p,
        ) by {
            assert(plan.precedes(inputs[k], p));
            assert(schedule[inputs[k].id as int] == inputs[k].id);
        }
    }
    assert(valid_schedule(nodes, schedule));
}

fn is_ready(nodes: &Vec<Node>, done: &Vec<bool>, i: usize) -> (r: bool)
    requires
        i < nodes@.len(),
    ensures
        r == ready(nodes@, done@, i as int),
{
    match nodes[i].op {
        Operator::Placeholder => {
            return false;
        },
        _ => {},
    }
    let inputs = nodes[i].op.input_buffers();
    let mut k: usize = 0;
    while k < inputs.len()
        invariant
            k <= inputs.len(),
            inputs@ == nodes@[i as int].op.inputs(),
            forall|j: int| 0 <= j < k ==> (#[trigger] inputs@[j]).id < done@.len() && done@[inputs@[j].id as int],
        decreases inputs.len() - k,
    {
        let id = inputs[k].id;
        if id >= done.len() {
            return false;
        }
        if !done[id] {
            return false;
        }
        k += 1;
    }
    true
}

impl Executor {
    /// The view of the graph that the executor runs.
    pub open spec fn plan(&self) -> PlanModel {
        PlanModel { nodes: self.nodes@, constants: crate::expr::names_model(self.constants@) }
    }
}

impl QueryPlanner {
    /// Finalizes the graph: fixes an order in which the operators can run.
    /// Fails with `FatalError` exactly when there is none.
    pub fn prepare(self, pinned: Vec<BufferRef>) -> (r: Result<Executor, QueryError>)
        ensures
            match r {
                Ok(executor) => {
                    &&& executor.plan() == self@
                    &&& executor.pinned == pinned
                    &&& valid_schedule(self@.nodes, executor.schedule@)
                },
                Err(e) => e == QueryError::FatalError && !schedulable(self@.nodes),
            },
    {
        let n = self.nodes.len();
        let mut done: Vec<bool> = Vec::new();
        let mut i: usize = 0;
        while i < n
            invariant
                i <= n,
                done@.len() == i,
                forall|j: int| 0 <= j < i ==> !done@[j],
                count_true(done@) == 0,
            decreases n - i,
        {
            let ghost before = done@;
            done.push(false);
            assert(done@.drop_last() == before);
            i += 1;
        }
        let ghost nodes = self.nodes@;
        let mut schedule: Vec<usize> = Vec::new();
        let mut progress = true;
        while progress && schedule.len() < n
            invariant
                n == nodes.len(),
                nodes == self.nodes@,
                done@.len() == n,
                forall|p: int| 0 <= p < schedule@.len() ==> (#[trigger] schedule@[p]) < n,
                schedule@.no_duplicates(),
                forall|j: usize| j < n ==> (done@[j as int] <==> #[trigger] schedule@.contains(j)),
                forall|p: int| 0 <= p < schedule@.len() ==> #[trigger] inputs_met(nodes, schedule@, p),
                forall|p: int|
                    0 <= p < schedule@.len() ==> !(nodes[(#[trigger] schedule@[p]) as int].op
                        is Placeholder),
                count_true(done@) == schedule@.len(),
                schedule@.len() <= n,
                !progress ==> stuck(nodes, done@),
            decreases n - schedule@.len() + if progress { 1nat } else { 0nat },
        {
            let ghost length = schedule@.len();
            progress = false;
            let mut i: usize = 0;
            while i < n
                invariant
                    i <= n,
                    n == nodes.len(),
                    nodes == self.nodes@,
                    done@.len() == n,
                    forall|p: int| 0 <= p < schedule@.len() ==> (#[trigger] schedule@[p]) < n,
                    schedule@.no_duplicates(),
                    forall|j: usize|
                        j < n ==> (done@[j as int] <==> #[trigger] schedule@.contains(j)),
                    forall|p: int|
                        0 <= p < schedule@.len() ==> #[trigger] inputs_met(nodes, schedule@, p),
                    forall|p: int|
                        0 <= p < schedule@.len() ==> !(nodes[(#[trigger] schedule@[p]) as int].op
                            is Placeholder),
                    count_true(done@) == schedule@.len(),
                    schedule@.len() <= n,
                    progress ==> schedule@.len() > length,
                    !progress ==> schedule@.len() == length,
                    !progress ==> forall|j: int|
                        0 <= j < i && !done@[j] ==> !#[trigger] ready(nodes, done@, j),
                decreases n - i,
            {
                if !done[i] && is_ready(&self.nodes, &done, i) {
                    let ghost old_done = done@;
                    let ghost old_schedule = schedule@;
                    proof {
                        lemma_count_update(old_done, i as int);
                    }
                    done.set(i, true);
                    schedule.push(i);
                    progress = true;
                    proof {
                        lemma_count_full(done@);
                        let new_schedule = schedule@;
                        let p = old_schedule.len() as int;
                        assert(new_schedule[p] == i);
                        assert forall|j: usize| j < n implies (done@[j as int]
                            <==> #[trigger] new_schedule.contains(j)) by {
                            if old_schedule.contains(j) {
                                let q = choose|q: int|
                                    0 <= q < old_schedule.len() && old_schedule[q] == j;
                                assert(new_schedule[q] == j);
                            }
                            if new_schedule.contains(j) && j != i {
                                let q = choose|q: int|
                                    0 <= q < new_schedule.len() && new_schedule[q] == j;
                                assert(old_schedule[q] == j);
                            }
                        }
                        assert forall|q: int| 0 <= q < new_schedule.len() implies #[trigger] inputs_met(
                            nodes,
                            new_schedule,
                            q,
                        ) by {
                            let inputs = nodes[new_schedule[q] as int].op.inputs();
                            assert forall|k: int| 0 <= k < inputs.len() implies scheduled_before(
                                new_schedule,
                                (#[trigger] inputs[k]).id,
                                q,
                            ) by {
                                if q < p {
                                    assert(inputs_met(nodes, old_schedule, q));
                                    assert(scheduled_before(old_schedule, inputs[k].id, q));
                                    let w = choose|w: int|
                                        0 <= w < q && #[trigger] old_schedule[w] == inputs[k].id;
                                    assert(new_schedule[w] == inputs[k].id);
                                } else {
                                    assert(ready(nodes, old_done, i as int));
                                    assert(old_done[inputs[k].id as int]);
                                    assert(old_schedule.contains(inputs[k].id));
                                    let w = choose|w: int|
                                        0 <= w < old_schedule.len() && old_schedule[w]
                                            == inputs[k].id;
                                    assert(new_schedule[w] == inputs[k].id);
                                }
                            }
                        }
                        assert(new_schedule.no_duplicates()) by {
                            assert(!old_schedule.contains(i));
                            assert forall|a: int, b: int|
                                0 <= a < new_schedule.len() && 0 <= b < new_schedule.len() && a
                                    != b implies new_schedule[a] != new_schedule[b] by {
                                if a < p && b < p {
                                    assert(old_schedule[a] != old_schedule[b]);
                                } else if a < p {
                                    assert(old_schedule[a] == new_schedule[a]);
                                } else {
                                    assert(old_schedule[b] == new_schedule[b]);
                                }
                            }
                        }
                    }
                }
                i += 1;
            }
        }
        if schedule.len() == n {
            proof {
                lemma_count_full(done@);
                assert forall|j: usize| j < n implies #[trigger] schedule@.contains(j) by {
                    assert(done@[j as int]);
                }
                assert forall|j: int| 0 <= j < n implies !((#[trigger] nodes[j]).op
                    is Placeholder) by {
                    assert(schedule@.contains(j as usize));
                    let p = choose|p: int| 0 <= p < schedule@.len() && schedule@[p] == j as usize;
                    assert(!(nodes[schedule@[p] as int].op is Placeholder));
                }
            }
            Ok(Executor { nodes: self.nodes, constants: self.constants, schedule, pinned })
        } else {
            proof {
                assert forall|s: Seq<usize>| !valid_schedule(nodes, s) by {
                    lemma_stuck(nodes, done@, s);
                }
            }
            Err(QueryError::FatalError)
        }
    }
}

} // verus!
