//! The task dependency relation as a directed graph over task ids.
//!
//! An edge runs from a dependent task to the task it depends on. The
//! relation is kept acyclic: an edge is only admitted when its target cannot
//! already reach its source.
use vstd::prelude::*;

verus! {

/// One row of the dependency relation: `task_id` cannot run until
/// `depends_on_task_id` has succeeded.
#[derive(Clone, Copy, Debug, PartialEq, Eq, Structural)]
pub struct TaskDependency {
    pub id: u128,
    pub task_id: u128,
    pub depends_on_task_id: u128,
}

/// `b` is reached from `a` by following at most `n` edges.
pub open spec fn reach_within(es: Seq<TaskDependency>, n: nat, a: u128, b: u128) -> bool
    decreases n,
{
    a == b || (n > 0 && exists|i: int|
        0 <= i < es.len() && #[trigger] es[i].task_id == a && reach_within(
            es,
            (n - 1) as nat,
            es[i].depends_on_task_id,
            b,
        ))
}

/// `b` is reached from `a` by following edges (possibly none).
pub open spec fn reachable(es: Seq<TaskDependency>, a: u128, b: u128) -> bool {
    exists|n: nat| reach_within(es, n, a, b)
}

/// No edge closes a cycle: the target of an edge never reaches its source.
/// A self-loop counts as a cycle.
pub open spec fn acyclic(es: Seq<TaskDependency>) -> bool {
    forall|i: int|
        0 <= i < es.len() ==> !reachable(es, #[trigger] es[i].depends_on_task_id, es[i].task_id)
}

/// A set of nodes that every edge leaving it stays in.
pub open spec fn closed_under(es: Seq<TaskDependency>, s: Seq<u128>) -> bool {
    forall|i: int| 0 <= i < es.len() && s.contains(#[trigger] es[i].task_id) ==> s.contains(es[i].depends_on_task_id)
}

pub proof fn lemma_reach_trans(es: Seq<TaskDependency>, n: nat, m: nat, a: u128, b: u128, c: u128)
    requires
        reach_within(es, n, a, b),
        reach_within(es, m, b, c),
    ensures
        reach_within(es, n + m, a, c),
    decreases n,
{
    if a == b {
        lemma_reach_mono(es, m, n + m, b, c);
    } else {
        let i = choose|i: int|
            0 <= i < es.len() && #[trigger] es[i].task_id == a && reach_within(
                es,
                (n - 1) as nat,
                es[i].depends_on_task_id,
                b,
            );
        lemma_reach_trans(es, (n - 1) as nat, m, es[i].depends_on_task_id, b, c);
        assert(((n - 1) as nat + m) as nat == (n + m - 1) as nat);
    }
}

pub proof fn lemma_reach_mono(es: Seq<TaskDependency>, n: nat, k: nat, a: u128, b: u128)
    requires
        reach_within(es, n, a, b),
        n <= k,
    ensures
        reach_within(es, k, a, b),
    decreases n,
{
    if a != b {
        let i = choose|i: int|
            0 <= i < es.len() && #[trigger] es[i].task_id == a && reach_within(
                es,
                (n - 1) as nat,
                es[i].depends_on_task_id,
                b,
            );
        lemma_reach_mono(es, (n - 1) as nat, (k - 1) as nat, es[i].depends_on_task_id, b);
    }
}

/// Following edge `i` from `a`'s reach extends it by one step.
pub proof fn lemma_reach_step(es: Seq<TaskDependency>, a: u128, i: int)
    requires
        0 <= i < es.len(),
        reachable(es, a, es[i].task_id),
    ensures
        reachable(es, a, es[i].depends_on_task_id),
{
    let n = choose|n: nat| reach_within(es, n, a, es[i].task_id);
    let d = es[i].depends_on_task_id;
    assert(reach_within(es, 0, d, d));
    assert(reach_within(es, 1, es[i].task_id, d));
    lemma_reach_trans(es, n, 1, a, es[i].task_id, d);
}

pub proof fn lemma_reach_closed(es: Seq<TaskDependency>, s: Seq<u128>, n: nat, a: u128, b: u128)
    requires
        closed_under(es, s),
        s.contains(a),
        reach_within(es, n, a, b),
    ensures
        s.contains(b),
    decreases n,
{
    if a != b {
        let i = choose|i: int|
            0 <= i < es.len() && #[trigger] es[i].task_id == a && reach_within(
                es,
                (n - 1) as nat,
                es[i].depends_on_task_id,
                b,
            );
        lemma_reach_closed(es, s, (n - 1) as nat, es[i].depends_on_task_id, b);
    }
}

/// Adding edges never removes a path.
pub proof fn lemma_reach_push_mono(es: Seq<TaskDependency>, e: TaskDependency, n: nat, a: u128, b: u128)
    requires
        reach_within(es, n, a, b),
    ensures
        reach_within(es.push(e), n, a, b),
    decreases n,
{
    if a != b {
        let i = choose|i: int|
            0 <= i < es.len() && #[trigger] es[i].task_id == a && reach_within(
                es,
                (n - 1) as nat,
                es[i].depends_on_task_id,
                b,
            );
        lemma_reach_push_mono(es, e, (n - 1) as nat, es[i].depends_on_task_id, b);
        assert(es.push(e)[i] == es[i]);
    }
}

/// A path over `es` plus `e` either avoids `e`, or passes through it.
pub proof fn lemma_reach_push_split(es: Seq<TaskDependency>, e: TaskDependency, n: nat, a: u128, b: u128)
    requires
        reach_within(es.push(e), n, a, b),
    ensures
        reachable(es, a, b) || (reachable(es, a, e.task_id) && reachable(es, e.depends_on_task_id, b)),
    decreases n,
{
    let es2 = es.push(e);
    if a == b {
        assert(reach_within(es, 0, a, b));
    } else {
        let i = choose|i: int|
            0 <= i < es2.len() && #[trigger] es2[i].task_id == a && reach_within(
                es2,
                (n - 1) as nat,
                es2[i].depends_on_task_id,
                b,
            );
        let c = es2[i].depends_on_task_id;
        lemma_reach_push_split(es, e, (n - 1) as nat, c, b);
        if i < es.len() {
            assert(es2[i] == es[i]);
            if reachable(es, c, b) {
                let m = choose|m: nat| reach_within(es, m, c, b);
                assert(reach_within(es, m + 1, a, b));
            } else {
                let m = choose|m: nat| reach_within(es, m, c, e.task_id);
                assert(reach_within(es, m + 1, a, e.task_id));
            }
        } else {
            assert(es2[i] == e);
            assert(reach_within(es, 0, a, e.task_id));
        }
    }
}

/// Adding the edge `e` to an acyclic relation keeps it acyclic exactly when
/// the new edge's target does not already reach its source.
pub proof fn lemma_push_acyclic(es: Seq<TaskDependency>, e: TaskDependency)
    requires
        acyclic(es),
    ensures
        acyclic(es.push(e)) <==> !reachable(es, e.depends_on_task_id, e.task_id),
{
    let es2 = es.push(e);
    let d = e.depends_on_task_id;
    let t = e.task_id;
    if reachable(es, d, t) {
        let n = choose|n: nat| reach_within(es, n, d, t);
        lemma_reach_push_mono(es, e, n, d, t);
        assert(es2[es.len() as int] == e);
        assert(!acyclic(es2));
    } else {
        assert forall|i: int| 0 <= i < es2.len() implies !reachable(es2, #[trigger] es2[i].depends_on_task_id, es2[i].task_id) by {
            let x = es2[i].task_id;
            let c = es2[i].depends_on_task_id;
            if reachable(es2, c, x) {
                let n = choose|n: nat| reach_within(es2, n, c, x);
                lemma_reach_push_split(es, e, n, c, x);
                if i < es.len() {
                    assert(es2[i] == es[i]);
                    if !reachable(es, c, x) {
                        // d reaches x, x steps to c, and c reaches t: d reaches t.
                        let m1 = choose|m: nat| reach_within(es, m, d, x);
                        let m2 = choose|m: nat| reach_within(es, m, c, t);
                        assert(reach_within(es, 0, c, c));
                        assert(reach_within(es, 1, x, c));
                        lemma_reach_trans(es, m1, 1, d, x, c);
                        lemma_reach_trans(es, m1 + 1, m2, d, c, t);
                    }
                } else {
                    assert(es2[i] == e);
                }
            }
        }
    }
}

/// Whether `x` occurs in `v`.
pub fn contains_id(v: &Vec<u128>, x: u128) -> (r: bool)
    ensures
        r == v@.contains(x),
{
    let mut k: usize = 0;
    while k < v.len()
        invariant
            k <= v.len(),
            forall|j: int| 0 <= j < k ==> v@[j] != x,
        decreases v.len() - k,
    {
        if v[k] == x {
            return true;
        }
        k += 1;
    }
    false
}

pub open spec fn count_true(s: Seq<bool>) -> nat
    decreases s.len(),
{
    if s.len() == 0 {
        0
    } else {
        count_true(s.drop_last()) + if s.last() { 1nat } else { 0nat }
    }
}

proof fn lemma_count_true_bound(s: Seq<bool>)
    ensures
        count_true(s) <= s.len(),
    decreases s.len(),
{
    if s.len() > 0 {
        lemma_count_true_bound(s.drop_last());
    }
}

proof fn lemma_count_true_none(s: Seq<bool>)
    requires
        forall|j: int| 0 <= j < s.len() ==> !s[j],
    ensures
        count_true(s) == 0,
    decreases s.len(),
{
    if s.len() > 0 {
        lemma_count_true_none(s.drop_last());
    }
}

proof fn lemma_count_true_set(s: Seq<bool>, i: int)
    requires
        0 <= i < s.len(),
        !s[i],
    ensures
        count_true(s.update(i, true)) == count_true(s) + 1,
    decreases s.len(),
{
    let s2 = s.update(i, true);
    if i == s.len() - 1 {
        assert(s2.drop_last() =~= s.drop_last());
    } else {
        assert(s2.drop_last() =~= s.drop_last().update(i, true));
        lemma_count_true_set(s.drop_last(), i);
    }
}

/// Whether `to` can be reached from `from` along the edges of `es`.
pub fn reaches(es: &Vec<TaskDependency>, from: u128, to: u128) -> (r: bool)
    ensures
        r == reachable(es@, from, to),
{
    let n = es.len();
    let mut visited: Vec<u128> = Vec::new();
    visited.push(from);
    let mut done: Vec<bool> = Vec::new();
    let mut k: usize = 0;
    while k < n
        invariant
            k <= n,
            n == es@.len(),
            done@.len() == k,
            forall|j: int| 0 <= j < k ==> !done@[j],
        decreases n - k,
    {
        done.push(false);
        k += 1;
    }
    proof {
        assert(reach_within(es@, 0, from, from));
        lemma_count_true_none(done@);
    }
    let mut ndone: usize = 0;
    loop
        invariant
            n == es@.len(),
            done@.len() == n,
            ndone == count_true(done@),
            visited@.len() >= 1,
            visited@[0] == from,
            forall|j: int| 0 <= j < visited@.len() ==> reachable(es@, from, #[trigger] visited@[j]),
            forall|i: int|
                0 <= i < n && #[trigger] done@[i] ==> visited@.contains(es@[i].task_id)
                    && visited@.contains(es@[i].depends_on_task_id),
        decreases n - ndone,
    {
        proof {
            lemma_count_true_bound(done@);
        }
        let mut found: usize = n;
        let mut i: usize = 0;
        while i < n
            invariant
                i <= n,
                n == es@.len(),
                done@.len() == n,
                found == n || (found < n && !done@[found as int] && visited@.contains(es@[found as int].task_id)),
                found == n ==> forall|j: int| 0 <= j < i && !done@[j] ==> !visited@.contains(#[trigger] es@[j].task_id),
            decreases n - i,
        {
            if found == n && !done[i] && contains_id(&visited, es[i].task_id) {
                found = i;
            }
            i += 1;
        }
        if found == n {
            proof {
                assert(closed_under(es@, visited@)) by {
                    assert forall|j: int| 0 <= j < es@.len() && visited@.contains(#[trigger] es@[j].task_id) implies visited@.contains(es@[j].depends_on_task_id) by {
                        assert(done@[j]);
                    }
                }
                if reachable(es@, from, to) {
                    let m = choose|m: nat| reach_within(es@, m, from, to);
                    assert(visited@.contains(from)) by { assert(visited@[0] == from); }
                    lemma_reach_closed(es@, visited@, m, from, to);
                }
            }
            let r = contains_id(&visited, to);
            proof {
                if r {
                    let j = choose|j: int| 0 <= j < visited@.len() && visited@[j] == to;
                    assert(reachable(es@, from, visited@[j]));
                }
            }
            return r;
        }
        let d = es[found].depends_on_task_id;
        proof {
            let j = choose|j: int| 0 <= j < visited@.len() && visited@[j] == es@[found as int].task_id;
            assert(reachable(es@, from, visited@[j]));
            lemma_reach_step(es@, from, found as int);
            lemma_count_true_set(done@, found as int);
            lemma_count_true_bound(done@.update(found as int, true));
        }
        let ghost old_visited = visited@;
        if !contains_id(&visited, d) {
            visited.push(d);
            proof {
                assert forall|x: u128| old_visited.contains(x) implies visited@.contains(x) by {
                    let j = choose|j: int| 0 <= j < old_visited.len() && old_visited[j] == x;
                    assert(visited@[j] == x);
                }
                assert(visited@[visited@.len() - 1] == d);
            }
        }
        done.set(found, true);
        ndone += 1;
    }
}

} // verus!

verus! {

proof fn lemma_reach_filter(es: Seq<TaskDependency>, p: spec_fn(TaskDependency) -> bool, n: nat, a: u128, b: u128)
    requires
        reach_within(es.filter(p), n, a, b),
    ensures
        reach_within(es, n, a, b),
    decreases n,
{
    let f = es.filter(p);
    if a != b {
        let i = choose|i: int|
            0 <= i < f.len() && #[trigger] f[i].task_id == a && reach_within(
                f,
                (n - 1) as nat,
                f[i].depends_on_task_id,
                b,
            );
        lemma_reach_filter(es, p, (n - 1) as nat, f[i].depends_on_task_id, b);
        assert(f.contains(f[i]));
        es.lemma_filter_contains_rev(p, f[i]);
        let j = choose|j: int| 0 <= j < es.len() && es[j] == f[i];
        assert(es[j].task_id == a);
    }
}

/// Removing edges keeps the relation acyclic.
pub proof fn lemma_acyclic_filter(es: Seq<TaskDependency>, p: spec_fn(TaskDependency) -> bool)
    requires
        acyclic(es),
    ensures
        acyclic(es.filter(p)),
{
    let f = es.filter(p);
    assert forall|i: int| 0 <= i < f.len() implies !reachable(f, #[trigger] f[i].depends_on_task_id, f[i].task_id) by {
        assert(f.contains(f[i]));
        es.lemma_filter_contains_rev(p, f[i]);
        let j = choose|j: int| 0 <= j < es.len() && es[j] == f[i];
        assert(!reachable(es, es[j].depends_on_task_id, es[j].task_id));
        if reachable(f, f[i].depends_on_task_id, f[i].task_id) {
            let n = choose|n: nat| reach_within(f, n, f[i].depends_on_task_id, f[i].task_id);
            lemma_reach_filter(es, p, n, f[i].depends_on_task_id, f[i].task_id);
        }
    }
}

} // verus!
