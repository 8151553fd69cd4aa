//! Tables as sequences of rows, each row with an id and up to two
//! references to parent rows.
use vstd::prelude::*;
use crate::graph::TaskDependency;

verus! {

/// A table row: its own id and the ids of the rows it references for the
/// purpose of cascading deletes (a row with one parent names it twice; a
/// top-level row names itself).
pub trait Row {
    spec fn row_id(&self) -> u128;

    spec fn link_a(&self) -> u128;

    spec fn link_b(&self) -> u128;

    fn id(&self) -> (r: u128)
        ensures
            r == self.row_id(),
    ;

    fn links(&self) -> (r: (u128, u128))
        ensures
            r == (self.link_a(), self.link_b()),
    ;
}

impl Row for TaskDependency {
    open spec fn row_id(&self) -> u128 {
        self.id
    }

    open spec fn link_a(&self) -> u128 {
        self.task_id
    }

    open spec fn link_b(&self) -> u128 {
        self.depends_on_task_id
    }

    fn id(&self) -> (r: u128) {
        self.id
    }

    fn links(&self) -> (r: (u128, u128)) {
        (self.task_id, self.depends_on_task_id)
    }
}

pub open spec fn has_id<T: Row>(s: Seq<T>, x: u128) -> bool {
    exists|i: int| 0 <= i < s.len() && #[trigger] s[i].row_id() == x
}

pub open spec fn unique_ids<T: Row>(s: Seq<T>) -> bool {
    forall|i: int, j: int|
        0 <= i < s.len() && 0 <= j < s.len() && #[trigger] s[i].row_id() == #[trigger] s[j].row_id() ==> i == j
}

/// Every reference of every row of `child` names a row of `parent`.
pub open spec fn links_into<C: Row, P: Row>(child: Seq<C>, parent: Seq<P>) -> bool {
    forall|i: int|
        0 <= i < child.len() ==> has_id(parent, #[trigger] child[i].link_a()) && has_id(
            parent,
            child[i].link_b(),
        )
}

/// The rows none of whose references is in `gone`.
pub open spec fn without_links<T: Row>(s: Seq<T>, gone: Set<u128>) -> Seq<T> {
    s.filter(|r: T| !gone.contains(r.link_a()) && !gone.contains(r.link_b()))
}

/// The ids of the rows whose first reference is `target`.
pub open spec fn ids_linked_to<T: Row>(s: Seq<T>, target: u128) -> Set<u128> {
    Set::new(|x: u128| exists|i: int| 0 <= i < s.len() && #[trigger] s[i].row_id() == x && s[i].link_a() == target)
}

pub proof fn lemma_has_id_push<T: Row>(s: Seq<T>, r: T, x: u128)
    ensures
        has_id(s.push(r), x) <==> (has_id(s, x) || r.row_id() == x),
{
    if has_id(s, x) {
        let i = choose|i: int| 0 <= i < s.len() && #[trigger] s[i].row_id() == x;
        assert(s.push(r)[i] == s[i]);
    }
    if r.row_id() == x {
        assert(s.push(r)[s.len() as int] == r);
    }
    if has_id(s.push(r), x) {
        let i = choose|i: int| 0 <= i < s.push(r).len() && #[trigger] s.push(r)[i].row_id() == x;
        if i < s.len() {
            assert(s.push(r)[i] == s[i]);
        }
    }
}

pub proof fn lemma_unique_push<T: Row>(s: Seq<T>, r: T)
    requires
        unique_ids(s),
        !has_id(s, r.row_id()),
    ensures
        unique_ids(s.push(r)),
{
    let s2 = s.push(r);
    assert forall|i: int, j: int|
        0 <= i < s2.len() && 0 <= j < s2.len() && #[trigger] s2[i].row_id() == #[trigger] s2[j].row_id() implies i == j by {
        if i < s.len() {
            assert(s2[i] == s[i]);
        }
        if j < s.len() {
            assert(s2[j] == s[j]);
        }
    }
}

pub proof fn lemma_links_push_parent<C: Row, P: Row>(child: Seq<C>, parent: Seq<P>, r: P)
    requires
        links_into(child, parent),
    ensures
        links_into(child, parent.push(r)),
{
    assert forall|i: int| 0 <= i < child.len() implies has_id(parent.push(r), #[trigger] child[i].link_a())
        && has_id(parent.push(r), child[i].link_b()) by {
        lemma_has_id_push(parent, r, child[i].link_a());
        lemma_has_id_push(parent, r, child[i].link_b());
    }
}

pub proof fn lemma_links_push_child<C: Row, P: Row>(child: Seq<C>, parent: Seq<P>, r: C)
    requires
        links_into(child, parent),
        has_id(parent, r.link_a()),
        has_id(parent, r.link_b()),
    ensures
        links_into(child.push(r), parent),
{
    assert forall|i: int| 0 <= i < child.push(r).len() implies has_id(parent, #[trigger] child.push(r)[i].link_a())
        && has_id(parent, child.push(r)[i].link_b()) by {
        if i < child.len() {
            assert(child.push(r)[i] == child[i]);
        }
    }
}

pub proof fn lemma_filter_unique<T: Row>(s: Seq<T>, p: spec_fn(T) -> bool)
    requires
        unique_ids(s),
    ensures
        unique_ids(s.filter(p)),
    decreases s.len(),
{
    reveal(Seq::filter);
    if s.len() > 0 {
        let s0 = s.drop_last();
        assert(unique_ids(s0)) by {
            assert forall|i: int, j: int|
                0 <= i < s0.len() && 0 <= j < s0.len() && #[trigger] s0[i].row_id() == #[trigger] s0[j].row_id() implies i == j by {
                assert(s0[i] == s[i] && s0[j] == s[j]);
            }
        }
        lemma_filter_unique(s0, p);
        let f = s0.filter(p);
        if p(s.last()) {
            assert forall|k: int| 0 <= k < f.len() implies #[trigger] f[k].row_id() != s.last().row_id() by {
                assert(f.contains(f[k]));
                s0.lemma_filter_contains_rev(p, f[k]);
                let j = choose|j: int| 0 <= j < s0.len() && s0[j] == f[k];
                assert(s[j] == s0[j]);
                assert(s[s.len() - 1] == s.last());
            }
            assert(!has_id(f, s.last().row_id()));
            lemma_unique_push(f, s.last());
        }
    }
}

/// Rows that survive a filter are rows of the unfiltered sequence.
pub proof fn lemma_filter_has_id<T: Row>(s: Seq<T>, p: spec_fn(T) -> bool, x: u128)
    ensures
        has_id(s.filter(p), x) ==> has_id(s, x),
        (exists|i: int| 0 <= i < s.len() && #[trigger] s[i].row_id() == x && p(s[i])) ==> has_id(s.filter(p), x),
{
    if has_id(s.filter(p), x) {
        let k = choose|k: int| 0 <= k < s.filter(p).len() && #[trigger] s.filter(p)[k].row_id() == x;
        assert(s.filter(p).contains(s.filter(p)[k]));
        s.lemma_filter_contains_rev(p, s.filter(p)[k]);
        let j = choose|j: int| 0 <= j < s.len() && s[j] == s.filter(p)[k];
        assert(s[j].row_id() == x);
    }
    if exists|i: int| 0 <= i < s.len() && #[trigger] s[i].row_id() == x && p(s[i]) {
        let i = choose|i: int| 0 <= i < s.len() && #[trigger] s[i].row_id() == x && p(s[i]);
        s.lemma_filter_contains(p, i);
        let k = choose|k: int| 0 <= k < s.filter(p).len() && s.filter(p)[k] == s[i];
        assert(s.filter(p)[k].row_id() == x);
    }
}

/// Removing rows from `child` and `parent` keeps `child`'s references
/// intact when every parent row that goes has its id among the references
/// that make a child row go.
pub proof fn lemma_links_without<C: Row, P: Row>(child: Seq<C>, parent: Seq<P>, dc: Set<u128>, dp: Set<u128>)
    requires
        links_into(child, parent),
        forall|i: int|
            0 <= i < parent.len() && (dp.contains(#[trigger] parent[i].link_a()) || dp.contains(parent[i].link_b()))
                ==> dc.contains(parent[i].row_id()),
    ensures
        links_into(without_links(child, dc), without_links(parent, dp)),
{
    let pc = |r: C| !dc.contains(r.link_a()) && !dc.contains(r.link_b());
    let pp = |r: P| !dp.contains(r.link_a()) && !dp.contains(r.link_b());
    let c2 = child.filter(pc);
    assert forall|k: int| 0 <= k < c2.len() implies has_id(without_links(parent, dp), #[trigger] c2[k].link_a())
        && has_id(without_links(parent, dp), c2[k].link_b()) by {
        assert(c2.contains(c2[k]));
        child.lemma_filter_contains_rev(pc, c2[k]);
        child.lemma_filter_pred(pc, k);
        let j = choose|j: int| 0 <= j < child.len() && child[j] == c2[k];
        let xa = c2[k].link_a();
        let xb = c2[k].link_b();
        assert(has_id(parent, child[j].link_a()) && has_id(parent, child[j].link_b()));
        let ia = choose|i: int| 0 <= i < parent.len() && #[trigger] parent[i].row_id() == xa;
        let ib = choose|i: int| 0 <= i < parent.len() && #[trigger] parent[i].row_id() == xb;
        assert(!dc.contains(xa) && !dc.contains(xb));
        if dp.contains(parent[ia].link_a()) || dp.contains(parent[ia].link_b()) {
            assert(dc.contains(parent[ia].row_id()));
        }
        if dp.contains(parent[ib].link_a()) || dp.contains(parent[ib].link_b()) {
            assert(dc.contains(parent[ib].row_id()));
        }
        assert(pp(parent[ia]));
        assert(pp(parent[ib]));
        lemma_filter_has_id(parent, pp, xa);
        lemma_filter_has_id(parent, pp, xb);
    }
}

/// Index of the row with id `x`, if any.
pub fn find_row<T: Row>(v: &Vec<T>, x: u128) -> (r: Option<usize>)
    ensures
        match r {
            Some(i) => i < v@.len() && v@[i as int].row_id() == x,
            None => !has_id(v@, x),
        },
{
    let mut k: usize = 0;
    while k < v.len()
        invariant
            k <= v.len(),
            forall|j: int| 0 <= j < k ==> #[trigger] v@[j].row_id() != x,
        decreases v.len() - k,
    {
        if v[k].id() == x {
            return Some(k);
        }
        k += 1;
    }
    None
}

/// Ids of the rows whose first reference is `target`.
pub fn collect_linked<T: Row>(v: &Vec<T>, target: u128) -> (r: Vec<u128>)
    ensures
        r@.to_set() == ids_linked_to(v@, target),
{
    let mut out: Vec<u128> = Vec::new();
    let mut k: usize = 0;
    while k < v.len()
        invariant
            k <= v.len(),
            forall|x: u128| out@.contains(x) <==> exists|i: int| 0 <= i < k && #[trigger] v@[i].row_id() == x && v@[i].link_a() == target,
        decreases v.len() - k,
    {
        let (a, _b) = v[k].links();
        if a == target {
            let id = v[k].id();
            let ghost prev = out@;
            out.push(id);
            proof {
                assert forall|x: u128| out@.contains(x) <==> exists|i: int| 0 <= i < k + 1 && #[trigger] v@[i].row_id() == x && v@[i].link_a() == target by {
                    if x == id {
                        assert(out@[out@.len() - 1] == x);
                        assert(v@[k as int].row_id() == x);
                    } else {
                        if out@.contains(x) {
                            let j = choose|j: int| 0 <= j < out@.len() && out@[j] == x;
                            assert(prev[j] == x);
                            assert(prev.contains(x));
                        }
                        if exists|i: int| 0 <= i < k + 1 && #[trigger] v@[i].row_id() == x && v@[i].link_a() == target {
                            let i = choose|i: int| 0 <= i < k + 1 && #[trigger] v@[i].row_id() == x && v@[i].link_a() == target;
                            assert(i < k);
                            assert(prev.contains(x));
                            let j = choose|j: int| 0 <= j < prev.len() && prev[j] == x;
                            assert(out@[j] == x);
                        }
                    }
                }
            }
        }
        k += 1;
    }
    assert(out@.to_set() =~= ids_linked_to(v@, target));
    out
}

/// Removes every row one of whose references is in `gone`, keeping the
/// order of the others.
pub fn retain_unlinked<T: Row>(v: &mut Vec<T>, gone: &Vec<u128>)
    ensures
        final(v)@ == without_links(old(v)@, gone@.to_set()),
{
    let ghost orig = old(v)@;
    let ghost g = gone@.to_set();
    let ghost p = |r: T| !g.contains(r.link_a()) && !g.contains(r.link_b());
    let mut rest: Vec<T> = Vec::new();
    std::mem::swap(v, &mut rest);
    let ghost n = rest@.len();
    assert(n <= usize::MAX) by {
        assert(rest.len() <= usize::MAX);
    }
    let mut k: usize = 0;
    assert(v@ =~= orig.subrange(0, 0).filter(p)) by {
        reveal(Seq::filter);
    }
    while rest.len() > 0
        invariant
            n == orig.len(),
            n <= usize::MAX,
            k + rest@.len() == n,
            rest@ == orig.subrange(k as int, n as int),
            v@ == orig.subrange(0, k as int).filter(p),
            g == gone@.to_set(),
            p == (|r: T| !g.contains(r.link_a()) && !g.contains(r.link_b())),
        decreases rest@.len(),
    {
        let r = rest.remove(0);
        let (a, b) = r.links();
        let keep = !contains_link(gone, a) && !contains_link(gone, b);
        proof {
            assert(r == orig[k as int]);
            assert(orig.subrange(0, k + 1).drop_last() =~= orig.subrange(0, k as int));
            assert(orig.subrange(0, k + 1).last() == r);
            reveal(Seq::filter);
            assert(keep == p(r));
            assert(rest@ =~= orig.subrange(k + 1, n as int));
        }
        if keep {
            v.push(r);
        }
        k += 1;
    }
    assert(orig.subrange(0, n as int) =~= orig);
}

fn contains_link(gone: &Vec<u128>, x: u128) -> (r: bool)
    ensures
        r == gone@.to_set().contains(x),
{
    crate::graph::contains_id(gone, x)
}

} // verus!

verus! {

pub proof fn lemma_has_id_remove<T: Row>(s: Seq<T>, i: int, x: u128)
    requires
        0 <= i < s.len(),
        has_id(s, x),
        s[i].row_id() != x,
    ensures
        has_id(s.remove(i), x),
{
    let k = choose|k: int| 0 <= k < s.len() && #[trigger] s[k].row_id() == x;
    if k < i {
        assert(s.remove(i)[k] == s[k]);
    } else {
        assert(s.remove(i)[k - 1] == s[k]);
    }
}

pub proof fn lemma_unique_remove<T: Row>(s: Seq<T>, i: int)
    requires
        0 <= i < s.len(),
        unique_ids(s),
    ensures
        unique_ids(s.remove(i)),
{
    let s2 = s.remove(i);
    assert forall|a: int, b: int|
        0 <= a < s2.len() && 0 <= b < s2.len() && #[trigger] s2[a].row_id() == #[trigger] s2[b].row_id() implies a == b by {
        let a0 = if a < i { a } else { a + 1 };
        let b0 = if b < i { b } else { b + 1 };
        assert(s2[a] == s[a0] && s2[b] == s[b0]);
    }
}

/// Replacing rows by rows with the same id and references changes neither
/// uniqueness nor which ids are present.
pub proof fn lemma_same_keys<T: Row>(s: Seq<T>, s2: Seq<T>)
    requires
        s.len() == s2.len(),
        forall|k: int| 0 <= k < s.len() ==> #[trigger] s2[k].row_id() == s[k].row_id() && s2[k].link_a() == s[k].link_a()
            && s2[k].link_b() == s[k].link_b(),
    ensures
        unique_ids(s) ==> unique_ids(s2),
        forall|x: u128| has_id(s, x) ==> has_id(s2, x),
{
    assert forall|x: u128| has_id(s, x) implies has_id(s2, x) by {
        let k = choose|k: int| 0 <= k < s.len() && #[trigger] s[k].row_id() == x;
        assert(s2[k].row_id() == x);
    }
    if unique_ids(s) {
        assert forall|a: int, b: int|
            0 <= a < s2.len() && 0 <= b < s2.len() && #[trigger] s2[a].row_id() == #[trigger] s2[b].row_id() implies a == b by {
            assert(s[a].row_id() == s[b].row_id());
        }
    }
}

/// References stay valid when the parent table keeps every id it had.
pub proof fn lemma_links_keys<C: Row, P: Row>(child: Seq<C>, parent: Seq<P>, parent2: Seq<P>)
    requires
        links_into(child, parent),
        forall|x: u128| has_id(parent, x) ==> has_id(parent2, x),
    ensures
        links_into(child, parent2),
{
    assert forall|i: int| 0 <= i < child.len() implies has_id(parent2, #[trigger] child[i].link_a()) && has_id(
        parent2,
        child[i].link_b(),
    ) by {
        assert(has_id(parent, child[i].link_a()));
        assert(has_id(parent, child[i].link_b()));
    }
}

/// What survives `without_links` is a row of the input that references
/// nothing in `gone`.
pub proof fn lemma_without_member<T: Row>(s: Seq<T>, gone: Set<u128>, k: int)
    requires
        0 <= k < without_links(s, gone).len(),
    ensures
        s.contains(without_links(s, gone)[k]),
        !gone.contains(without_links(s, gone)[k].link_a()),
        !gone.contains(without_links(s, gone)[k].link_b()),
{
    let p = |r: T| !gone.contains(r.link_a()) && !gone.contains(r.link_b());
    let f = s.filter(p);
    assert(f.contains(f[k]));
    s.lemma_filter_contains_rev(p, f[k]);
    s.lemma_filter_pred(p, k);
}

pub proof fn lemma_without_unique<T: Row>(s: Seq<T>, gone: Set<u128>)
    requires
        unique_ids(s),
    ensures
        unique_ids(without_links(s, gone)),
{
    lemma_filter_unique(s, |r: T| !gone.contains(r.link_a()) && !gone.contains(r.link_b()));
}

} // verus!
