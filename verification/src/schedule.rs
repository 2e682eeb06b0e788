use crate::graph::NodeId;
use vstd::prelude::*;

verus! {

/// Whether every dependency in `d` occurs in `done`.
pub open spec fn deps_ready(done: Seq<NodeId>, d: Seq<NodeId>) -> bool {
    forall|j: int| 0 <= j < d.len() ==> done.contains(#[trigger] d[j])
}

/// The state of a scheduling pass: the nodes whose output is available, the
/// positions scheduled so far, and the positions still waiting.
pub struct PassState {
    pub done: Seq<NodeId>,
    pub order: Seq<int>,
    pub waiting: Seq<int>,
}

/// One pass over the positions `rem`, in order: a position whose dependencies are
/// all available is scheduled (and, if it provides output, its node becomes
/// available to the positions after it); any other position keeps waiting.
pub open spec fn run_pass(
    ids: Seq<NodeId>,
    deps: Seq<Seq<NodeId>>,
    provides: Seq<bool>,
    s: PassState,
    rem: Seq<int>,
) -> PassState
    decreases rem.len(),
{
    if rem.len() == 0 {
        s
    } else {
        let i = rem[0];
        if deps_ready(s.done, deps[i]) {
            run_pass(
                ids,
                deps,
                provides,
                PassState {
                    done: if provides[i] { s.done.push(ids[i]) } else { s.done },
                    order: s.order.push(i),
                    waiting: s.waiting,
                },
                rem.drop_first(),
            )
        } else {
            run_pass(
                ids,
                deps,
                provides,
                PassState { done: s.done, order: s.order, waiting: s.waiting.push(i) },
                rem.drop_first(),
            )
        }
    }
}

/// `passes` passes, each over the positions that the previous one left waiting.
pub open spec fn run_passes(
    ids: Seq<NodeId>,
    deps: Seq<Seq<NodeId>>,
    provides: Seq<bool>,
    s: PassState,
    passes: nat,
) -> PassState
    decreases passes,
{
    if passes == 0 {
        s
    } else {
        let next = run_pass(
            ids,
            deps,
            provides,
            PassState { done: s.done, order: s.order, waiting: Seq::empty() },
            s.waiting,
        );
        run_passes(ids, deps, provides, next, (passes - 1) as nat)
    }
}

/// The schedule of all positions `0..ids.len()` in at most `passes` passes.
pub open spec fn schedule(ids: Seq<NodeId>, deps: Seq<Seq<NodeId>>, provides: Seq<bool>, passes: nat) -> PassState {
    run_passes(
        ids,
        deps,
        provides,
        PassState { done: Seq::empty(), order: Seq::empty(), waiting: Seq::new(ids.len(), |i: int| i) },
        passes,
    )
}

/// The node identifiers at the given positions.
pub open spec fn at(ids: Seq<NodeId>, pos: Seq<int>) -> Seq<NodeId> {
    pos.map_values(|i: int| ids[i])
}

/// The invariant of a pass: the available nodes are the providing ones among the
/// scheduled positions, every position occurs once among the scheduled, waiting
/// and unprocessed ones, and every scheduled position found its dependencies
/// available among the positions scheduled before it.
pub open spec fn pass_inv(
    ids: Seq<NodeId>,
    deps: Seq<Seq<NodeId>>,
    provides: Seq<bool>,
    s: PassState,
    rem: Seq<int>,
) -> bool {
    let all = s.order + s.waiting + rem;
    &&& forall|k: int| 0 <= k < all.len() ==> 0 <= #[trigger] all[k] < ids.len()
    &&& all.no_duplicates()
    &&& all.len() == ids.len()
    &&& s.done == provided(ids, provides, s.order)
    &&& forall|k: int| 0 <= k < s.order.len() ==> deps_ready(
        provided(ids, provides, s.order.subrange(0, k)),
        #[trigger] deps[s.order[k]],
    )
}

/// The nodes at the providing positions among `pos`, in order.
pub open spec fn provided(ids: Seq<NodeId>, provides: Seq<bool>, pos: Seq<int>) -> Seq<NodeId>
    decreases pos.len(),
{
    if pos.len() == 0 {
        Seq::empty()
    } else {
        let rest = provided(ids, provides, pos.drop_last());
        if provides[pos.last()] {
            rest.push(ids[pos.last()])
        } else {
            rest
        }
    }
}

proof fn lemma_pass_inv(
    ids: Seq<NodeId>,
    deps: Seq<Seq<NodeId>>,
    provides: Seq<bool>,
    s: PassState,
    rem: Seq<int>,
)
    requires
        deps.len() == ids.len(),
        provides.len() == ids.len(),
        pass_inv(ids, deps, provides, s, rem),
    ensures
        pass_inv(ids, deps, provides, run_pass(ids, deps, provides, s, rem), Seq::empty()),
        run_pass(ids, deps, provides, s, rem).order.len() >= s.order.len(),
        run_pass(ids, deps, provides, s, rem).order.subrange(0, s.order.len() as int) == s.order,
    decreases rem.len(),
{
    if rem.len() > 0 {
        let i = rem[0];
        let all = s.order + s.waiting + rem;
        assert(all[(s.order.len() + s.waiting.len()) as int] == i);
        if deps_ready(s.done, deps[i]) {
            let s2 = PassState {
                done: if provides[i] { s.done.push(ids[i]) } else { s.done },
                order: s.order.push(i),
                waiting: s.waiting,
            };
            let all2 = s2.order + s2.waiting + rem.drop_first();
            assert forall|k: int| 0 <= k < all2.len() implies #[trigger] all2[k] == all[if k < s.order.len() {
                k
            } else if k == s.order.len() {
                (s.order.len() + s.waiting.len()) as int
            } else if k <= s.order.len() + s.waiting.len() {
                k - 1
            } else {
                k
            }] by {}
            assert forall|a: int, b: int| 0 <= a < all2.len() && 0 <= b < all2.len() && a != b implies all2[a]
                != all2[b] by {
                let fa = if a < s.order.len() {
                    a
                } else if a == s.order.len() {
                    (s.order.len() + s.waiting.len()) as int
                } else if a <= s.order.len() + s.waiting.len() {
                    a - 1
                } else {
                    a
                };
                let fb = if b < s.order.len() {
                    b
                } else if b == s.order.len() {
                    (s.order.len() + s.waiting.len()) as int
                } else if b <= s.order.len() + s.waiting.len() {
                    b - 1
                } else {
                    b
                };
                assert(all2[a] == all[fa]);
                assert(all2[b] == all[fb]);
            }
            assert(s2.order.drop_last() == s.order);
            assert forall|k: int| 0 <= k < s2.order.len() implies deps_ready(
                provided(ids, provides, s2.order.subrange(0, k)),
                #[trigger] deps[s2.order[k]],
            ) by {
                if k < s.order.len() {
                    assert(s2.order.subrange(0, k) == s.order.subrange(0, k));
                } else {
                    assert(s2.order.subrange(0, k) == s.order);
                }
            }
            lemma_pass_inv(ids, deps, provides, s2, rem.drop_first());
            let o = run_pass(ids, deps, provides, s2, rem.drop_first()).order;
            assert(o.subrange(0, s.order.len() as int) =~= o.subrange(0, s2.order.len() as int).subrange(
                0,
                s.order.len() as int,
            ));
            assert(s2.order.subrange(0, s.order.len() as int) =~= s.order);
        } else {
            let s2 = PassState { done: s.done, order: s.order, waiting: s.waiting.push(i) };
            assert(s2.order + s2.waiting + rem.drop_first() =~= all);
            lemma_pass_inv(ids, deps, provides, s2, rem.drop_first());
        }
    }
}

proof fn lemma_passes_inv(ids: Seq<NodeId>, deps: Seq<Seq<NodeId>>, provides: Seq<bool>, s: PassState, passes: nat)
    requires
        deps.len() == ids.len(),
        provides.len() == ids.len(),
        pass_inv(ids, deps, provides, s, Seq::empty()),
    ensures
        pass_inv(ids, deps, provides, run_passes(ids, deps, provides, s, passes), Seq::empty()),
    decreases passes,
{
    if passes > 0 {
        let s1 = PassState { done: s.done, order: s.order, waiting: Seq::empty() };
        assert(s1.order + s1.waiting + s.waiting =~= s.order + s.waiting + Seq::<int>::empty());
        lemma_pass_inv(ids, deps, provides, s1, s.waiting);
        lemma_passes_inv(ids, deps, provides, run_pass(ids, deps, provides, s1, s.waiting), (passes - 1) as nat);
    }
}

/// Whether node `x` occurs in `ids` at a providing position among `pos`.
fn provided_contains(ids: &Vec<NodeId>, provides: &Vec<bool>, pos: &Vec<usize>, x: NodeId) -> (r: bool)
    requires
        ids@.len() == provides@.len(),
        forall|k: int| 0 <= k < pos@.len() ==> #[trigger] pos@[k] < ids@.len(),
    ensures
        r == provided(ids@, provides@, positions(pos@)).contains(x),
{
    let mut k: usize = 0;
    while k < pos.len()
        invariant
            ids@.len() == provides@.len(),
            forall|m: int| 0 <= m < pos@.len() ==> #[trigger] pos@[m] < ids@.len(),
            k <= pos@.len(),
            !provided(ids@, provides@, positions(pos@).subrange(0, k as int)).contains(x),
        decreases pos@.len() - k,
    {
        let i = pos[k];
        proof {
            assert(positions(pos@).subrange(0, k + 1).drop_last() == positions(pos@).subrange(0, k as int));
            assert(positions(pos@).subrange(0, k + 1).last() == i as int);
        }
        if provides[i] && ids[i] == x {
            proof {
                let p = provided(ids@, provides@, positions(pos@).subrange(0, k + 1));
                assert(p.last() == x);
                lemma_provided_prefix(ids@, provides@, positions(pos@), k + 1);
                assert(p.len() > 0);
                assert(p[p.len() - 1] == x);
                let q = provided(ids@, provides@, positions(pos@));
                assert(q.subrange(0, p.len() as int) == p);
                assert(q[p.len() - 1] == x);
            }
            return true;
        }
        proof {
            let p = provided(ids@, provides@, positions(pos@).subrange(0, k + 1));
            assert(!p.contains(x)) by {
                if p.contains(x) {
                    let j = choose|j: int| 0 <= j < p.len() && p[j] == x;
                    if provides@[i as int] {
                        assert(p == provided(ids@, provides@, positions(pos@).subrange(0, k as int)).push(ids@[i as int]));
                        assert(j < p.len() - 1);
                        assert(provided(ids@, provides@, positions(pos@).subrange(0, k as int))[j] == x);
                    } else {
                        assert(provided(ids@, provides@, positions(pos@).subrange(0, k as int))[j] == x);
                    }
                }
            }
        }
        k += 1;
    }
    proof {
        assert(positions(pos@).subrange(0, pos@.len() as int) == positions(pos@));
    }
    false
}

/// The positions of a list, as integers.
pub open spec fn positions(pos: Seq<usize>) -> Seq<int> {
    pos.map_values(|i: usize| i as int)
}

/// The providers among a prefix of `pos` are a prefix of the providers of `pos`.
proof fn lemma_provided_prefix(ids: Seq<NodeId>, provides: Seq<bool>, pos: Seq<int>, n: int)
    requires
        0 <= n <= pos.len(),
    ensures
        provided(ids, provides, pos.subrange(0, n)).len() <= provided(ids, provides, pos).len(),
        provided(ids, provides, pos).subrange(0, provided(ids, provides, pos.subrange(0, n)).len() as int)
            == provided(ids, provides, pos.subrange(0, n)),
    decreases pos.len() - n,
{
    if n < pos.len() {
        lemma_provided_prefix(ids, provides, pos, n + 1);
        assert(pos.subrange(0, n + 1).drop_last() == pos.subrange(0, n));
        let a = provided(ids, provides, pos.subrange(0, n));
        let b = provided(ids, provides, pos.subrange(0, n + 1));
        let c = provided(ids, provides, pos);
        assert(c.subrange(0, a.len() as int) == c.subrange(0, b.len() as int).subrange(0, a.len() as int));
    } else {
        assert(pos.subrange(0, n) == pos);
    }
}

/// Whether every dependency in `d` is a provider among the scheduled positions.
fn all_ready(ids: &Vec<NodeId>, provides: &Vec<bool>, pos: &Vec<usize>, d: &Vec<NodeId>) -> (r: bool)
    requires
        ids@.len() == provides@.len(),
        forall|k: int| 0 <= k < pos@.len() ==> #[trigger] pos@[k] < ids@.len(),
    ensures
        r == deps_ready(provided(ids@, provides@, positions(pos@)), d@),
{
    let mut j: usize = 0;
    while j < d.len()
        invariant
            ids@.len() == provides@.len(),
            forall|k: int| 0 <= k < pos@.len() ==> #[trigger] pos@[k] < ids@.len(),
            j <= d@.len(),
            forall|m: int| 0 <= m < j ==> provided(ids@, provides@, positions(pos@)).contains(#[trigger] d@[m]),
        decreases d@.len() - j,
    {
        if !provided_contains(ids, provides, pos, d[j]) {
            return false;
        }
        j += 1;
    }
    true
}

/// Orders the nodes `ids` (position `i` with dependencies `deps[i]`) for rendering:
/// up to `max_passes` passes over the nodes still waiting, in their order, each
/// scheduling a node once every dependency is a providing node scheduled before
/// it. Returns the scheduled nodes in order and the nodes left waiting.
pub fn dependency_schedule(
    ids: &Vec<NodeId>,
    deps: &Vec<Vec<NodeId>>,
    provides: &Vec<bool>,
    max_passes: usize,
) -> (r: (Vec<NodeId>, Vec<NodeId>))
    requires
        deps@.len() == ids@.len(),
        provides@.len() == ids@.len(),
    ensures
        ({
            let s = schedule(ids@, deps@.map_values(|v: Vec<NodeId>| v@), provides@, max_passes as nat);
            r.0@ == at(ids@, s.order) && r.1@ == at(ids@, s.waiting)
        }),
{
    let ghost dv = deps@.map_values(|v: Vec<NodeId>| v@);
    let n = ids.len();
    let mut order: Vec<usize> = Vec::new();
    let mut waiting: Vec<usize> = Vec::new();
    let mut i: usize = 0;
    while i < n
        invariant
            n == ids@.len(),
            i <= n,
            waiting@.len() == i,
            forall|k: int| 0 <= k < i ==> #[trigger] waiting@[k] == k,
        decreases n - i,
    {
        waiting.push(i);
        i += 1;
    }
    proof {
        assert(positions(waiting@) =~= Seq::new(ids@.len(), |i: int| i));
        assert(positions(order@) =~= Seq::<int>::empty());
        assert(provided(ids@, provides@, Seq::<int>::empty()) == Seq::<NodeId>::empty());
    }
    let mut pass: usize = 0;
    while pass < max_passes
        invariant
            n == ids@.len(),
            deps@.len() == n,
            provides@.len() == n,
            dv == deps@.map_values(|v: Vec<NodeId>| v@),
            pass <= max_passes,
            forall|k: int| 0 <= k < order@.len() ==> #[trigger] order@[k] < n,
            forall|k: int| 0 <= k < waiting@.len() ==> #[trigger] waiting@[k] < n,
            schedule(ids@, dv, provides@, max_passes as nat) == run_passes(
                ids@,
                dv,
                provides@,
                PassState {
                    done: provided(ids@, provides@, positions(order@)),
                    order: positions(order@),
                    waiting: positions(waiting@),
                },
                (max_passes - pass) as nat,
            ),
        decreases max_passes - pass,
    {
        let rem = waiting;
        let mut still: Vec<usize> = Vec::new();
        let mut k: usize = 0;
        let ghost start = PassState {
            done: provided(ids@, provides@, positions(order@)),
            order: positions(order@),
            waiting: Seq::empty(),
        };
        proof {
            assert(positions(rem@).skip(0) =~= positions(rem@));
            assert(positions(still@) =~= Seq::<int>::empty());
        }
        while k < rem.len()
            invariant
                n == ids@.len(),
                deps@.len() == n,
                provides@.len() == n,
                dv == deps@.map_values(|v: Vec<NodeId>| v@),
                k <= rem@.len(),
                forall|m: int| 0 <= m < order@.len() ==> #[trigger] order@[m] < n,
                forall|m: int| 0 <= m < still@.len() ==> #[trigger] still@[m] < n,
                forall|m: int| 0 <= m < rem@.len() ==> #[trigger] rem@[m] < n,
                run_pass(ids@, dv, provides@, start, positions(rem@)) == run_pass(
                    ids@,
                    dv,
                    provides@,
                    PassState {
                        done: provided(ids@, provides@, positions(order@)),
                        order: positions(order@),
                        waiting: positions(still@),
                    },
                    positions(rem@).skip(k as int),
                ),
            decreases rem@.len() - k,
        {
            let idx = rem[k];
            let ghost before_order = order@;
            let ghost before_still = still@;
            let ready = all_ready(ids, provides, &order, &deps[idx]);
            proof {
                assert(positions(rem@).skip(k as int)[0] == idx as int);
                assert(positions(rem@).skip(k as int).drop_first() =~= positions(rem@).skip(k + 1));
                assert(dv[idx as int] == deps@[idx as int]@);
            }
            if ready {
                order.push(idx);
                proof {
                    assert(positions(order@) =~= positions(before_order).push(idx as int));
                    assert(positions(order@).drop_last() =~= positions(before_order));
                    assert(positions(order@).last() == idx as int);
                }
            } else {
                still.push(idx);
                proof {
                    assert(positions(still@) =~= positions(before_still).push(idx as int));
                }
            }
            k += 1;
        }
        proof {
            assert(positions(rem@).skip(rem@.len() as int) =~= Seq::<int>::empty());
        }
        waiting = still;
        pass += 1;
    }
    let mut first: Vec<NodeId> = Vec::new();
    let mut k: usize = 0;
    while k < order.len()
        invariant
            forall|m: int| 0 <= m < order@.len() ==> #[trigger] order@[m] < ids@.len(),
            k <= order@.len(),
            first@ == at(ids@, positions(order@).subrange(0, k as int)),
        decreases order@.len() - k,
    {
        first.push(ids[order[k]]);
        proof {
            assert(first@ =~= at(ids@, positions(order@).subrange(0, k + 1)));
        }
        k += 1;
    }
    let mut rest: Vec<NodeId> = Vec::new();
    let mut k: usize = 0;
    while k < waiting.len()
        invariant
            forall|m: int| 0 <= m < waiting@.len() ==> #[trigger] waiting@[m] < ids@.len(),
            k <= waiting@.len(),
            rest@ == at(ids@, positions(waiting@).subrange(0, k as int)),
        decreases waiting@.len() - k,
    {
        rest.push(ids[waiting[k]]);
        proof {
            assert(rest@ =~= at(ids@, positions(waiting@).subrange(0, k + 1)));
        }
        k += 1;
    }
    proof {
        assert(positions(order@).subrange(0, order@.len() as int) == positions(order@));
        assert(positions(waiting@).subrange(0, waiting@.len() as int) == positions(waiting@));
    }
    (first, rest)
}

/// The scheduled and waiting nodes together list every node exactly once, and
/// every scheduled node comes after the providing nodes it depends on.
pub proof fn law_schedule_respects_deps(ids: Seq<NodeId>, deps: Seq<Seq<NodeId>>, provides: Seq<bool>, passes: nat)
    requires
        deps.len() == ids.len(),
        provides.len() == ids.len(),
    ensures
        ({
            let s = schedule(ids, deps, provides, passes);
            &&& (s.order + s.waiting).len() == ids.len()
            &&& (s.order + s.waiting).no_duplicates()
            &&& forall|k: int| 0 <= k < (s.order + s.waiting).len() ==> 0 <= #[trigger] (s.order + s.waiting)[k] < ids.len()
            &&& forall|k: int| 0 <= k < s.order.len() ==> deps_ready(
                provided(ids, provides, s.order.subrange(0, k)),
                #[trigger] deps[s.order[k]],
            )
        }),
{
    let s0 = PassState { done: Seq::empty(), order: Seq::empty(), waiting: Seq::new(ids.len(), |i: int| i) };
    assert(s0.order + s0.waiting + Seq::<int>::empty() =~= s0.waiting);
    assert(s0.waiting.no_duplicates());
    assert(provided(ids, provides, s0.order) == Seq::<NodeId>::empty());
    lemma_passes_inv(ids, deps, provides, s0, passes);
    let s = schedule(ids, deps, provides, passes);
    assert(s.order + s.waiting + Seq::<int>::empty() =~= s.order + s.waiting);
}

} // verus!
