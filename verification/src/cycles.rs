//! The check that the plain dependency lists of a snapshot can be ordered.
//!
//! The graph has the services as nodes, each id standing for the first
//! service that carries it, and an edge from a service to each service that
//! its plain dependency list names. The check walks the graph depth first
//! and fails on the first dependency that names no service and on the first
//! edge that leads back into the walk's own path.

use crate::catalog::{find, flatten, lemma_lookup_is_first, lookup, pointed_at};
use crate::config::{Config, Service};
use crate::orchestrator::{OrchestratorError, OrchestratorErrorView};
use vstd::pervasive::VecAdditionalExecFns;
use vstd::prelude::*;

verus! {

/// Whether the service at place `u` is the one that its id stands for.
pub open spec fn counts(catalog: Seq<Service>, u: int) -> bool {
    0 <= u < catalog.len() && lookup(catalog, catalog[u].id@) == Some(u)
}

/// Whether the `k`-th plain dependency of the service at `u` names the
/// service at `v`.
pub open spec fn names(catalog: Seq<Service>, u: int, k: int, v: int) -> bool {
    &&& 0 <= u < catalog.len()
    &&& 0 <= k < catalog[u].dependencies@.len()
    &&& lookup(catalog, catalog[u].dependencies@[k]@) == Some(v)
}

/// Whether the service at `u` depends on the service at `v`.
pub open spec fn depends(catalog: Seq<Service>, u: int, v: int) -> bool {
    exists|k: int| #[trigger] names(catalog, u, k, v)
}

/// Whether each service of `path` depends on the next.
pub open spec fn is_path(catalog: Seq<Service>, path: Seq<int>) -> bool {
    forall|i: int| 0 <= i < path.len() - 1 ==> depends(catalog, #[trigger] path[i], path[i + 1])
}

/// Whether `path` is a cycle: each of its services depends on the next, and
/// the last on the first.
pub open spec fn is_cycle(catalog: Seq<Service>, path: Seq<int>) -> bool {
    &&& path.len() > 0
    &&& is_path(catalog, path)
    &&& depends(catalog, path.last(), path[0])
}

/// Whether the plain dependencies hold a cycle.
pub open spec fn cyclic(catalog: Seq<Service>) -> bool {
    exists|path: Seq<int>| is_cycle(catalog, path)
}

/// Whether `id` is named by a plain dependency of a service that counts,
/// and names no service itself.
pub open spec fn dangling(catalog: Seq<Service>, id: Seq<char>) -> bool {
    &&& lookup(catalog, id) is None
    &&& exists|u: int, k: int|
        counts(catalog, u) && 0 <= k < catalog[u].dependencies@.len()
            && #[trigger] catalog[u].dependencies@[k]@ == id
}

/// Whether some plain dependency names no service.
pub open spec fn has_dangling(catalog: Seq<Service>) -> bool {
    exists|id: Seq<char>| dangling(catalog, id)
}

/// Whether the `k`-th plain dependency of the service at `u` names one of
/// the first `upto` services of `done`.
pub open spec fn leads_into(catalog: Seq<Service>, done: Seq<int>, upto: int, u: int, k: int) -> bool {
    exists|q: int| 0 <= q < upto && q < done.len() && #[trigger] names(catalog, u, k, done[q])
}

/// Whether the service at place `p` of `done` depends only on services
/// that stand before it there.
pub open spec fn rests_on_earlier(catalog: Seq<Service>, done: Seq<int>, p: int) -> bool {
    forall|k: int|
        0 <= k < catalog[done[p]].dependencies@.len() ==> #[trigger] leads_into(
            catalog,
            done,
            p,
            done[p],
            k,
        )
}

/// Whether `done` lists services so that each depends only on services
/// listed before it.
pub open spec fn settled(catalog: Seq<Service>, done: Seq<int>) -> bool {
    forall|p: int|
        0 <= p < done.len() ==> 0 <= #[trigger] done[p] < catalog.len() && rests_on_earlier(
            catalog,
            done,
            p,
        )
}

/// In a settled list, a path that starts at place `p` stays at or below
/// `p`, and strictly below after its first step.
proof fn lemma_descend(catalog: Seq<Service>, done: Seq<int>, path: Seq<int>, p: int, i: int)
    requires
        settled(catalog, done),
        is_path(catalog, path),
        0 <= i < path.len(),
        0 <= p < done.len(),
        done[p] == path[0],
    ensures
        exists|q: int| 0 <= q <= p && (i > 0 ==> q < p) && #[trigger] done[q] == path[i],
    decreases i,
{
    if i > 0 {
        lemma_descend(catalog, done, path, p, i - 1);
        let q0 = choose|q: int|
            0 <= q <= p && (i - 1 > 0 ==> q < p) && #[trigger] done[q] == path[i - 1];
        assert(depends(catalog, path[i - 1], path[i]));
        let k = choose|k: int| #[trigger] names(catalog, path[i - 1], k, path[i]);
        assert(rests_on_earlier(catalog, done, q0));
        assert(leads_into(catalog, done, q0, done[q0], k));
        let q = choose|q: int|
            0 <= q < q0 && q < done.len() && #[trigger] names(catalog, done[q0], k, done[q]);
        assert(done[q] == path[i]);
    }
}

/// A path that starts at a service of a settled list does not close into a
/// cycle.
proof fn lemma_no_cycle_from(catalog: Seq<Service>, done: Seq<int>, path: Seq<int>, p: int)
    requires
        settled(catalog, done),
        path.len() > 0,
        is_path(catalog, path),
        0 <= p < done.len(),
        done[p] == path[0],
    ensures
        !depends(catalog, path.last(), path[0]),
    decreases p,
{
    if depends(catalog, path.last(), path[0]) {
        let last = path.len() - 1;
        lemma_descend(catalog, done, path, p, last);
        let q0 = choose|q: int|
            0 <= q <= p && (last > 0 ==> q < p) && #[trigger] done[q] == path[last];
        let k = choose|k: int| #[trigger] names(catalog, path.last(), k, path[0]);
        assert(rests_on_earlier(catalog, done, q0));
        assert(leads_into(catalog, done, q0, done[q0], k));
        let q = choose|q: int|
            0 <= q < q0 && q < done.len() && #[trigger] names(catalog, done[q0], k, done[q]);
        assert(done[q] == path[0]);
        lemma_no_cycle_from(catalog, done, path, q);
    }
}

/// How many entries of `marks` are set.
pub open spec fn count_set(marks: Seq<bool>) -> nat
    decreases marks.len(),
{
    if marks.len() == 0 {
        0
    } else {
        count_set(marks.drop_last()) + if marks.last() {
            1nat
        } else {
            0nat
        }
    }
}

/// Whether every entry set in `a` is set in `b`.
pub open spec fn within(a: Seq<bool>, b: Seq<bool>) -> bool {
    a.len() == b.len() && forall|i: int| 0 <= i < a.len() && a[i] ==> b[i]
}

/// No more entries are set than there are.
proof fn lemma_count_bound(marks: Seq<bool>)
    ensures
        count_set(marks) <= marks.len(),
    decreases marks.len(),
{
    if marks.len() > 0 {
        lemma_count_bound(marks.drop_last());
    }
}

/// Setting more entries does not lower the count, and setting one that was
/// clear raises it.
proof fn lemma_count_grows(a: Seq<bool>, b: Seq<bool>)
    requires
        within(a, b),
    ensures
        count_set(a) <= count_set(b),
        (exists|i: int| 0 <= i < a.len() && !a[i] && b[i]) ==> count_set(a) < count_set(b),
    decreases a.len(),
{
    if a.len() > 0 {
        let a0 = a.drop_last();
        let b0 = b.drop_last();
        assert(within(a0, b0)) by {
            assert forall|i: int| 0 <= i < a0.len() && a0[i] implies b0[i] by {
                assert(a[i] ==> b[i]);
            }
        }
        lemma_count_grows(a0, b0);
        if exists|i: int| 0 <= i < a.len() && !a[i] && b[i] {
            let i = choose|i: int| 0 <= i < a.len() && !a[i] && b[i];
            if i < a.len() - 1 {
                assert(!a0[i] && b0[i]);
            }
        }
    }
}

/// What a walk found.
pub enum Finding {
    /// Nothing: every dependency met names a service, and no edge led back.
    Clear,
    /// An edge that leads back into the walk's own path.
    Cycle,
    /// A dependency that names no service; this is the id.
    Missing(Seq<char>),
}

/// The marks that a walk keeps: which services it has visited, and which
/// are on its path.
pub struct Marks {
    pub visited: Seq<bool>,
    pub active: Seq<bool>,
}

/// The walk from the service at `u`: the service goes on the path, its
/// plain dependencies are followed in list order, and unless something is
/// found it leaves the path again. The walk goes no deeper than `depth`.
pub open spec fn visit(catalog: Seq<Service>, u: int, marks: Marks, depth: nat) -> (Marks, Finding)
    decreases depth, 0int,
{
    if depth == 0 {
        (marks, Finding::Clear)
    } else {
        let entered = Marks {
            visited: marks.visited.update(u, true),
            active: marks.active.update(u, true),
        };
        leave(follow(catalog, u, 0, entered, (depth - 1) as nat), u)
    }
}

/// What becomes of a walk along the dependencies of the service at `u`:
/// unless something was found, the service leaves the path.
pub open spec fn leave(walked: (Marks, Finding), u: int) -> (Marks, Finding) {
    match walked.1 {
        Finding::Clear => (
            Marks { visited: walked.0.visited, active: walked.0.active.update(u, false) },
            Finding::Clear,
        ),
        _ => walked,
    }
}

/// The walk along the plain dependencies of the service at `u`, from the
/// `k`-th on. A dependency that names no service is reported. One that
/// names a service not yet visited is walked from. One that names a service
/// on the path is a cycle. One that names a service done with is passed
/// over. The first finding ends the walk.
pub open spec fn follow(catalog: Seq<Service>, u: int, k: int, marks: Marks, depth: nat) -> (
    Marks,
    Finding,
)
    decreases depth, 1 + catalog[u].dependencies@.len() - k,
{
    if k < 0 || k >= catalog[u].dependencies@.len() {
        (marks, Finding::Clear)
    } else {
        let id = catalog[u].dependencies@[k]@;
        match lookup(catalog, id) {
            None => (marks, Finding::Missing(id)),
            Some(w) => if !marks.visited[w] {
                let walked = visit(catalog, w, marks, depth);
                match walked.1 {
                    Finding::Clear => follow(catalog, u, k + 1, walked.0, depth),
                    _ => walked,
                }
            } else if marks.active[w] {
                (marks, Finding::Cycle)
            } else {
                follow(catalog, u, k + 1, marks, depth)
            },
        }
    }
}

/// The walk over the whole catalog from the `r`-th service on: each
/// service whose id stands for a service not yet visited starts a walk
/// from that service. The first finding ends it.
pub open spec fn survey(catalog: Seq<Service>, r: int, marks: Marks) -> Finding
    decreases catalog.len() - r,
{
    if r < 0 || r >= catalog.len() {
        Finding::Clear
    } else {
        match lookup(catalog, catalog[r].id@) {
            Some(c) => if !marks.visited[c] {
                let walked = visit(catalog, c, marks, catalog.len());
                match walked.1 {
                    Finding::Clear => survey(catalog, r + 1, walked.0),
                    _ => walked.1,
                }
            } else {
                survey(catalog, r + 1, marks)
            },
            None => survey(catalog, r + 1, marks),
        }
    }
}

/// Marks with nothing visited.
pub open spec fn unmarked(n: nat) -> Marks {
    Marks { visited: Seq::new(n, |i: int| false), active: Seq::new(n, |i: int| false) }
}

/// What the check of a catalog comes to: the first finding of the walk
/// over it, as a result.
pub open spec fn check_of(catalog: Seq<Service>) -> Result<(), OrchestratorErrorView> {
    match survey(catalog, 0, unmarked(catalog.len())) {
        Finding::Clear => Ok(()),
        Finding::Cycle => Err(OrchestratorErrorView::CircularDependency),
        Finding::Missing(id) => Err(OrchestratorErrorView::TaskNotFound(id)),
    }
}

/// What the executable walk hands back, as a finding.
pub open spec fn finding_of(found: Result<bool, OrchestratorError>) -> Finding {
    match found {
        Ok(false) => Finding::Clear,
        Ok(true) => Finding::Cycle,
        Err(e) => match e@ {
            OrchestratorErrorView::TaskNotFound(id) => Finding::Missing(id),
            _ => Finding::Clear,
        },
    }
}

/// What the walk knows between two of its steps.
pub struct Walk {
    /// The services on the walk's path, the start first.
    pub path: Seq<int>,
    /// The services done with, in the order in which the walk left them.
    pub done: Seq<int>,
}

/// Whether the marks and the walk agree: a service is active just when it
/// is on the path; it is visited and not active just when it is done with;
/// the path is one, and what is done with is settled.
pub open spec fn coherent(
    catalog: Seq<Service>,
    visited: Seq<bool>,
    active: Seq<bool>,
    walk: Walk,
) -> bool {
    &&& visited.len() == catalog.len()
    &&& active.len() == catalog.len()
    &&& forall|v: int| 0 <= v < catalog.len() ==> (#[trigger] active[v] <==> walk.path.contains(v))
    &&& forall|v: int|
        0 <= v < catalog.len() ==> ((#[trigger] visited[v] && !active[v]) <==> walk.done.contains(
            v,
        ))
    &&& forall|v: int| 0 <= v < catalog.len() && #[trigger] active[v] ==> visited[v]
    &&& forall|v: int| 0 <= v < catalog.len() && #[trigger] visited[v] ==> counts(catalog, v)
    &&& forall|i: int| 0 <= i < walk.path.len() ==> 0 <= #[trigger] walk.path[i] < catalog.len()
    &&& is_path(catalog, walk.path)
    &&& settled(catalog, walk.done)
}

/// An edge from the end of a path back into it closes a cycle.
proof fn lemma_back_edge(catalog: Seq<Service>, path: Seq<int>, w: int)
    requires
        path.len() > 0,
        is_path(catalog, path),
        path.contains(w),
        depends(catalog, path.last(), w),
    ensures
        cyclic(catalog),
{
    let j = choose|j: int| 0 <= j < path.len() && path[j] == w;
    let ring = path.skip(j);
    assert forall|i: int| 0 <= i < ring.len() - 1 implies depends(
        catalog,
        #[trigger] ring[i],
        ring[i + 1],
    ) by {
        assert(ring[i] == path[j + i]);
        assert(ring[i + 1] == path[j + i + 1]);
        assert(depends(catalog, path[j + i], path[j + i + 1]));
    }
    assert(ring.last() == path.last());
    assert(ring[0] == w);
    assert(is_cycle(catalog, ring));
}

/// Walks on from the service at `u`, which has not been visited.
///
/// `Ok(true)` says that the walk found an edge back into its own path;
/// `Ok(false)` that everything reachable from `u` is done with.
fn dfs(
    nodes: &Vec<&Service>,
    u: usize,
    visited: &mut Vec<bool>,
    active: &mut Vec<bool>,
    walk: Ghost<Walk>,
    depth: Ghost<nat>,
) -> (found: (Result<bool, OrchestratorError>, Ghost<Walk>))
    requires
        coherent(pointed_at(nodes@), old(visited)@, old(active)@, walk@),
        counts(pointed_at(nodes@), u as int),
        !old(visited)@[u as int],
        walk@.path.len() > 0 ==> depends(pointed_at(nodes@), walk@.path.last(), u as int),
        depth@ >= old(visited)@.len() - count_set(old(visited)@),
    ensures
        match found.0 {
            Ok(false) => {
                &&& coherent(pointed_at(nodes@), final(visited)@, final(active)@, found.1@)
                &&& found.1@.path == walk@.path
                &&& final(active)@ == old(active)@
                &&& within(old(visited)@, final(visited)@)
                &&& final(visited)@[u as int]
                &&& visit(
                    pointed_at(nodes@),
                    u as int,
                    (Marks { visited: old(visited)@, active: old(active)@ }),
                    depth@,
                ) == ((Marks { visited: final(visited)@, active: final(active)@ }), Finding::Clear)
            },
            Ok(true) => cyclic(pointed_at(nodes@)),
            Err(e) => e@ is TaskNotFound && dangling(pointed_at(nodes@), e@->TaskNotFound_0),
        },
        finding_of(found.0) == visit(
            pointed_at(nodes@),
            u as int,
            (Marks { visited: old(visited)@, active: old(active)@ }),
            depth@,
        ).1,
    decreases old(visited)@.len() - count_set(old(visited)@),
{
    let ghost catalog = pointed_at(nodes@);
    let ghost visited0 = visited@;
    let ghost active0 = active@;
    let ghost path = walk@.path.push(u as int);
    visited.set(u, true);
    active.set(u, true);
    let ghost mut now = Walk { path, done: walk@.done };
    proof {
        assert(0 <= u < catalog.len());
        assert(!visited0[u as int]);
        assert(!active0[u as int]);
        assert(!walk@.path.contains(u as int));
        assert(!walk@.done.contains(u as int));
        assert forall|v: int| 0 <= v < catalog.len() implies (#[trigger] active@[v]
            <==> path.contains(v)) by {
            if walk@.path.contains(v) {
                let i = choose|i: int| 0 <= i < walk@.path.len() && walk@.path[i] == v;
                assert(path[i] == v);
            }
            if v == u {
                assert(path[path.len() - 1] == v);
            }
            if path.contains(v) {
                let i = choose|i: int| 0 <= i < path.len() && path[i] == v;
                if i < walk@.path.len() {
                    assert(walk@.path[i] == v);
                }
            }
        }
        assert forall|i: int| 0 <= i < path.len() - 1 implies depends(
            catalog,
            #[trigger] path[i],
            path[i + 1],
        ) by {
            if i < walk@.path.len() - 1 {
                assert(path[i] == walk@.path[i] && path[i + 1] == walk@.path[i + 1]);
                assert(depends(catalog, walk@.path[i], walk@.path[i + 1]));
            } else {
                assert(path[i] == walk@.path.last());
            }
        }
        assert forall|v: int| 0 <= v < catalog.len() implies ((#[trigger] visited@[v]
            && !active@[v]) <==> now.done.contains(v)) by {
            assert((visited0[v] && !active0[v]) <==> walk@.done.contains(v));
        }
        assert(within(visited0, visited@));
        lemma_count_grows(visited0, visited@);
        lemma_count_bound(visited@);
        lemma_count_bound(visited0);
    }
    let ghost below = (depth@ - 1) as nat;
    let ghost goal = follow(
        catalog,
        u as int,
        0,
        Marks { visited: visited@, active: active@ },
        below,
    );
    let service: &Service = nodes[u];
    let mut k: usize = 0;
    while k < service.dependencies.len()
        invariant
            catalog == pointed_at(nodes@),
            u < nodes@.len(),
            *service == catalog[u as int],
            counts(catalog, u as int),
            k <= service.dependencies@.len(),
            coherent(catalog, visited@, active@, now),
            now.path == path,
            path == walk@.path.push(u as int),
            active0.len() == catalog.len(),
            visited0 == old(visited)@,
            active0 == old(active)@,
            depth@ >= 1,
            visit(catalog, u as int, Marks { visited: visited0, active: active0 }, depth@) == leave(
                goal,
                u as int,
            ),
            below == (depth@ - 1) as nat,
            depth@ >= visited0.len() - count_set(visited0),
            follow(catalog, u as int, k as int, Marks { visited: visited@, active: active@ }, below)
                == goal,
            active@ == active0.update(u as int, true),
            within(visited0, visited@),
            visited@[u as int],
            !visited0[u as int],
            visited0.len() == catalog.len(),
            forall|e: int|
                0 <= e < k ==> #[trigger] leads_into(
                    catalog,
                    now.done,
                    now.done.len() as int,
                    u as int,
                    e,
                ),
        decreases service.dependencies@.len() - k,
    {
        let dep = service.dependencies[k].as_str();
        match find(nodes, dep) {
            None => {
                proof {
                    assert(catalog[u as int].dependencies@[k as int]@ == dep@);
                    assert(dangling(catalog, dep@));
                }
                return (Err(OrchestratorError::TaskNotFound(dep.to_owned())), Ghost(now));
            },
            Some(w) => {
                proof {
                    lemma_lookup_is_first(catalog, dep@);
                    lemma_lookup_is_first(catalog, catalog[w as int].id@);
                    crate::catalog::lemma_lookup_found(catalog, catalog[w as int].id@, w as int);
                    assert(names(catalog, u as int, k as int, w as int));
                    assert(depends(catalog, u as int, w as int));
                    assert(path.last() == u as int);
                }
                if !visited[w] {
                    proof {
                        assert(0 <= u < visited0.len() && !visited0[u as int] && visited@[u as int]);
                        lemma_count_grows(visited0, visited@);
                        lemma_count_bound(visited@);
                        lemma_count_bound(visited0);
                    }
                    let ghost before = now;
                    let ghost visited_mid = visited@;
                    let ghost active_mid = active@;
                    let (result, after) = dfs(nodes, w, visited, active, Ghost(now), Ghost(below));
                    match result {
                        Ok(false) => {
                            proof {
                                now = after@;
                                assert(now.done.contains(w as int));
                                let q = choose|q: int|
                                    0 <= q < now.done.len() && now.done[q] == w as int;
                                assert(names(catalog, u as int, k as int, now.done[q]));
                                assert(leads_into(
                                    catalog,
                                    now.done,
                                    now.done.len() as int,
                                    u as int,
                                    k as int,
                                ));
                                assert forall|e: int| 0 <= e < k implies #[trigger] leads_into(
                                    catalog,
                                    now.done,
                                    now.done.len() as int,
                                    u as int,
                                    e,
                                ) by {
                                    assert(leads_into(
                                        catalog,
                                        before.done,
                                        before.done.len() as int,
                                        u as int,
                                        e,
                                    ));
                                    let q0 = choose|q: int|
                                        0 <= q < before.done.len() && q < before.done.len()
                                            && #[trigger] names(
                                            catalog,
                                            u as int,
                                            e,
                                            before.done[q],
                                        );
                                    let v = before.done[q0];
                                    assert(0 <= v < catalog.len());
                                    assert(before.done.contains(v));
                                    assert(visited_mid[v] && !active_mid[v]);
                                    assert(visited@[v] && !active@[v]);
                                    assert(now.done.contains(v));
                                    let q1 = choose|q: int|
                                        0 <= q < now.done.len() && now.done[q] == v;
                                    assert(names(catalog, u as int, e, now.done[q1]));
                                }
                            }
                        },
                        Ok(true) => {
                            return (Ok(true), after);
                        },
                        Err(e) => {
                            return (Err(e), after);
                        },
                    }
                } else if active[w] {
                    proof {
                        lemma_back_edge(catalog, path, w as int);
                    }
                    return (Ok(true), Ghost(now));
                } else {
                    proof {
                        assert(now.done.contains(w as int));
                        let q = choose|q: int| 0 <= q < now.done.len() && now.done[q] == w as int;
                        assert(names(catalog, u as int, k as int, now.done[q]));
                        assert(leads_into(
                            catalog,
                            now.done,
                            now.done.len() as int,
                            u as int,
                            k as int,
                        ));
                    }
                }
            },
        }
        k += 1;
    }
    active.set(u, false);
    let ghost done = now.done.push(u as int);
    let ghost last = Walk { path: walk@.path, done };
    proof {
        assert(active@ =~= active0);
        assert forall|v: int| 0 <= v < catalog.len() implies ((#[trigger] visited@[v]
            && !active@[v]) <==> done.contains(v)) by {
            if now.done.contains(v) {
                let q = choose|q: int| 0 <= q < now.done.len() && now.done[q] == v;
                assert(done[q] == v);
            }
            if v == u {
                assert(done[done.len() - 1] == v);
            }
            if done.contains(v) {
                let q = choose|q: int| 0 <= q < done.len() && done[q] == v;
                if q < now.done.len() {
                    assert(now.done[q] == v);
                    assert(now.done.contains(v));
                }
            }
        }
        assert forall|v: int| 0 <= v < catalog.len() implies (#[trigger] active@[v]
            <==> walk@.path.contains(v)) by {
            assert(active0[v] <==> walk@.path.contains(v));
        }
        assert forall|p: int| 0 <= p < done.len() implies 0 <= #[trigger] done[p] < catalog.len()
            && rests_on_earlier(catalog, done, p) by {
            if p < now.done.len() {
                assert(done[p] == now.done[p]);
                assert(rests_on_earlier(catalog, now.done, p));
                assert forall|e: int|
                    0 <= e < catalog[done[p]].dependencies@.len() implies #[trigger] leads_into(
                    catalog,
                    done,
                    p,
                    done[p],
                    e,
                ) by {
                    assert(leads_into(catalog, now.done, p, now.done[p], e));
                    let q = choose|q: int|
                        0 <= q < p && q < now.done.len() && #[trigger] names(
                            catalog,
                            now.done[p],
                            e,
                            now.done[q],
                        );
                    assert(done[q] == now.done[q]);
                    assert(names(catalog, done[p], e, done[q]));
                }
            } else {
                assert forall|e: int|
                    0 <= e < catalog[done[p]].dependencies@.len() implies #[trigger] leads_into(
                    catalog,
                    done,
                    p,
                    done[p],
                    e,
                ) by {
                    assert(leads_into(catalog, now.done, now.done.len() as int, u as int, e));
                    let q = choose|q: int|
                        0 <= q < now.done.len() && q < now.done.len() && #[trigger] names(
                            catalog,
                            u as int,
                            e,
                            now.done[q],
                        );
                    assert(done[q] == now.done[q]);
                    assert(names(catalog, done[p], e, done[q]));
                }
            }
        }
        assert(is_path(catalog, walk@.path));
        assert(visit(catalog, u as int, Marks { visited: visited0, active: active0 }, depth@) == (
            Marks { visited: visited@, active: active@ },
            Finding::Clear,
        ));
    }
    (Ok(false), Ghost(last))
}

/// Checks that the plain dependency lists of a snapshot can be ordered.
///
/// The check passes just when every plain dependency of a service that
/// counts names a service and no cycle runs through the plain dependencies.
/// Where it fails, the error says what the walk met first: a circular
/// dependency, or the id that names no service.
pub fn check_dependencies(config: &Config) -> (checked: Result<(), OrchestratorError>)
    ensures
        crate::run::verdict(checked) == check_of(crate::catalog::catalog_of(config)),
        checked is Ok <==> !cyclic(crate::catalog::catalog_of(config)) && !has_dangling(
            crate::catalog::catalog_of(config),
        ),
        checked is Err ==> match checked->Err_0@ {
            OrchestratorErrorView::CircularDependency => cyclic(crate::catalog::catalog_of(config)),
            OrchestratorErrorView::TaskNotFound(id) => dangling(
                crate::catalog::catalog_of(config),
                id,
            ),
            _ => false,
        },
{
    let nodes = flatten(config);
    check_nodes(&nodes)
}

/// The check, on the list of services.
pub fn check_nodes(nodes: &Vec<&Service>) -> (checked: Result<(), OrchestratorError>)
    ensures
        crate::run::verdict(checked) == check_of(pointed_at(nodes@)),
        checked is Ok <==> !cyclic(pointed_at(nodes@)) && !has_dangling(pointed_at(nodes@)),
        checked is Err ==> match checked->Err_0@ {
            OrchestratorErrorView::CircularDependency => cyclic(pointed_at(nodes@)),
            OrchestratorErrorView::TaskNotFound(id) => dangling(pointed_at(nodes@), id),
            _ => false,
        },
{
    let ghost catalog = pointed_at(nodes@);
    let n = nodes.len();
    let mut visited: Vec<bool> = Vec::new();
    let mut active: Vec<bool> = Vec::new();
    let mut i: usize = 0;
    while i < n
        invariant
            i <= n,
            visited@.len() == i,
            active@.len() == i,
            forall|v: int| 0 <= v < i ==> !visited@[v] && !active@[v],
        decreases n - i,
    {
        visited.push(false);
        active.push(false);
        i += 1;
    }
    let ghost mut walk = Walk { path: Seq::empty(), done: Seq::empty() };
    let mut r: usize = 0;
    proof {
        assert(visited@ =~= unmarked(catalog.len()).visited);
        assert(active@ =~= unmarked(catalog.len()).active);
    }
    while r < n
        invariant
            n == nodes@.len(),
            catalog == pointed_at(nodes@),
            r <= n,
            coherent(catalog, visited@, active@, walk),
            walk.path.len() == 0,
            survey(catalog, r as int, Marks { visited: visited@, active: active@ }) == survey(
                catalog,
                0,
                unmarked(catalog.len()),
            ),
            forall|v: int| 0 <= v < r && counts(catalog, v) ==> #[trigger] visited@[v],
        decreases n - r,
    {
        let id = nodes[r].id.as_str();
        match find(nodes, id) {
            Some(c) => {
                proof {
                    lemma_lookup_is_first(catalog, id@);
                    lemma_lookup_is_first(catalog, catalog[c as int].id@);
                    crate::catalog::lemma_lookup_found(catalog, catalog[c as int].id@, c as int);
                }
                if !visited[c] {
                    proof {
                        lemma_count_bound(visited@);
                    }
                    let (result, after) = dfs(
                        nodes,
                        c,
                        &mut visited,
                        &mut active,
                        Ghost(walk),
                        Ghost(catalog.len()),
                    );
                    match result {
                        Ok(false) => {
                            proof {
                                walk = after@;
                            }
                        },
                        Ok(true) => {
                            return Err(OrchestratorError::CircularDependency);
                        },
                        Err(e) => {
                            proof {
                                assert(has_dangling(catalog));
                            }
                            return Err(e);
                        },
                    }
                }
            },
            None => {
                proof {
                    lemma_lookup_is_first(catalog, id@);
                    assert(catalog[r as int].id@ == id@);
                }
            },
        }
        r += 1;
    }
    proof {
        assert forall|v: int| counts(catalog, v) implies walk.done.contains(v) by {
            assert(visited@[v]);
            assert(!walk.path.contains(v));
        }
        if cyclic(catalog) {
            let path = choose|path: Seq<int>| is_cycle(catalog, path);
            let k = choose|k: int| #[trigger] names(catalog, path.last(), k, path[0]);
            lemma_lookup_is_first(catalog, catalog[path.last()].dependencies@[k]@);
            lemma_lookup_is_first(catalog, catalog[path[0]].id@);
            crate::catalog::lemma_lookup_found(catalog, catalog[path[0]].id@, path[0]);
            assert(counts(catalog, path[0]));
            assert(walk.done.contains(path[0]));
            let p = choose|p: int| 0 <= p < walk.done.len() && walk.done[p] == path[0];
            lemma_no_cycle_from(catalog, walk.done, path, p);
        }
        if has_dangling(catalog) {
            let id = choose|id: Seq<char>| dangling(catalog, id);
            let (u, k) = choose|u: int, k: int|
                counts(catalog, u) && 0 <= k < catalog[u].dependencies@.len()
                    && #[trigger] catalog[u].dependencies@[k]@ == id;
            assert(walk.done.contains(u));
            let p = choose|p: int| 0 <= p < walk.done.len() && walk.done[p] == u;
            assert(rests_on_earlier(catalog, walk.done, p));
            assert(leads_into(catalog, walk.done, p, walk.done[p], k));
            let q = choose|q: int|
                0 <= q < p && q < walk.done.len() && #[trigger] names(
                    catalog,
                    walk.done[p],
                    k,
                    walk.done[q],
                );
            assert(lookup(catalog, id) is Some);
        }
    }
    Ok(())
}

} // verus!
