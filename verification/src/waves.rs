//! The order in which a group is brought up under the mixed strategy.
//!
//! Only the services marked for automatic start take part. Each waits for
//! the services that its required dependencies name. The group is swept
//! again and again: a sweep goes through the services still waiting, in
//! order, and schedules each whose required dependencies have all been
//! scheduled by then; the others wait for the next sweep. A sweep that
//! schedules nothing while services still wait means that they can never
//! start: the plan is stuck.

use crate::config::{DependencyType, Service};
use vstd::prelude::*;

verus! {

/// Whether `j` is the place of the last service marked for automatic start
/// that carries `id`: the one whose dependencies count for that id.
pub open spec fn is_bearer(services: Seq<Service>, id: Seq<char>, j: int) -> bool {
    &&& 0 <= j < services.len()
    &&& services[j].auto_start
    &&& services[j].id@ == id
    &&& forall|later: int|
        j < later < services.len() ==> !((#[trigger] services[later]).auto_start
            && services[later].id@ == id)
}

/// The place of the service whose dependencies count for `id`.
pub open spec fn bearer(services: Seq<Service>, id: Seq<char>) -> int {
    choose|j: int| is_bearer(services, id, j)
}

/// Whether a service that carries `id` has been scheduled.
pub open spec fn scheduled(services: Seq<Service>, order: Seq<usize>, id: Seq<char>) -> bool {
    exists|o: int| 0 <= o < order.len() && (#[trigger] services[order[o] as int]).id@ == id
}

/// Whether the service at place `b` waits for `id`: one of its required
/// dependencies names it.
pub open spec fn waits_for(services: Seq<Service>, b: int, id: Seq<char>) -> bool {
    exists|k: int|
        0 <= k < services[b].edge_count() && #[trigger] services[b].edge_kind(k)
            == DependencyType::Required && services[b].edge_target(k) == id
}

/// Whether everything that the service at place `b` waits for has been
/// scheduled.
pub open spec fn served(services: Seq<Service>, order: Seq<usize>, b: int) -> bool {
    forall|k: int|
        0 <= k < services[b].edge_count() && #[trigger] services[b].edge_kind(k)
            == DependencyType::Required ==> scheduled(services, order, services[b].edge_target(k))
}

/// Whether the service at place `i` can be scheduled after `order`.
pub open spec fn ripe(services: Seq<Service>, order: Seq<usize>, i: int) -> bool {
    served(services, order, bearer(services, services[i].id@))
}

/// One sweep through `pending` after `order`: the order after it, and the
/// services that still wait.
pub open spec fn sweep(services: Seq<Service>, pending: Seq<usize>, order: Seq<usize>) -> (
    Seq<usize>,
    Seq<usize>,
)
    decreases pending.len(),
{
    if pending.len() == 0 {
        (order, Seq::empty())
    } else if ripe(services, order, pending[0] as int) {
        sweep(services, pending.drop_first(), order.push(pending[0]))
    } else {
        let rest = sweep(services, pending.drop_first(), order);
        (rest.0, seq![pending[0]] + rest.1)
    }
}

/// Sweeps until nothing waits or a sweep schedules nothing: the order
/// reached, and whether services were left waiting.
pub open spec fn schedule(services: Seq<Service>, pending: Seq<usize>, order: Seq<usize>) -> (
    Seq<usize>,
    bool,
)
    decreases pending.len(),
{
    if pending.len() == 0 {
        (order, false)
    } else {
        let swept = sweep(services, pending, order);
        if swept.1.len() >= pending.len() {
            (order, true)
        } else {
            schedule(services, swept.1, swept.0)
        }
    }
}

/// The places of the services marked for automatic start among the first
/// `n`, in order.
pub open spec fn candidates(services: Seq<Service>, n: int) -> Seq<usize>
    decreases n,
{
    if n <= 0 {
        Seq::empty()
    } else if services[n - 1].auto_start {
        candidates(services, n - 1).push((n - 1) as usize)
    } else {
        candidates(services, n - 1)
    }
}

/// The plan for a group: the places of its services in the order in which
/// they are started, and whether the plan is stuck after them.
pub open spec fn plan_of(services: Seq<Service>) -> (Seq<usize>, bool) {
    schedule(services, candidates(services, services.len() as int), Seq::empty())
}

/// Whether every place in `places` is that of a service marked for
/// automatic start.
pub open spec fn all_candidates(services: Seq<Service>, places: Seq<usize>) -> bool {
    forall|p: int|
        0 <= p < places.len() ==> (#[trigger] places[p]) < services.len()
            && services[places[p] as int].auto_start
}

/// A sweep leaves no more services waiting than it found, and loses none:
/// what was scheduled before stays in front, and every service it went
/// through is scheduled or still waits.
pub proof fn lemma_sweep(services: Seq<Service>, pending: Seq<usize>, order: Seq<usize>)
    ensures
        sweep(services, pending, order).1.len() <= pending.len(),
        sweep(services, pending, order).0.len() + sweep(services, pending, order).1.len()
            == order.len() + pending.len(),
        order.len() <= sweep(services, pending, order).0.len(),
        sweep(services, pending, order).0.take(order.len() as int) == order,
        forall|x: usize|
            pending.contains(x) ==> sweep(services, pending, order).0.contains(x) || sweep(
                services,
                pending,
                order,
            ).1.contains(x),
        forall|x: usize|
            sweep(services, pending, order).1.contains(x) ==> pending.contains(x),
        forall|x: usize|
            sweep(services, pending, order).0.contains(x) ==> order.contains(x) || pending.contains(
                x,
            ),
    decreases pending.len(),
{
    let swept = sweep(services, pending, order);
    if pending.len() == 0 {
        assert(swept.0.take(order.len() as int) =~= order);
    } else {
        let head = pending[0];
        let tail = pending.drop_first();
        if ripe(services, order, head as int) {
            let more = order.push(head);
            lemma_sweep(services, tail, more);
            assert(swept.0.take(order.len() as int) =~= swept.0.take(more.len() as int).take(
                order.len() as int,
            ));
            assert(more.take(order.len() as int) =~= order);
            assert(swept.0[order.len() as int] == swept.0.take(more.len() as int)[order.len() as int]);
            assert(more[order.len() as int] == head);
            assert forall|x: usize| pending.contains(x) implies swept.0.contains(x)
                || swept.1.contains(x) by {
                let at = choose|at: int| 0 <= at < pending.len() && pending[at] == x;
                if at == 0 {
                    assert(swept.0[order.len() as int] == head);
                } else {
                    assert(tail[at - 1] == x);
                    assert(tail.contains(x));
                }
            }
            assert forall|x: usize| swept.1.contains(x) implies pending.contains(x) by {
                assert(tail.contains(x));
                let at = choose|at: int| 0 <= at < tail.len() && tail[at] == x;
                assert(pending[at + 1] == x);
            }
            assert forall|x: usize| swept.0.contains(x) implies order.contains(x)
                || pending.contains(x) by {
                if more.contains(x) {
                    let at = choose|at: int| 0 <= at < more.len() && more[at] == x;
                    if at == order.len() {
                        assert(pending[0] == x);
                    } else {
                        assert(order[at] == x);
                    }
                } else {
                    assert(tail.contains(x));
                    let at = choose|at: int| 0 <= at < tail.len() && tail[at] == x;
                    assert(pending[at + 1] == x);
                }
            }
        } else {
            lemma_sweep(services, tail, order);
            let rest = sweep(services, tail, order);
            assert forall|x: usize| pending.contains(x) implies swept.0.contains(x)
                || swept.1.contains(x) by {
                let at = choose|at: int| 0 <= at < pending.len() && pending[at] == x;
                if at == 0 {
                    assert(swept.1[0] == x);
                } else {
                    assert(tail[at - 1] == x);
                    assert(tail.contains(x));
                    if rest.1.contains(x) {
                        let r = choose|r: int| 0 <= r < rest.1.len() && rest.1[r] == x;
                        assert(swept.1[r + 1] == x);
                    }
                }
            }
            assert forall|x: usize| swept.1.contains(x) implies pending.contains(x) by {
                let at = choose|at: int| 0 <= at < swept.1.len() && swept.1[at] == x;
                if at == 0 {
                    assert(pending[0] == x);
                } else {
                    assert(rest.1[at - 1] == x);
                    assert(rest.1.contains(x));
                    assert(tail.contains(x));
                    let t = choose|t: int| 0 <= t < tail.len() && tail[t] == x;
                    assert(pending[t + 1] == x);
                }
            }
            assert forall|x: usize| swept.0.contains(x) implies order.contains(x)
                || pending.contains(x) by {
                if !order.contains(x) {
                    assert(tail.contains(x));
                    let t = choose|t: int| 0 <= t < tail.len() && tail[t] == x;
                    assert(pending[t + 1] == x);
                }
            }
        }
    }
}

/// The candidates among the first `n` services are just the places below
/// `n` of services marked for automatic start.
pub proof fn lemma_candidates(services: Seq<Service>, n: int)
    requires
        0 <= n <= services.len(),
        services.len() <= usize::MAX,
    ensures
        all_candidates(services, candidates(services, n)),
        forall|i: int|
            0 <= i < n && services[i].auto_start ==> candidates(services, n).contains(i as usize),
        forall|x: usize| candidates(services, n).contains(x) ==> x < n,
    decreases n,
{
    if n > 0 {
        lemma_candidates(services, n - 1);
        let before = candidates(services, n - 1);
        let now = candidates(services, n);
        if services[n - 1].auto_start {
            assert(now[before.len() as int] == (n - 1) as usize);
            assert forall|i: int| 0 <= i < n && services[i].auto_start implies now.contains(
                i as usize,
            ) by {
                if i < n - 1 {
                    let at = choose|at: int| 0 <= at < before.len() && before[at] == i as usize;
                    assert(now[at] == i as usize);
                }
            }
            assert forall|x: usize| now.contains(x) implies x < n by {
                let at = choose|at: int| 0 <= at < now.len() && now[at] == x;
                if at < before.len() {
                    assert(before[at] == x);
                    assert(before.contains(x));
                }
            }
        }
    }
}

/// There is one bearer of an id at most.
pub proof fn lemma_bearer(services: Seq<Service>, id: Seq<char>, j: int)
    requires
        is_bearer(services, id, j),
    ensures
        bearer(services, id) == j,
{
    let b = bearer(services, id);
    assert(is_bearer(services, id, b));
    if b < j {
        assert(!(services[j].auto_start && services[j].id@ == id));
    } else if j < b {
        assert(!(services[b].auto_start && services[b].id@ == id));
    }
}

/// Whether each service in `order` was ripe when its turn came: what it
/// waits for stands before it.
pub open spec fn wave_ordered(services: Seq<Service>, order: Seq<usize>) -> bool {
    forall|p: int|
        0 <= p < order.len() ==> ripe(services, order.take(p), (#[trigger] order[p]) as int)
}

/// A sweep after a wave-ordered order gives a wave-ordered order.
pub proof fn lemma_sweep_ordered(services: Seq<Service>, pending: Seq<usize>, order: Seq<usize>)
    requires
        wave_ordered(services, order),
    ensures
        wave_ordered(services, sweep(services, pending, order).0),
    decreases pending.len(),
{
    if pending.len() > 0 {
        let head = pending[0];
        let tail = pending.drop_first();
        if ripe(services, order, head as int) {
            let more = order.push(head);
            assert forall|p: int| 0 <= p < more.len() implies ripe(
                services,
                more.take(p),
                (#[trigger] more[p]) as int,
            ) by {
                if p < order.len() {
                    assert(more.take(p) =~= order.take(p));
                    assert(more[p] == order[p]);
                } else {
                    assert(more.take(p) =~= order);
                }
            }
            lemma_sweep_ordered(services, tail, more);
        } else {
            lemma_sweep_ordered(services, tail, order);
        }
    }
}

/// A sweep that leaves as many waiting as it found has scheduled nothing,
/// because none of them was ripe.
pub proof fn lemma_idle_sweep(services: Seq<Service>, pending: Seq<usize>, order: Seq<usize>)
    requires
        sweep(services, pending, order).1.len() >= pending.len(),
    ensures
        sweep(services, pending, order).0 == order,
        forall|x: usize| pending.contains(x) ==> !ripe(services, order, x as int),
    decreases pending.len(),
{
    if pending.len() > 0 {
        let head = pending[0];
        let tail = pending.drop_first();
        if ripe(services, order, head as int) {
            lemma_sweep(services, tail, order.push(head));
        } else {
            lemma_idle_sweep(services, tail, order);
            assert forall|x: usize| pending.contains(x) implies !ripe(services, order, x as int) by {
                let at = choose|at: int| 0 <= at < pending.len() && pending[at] == x;
                if at > 0 {
                    assert(tail[at - 1] == x);
                    assert(tail.contains(x));
                }
            }
        }
    }
}

/// What the schedule comes to: its order is wave-ordered and keeps what was
/// scheduled before; every service that waited is in it, unless the plan is
/// stuck; and a service that waited and is not in it is not ripe even at
/// the end.
pub proof fn lemma_schedule(services: Seq<Service>, pending: Seq<usize>, order: Seq<usize>)
    requires
        wave_ordered(services, order),
    ensures
        wave_ordered(services, schedule(services, pending, order).0),
        forall|x: usize| order.contains(x) ==> schedule(services, pending, order).0.contains(x),
        forall|x: usize|
            schedule(services, pending, order).0.contains(x) ==> order.contains(x)
                || pending.contains(x),
        !schedule(services, pending, order).1 ==> forall|x: usize|
            pending.contains(x) ==> schedule(services, pending, order).0.contains(x),
        forall|x: usize|
            pending.contains(x) && !schedule(services, pending, order).0.contains(x) ==> !ripe(
                services,
                schedule(services, pending, order).0,
                x as int,
            ),
    decreases pending.len(),
{
    if pending.len() > 0 {
        let swept = sweep(services, pending, order);
        lemma_sweep(services, pending, order);
        if swept.1.len() >= pending.len() {
            lemma_idle_sweep(services, pending, order);
        } else {
            lemma_sweep_ordered(services, pending, order);
            lemma_schedule(services, swept.1, swept.0);
            let done = schedule(services, swept.1, swept.0);
            assert forall|x: usize| order.contains(x) implies done.0.contains(x) by {
                let at = choose|at: int| 0 <= at < order.len() && order[at] == x;
                assert(swept.0.take(order.len() as int)[at] == x);
                assert(swept.0[at] == x);
                assert(swept.0.contains(x));
            }
        }
    }
}

/// In the plan of a group each service stands after everything it waits
/// for: when its turn comes, each of its required dependencies names a
/// service that has been scheduled before it.
pub proof fn law_waves_follow_dependencies(services: Seq<Service>, p: int)
    requires
        0 <= p < plan_of(services).0.len(),
    ensures
        ripe(services, plan_of(services).0.take(p), plan_of(services).0[p] as int),
{
    lemma_schedule(services, candidates(services, services.len() as int), Seq::empty());
}

/// A plan that is not stuck holds every service marked for automatic start.
/// A plan that leaves such a service out is stuck, and the service waits for
/// one that was never scheduled.
pub proof fn law_stuck_plan(services: Seq<Service>, i: int)
    requires
        services.len() <= usize::MAX,
        0 <= i < services.len(),
        services[i].auto_start,
    ensures
        !plan_of(services).1 ==> plan_of(services).0.contains(i as usize),
        !plan_of(services).0.contains(i as usize) ==> plan_of(services).1 && !ripe(
            services,
            plan_of(services).0,
            i,
        ),
{
    lemma_candidates(services, services.len() as int);
    lemma_schedule(services, candidates(services, services.len() as int), Seq::empty());
}

/// The id that follows the one at `j` round a ring.
pub open spec fn next_in_ring(ring: Seq<Seq<char>>, j: int) -> Seq<char> {
    if j + 1 < ring.len() {
        ring[j + 1]
    } else {
        ring[0]
    }
}

/// Whether the ids of `ring` form a cycle of required dependencies among
/// the services marked for automatic start: each id is carried by such a
/// service, and the service whose dependencies count for it waits for the
/// next id round the ring.
pub open spec fn is_ring(services: Seq<Service>, ring: Seq<Seq<char>>) -> bool {
    &&& ring.len() > 0
    &&& forall|j: int|
        0 <= j < ring.len() ==> exists|b: int|
            is_bearer(services, #[trigger] ring[j], b) && waits_for(
                services,
                b,
                next_in_ring(ring, j),
            )
}

/// Whether no service in `order` carries an id of `ring`.
pub open spec fn avoids(services: Seq<Service>, order: Seq<usize>, ring: Seq<Seq<char>>) -> bool {
    forall|o: int|
        0 <= o < order.len() ==> !ring.contains((#[trigger] services[order[o] as int]).id@)
}

/// While no member of a ring has been scheduled, no member is ripe.
pub proof fn lemma_ring_unripe(
    services: Seq<Service>,
    ring: Seq<Seq<char>>,
    order: Seq<usize>,
    i: int,
)
    requires
        is_ring(services, ring),
        avoids(services, order, ring),
        ring.contains(services[i].id@),
    ensures
        !ripe(services, order, i),
{
    let id = services[i].id@;
    let j = choose|j: int| 0 <= j < ring.len() && ring[j] == id;
    let b = choose|b: int|
        is_bearer(services, #[trigger] ring[j], b) && waits_for(services, b, next_in_ring(ring, j));
    lemma_bearer(services, id, b);
    let next = next_in_ring(ring, j);
    assert(ring.contains(next)) by {
        if j + 1 < ring.len() {
            assert(ring[j + 1] == next);
        } else {
            assert(ring[0] == next);
        }
    }
    let k = choose|k: int|
        0 <= k < services[b].edge_count() && #[trigger] services[b].edge_kind(k)
            == DependencyType::Required && services[b].edge_target(k) == next;
    if served(services, order, b) {
        assert(scheduled(services, order, services[b].edge_target(k)));
        let o = choose|o: int|
            0 <= o < order.len() && (#[trigger] services[order[o] as int]).id@ == next;
        assert(!ring.contains(services[order[o] as int].id@));
    }
}

/// A sweep schedules no member of a ring.
pub proof fn lemma_sweep_avoids(
    services: Seq<Service>,
    ring: Seq<Seq<char>>,
    pending: Seq<usize>,
    order: Seq<usize>,
)
    requires
        is_ring(services, ring),
        avoids(services, order, ring),
    ensures
        avoids(services, sweep(services, pending, order).0, ring),
    decreases pending.len(),
{
    if pending.len() > 0 {
        let head = pending[0];
        let tail = pending.drop_first();
        if ripe(services, order, head as int) {
            let more = order.push(head);
            if ring.contains(services[head as int].id@) {
                lemma_ring_unripe(services, ring, order, head as int);
            }
            assert forall|o: int| 0 <= o < more.len() implies !ring.contains(
                (#[trigger] services[more[o] as int]).id@,
            ) by {
                if o < order.len() {
                    assert(more[o] == order[o]);
                }
            }
            lemma_sweep_avoids(services, ring, tail, more);
        } else {
            lemma_sweep_avoids(services, ring, tail, order);
        }
    }
}

/// The schedule holds no member of a ring.
pub proof fn lemma_schedule_avoids(
    services: Seq<Service>,
    ring: Seq<Seq<char>>,
    pending: Seq<usize>,
    order: Seq<usize>,
)
    requires
        is_ring(services, ring),
        avoids(services, order, ring),
    ensures
        avoids(services, schedule(services, pending, order).0, ring),
    decreases pending.len(),
{
    if pending.len() > 0 {
        let swept = sweep(services, pending, order);
        if swept.1.len() >= pending.len() {
        } else {
            lemma_sweep_avoids(services, ring, pending, order);
            lemma_schedule_avoids(services, ring, swept.1, swept.0);
        }
    }
}

/// A group with a cycle among its required dependencies has a stuck plan,
/// and the plan starts no member of the cycle.
pub proof fn law_cycle_is_stuck(services: Seq<Service>, ring: Seq<Seq<char>>)
    requires
        services.len() <= usize::MAX,
        is_ring(services, ring),
    ensures
        plan_of(services).1,
        avoids(services, plan_of(services).0, ring),
{
    let all = candidates(services, services.len() as int);
    let none = Seq::<usize>::empty();
    lemma_schedule_avoids(services, ring, all, none);
    let b = choose|b: int|
        is_bearer(services, #[trigger] ring[0], b) && waits_for(services, b, next_in_ring(ring, 0));
    law_stuck_plan(services, b);
    let plan = plan_of(services);
    if plan.0.contains(b as usize) {
        let o = choose|o: int| 0 <= o < plan.0.len() && plan.0[o] == b as usize;
        assert(ring.contains(ring[0]));
        assert(!ring.contains(services[plan.0[o] as int].id@));
    }
}

/// The plan for a group under the mixed strategy.
pub struct Waves {
    /// The places of the services to start, in starting order.
    pub order: Vec<usize>,
    /// Whether services are left that can never start.
    pub stuck: bool,
}

/// Finds the service whose dependencies count for the id of the service at
/// place `i`.
fn bearer_of(services: &Vec<Service>, i: usize) -> (b: usize)
    requires
        i < services@.len(),
        services@[i as int].auto_start,
    ensures
        b < services@.len(),
        b == bearer(services@, services@[i as int].id@),
{
    let key = &services[i].id;
    let mut j: usize = services.len();
    while j > 0
        invariant
            i < j <= services@.len(),
            key@ == services@[i as int].id@,
            services@[i as int].auto_start,
            forall|later: int|
                j <= later < services@.len() ==> !((#[trigger] services@[later]).auto_start
                    && services@[later].id@ == key@),
        decreases j,
    {
        j -= 1;
        if services[j].auto_start && services[j].id == *key {
            proof {
                assert(is_bearer(services@, key@, j as int));
                lemma_bearer(services@, key@, j as int);
            }
            return j;
        }
    }
    i
}

/// Whether each place in `places` is that of a service.
pub open spec fn in_range(services: Seq<Service>, places: Seq<usize>) -> bool {
    forall|p: int| 0 <= p < places.len() ==> (#[trigger] places[p]) < services.len()
}

/// Whether a service that carries `id` has been scheduled.
fn is_scheduled(services: &Vec<Service>, order: &Vec<usize>, id: &str) -> (found: bool)
    requires
        in_range(services@, order@),
    ensures
        found == scheduled(services@, order@, id@),
{
    let key = id.to_owned();
    let mut o: usize = 0;
    while o < order.len()
        invariant
            o <= order@.len(),
            key@ == id@,
            in_range(services@, order@),
            forall|e: int| 0 <= e < o ==> (#[trigger] services@[order@[e] as int]).id@ != id@,
        decreases order@.len() - o,
    {
        if services[order[o]].id == key {
            return true;
        }
        o += 1;
    }
    false
}

/// Whether the service at place `i` can be scheduled after `order`.
fn is_ripe(services: &Vec<Service>, order: &Vec<usize>, i: usize) -> (yes: bool)
    requires
        i < services@.len(),
        services@[i as int].auto_start,
        in_range(services@, order@),
    ensures
        yes == ripe(services@, order@, i as int),
{
    let b = bearer_of(services, i);
    let service = &services[b];
    let count = service.count_edges();
    let mut k: usize = 0;
    while k < count
        invariant
            k <= count,
            count == service.edge_count(),
            b < services@.len(),
            b == bearer(services@, services@[i as int].id@),
            *service == services@[b as int],
            in_range(services@, order@),
            forall|e: int|
                0 <= e < k && #[trigger] service.edge_kind(e) == DependencyType::Required
                    ==> scheduled(services@, order@, service.edge_target(e)),
        decreases count - k,
    {
        let edge = service.edge(k);
        let required = match edge.kind {
            DependencyType::Required => true,
            _ => false,
        };
        if required && !is_scheduled(services, order, edge.target) {
            proof {
                assert(service.edge_kind(k as int) == DependencyType::Required);
                assert(!served(services@, order@, b as int));
            }
            return false;
        }
        k += 1;
    }
    true
}

/// Plans the start of a group under the mixed strategy.
pub fn plan_waves(services: &Vec<Service>) -> (plan: Waves)
    ensures
        (plan.order@, plan.stuck) == plan_of(services@),
        in_range(services@, plan.order@),
{
    let mut pending: Vec<usize> = Vec::new();
    let mut i: usize = 0;
    while i < services.len()
        invariant
            i <= services@.len(),
            pending@ == candidates(services@, i as int),
        decreases services@.len() - i,
    {
        if services[i].auto_start {
            pending.push(i);
        }
        i += 1;
    }
    proof {
        lemma_candidates(services@, services@.len() as int);
    }
    let mut order: Vec<usize> = Vec::new();
    let ghost goal = plan_of(services@);
    loop
        invariant
            schedule(services@, pending@, order@) == goal,
            goal == plan_of(services@),
            all_candidates(services@, pending@),
            in_range(services@, order@),
        decreases pending@.len(),
    {
        if pending.len() == 0 {
            return Waves { order, stuck: false };
        }
        let ghost before = order@;
        let mut waiting: Vec<usize> = Vec::new();
        let mut k: usize = 0;
        proof {
            assert(pending@.skip(0) =~= pending@);
            assert(Seq::<usize>::empty() + sweep(services@, pending@, before).1 =~= sweep(
                services@,
                pending@,
                before,
            ).1);
        }
        while k < pending.len()
            invariant
                k <= pending@.len(),
                all_candidates(services@, pending@),
                all_candidates(services@, waiting@),
                in_range(services@, order@),
                sweep(services@, pending@, before).0 == sweep(
                    services@,
                    pending@.skip(k as int),
                    order@,
                ).0,
                sweep(services@, pending@, before).1 == waiting@ + sweep(
                    services@,
                    pending@.skip(k as int),
                    order@,
                ).1,
            decreases pending@.len() - k,
        {
            let place = pending[k];
            let ghost rest = pending@.skip(k as int);
            proof {
                assert(rest[0] == place);
                assert(rest.drop_first() =~= pending@.skip(k + 1));
            }
            if is_ripe(services, &order, place) {
                order.push(place);
            } else {
                let ghost tail = sweep(services@, pending@.skip(k + 1), order@).1;
                waiting.push(place);
                proof {
                    assert(waiting@ + tail =~= waiting@.drop_last() + (seq![place] + tail));
                }
            }
            k += 1;
        }
        proof {
            assert(pending@.skip(k as int) =~= Seq::<usize>::empty());
            assert(waiting@ + Seq::<usize>::empty() =~= waiting@);
            lemma_sweep(services@, pending@, before);
        }
        if waiting.len() >= pending.len() {
            proof {
                lemma_idle_sweep(services@, pending@, before);
            }
            return Waves { order, stuck: true };
        }
        pending = waiting;
    }
}

} // verus!
