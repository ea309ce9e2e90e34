//! The agenda of a command: the top-level items that a run works through.
//!
//! What a command comes to is decided here, before anything is started.
//! Starting a group starts each of its services and stops at the first
//! failure. Starting everything takes the groups in snapshot order, each by
//! its strategy, and pauses after a group that asks for it.

use crate::catalog::{find_group, group_lookup, lemma_group_lookup};
use crate::config::{Config, Service, ServiceGroup, StartupStrategy};
use crate::machine::{ItemView, Policy};
use crate::run::{items_view, Item};
use crate::waves::{in_range, is_ring, law_cycle_is_stuck, plan_of, plan_waves};
use vstd::prelude::*;

verus! {

/// A start of each service, in order, under one policy.
pub open spec fn starts(services: Seq<Service>, policy: Policy) -> Seq<ItemView> {
    Seq::new(services.len(), |i: int| ItemView::Start(services[i].id@, policy))
}

/// A stop of each service, in order.
pub open spec fn stops(services: Seq<Service>) -> Seq<ItemView> {
    Seq::new(services.len(), |i: int| ItemView::Stop(services[i].id@))
}

/// A pause of `delay` milliseconds, if it is not zero.
pub open spec fn pause_of(delay: u64) -> Seq<ItemView> {
    if delay > 0 {
        seq![ItemView::Pause(delay)]
    } else {
        Seq::empty()
    }
}

/// What the sequential strategy makes of one service: nothing unless it is
/// marked for automatic start; else its start, whose failure is dropped,
/// and then the pause that the service asks for.
pub open spec fn sequential_one(service: Service) -> Seq<ItemView> {
    if service.auto_start {
        seq![ItemView::Start(service.id@, Policy::Ignore)] + pause_of(service.startup_delay)
    } else {
        Seq::empty()
    }
}

/// What the sequential strategy makes of the first `n` services.
pub open spec fn sequential(services: Seq<Service>, n: int) -> Seq<ItemView>
    decreases n,
{
    if n <= 0 {
        Seq::empty()
    } else {
        sequential(services, n - 1) + sequential_one(services[n - 1])
    }
}

/// What the parallel strategy makes of one service: its start, whose
/// failure is dropped, if it is marked for automatic start.
pub open spec fn parallel_one(service: Service) -> Seq<ItemView> {
    if service.auto_start {
        seq![ItemView::Start(service.id@, Policy::Ignore)]
    } else {
        Seq::empty()
    }
}

/// What the parallel strategy makes of the first `n` services.
pub open spec fn parallel(services: Seq<Service>, n: int) -> Seq<ItemView>
    decreases n,
{
    if n <= 0 {
        Seq::empty()
    } else {
        parallel(services, n - 1) + parallel_one(services[n - 1])
    }
}

/// What the mixed strategy makes of a group's services: a start of each
/// service of the plan, in plan order, that ends the run if it fails; and
/// after them the circular-dependency error, if the plan is stuck.
pub open spec fn mixed(services: Seq<Service>) -> Seq<ItemView> {
    let plan = plan_of(services);
    Seq::new(
        plan.0.len(),
        |p: int| ItemView::Start(services[plan.0[p] as int].id@, Policy::Abort),
    ) + if plan.1 {
        seq![ItemView::Stuck]
    } else {
        Seq::empty()
    }
}

/// The group whose services a mixed start of the group at `g` takes: the
/// first group that carries the same id.
pub open spec fn mixed_source(groups: Seq<ServiceGroup>, g: int) -> int {
    group_lookup(groups, groups[g].id@)->Some_0
}

/// What starting everything makes of the group at `g`: its services by its
/// strategy, and then the pause that the group asks for.
pub open spec fn group_items(groups: Seq<ServiceGroup>, g: int) -> Seq<ItemView> {
    let group = groups[g];
    (match group.strategy() {
        StartupStrategy::Sequential => sequential(group.services@, group.services@.len() as int),
        StartupStrategy::Parallel => parallel(group.services@, group.services@.len() as int),
        StartupStrategy::Mixed => mixed(groups[mixed_source(groups, g)].services@),
    }) + pause_of(group.startup_delay)
}

/// What starting everything makes of the first `n` groups.
pub open spec fn agenda_of(groups: Seq<ServiceGroup>, n: int) -> Seq<ItemView>
    decreases n,
{
    if n <= 0 {
        Seq::empty()
    } else {
        agenda_of(groups, n - 1) + group_items(groups, n - 1)
    }
}

/// Whether an item neither stops nor restarts a service.
pub open spec fn harmless(item: ItemView) -> bool {
    !(item is Stop) && !(item is Restart)
}

/// Starting everything asks for no stop and no restart: every item of the
/// agenda is a start, a pause, or the end of a stuck plan.
pub proof fn law_start_all_stops_nothing(groups: Seq<ServiceGroup>, n: int, i: int)
    requires
        0 <= n <= groups.len(),
        0 <= i < agenda_of(groups, n).len(),
    ensures
        harmless(agenda_of(groups, n)[i]),
    decreases n,
{
    if n > 0 {
        let before = agenda_of(groups, n - 1);
        if i < before.len() {
            law_start_all_stops_nothing(groups, n - 1, i);
        } else {
            let group = groups[n - 1];
            let body = match group.strategy() {
                StartupStrategy::Sequential => sequential(
                    group.services@,
                    group.services@.len() as int,
                ),
                StartupStrategy::Parallel => parallel(group.services@, group.services@.len() as int),
                StartupStrategy::Mixed => mixed(groups[mixed_source(groups, n - 1)].services@),
            };
            let at = i - before.len();
            if at < body.len() {
                match group.strategy() {
                    StartupStrategy::Sequential => {
                        lemma_sequential_harmless(
                            group.services@,
                            group.services@.len() as int,
                            at,
                        );
                    },
                    StartupStrategy::Parallel => {
                        lemma_parallel_harmless(group.services@, group.services@.len() as int, at);
                    },
                    StartupStrategy::Mixed => {},
                }
            }
        }
    }
}

/// The sequential strategy asks for no stop and no restart.
proof fn lemma_sequential_harmless(services: Seq<Service>, n: int, i: int)
    requires
        0 <= i < sequential(services, n).len(),
    ensures
        harmless(sequential(services, n)[i]),
    decreases n,
{
    if n > 0 {
        if i < sequential(services, n - 1).len() {
            lemma_sequential_harmless(services, n - 1, i);
        }
    }
}

/// The parallel strategy asks for no stop and no restart.
proof fn lemma_parallel_harmless(services: Seq<Service>, n: int, i: int)
    requires
        0 <= i < parallel(services, n).len(),
    ensures
        harmless(parallel(services, n)[i]),
    decreases n,
{
    if n > 0 {
        if i < parallel(services, n - 1).len() {
            lemma_parallel_harmless(services, n - 1, i);
        }
    }
}

/// Under the mixed strategy a group with a cycle among its required
/// dependencies gets an agenda that ends in the circular-dependency error
/// and starts no member of the cycle; what stands before the error are the
/// starts of the services that the cycle does not hold back.
pub proof fn law_cycle_ends_the_mixed_agenda(services: Seq<Service>, ring: Seq<Seq<char>>, i: int)
    requires
        services.len() <= usize::MAX,
        is_ring(services, ring),
        0 <= i < mixed(services).len(),
    ensures
        mixed(services).last() == ItemView::Stuck,
        i < mixed(services).len() - 1 ==> mixed(services)[i] is Start && !ring.contains(
            mixed(services)[i]->Start_0,
        ),
{
    law_cycle_is_stuck(services, ring);
    let plan = plan_of(services);
    if i < mixed(services).len() - 1 {
        assert(mixed(services)[i] == ItemView::Start(
            services[plan.0[i] as int].id@,
            Policy::Abort,
        ));
    }
}

/// Adding an item to a list adds its view to the list's views.
pub proof fn lemma_items_push(items: Seq<Item<'_>>, item: Item<'_>)
    ensures
        items_view(items.push(item)) == items_view(items).push(item@),
{
    assert(items_view(items.push(item)) =~= items_view(items).push(item@));
}

/// Appends a pause of `delay` milliseconds, if it is not zero.
fn push_pause<'a>(agenda: &mut Vec<Item<'a>>, delay: u64)
    ensures
        items_view(final(agenda)@) == items_view(old(agenda)@) + pause_of(delay),
{
    if delay > 0 {
        proof {
            lemma_items_push(agenda@, Item::Pause(delay));
        }
        agenda.push(Item::Pause(delay));
        assert(items_view(agenda@) =~= items_view(old(agenda)@) + pause_of(delay));
    } else {
        assert(items_view(agenda@) =~= items_view(old(agenda)@) + pause_of(delay));
    }
}

/// The agenda that starts each service of a group, in order, and ends at
/// the first failure.
pub fn plan_starts<'a>(services: &'a Vec<Service>) -> (agenda: Vec<Item<'a>>)
    ensures
        items_view(agenda@) == starts(services@, Policy::Abort),
{
    let mut agenda: Vec<Item<'a>> = Vec::new();
    let mut i: usize = 0;
    while i < services.len()
        invariant
            i <= services@.len(),
            agenda@.len() == i,
            forall|j: int|
                0 <= j < i ==> (#[trigger] agenda@[j])@ == ItemView::Start(
                    services@[j].id@,
                    Policy::Abort,
                ),
        decreases services@.len() - i,
    {
        agenda.push(Item::Start(services[i].id.as_str(), Policy::Abort));
        i += 1;
    }
    assert(items_view(agenda@) =~= starts(services@, Policy::Abort));
    agenda
}

/// The agenda that stops each service of a group, in order, and ends at
/// the first failure.
pub fn plan_stops<'a>(services: &'a Vec<Service>) -> (agenda: Vec<Item<'a>>)
    ensures
        items_view(agenda@) == stops(services@),
{
    let mut agenda: Vec<Item<'a>> = Vec::new();
    let mut i: usize = 0;
    while i < services.len()
        invariant
            i <= services@.len(),
            agenda@.len() == i,
            forall|j: int| 0 <= j < i ==> (#[trigger] agenda@[j])@ == ItemView::Stop(services@[j].id@),
        decreases services@.len() - i,
    {
        agenda.push(Item::Stop(services[i].id.as_str()));
        i += 1;
    }
    assert(items_view(agenda@) =~= stops(services@));
    agenda
}

/// Appends what the sequential strategy makes of a group's services.
fn push_sequential<'a>(agenda: &mut Vec<Item<'a>>, services: &'a Vec<Service>)
    ensures
        items_view(final(agenda)@) == items_view(old(agenda)@) + sequential(
            services@,
            services@.len() as int,
        ),
{
    let ghost base = items_view(agenda@);
    let mut i: usize = 0;
    assert(items_view(agenda@) =~= base + sequential(services@, 0));
    while i < services.len()
        invariant
            i <= services@.len(),
            items_view(agenda@) == base + sequential(services@, i as int),
        decreases services@.len() - i,
    {
        let service = &services[i];
        let ghost before = items_view(agenda@);
        if service.auto_start {
            let item = Item::Start(service.id.as_str(), Policy::Ignore);
            proof {
                lemma_items_push(agenda@, item);
            }
            agenda.push(item);
            push_pause(agenda, service.startup_delay);
        }
        proof {
            assert(items_view(agenda@) =~= before + sequential_one(*service));
            assert(before + sequential_one(*service) =~= base + sequential(services@, i + 1));
        }
        i += 1;
    }
}

/// Appends what the parallel strategy makes of a group's services.
fn push_parallel<'a>(agenda: &mut Vec<Item<'a>>, services: &'a Vec<Service>)
    ensures
        items_view(final(agenda)@) == items_view(old(agenda)@) + parallel(
            services@,
            services@.len() as int,
        ),
{
    let ghost base = items_view(agenda@);
    let mut i: usize = 0;
    assert(items_view(agenda@) =~= base + parallel(services@, 0));
    while i < services.len()
        invariant
            i <= services@.len(),
            items_view(agenda@) == base + parallel(services@, i as int),
        decreases services@.len() - i,
    {
        let service = &services[i];
        let ghost before = items_view(agenda@);
        if service.auto_start {
            let item = Item::Start(service.id.as_str(), Policy::Ignore);
            proof {
                lemma_items_push(agenda@, item);
            }
            agenda.push(item);
        }
        proof {
            assert(items_view(agenda@) =~= before + parallel_one(*service));
            assert(before + parallel_one(*service) =~= base + parallel(services@, i + 1));
        }
        i += 1;
    }
}

/// Appends what the mixed strategy makes of a group's services.
fn push_mixed<'a>(agenda: &mut Vec<Item<'a>>, services: &'a Vec<Service>)
    ensures
        items_view(final(agenda)@) == items_view(old(agenda)@) + mixed(services@),
{
    let ghost base = items_view(agenda@);
    let plan = plan_waves(services);
    let ghost wanted = Seq::new(
        plan.order@.len(),
        |p: int| ItemView::Start(services@[plan.order@[p] as int].id@, Policy::Abort),
    );
    let mut p: usize = 0;
    assert(items_view(agenda@) =~= base + wanted.take(0));
    while p < plan.order.len()
        invariant
            p <= plan.order@.len(),
            in_range(services@, plan.order@),
            wanted == Seq::new(
                plan.order@.len(),
                |p: int| ItemView::Start(services@[plan.order@[p] as int].id@, Policy::Abort),
            ),
            items_view(agenda@) == base + wanted.take(p as int),
        decreases plan.order@.len() - p,
    {
        let place = plan.order[p];
        let item = Item::Start(services[place].id.as_str(), Policy::Abort);
        proof {
            lemma_items_push(agenda@, item);
            assert((base + wanted.take(p as int)).push(item@) =~= base + wanted.take(p + 1));
        }
        agenda.push(item);
        p += 1;
    }
    proof {
        assert(wanted.take(p as int) =~= wanted);
    }
    if plan.stuck {
        proof {
            lemma_items_push(agenda@, Item::Stuck);
        }
        agenda.push(Item::Stuck);
        assert(items_view(agenda@) =~= base + mixed(services@));
    } else {
        assert(items_view(agenda@) =~= base + mixed(services@));
    }
}

/// The agenda of a mixed start of one group.
pub fn plan_mixed<'a>(services: &'a Vec<Service>) -> (agenda: Vec<Item<'a>>)
    ensures
        items_view(agenda@) == mixed(services@),
{
    let mut agenda: Vec<Item<'a>> = Vec::new();
    assert(items_view(agenda@) =~= Seq::<ItemView>::empty());
    push_mixed(&mut agenda, services);
    assert(Seq::<ItemView>::empty() + mixed(services@) =~= mixed(services@));
    agenda
}

/// The agenda that starts everything in a snapshot.
pub fn plan_start_all<'a>(config: &'a Config) -> (agenda: Vec<Item<'a>>)
    ensures
        items_view(agenda@) == agenda_of(config.groups@, config.groups@.len() as int),
{
    let mut agenda: Vec<Item<'a>> = Vec::new();
    let mut g: usize = 0;
    assert(items_view(agenda@) =~= agenda_of(config.groups@, 0));
    while g < config.groups.len()
        invariant
            g <= config.groups@.len(),
            items_view(agenda@) == agenda_of(config.groups@, g as int),
        decreases config.groups@.len() - g,
    {
        let group = &config.groups[g];
        let ghost before = items_view(agenda@);
        match group.effective_strategy() {
            StartupStrategy::Sequential => {
                push_sequential(&mut agenda, &group.services);
            },
            StartupStrategy::Parallel => {
                push_parallel(&mut agenda, &group.services);
            },
            StartupStrategy::Mixed => {
                match find_group(&config.groups, group.id.as_str()) {
                    Some(source) => {
                        push_mixed(&mut agenda, &config.groups[source].services);
                    },
                    None => {
                        proof {
                            lemma_group_lookup(config.groups@, group.id@);
                        }
                    },
                }
            },
        }
        push_pause(&mut agenda, group.startup_delay);
        proof {
            assert(items_view(agenda@) =~= before + group_items(config.groups@, g as int));
        }
        g += 1;
    }
    agenda
}

} // verus!
