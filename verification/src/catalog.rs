//! The services of a snapshot as one list, in snapshot order, and lookup by
//! id in it.
//!
//! Dependencies may cross group boundaries, so a service id is resolved
//! against the whole snapshot: the service meant is the first one, in
//! snapshot order, that carries the id.

use crate::config::{Config, DependencyType, Service, ServiceGroup};
use vstd::prelude::*;

verus! {

/// One dependency of a service, whichever list declared it.
pub struct Edge<'a> {
    /// The id of the service depended on.
    pub target: &'a str,
    /// What the dependency means. An entry of the plain list is required.
    pub kind: DependencyType,
    /// Milliseconds to wait once a required dependency has been started.
    pub wait: Option<u64>,
}

impl Service {
    /// How many dependencies the service declares: those of the typed list
    /// where there is one, else those of the plain list.
    pub open spec fn edge_count(&self) -> int {
        match self.dependency_configs {
            Some(typed) => typed@.len() as int,
            None => self.dependencies@.len() as int,
        }
    }

    /// The id that the `k`-th dependency names.
    pub open spec fn edge_target(&self, k: int) -> Seq<char> {
        match self.dependency_configs {
            Some(typed) => typed@[k].service_id@,
            None => self.dependencies@[k]@,
        }
    }

    /// What the `k`-th dependency means.
    pub open spec fn edge_kind(&self, k: int) -> DependencyType {
        match self.dependency_configs {
            Some(typed) => typed@[k].kind,
            None => DependencyType::Required,
        }
    }

    /// The wait that the `k`-th dependency asks for.
    pub open spec fn edge_wait(&self, k: int) -> Option<u64> {
        match self.dependency_configs {
            Some(typed) => typed@[k].timeout,
            None => None,
        }
    }

    /// How many dependencies the service declares.
    pub fn count_edges(&self) -> (count: usize)
        ensures
            count == self.edge_count(),
    {
        match &self.dependency_configs {
            Some(typed) => typed.len(),
            None => self.dependencies.len(),
        }
    }

    /// The `k`-th dependency of the service.
    pub(crate) fn edge(&self, k: usize) -> (edge: Edge<'_>)
        requires
            k < self.edge_count(),
        ensures
            edge.target@ == self.edge_target(k as int),
            edge.kind == self.edge_kind(k as int),
            edge.wait == self.edge_wait(k as int),
    {
        match &self.dependency_configs {
            Some(typed) => Edge {
                target: typed[k].service_id.as_str(),
                kind: typed[k].kind,
                wait: typed[k].timeout,
            },
            None => Edge {
                target: self.dependencies[k].as_str(),
                kind: DependencyType::Required,
                wait: None,
            },
        }
    }
}

/// The services of the first `n` groups, in order.
pub open spec fn services_of(groups: Seq<ServiceGroup>, n: int) -> Seq<Service>
    decreases n,
{
    if n <= 0 {
        Seq::empty()
    } else {
        services_of(groups, n - 1) + groups[n - 1].services@
    }
}

/// Every service of a snapshot, in snapshot order.
pub open spec fn catalog_of(config: &Config) -> Seq<Service> {
    services_of(config.groups@, config.groups@.len() as int)
}

/// Whether the first `n` services of the catalog all carry another id.
pub open spec fn absent_before(catalog: Seq<Service>, id: Seq<char>, n: int) -> bool {
    forall|i: int| 0 <= i < n && i < catalog.len() ==> (#[trigger] catalog[i]).id@ != id
}

/// Whether `i` is the place of the first service that carries `id`.
pub open spec fn is_first(catalog: Seq<Service>, id: Seq<char>, i: int) -> bool {
    &&& 0 <= i < catalog.len()
    &&& catalog[i].id@ == id
    &&& absent_before(catalog, id, i)
}

/// The place of the service that `id` means: the first that carries it.
pub open spec fn lookup(catalog: Seq<Service>, id: Seq<char>) -> Option<int> {
    if exists|i: int| is_first(catalog, id, i) {
        Some(choose|i: int| is_first(catalog, id, i))
    } else {
        None
    }
}

/// There is one first place at most, so naming it decides the lookup.
pub proof fn lemma_lookup_found(catalog: Seq<Service>, id: Seq<char>, i: int)
    requires
        is_first(catalog, id, i),
    ensures
        lookup(catalog, id) == Some(i),
{
    let j = choose|j: int| is_first(catalog, id, j);
    if j < i {
        assert(catalog[j].id@ != id);
    } else if i < j {
        assert(catalog[i].id@ != id);
    }
}

/// Where no service carries the id, the lookup finds none.
pub proof fn lemma_lookup_absent(catalog: Seq<Service>, id: Seq<char>)
    requires
        absent_before(catalog, id, catalog.len() as int),
    ensures
        lookup(catalog, id) is None,
{
    if exists|i: int| is_first(catalog, id, i) {
        let i = choose|i: int| is_first(catalog, id, i);
        assert(catalog[i].id@ != id);
    }
}

/// What a lookup that finds a place says of it.
pub proof fn lemma_lookup_is_first(catalog: Seq<Service>, id: Seq<char>)
    ensures
        match lookup(catalog, id) {
            Some(i) => is_first(catalog, id, i),
            None => absent_before(catalog, id, catalog.len() as int),
        },
{
    if exists|i: int| is_first(catalog, id, i) {
    } else {
        lemma_no_first_means_absent(catalog, id, catalog.len() as int);
    }
}

/// Without a first place, no place carries the id.
proof fn lemma_no_first_means_absent(catalog: Seq<Service>, id: Seq<char>, n: int)
    requires
        !exists|i: int| is_first(catalog, id, i),
        0 <= n <= catalog.len(),
    ensures
        absent_before(catalog, id, n),
    decreases n,
{
    if n > 0 {
        lemma_no_first_means_absent(catalog, id, n - 1);
        if catalog[n - 1].id@ == id {
            assert(is_first(catalog, id, n - 1));
        }
    }
}

/// The services that a list of references points at.
pub open spec fn pointed_at(nodes: Seq<&Service>) -> Seq<Service> {
    Seq::new(nodes.len(), |i: int| *nodes[i])
}

/// Lists every service of a snapshot, in snapshot order.
pub fn flatten<'a>(config: &'a Config) -> (nodes: Vec<&'a Service>)
    ensures
        pointed_at(nodes@) == catalog_of(config),
{
    let mut nodes: Vec<&'a Service> = Vec::new();
    let mut g: usize = 0;
    assert(pointed_at(nodes@) =~= services_of(config.groups@, 0));
    while g < config.groups.len()
        invariant
            g <= config.groups@.len(),
            pointed_at(nodes@) == services_of(config.groups@, g as int),
        decreases config.groups@.len() - g,
    {
        let group = &config.groups[g];
        let ghost base = pointed_at(nodes@);
        let mut s: usize = 0;
        assert(pointed_at(nodes@) =~= base + group.services@.take(0));
        while s < group.services.len()
            invariant
                s <= group.services@.len(),
                pointed_at(nodes@) == base + group.services@.take(s as int),
            decreases group.services@.len() - s,
        {
            let ghost before = pointed_at(nodes@);
            nodes.push(&group.services[s]);
            proof {
                assert(pointed_at(nodes@) =~= before.push(group.services@[s as int]));
                assert(group.services@.take(s + 1) =~= group.services@.take(s as int).push(
                    group.services@[s as int],
                ));
                assert(before.push(group.services@[s as int]) =~= base + group.services@.take(s + 1));
            }
            s += 1;
        }
        proof {
            assert(group.services@.take(s as int) == group.services@);
        }
        g += 1;
    }
    nodes
}

/// Finds the service that `id` means among `nodes`.
pub fn find<'a>(nodes: &Vec<&'a Service>, id: &str) -> (found: Option<usize>)
    ensures
        match found {
            Some(i) => lookup(pointed_at(nodes@), id@) == Some(i as int) && i < nodes@.len(),
            None => lookup(pointed_at(nodes@), id@) is None,
        },
{
    let key = id.to_owned();
    let ghost catalog = pointed_at(nodes@);
    let mut i: usize = 0;
    while i < nodes.len()
        invariant
            i <= nodes@.len(),
            key@ == id@,
            catalog == pointed_at(nodes@),
            absent_before(catalog, id@, i as int),
        decreases nodes@.len() - i,
    {
        if nodes[i].id == key {
            proof {
                assert(catalog[i as int] == *nodes@[i as int]);
                lemma_lookup_found(catalog, id@, i as int);
            }
            return Some(i);
        }
        assert(catalog[i as int] == *nodes@[i as int]);
        i += 1;
    }
    proof {
        lemma_lookup_absent(catalog, id@);
    }
    None
}

/// Whether `g` is the place of the first group that carries `id`.
pub open spec fn is_first_group(groups: Seq<ServiceGroup>, id: Seq<char>, g: int) -> bool {
    &&& 0 <= g < groups.len()
    &&& groups[g].id@ == id
    &&& forall|earlier: int| 0 <= earlier < g ==> (#[trigger] groups[earlier]).id@ != id
}

/// The place of the group that `id` means: the first that carries it.
pub open spec fn group_lookup(groups: Seq<ServiceGroup>, id: Seq<char>) -> Option<int> {
    if exists|g: int| is_first_group(groups, id, g) {
        Some(choose|g: int| is_first_group(groups, id, g))
    } else {
        None
    }
}

/// What a group lookup says of the place it finds.
pub proof fn lemma_group_lookup(groups: Seq<ServiceGroup>, id: Seq<char>)
    ensures
        match group_lookup(groups, id) {
            Some(g) => is_first_group(groups, id, g),
            None => forall|g: int| 0 <= g < groups.len() ==> (#[trigger] groups[g]).id@ != id,
        },
{
    if !exists|g: int| is_first_group(groups, id, g) {
        lemma_no_first_group(groups, id, groups.len() as int);
    }
}

/// Without a first group, no group below `n` carries the id.
proof fn lemma_no_first_group(groups: Seq<ServiceGroup>, id: Seq<char>, n: int)
    requires
        !exists|g: int| is_first_group(groups, id, g),
        0 <= n <= groups.len(),
    ensures
        forall|g: int| 0 <= g < n ==> (#[trigger] groups[g]).id@ != id,
    decreases n,
{
    if n > 0 {
        lemma_no_first_group(groups, id, n - 1);
        if groups[n - 1].id@ == id {
            assert(is_first_group(groups, id, n - 1));
        }
    }
}

/// Finds the group that `id` means.
pub fn find_group(groups: &Vec<ServiceGroup>, id: &str) -> (found: Option<usize>)
    ensures
        match found {
            Some(g) => group_lookup(groups@, id@) == Some(g as int) && g < groups@.len(),
            None => group_lookup(groups@, id@) is None,
        },
{
    let key = id.to_owned();
    let mut g: usize = 0;
    while g < groups.len()
        invariant
            g <= groups@.len(),
            key@ == id@,
            forall|earlier: int| 0 <= earlier < g ==> (#[trigger] groups@[earlier]).id@ != id@,
        decreases groups@.len() - g,
    {
        if groups[g].id == key {
            proof {
                assert(is_first_group(groups@, id@, g as int));
                let other = choose|other: int| is_first_group(groups@, id@, other);
                if other < g {
                    assert(groups@[other].id@ != id@);
                } else if g < other {
                    assert(groups@[g as int].id@ != id@);
                }
            }
            return Some(g);
        }
        g += 1;
    }
    proof {
        if exists|g: int| is_first_group(groups@, id@, g) {
            let at = choose|g: int| is_first_group(groups@, id@, g);
            assert(groups@[at].id@ != id@);
        }
    }
    None
}

} // verus!
