//! The orchestrator: holds the snapshot in force and turns a command into a
//! run, a sequence of process commands that respects the dependencies.

use crate::catalog::{catalog_of, find, find_group, flatten, group_lookup, lookup, pointed_at};
use crate::config::{Config, Service, ServiceGroup};
use crate::cycles::{check_nodes, check_of, cyclic, dangling, has_dangling};
use crate::machine::{drive, ItemView, Machine, Policy, Signal};
use crate::plan::{
    agenda_of, mixed, plan_mixed, plan_start_all, plan_starts, plan_stops, starts, stops,
};
use crate::process::{ProcessError, ProcessErrorView};
use crate::run::{items_view, verdict, Item, Run};
use vstd::prelude::*;
use vstd::std_specs::convert::FromSpecImpl;
use vstd::string::StringExecFns;

verus! {

/// Why an orchestrator command failed.
#[derive(Debug, Clone, PartialEq, Eq)]
pub enum OrchestratorError {
    /// The process manager refused a command.
    ProcessError(ProcessError),
    /// The snapshot has no service of that id.
    TaskNotFound(String),
    /// The snapshot has no group of that id.
    GroupNotFound(String),
    /// The dependencies cannot be ordered.
    CircularDependency,
    /// The first service cannot start while the second is live.
    ConflictingService(String, String),
}

/// An orchestrator error with its texts as character sequences.
pub enum OrchestratorErrorView {
    /// The process manager refused a command.
    ProcessError(ProcessErrorView),
    /// The snapshot has no service of that id.
    TaskNotFound(Seq<char>),
    /// The snapshot has no group of that id.
    GroupNotFound(Seq<char>),
    /// The dependencies cannot be ordered.
    CircularDependency,
    /// The first service cannot start while the second is live.
    ConflictingService(Seq<char>, Seq<char>),
}

impl View for OrchestratorError {
    type V = OrchestratorErrorView;

    open spec fn view(&self) -> OrchestratorErrorView {
        match self {
            OrchestratorError::ProcessError(e) => OrchestratorErrorView::ProcessError(e@),
            OrchestratorError::TaskNotFound(id) => OrchestratorErrorView::TaskNotFound(id@),
            OrchestratorError::GroupNotFound(id) => OrchestratorErrorView::GroupNotFound(id@),
            OrchestratorError::CircularDependency => OrchestratorErrorView::CircularDependency,
            OrchestratorError::ConflictingService(requester, blocker) => {
                OrchestratorErrorView::ConflictingService(requester@, blocker@)
            },
        }
    }
}

impl OrchestratorErrorView {
    /// The text that describes the error.
    pub open spec fn message(self) -> Seq<char> {
        match self {
            OrchestratorErrorView::ProcessError(e) => "Process error: "@ + e.message(),
            OrchestratorErrorView::TaskNotFound(id) => "Task not found: "@ + id,
            OrchestratorErrorView::GroupNotFound(id) => "Group not found: "@ + id,
            OrchestratorErrorView::CircularDependency => "Circular dependency detected"@,
            OrchestratorErrorView::ConflictingService(requester, blocker) => {
                "Conflicting service: "@ + requester + " conflicts with "@ + blocker
            },
        }
    }
}

impl OrchestratorError {
    /// The text that describes the error.
    pub fn to_string(&self) -> (text: String)
        ensures
            text@ == self@.message(),
    {
        match self {
            OrchestratorError::ProcessError(e) => {
                let inner = e.to_string();
                String::from_str("Process error: ").concat(inner.as_str())
            },
            OrchestratorError::TaskNotFound(id) => {
                String::from_str("Task not found: ").concat(id.as_str())
            },
            OrchestratorError::GroupNotFound(id) => {
                String::from_str("Group not found: ").concat(id.as_str())
            },
            OrchestratorError::CircularDependency => String::from_str(
                "Circular dependency detected",
            ),
            OrchestratorError::ConflictingService(requester, blocker) => {
                String::from_str("Conflicting service: ").concat(requester.as_str()).concat(
                    " conflicts with ",
                ).concat(blocker.as_str())
            },
        }
    }

    /// A copy of the error.
    pub fn duplicate(&self) -> (copy: Self)
        ensures
            copy == *self,
    {
        match self {
            OrchestratorError::ProcessError(e) => OrchestratorError::ProcessError(
                match e {
                    ProcessError::StartError(reason) => ProcessError::StartError(reason.clone()),
                    ProcessError::NotFound => ProcessError::NotFound,
                    ProcessError::KillError(reason) => ProcessError::KillError(reason.clone()),
                },
            ),
            OrchestratorError::TaskNotFound(id) => OrchestratorError::TaskNotFound(id.clone()),
            OrchestratorError::GroupNotFound(id) => OrchestratorError::GroupNotFound(id.clone()),
            OrchestratorError::CircularDependency => OrchestratorError::CircularDependency,
            OrchestratorError::ConflictingService(requester, blocker) => {
                OrchestratorError::ConflictingService(requester.clone(), blocker.clone())
            },
        }
    }
}

impl From<ProcessError> for OrchestratorError {
    fn from(e: ProcessError) -> (wrapped: Self) {
        OrchestratorError::ProcessError(e)
    }
}

impl FromSpecImpl<ProcessError> for OrchestratorError {
    open spec fn obeys_from_spec() -> bool {
        true
    }

    open spec fn from_spec(e: ProcessError) -> Self {
        OrchestratorError::ProcessError(e)
    }
}

/// Holds the snapshot in force and opens a run for each command.
///
/// The snapshot is replaced only by `set_config` and `start_all`. A run
/// borrows it, so it cannot change while the run lasts.
pub struct Orchestrator {
    config: Option<Config>,
}

impl Orchestrator {
    /// The snapshot held.
    pub closed spec fn held(&self) -> Option<Config> {
        self.config
    }

    /// The services of the snapshot held, in snapshot order. Without a
    /// snapshot there are none.
    pub open spec fn catalog(&self) -> Seq<Service> {
        match self.held() {
            Some(config) => catalog_of(&config),
            None => Seq::empty(),
        }
    }

    /// The groups of the snapshot held.
    pub open spec fn groups(&self) -> Seq<ServiceGroup> {
        match self.held() {
            Some(config) => config.groups@,
            None => Seq::empty(),
        }
    }

    /// An orchestrator without a snapshot.
    pub fn new() -> (orchestrator: Self)
        ensures
            orchestrator.held() is None,
    {
        Orchestrator { config: None }
    }

    /// Replaces the snapshot held.
    pub fn set_config(&mut self, config: Config)
        ensures
            final(self).held() == Some(config),
    {
        self.config = Some(config);
    }

    /// The snapshot held.
    pub fn config(&self) -> (config: Option<&Config>)
        ensures
            match config {
                Some(held) => self.held() == Some(*held),
                None => self.held() is None,
            },
    {
        self.config.as_ref()
    }

    /// The services of the snapshot held, in snapshot order.
    pub fn services<'a>(&'a self) -> (nodes: Vec<&'a Service>)
        ensures
            pointed_at(nodes@) == self.catalog(),
    {
        match &self.config {
            Some(config) => flatten(config),
            None => {
                let nodes: Vec<&'a Service> = Vec::new();
                assert(pointed_at(nodes@) =~= Seq::<Service>::empty());
                nodes
            },
        }
    }

    /// The service that `task_id` means: the first of the snapshot that
    /// carries it. Without one, and without a snapshot, the task is not
    /// found.
    pub fn find_task<'a>(&'a self, task_id: &str) -> (found: Result<&'a Service, OrchestratorError>)
        ensures
            match lookup(self.catalog(), task_id@) {
                Some(i) => found == Ok::<&Service, OrchestratorError>(&self.catalog()[i]),
                None => found is Err && found->Err_0@ == OrchestratorErrorView::TaskNotFound(
                    task_id@,
                ),
            },
    {
        let nodes = self.services();
        match find(&nodes, task_id) {
            Some(i) => {
                assert(self.catalog()[i as int] == *nodes@[i as int]);
                Ok(nodes[i])
            },
            None => Err(OrchestratorError::TaskNotFound(task_id.to_owned())),
        }
    }

    /// Opens the run that starts one service, dependencies first.
    ///
    /// The run ends with the first failure: a service or a dependency that
    /// the snapshot lacks, a live conflicting service, a required
    /// dependency that failed, or a spawn that failed.
    pub fn start_task<'a>(&'a self, task_id: &'a str) -> (run: Run<'a>)
        ensures
            run.wf(),
            run.catalog() == self.catalog(),
            run@ == drive(
                self.catalog(),
                Machine::fresh(seq![ItemView::Start(task_id@, Policy::Abort)]),
                Signal::Resume,
            ),
    {
        let mut agenda: Vec<Item<'a>> = Vec::new();
        agenda.push(Item::Start(task_id, Policy::Abort));
        assert(items_view(agenda@) =~= seq![ItemView::Start(task_id@, Policy::Abort)]);
        Run::new(self.services(), agenda)
    }

    /// Opens the run that stops one service.
    pub fn stop_task<'a>(&'a self, task_id: &'a str) -> (run: Run<'a>)
        ensures
            run.wf(),
            run.catalog() == self.catalog(),
            run@ == drive(
                self.catalog(),
                Machine::fresh(seq![ItemView::Stop(task_id@)]),
                Signal::Resume,
            ),
    {
        let mut agenda: Vec<Item<'a>> = Vec::new();
        agenda.push(Item::Stop(task_id));
        assert(items_view(agenda@) =~= seq![ItemView::Stop(task_id@)]);
        Run::new(self.services(), agenda)
    }

    /// Opens the run that restarts one service with the launch parameters
    /// of the snapshot. Its dependencies are left alone. A service that the
    /// snapshot lacks is not found.
    pub fn restart_task<'a>(&'a self, task_id: &str) -> (run: Run<'a>)
        ensures
            run.wf(),
            run.catalog() == self.catalog(),
            run@ == match lookup(self.catalog(), task_id@) {
                Some(i) => drive(
                    self.catalog(),
                    Machine::fresh(seq![ItemView::Restart(self.catalog()[i])]),
                    Signal::Resume,
                ),
                None => Machine::failed(OrchestratorErrorView::TaskNotFound(task_id@)),
            },
    {
        let nodes = self.services();
        match find(&nodes, task_id) {
            Some(i) => {
                let service: &'a Service = nodes[i];
                let mut agenda: Vec<Item<'a>> = Vec::new();
                agenda.push(Item::Restart(service));
                proof {
                    assert(self.catalog()[i as int] == *service);
                    assert(items_view(agenda@) =~= seq![ItemView::Restart(self.catalog()[i as int])]);
                }
                Run::new(nodes, agenda)
            },
            None => Run::failed(nodes, OrchestratorError::TaskNotFound(task_id.to_owned())),
        }
    }

    /// Opens the run that starts every service of a group, in order, and
    /// ends at the first failure. A group that the snapshot lacks is not
    /// found.
    pub fn start_group<'a>(&'a self, group_id: &str) -> (run: Run<'a>)
        ensures
            run.wf(),
            run.catalog() == self.catalog(),
            run@ == match group_lookup(self.groups(), group_id@) {
                Some(g) => drive(
                    self.catalog(),
                    Machine::fresh(starts(self.groups()[g].services@, Policy::Abort)),
                    Signal::Resume,
                ),
                None => Machine::failed(OrchestratorErrorView::GroupNotFound(group_id@)),
            },
    {
        let nodes = self.services();
        match &self.config {
            Some(config) => match find_group(&config.groups, group_id) {
                Some(g) => Run::new(nodes, plan_starts(&config.groups[g].services)),
                None => Run::failed(nodes, OrchestratorError::GroupNotFound(group_id.to_owned())),
            },
            None => {
                proof {
                    crate::catalog::lemma_group_lookup(self.groups(), group_id@);
                }
                Run::failed(nodes, OrchestratorError::GroupNotFound(group_id.to_owned()))
            },
        }
    }

    /// Opens the run that stops every service of a group, in order, and
    /// ends at the first failure. A group that the snapshot lacks is not
    /// found.
    pub fn stop_group<'a>(&'a self, group_id: &str) -> (run: Run<'a>)
        ensures
            run.wf(),
            run.catalog() == self.catalog(),
            run@ == match group_lookup(self.groups(), group_id@) {
                Some(g) => drive(
                    self.catalog(),
                    Machine::fresh(stops(self.groups()[g].services@)),
                    Signal::Resume,
                ),
                None => Machine::failed(OrchestratorErrorView::GroupNotFound(group_id@)),
            },
    {
        let nodes = self.services();
        match &self.config {
            Some(config) => match find_group(&config.groups, group_id) {
                Some(g) => Run::new(nodes, plan_stops(&config.groups[g].services)),
                None => Run::failed(nodes, OrchestratorError::GroupNotFound(group_id.to_owned())),
            },
            None => {
                proof {
                    crate::catalog::lemma_group_lookup(self.groups(), group_id@);
                }
                Run::failed(nodes, OrchestratorError::GroupNotFound(group_id.to_owned()))
            },
        }
    }

    /// Opens the run that starts a group under the mixed strategy: the
    /// services of its plan, in plan order, ending at the first failure,
    /// and with a circular-dependency error after them if the plan is
    /// stuck. A group that the snapshot lacks is not found.
    pub fn start_group_mixed<'a>(&'a self, group_id: &str) -> (run: Run<'a>)
        ensures
            run.wf(),
            run.catalog() == self.catalog(),
            run@ == match group_lookup(self.groups(), group_id@) {
                Some(g) => drive(
                    self.catalog(),
                    Machine::fresh(mixed(self.groups()[g].services@)),
                    Signal::Resume,
                ),
                None => Machine::failed(OrchestratorErrorView::GroupNotFound(group_id@)),
            },
    {
        let nodes = self.services();
        match &self.config {
            Some(config) => match find_group(&config.groups, group_id) {
                Some(g) => Run::new(nodes, plan_mixed(&config.groups[g].services)),
                None => Run::failed(nodes, OrchestratorError::GroupNotFound(group_id.to_owned())),
            },
            None => {
                proof {
                    crate::catalog::lemma_group_lookup(self.groups(), group_id@);
                }
                Run::failed(nodes, OrchestratorError::GroupNotFound(group_id.to_owned()))
            },
        }
    }

    /// Opens the run that stops every service of the snapshot, in snapshot
    /// order, and ends at the first failure; what has been stopped by then
    /// stays stopped. Without a snapshot there is no run.
    pub fn stop_all_tasks<'a>(&'a self) -> (run: Option<Run<'a>>)
        ensures
            match run {
                Some(opened) => {
                    &&& self.held() is Some
                    &&& opened.wf()
                    &&& opened.catalog() == self.catalog()
                    &&& opened@ == drive(
                        self.catalog(),
                        Machine::fresh(stops(self.catalog())),
                        Signal::Resume,
                    )
                },
                None => self.held() is None,
            },
    {
        match &self.config {
            Some(_) => {
                let nodes = self.services();
                let mut agenda: Vec<Item<'a>> = Vec::new();
                let mut i: usize = 0;
                while i < nodes.len()
                    invariant
                        i <= nodes@.len(),
                        agenda@.len() == i,
                        forall|j: int|
                            0 <= j < i ==> (#[trigger] agenda@[j])@ == ItemView::Stop(nodes@[j].id@),
                    decreases nodes@.len() - i,
                {
                    agenda.push(Item::Stop(nodes[i].id.as_str()));
                    i += 1;
                }
                proof {
                    assert(items_view(agenda@) =~= stops(pointed_at(nodes@)));
                }
                Some(Run::new(nodes, agenda))
            },
            None => None,
        }
    }

    /// Checks that the plain dependency lists of the snapshot held can be
    /// ordered.
    ///
    /// The check passes just when every plain dependency of a service that
    /// counts names a service and no cycle runs through the plain
    /// dependencies. Where it fails, the error is what the walk over the
    /// snapshot meets first.
    pub fn check_dependencies(&self) -> (checked: Result<(), OrchestratorError>)
        ensures
            verdict(checked) == check_of(self.catalog()),
            checked is Ok <==> !cyclic(self.catalog()) && !has_dangling(self.catalog()),
            checked is Err ==> match checked->Err_0@ {
                OrchestratorErrorView::CircularDependency => cyclic(self.catalog()),
                OrchestratorErrorView::TaskNotFound(id) => dangling(self.catalog(), id),
                _ => false,
            },
    {
        let nodes = self.services();
        check_nodes(&nodes)
    }

    /// Takes `config` as the snapshot in force and opens the run that
    /// starts everything in it.
    ///
    /// The plain dependency lists are checked first. Where the check fails
    /// the run is over before anything is started, with the check's error:
    /// a circular dependency where there is a cycle, or the id that names
    /// no service. Otherwise the run works through the groups in snapshot
    /// order, each by its strategy.
    pub fn start_all<'a>(&'a mut self, config: Config) -> (run: Run<'a>)
        ensures
            final(self).held() == Some(config),
            run.wf(),
            run.catalog() == catalog_of(&config),
            run@ == start_all_of(config),
            check_of(catalog_of(&config)) is Ok <==> !cyclic(catalog_of(&config)) && !has_dangling(
                catalog_of(&config),
            ),
            match check_of(catalog_of(&config)) {
                Ok(()) => true,
                Err(OrchestratorErrorView::CircularDependency) => cyclic(catalog_of(&config)),
                Err(OrchestratorErrorView::TaskNotFound(id)) => dangling(catalog_of(&config), id),
                Err(_) => false,
            },
    {
        self.config = Some(config);
        let this: &'a Orchestrator = self;
        this.start_held()
    }

    /// Opens the run that starts everything in the snapshot held.
    fn start_held<'a>(&'a self) -> (run: Run<'a>)
        requires
            self.held() is Some,
        ensures
            run.wf(),
            run.catalog() == self.catalog(),
            run@ == start_all_of(self.held()->Some_0),
            check_of(self.catalog()) is Ok <==> !cyclic(self.catalog()) && !has_dangling(
                self.catalog(),
            ),
            match check_of(self.catalog()) {
                Ok(()) => true,
                Err(OrchestratorErrorView::CircularDependency) => cyclic(self.catalog()),
                Err(OrchestratorErrorView::TaskNotFound(id)) => dangling(self.catalog(), id),
                Err(_) => false,
            },
    {
        let nodes = self.services();
        match &self.config {
            Some(config) => match check_nodes(&nodes) {
                Ok(()) => Run::new(nodes, plan_start_all(config)),
                Err(error) => Run::failed(nodes, error),
            },
            None => Run::failed(nodes, OrchestratorError::CircularDependency),
        }
    }
}

/// The run that starting everything in `config` opens: over before it
/// began where the check of the plain dependencies fails, with the check's
/// error; else at the first thing that the agenda of the snapshot asks for.
pub open spec fn start_all_of(config: Config) -> Machine {
    match check_of(catalog_of(&config)) {
        Ok(()) => drive(
            catalog_of(&config),
            Machine::fresh(agenda_of(config.groups@, config.groups@.len() as int)),
            Signal::Resume,
        ),
        Err(error) => Machine::failed(error),
    }
}

} // verus!
