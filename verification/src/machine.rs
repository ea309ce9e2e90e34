//! The model of a run: a machine that works through an agenda of top-level
//! items and, for each service to be started, through that service's
//! dependencies.
//!
//! The machine never acts. In every state it asks for one thing, and
//! [`step`] says where it goes when the answer comes. Its journal records
//! what has returned and what has been launched, so that what holds of every
//! run can be stated of the journal.

use crate::catalog::{lemma_lookup_is_first, lookup};
use crate::config::{DependencyType, Service};
use crate::orchestrator::OrchestratorErrorView;
use crate::process::ProcessErrorView;
use vstd::prelude::*;

verus! {

/// What a failed start does to the batch it belongs to.
#[derive(Debug, Clone, Copy, PartialEq, Eq, Structural)]
pub enum Policy {
    /// The batch ends with the failure.
    Abort,
    /// The failure is dropped and the batch goes on.
    Ignore,
}

/// An item with its id as a character sequence.
pub enum ItemView {
    /// Start the service of this id, dependencies first.
    Start(Seq<char>, Policy),
    /// Block for this many milliseconds.
    Pause(u64),
    /// Stop the service of this id.
    Stop(Seq<char>),
    /// Restart this service.
    Restart(Service),
    /// End the run with a circular-dependency error.
    Stuck,
}

/// A frame of the model: the service, and how many of its dependencies
/// have been dealt with.
pub struct FrameView {
    pub service: Service,
    pub next: int,
}

/// What a run is waiting to hear of.
#[derive(Debug, Clone, Copy, PartialEq, Eq, Structural)]
pub enum Waiting {
    /// Whether the service on top of the stack is live already.
    Entry,
    /// Whether the service that the top's next dependency conflicts with is
    /// live.
    Conflict,
    /// The end of the wait that follows a required dependency.
    Settle,
    /// The outcome of spawning the service on top of the stack.
    Launch,
    /// The end of a pause of the agenda.
    Pace,
    /// The outcome of a stop of the agenda.
    Halt,
    /// The outcome of a restart of the agenda.
    Relaunch,
    /// Nothing: the run is over.
    Over,
}

/// An entry of the journal of a run.
pub enum Record {
    /// A start of the service of this id has returned, with success or not.
    Returned(Seq<char>, bool),
    /// The spawn of this service has been asked for.
    Spawn(Service),
}

/// An action over character sequences.
pub enum ActionView {
    /// Say whether the service of this id is live.
    Probe(Seq<char>),
    /// Block for this many milliseconds.
    Pause(u64),
    /// Spawn this service's process.
    Launch(Service),
    /// Stop the service of this id.
    Halt(Seq<char>),
    /// Stop this service if it runs and spawn it again.
    Relaunch(Service),
    /// Nothing more: the command has ended with this result.
    Finish(Result<(), OrchestratorErrorView>),
}

/// An event over character sequences.
pub enum EventView {
    /// The answer to a probe.
    Alive(bool),
    /// A pause has ended.
    Elapsed,
    /// What the process manager made of a launch, a stop or a restart.
    Outcome(Result<(), ProcessErrorView>),
}

/// What makes a machine go on: it picks up where it stands, or a start that
/// it asked for has returned.
pub enum Signal {
    /// Pick up where the machine stands.
    Resume,
    /// The start of the service of this id has returned this result.
    Return(Seq<char>, Result<(), OrchestratorErrorView>),
}

impl Signal {
    /// A return is dealt with before the machine picks up again.
    pub open spec fn rank(self) -> int {
        match self {
            Signal::Resume => 1,
            Signal::Return(_, _) => 0,
        }
    }
}

/// The model of a run.
#[verifier::ext_equal]
pub struct Machine {
    /// The top-level items, in order.
    pub agenda: Seq<ItemView>,
    /// The place of the item being worked on.
    pub cursor: int,
    /// The services whose start is under way, the outermost first. Each but
    /// the last waits for the one above it, which its next dependency named.
    pub stack: Seq<FrameView>,
    /// What the caller has been asked for.
    pub waiting: Waiting,
    /// The result, once the run is over.
    pub outcome: Option<Result<(), OrchestratorErrorView>>,
    /// What has returned and what has been launched, in order.
    pub journal: Seq<Record>,
}

/// Whether a start of the service of this id has returned with success.
pub open spec fn credited(journal: Seq<Record>, id: Seq<char>) -> bool {
    exists|j: int| 0 <= j < journal.len() && #[trigger] journal[j] == Record::Returned(id, true)
}

/// Whether every required dependency among the first `upto` of a service
/// has been started with success.
pub open spec fn paid(journal: Seq<Record>, service: Service, upto: int) -> bool {
    forall|k: int|
        0 <= k < upto && k < service.edge_count() && #[trigger] service.edge_kind(k)
            == DependencyType::Required ==> credited(journal, service.edge_target(k))
}

/// Whether the journal's entry at `i`, if it is a spawn, comes after a
/// successful start of each of that service's required dependencies.
pub open spec fn justified(journal: Seq<Record>, i: int) -> bool {
    match journal[i] {
        Record::Spawn(service) => paid(journal.take(i), service, service.edge_count()),
        Record::Returned(_, _) => true,
    }
}

impl FrameView {
    /// Whether the frame has a dependency left to deal with.
    pub open spec fn open_edge(self) -> bool {
        0 <= self.next < self.service.edge_count()
    }

    /// What the frame's next dependency means.
    pub open spec fn kind(self) -> DependencyType {
        self.service.edge_kind(self.next)
    }

    /// The id that the frame's next dependency names.
    pub open spec fn target(self) -> Seq<char> {
        self.service.edge_target(self.next)
    }

    /// The wait that the frame's next dependency asks for.
    pub open spec fn wait(self) -> Option<u64> {
        self.service.edge_wait(self.next)
    }

    /// Whether this frame waits for the start of `callee`, which its next
    /// dependency names.
    pub open spec fn awaits(self, callee: Seq<char>) -> bool {
        &&& self.open_edge()
        &&& self.kind() != DependencyType::Conflict
        &&& self.target() == callee
    }
}

impl Machine {
    /// A machine that has not begun on its agenda.
    pub open spec fn fresh(agenda: Seq<ItemView>) -> Machine {
        Machine {
            agenda,
            cursor: 0,
            stack: Seq::empty(),
            waiting: Waiting::Over,
            outcome: None,
            journal: Seq::empty(),
        }
    }

    /// A machine that is over before it began, with this error.
    pub open spec fn failed(error: OrchestratorErrorView) -> Machine {
        Machine {
            agenda: Seq::empty(),
            cursor: 0,
            stack: Seq::empty(),
            waiting: Waiting::Over,
            outcome: Some(Err(error)),
            journal: Seq::empty(),
        }
    }

    /// The innermost service whose start is under way.
    pub open spec fn top(self) -> FrameView {
        self.stack.last()
    }

    /// The top frame leaves the stack.
    pub open spec fn pop(self) -> Machine {
        Machine { stack: self.stack.drop_last(), ..self }
    }

    /// A frame for `service` comes on top of the stack.
    pub open spec fn push(self, service: Service) -> Machine {
        Machine { stack: self.stack.push(FrameView { service, next: 0 }), ..self }
    }

    /// The top frame moves on to its next dependency.
    pub open spec fn bump(self) -> Machine {
        Machine {
            stack: self.stack.drop_last().push(
                FrameView { service: self.top().service, next: self.top().next + 1 },
            ),
            ..self
        }
    }

    /// The agenda moves on to its next item.
    pub open spec fn advance(self) -> Machine {
        Machine { cursor: self.cursor + 1, ..self }
    }

    /// The journal takes one more entry.
    pub open spec fn log(self, record: Record) -> Machine {
        Machine { journal: self.journal.push(record), ..self }
    }

    /// The machine comes to rest, waiting for this.
    pub open spec fn wait(self, waiting: Waiting) -> Machine {
        Machine { waiting, ..self }
    }

    /// The run is over, with this result.
    pub open spec fn finish(self, result: Result<(), OrchestratorErrorView>) -> Machine {
        Machine { waiting: Waiting::Over, outcome: Some(result), ..self }
    }

    /// How many dependencies the top frame has left.
    pub open spec fn remaining(self) -> int {
        if self.stack.len() > 0 && self.top().open_edge() {
            self.top().service.edge_count() - self.top().next
        } else {
            0
        }
    }

    /// Whether the agenda has an item left to work on.
    pub open spec fn at_item(self) -> bool {
        0 <= self.cursor < self.agenda.len()
    }

    /// The item being worked on.
    pub open spec fn item(self) -> ItemView {
        self.agenda[self.cursor]
    }

    /// What the machine asks for in the state it is in.
    pub open spec fn action(self) -> ActionView {
        match self.waiting {
            Waiting::Entry => ActionView::Probe(self.top().service.id@),
            Waiting::Conflict => ActionView::Probe(self.top().target()),
            Waiting::Settle => ActionView::Pause(self.top().wait()->Some_0),
            Waiting::Launch => ActionView::Launch(self.top().service),
            Waiting::Pace => ActionView::Pause(self.item()->Pause_0),
            Waiting::Halt => ActionView::Halt(self.item()->Stop_0),
            Waiting::Relaunch => ActionView::Relaunch(self.item()->Restart_0),
            Waiting::Over => ActionView::Finish(self.outcome->Some_0),
        }
    }

    /// Whether the stack hangs together: the agenda's item started the
    /// outermost service, and each frame waits for the one above it.
    #[verifier::opaque]
    pub open spec fn chained(self) -> bool {
        &&& 0 <= self.cursor <= self.agenda.len()
        &&& self.stack.len() > 0 ==> self.at_item() && self.item() is Start
            && self.stack[0].service.id@ == self.item()->Start_0
        &&& forall|d: int|
            0 <= d < self.stack.len() - 1 ==> (#[trigger] self.stack[d]).awaits(
                self.stack[d + 1].service.id@,
            )
        &&& forall|d: int|
            0 <= d < self.stack.len() ==> 0 <= (#[trigger] self.stack[d]).next
                <= self.stack[d].service.edge_count()
    }

    /// Whether the journal bears out the position reached: every spawn in it
    /// is justified, and every frame has been paid up to where it stands.
    #[verifier::opaque]
    pub open spec fn sound(self) -> bool {
        &&& forall|i: int| 0 <= i < self.journal.len() ==> #[trigger] justified(self.journal, i)
        &&& forall|d: int|
            0 <= d < self.stack.len() ==> paid(
                self.journal,
                (#[trigger] self.stack[d]).service,
                self.stack[d].next,
            )
    }

    /// Whether the machine may take this signal.
    pub open spec fn ready(self, signal: Signal) -> bool {
        &&& self.chained()
        &&& self.sound()
        &&& match signal {
            Signal::Resume => true,
            Signal::Return(callee, _) => if self.stack.len() == 0 {
                self.at_item() && self.item() is Start && self.item()->Start_0 == callee
            } else {
                self.top().awaits(callee)
            },
        }
    }

    /// Whether the machine is well formed: it hangs together, its journal
    /// bears it out, and what it waits for fits where it stands.
    pub open spec fn wf(self) -> bool {
        &&& self.chained()
        &&& self.sound()
        &&& match self.waiting {
            Waiting::Entry => self.stack.len() > 0 && self.top().next == 0,
            Waiting::Conflict => self.stack.len() > 0 && self.top().open_edge()
                && self.top().kind() == DependencyType::Conflict,
            Waiting::Settle => self.stack.len() > 0 && self.top().open_edge() && self.top().kind()
                == DependencyType::Required && self.top().wait() is Some && credited(
                self.journal,
                self.top().target(),
            ),
            Waiting::Launch => self.stack.len() > 0 && self.top().next
                == self.top().service.edge_count() && self.journal.len() > 0
                && self.journal.last() == Record::Spawn(self.top().service),
            Waiting::Pace => self.stack.len() == 0 && self.at_item() && self.item() is Pause,
            Waiting::Halt => self.stack.len() == 0 && self.at_item() && self.item() is Stop,
            Waiting::Relaunch => self.stack.len() == 0 && self.at_item() && self.item() is Restart,
            Waiting::Over => self.stack.len() == 0 && self.outcome is Some,
        }
    }
}

/// The machine after a start of `id` has been entered: the service that the
/// id means comes on top of the stack and is probed. Where the catalog has
/// no such service there is nothing to enter.
pub open spec fn enter(catalog: Seq<Service>, m: Machine, id: Seq<char>) -> Option<Machine> {
    match lookup(catalog, id) {
        Some(i) => Some(m.push(catalog[i]).wait(Waiting::Entry)),
        None => None,
    }
}

/// Where the machine comes to rest after a signal: the state in which it
/// next asks its caller for something.
///
/// A returned start is entered in the journal and handed to whoever asked
/// for it. The agenda drops or obeys a failure as the item's policy says.
/// A frame passes the failure of a required dependency on to its own
/// caller; after a success it waits where the dependency asks for a wait;
/// otherwise it moves on. Picking up, the agenda works on its item and a
/// frame on its next dependency: a conflict is probed, any other is
/// started. A frame with no dependency left asks for its own launch.
pub open spec fn drive(catalog: Seq<Service>, m: Machine, signal: Signal) -> Machine
    decreases m.agenda.len() - m.cursor, m.stack.len(), m.remaining(), signal.rank(),
{
    match signal {
        Signal::Return(callee, result) => {
            let logged = m.log(Record::Returned(callee, result is Ok));
            if m.stack.len() == 0 {
                if m.at_item() {
                    if m.item() matches ItemView::Start(_, Policy::Abort) && result is Err {
                        logged.finish(result)
                    } else {
                        drive(catalog, logged.advance(), Signal::Resume)
                    }
                } else {
                    logged.finish(result)
                }
            } else if m.top().open_edge() {
                if m.top().kind() == DependencyType::Required {
                    if result is Err {
                        drive(catalog, logged.pop(), Signal::Return(m.top().service.id@, result))
                    } else if m.top().wait() is Some {
                        logged.wait(Waiting::Settle)
                    } else {
                        drive(catalog, logged.bump(), Signal::Resume)
                    }
                } else {
                    drive(catalog, logged.bump(), Signal::Resume)
                }
            } else {
                drive(catalog, logged.pop(), Signal::Return(m.top().service.id@, result))
            }
        },
        Signal::Resume => {
            if m.stack.len() == 0 {
                if m.at_item() {
                    match m.item() {
                        ItemView::Start(id, _) => match enter(catalog, m, id) {
                            Some(entered) => entered,
                            None => drive(
                                catalog,
                                m,
                                Signal::Return(id, Err(OrchestratorErrorView::TaskNotFound(id))),
                            ),
                        },
                        ItemView::Pause(_) => m.wait(Waiting::Pace),
                        ItemView::Stop(_) => m.wait(Waiting::Halt),
                        ItemView::Restart(_) => m.wait(Waiting::Relaunch),
                        ItemView::Stuck => m.finish(
                            Err(OrchestratorErrorView::CircularDependency),
                        ),
                    }
                } else {
                    m.finish(Ok(()))
                }
            } else if m.top().open_edge() {
                if m.top().kind() == DependencyType::Conflict {
                    m.wait(Waiting::Conflict)
                } else {
                    match enter(catalog, m, m.top().target()) {
                        Some(entered) => entered,
                        None => drive(
                            catalog,
                            m,
                            Signal::Return(
                                m.top().target(),
                                Err(OrchestratorErrorView::TaskNotFound(m.top().target())),
                            ),
                        ),
                    }
                }
            } else {
                m.log(Record::Spawn(m.top().service)).wait(Waiting::Launch)
            }
        },
    }
}

/// What a launch, a stop or a restart came to, as an orchestrator result.
pub open spec fn wrapped(outcome: Result<(), ProcessErrorView>) -> Result<
    (),
    OrchestratorErrorView,
> {
    match outcome {
        Ok(()) => Ok(()),
        Err(e) => Err(OrchestratorErrorView::ProcessError(e)),
    }
}

/// The transition of a run: the machine after the caller has reported
/// `event`.
///
/// A service found live has started, with success. One found idle works
/// through its dependencies. A live conflicting service fails the start
/// with a conflict error that names the requester and the blocker. The
/// outcome of a spawn is the outcome of the start. A failed stop or restart
/// ends the run. An event that does not answer what the machine asked
/// leaves it where it is.
pub open spec fn step(catalog: Seq<Service>, m: Machine, event: EventView) -> Machine {
    match (m.waiting, event) {
        (Waiting::Entry, EventView::Alive(true)) => drive(
            catalog,
            m.pop(),
            Signal::Return(m.top().service.id@, Ok(())),
        ),
        (Waiting::Entry, EventView::Alive(false)) => drive(catalog, m, Signal::Resume),
        (Waiting::Conflict, EventView::Alive(true)) => drive(
            catalog,
            m.pop(),
            Signal::Return(
                m.top().service.id@,
                Err(
                    OrchestratorErrorView::ConflictingService(
                        m.top().service.id@,
                        m.top().target(),
                    ),
                ),
            ),
        ),
        (Waiting::Conflict, EventView::Alive(false)) => drive(catalog, m.bump(), Signal::Resume),
        (Waiting::Settle, EventView::Elapsed) => drive(catalog, m.bump(), Signal::Resume),
        (Waiting::Launch, EventView::Outcome(outcome)) => drive(
            catalog,
            m.pop(),
            Signal::Return(m.top().service.id@, wrapped(outcome)),
        ),
        (Waiting::Pace, EventView::Elapsed) => drive(catalog, m.advance(), Signal::Resume),
        (Waiting::Halt, EventView::Outcome(outcome)) => match outcome {
            Ok(()) => drive(catalog, m.advance(), Signal::Resume),
            Err(_) => m.finish(wrapped(outcome)),
        },
        (Waiting::Relaunch, EventView::Outcome(outcome)) => match outcome {
            Ok(()) => drive(catalog, m.advance(), Signal::Resume),
            Err(_) => m.finish(wrapped(outcome)),
        },
        _ => m,
    }
}


/// A machine that has not begun may pick up.
pub proof fn lemma_fresh(agenda: Seq<ItemView>)
    ensures
        Machine::fresh(agenda).ready(Signal::Resume),
{
    reveal(Machine::chained);
    reveal(Machine::sound);
}

/// A machine that is over before it began is well formed.
pub proof fn lemma_failed(error: OrchestratorErrorView)
    ensures
        Machine::failed(error).wf(),
{
    reveal(Machine::chained);
    reveal(Machine::sound);
}

/// What a machine that hangs together says of its cursor and its top frame.
pub proof fn lemma_bounds(m: Machine)
    requires
        m.chained(),
    ensures
        0 <= m.cursor <= m.agenda.len(),
        m.stack.len() > 0 ==> m.at_item() && m.item() is Start && 0 <= m.top().next
            <= m.top().service.edge_count(),
{
    reveal(Machine::chained);
    if m.stack.len() > 0 {
        assert(0 <= m.stack[m.stack.len() - 1].next);
    }
}

/// Whether two machines stand at the same place with the same journal.
pub open spec fn same_position(a: Machine, b: Machine) -> bool {
    &&& a.agenda == b.agenda
    &&& a.cursor == b.cursor
    &&& a.stack == b.stack
    &&& a.journal == b.journal
}

/// What a machine waits for and how it ended bear neither on whether it
/// hangs together nor on whether its journal is sound.
pub proof fn lemma_same_position(a: Machine, b: Machine)
    requires
        same_position(a, b),
        a.chained(),
        a.sound(),
    ensures
        b.chained(),
        b.sound(),
{
    reveal(Machine::chained);
    reveal(Machine::sound);
}

/// Entering the return of a start keeps the machine ready for it, and a
/// success is credited.
pub proof fn lemma_logged(m: Machine, callee: Seq<char>, result: Result<(), OrchestratorErrorView>)
    requires
        m.ready(Signal::Return(callee, result)),
    ensures
        m.log(Record::Returned(callee, result is Ok)).ready(Signal::Return(callee, result)),
        result is Ok ==> credited(m.log(Record::Returned(callee, result is Ok)).journal, callee),
{
    reveal(Machine::chained);
    reveal(Machine::sound);
    let ok = result is Ok;
    let record = Record::Returned(callee, ok);
    let after = m.journal.push(record);
    assert forall|id: Seq<char>| credited(m.journal, id) implies credited(after, id) by {
        let j = choose|j: int|
            0 <= j < m.journal.len() && #[trigger] m.journal[j] == Record::Returned(id, true);
        assert(after[j] == Record::Returned(id, true));
    }
    assert forall|i: int| 0 <= i < after.len() implies #[trigger] justified(after, i) by {
        if i < m.journal.len() {
            assert(justified(m.journal, i));
            assert(after.take(i) =~= m.journal.take(i));
            assert(after[i] == m.journal[i]);
        }
    }
    assert forall|d: int| 0 <= d < m.stack.len() implies paid(
        after,
        (#[trigger] m.stack[d]).service,
        m.stack[d].next,
    ) by {
        assert(paid(m.journal, m.stack[d].service, m.stack[d].next));
    }
    if ok {
        assert(after[m.journal.len() as int] == Record::Returned(callee, true));
    }
}

/// When the top frame leaves, the machine is ready for the return of its
/// start, whatever the result.
pub proof fn lemma_pop(m: Machine, result: Result<(), OrchestratorErrorView>)
    requires
        m.chained(),
        m.sound(),
        m.stack.len() > 0,
    ensures
        m.pop().ready(Signal::Return(m.top().service.id@, result)),
        m.pop().stack.len() == m.stack.len() - 1,
{
    reveal(Machine::chained);
    reveal(Machine::sound);
    let after = m.pop();
    assert forall|d: int| 0 <= d < after.stack.len() - 1 implies (#[trigger] after.stack[d]).awaits(
        after.stack[d + 1].service.id@,
    ) by {
        assert(after.stack[d] == m.stack[d]);
        assert(after.stack[d + 1] == m.stack[d + 1]);
    }
    assert forall|d: int| 0 <= d < after.stack.len() implies 0 <= (#[trigger] after.stack[d]).next
        <= after.stack[d].service.edge_count() && paid(
        after.journal,
        after.stack[d].service,
        after.stack[d].next,
    ) by {
        assert(after.stack[d] == m.stack[d]);
    }
    if after.stack.len() > 0 {
        assert(after.stack[0] == m.stack[0]);
        let d = after.stack.len() - 1;
        assert(m.stack[d].awaits(m.stack[d + 1].service.id@));
        assert(after.top() == m.stack[d]);
    }
}

/// When the top frame moves on past a dependency that is not required, or
/// that has been started with success, the machine may pick up, and the
/// frame has less left to do.
pub proof fn lemma_bump(m: Machine)
    requires
        m.chained(),
        m.sound(),
        m.stack.len() > 0,
        m.top().open_edge(),
        m.top().kind() == DependencyType::Required ==> credited(m.journal, m.top().target()),
    ensures
        m.bump().ready(Signal::Resume),
        m.bump().stack.len() == m.stack.len(),
        0 <= m.bump().remaining() < m.remaining(),
{
    reveal(Machine::chained);
    reveal(Machine::sound);
    let after = m.bump();
    let top = after.stack.len() - 1;
    assert(after.stack[top] == FrameView { service: m.top().service, next: m.top().next + 1 });
    assert forall|d: int| 0 <= d < after.stack.len() - 1 implies (#[trigger] after.stack[d]).awaits(
        after.stack[d + 1].service.id@,
    ) by {
        assert(after.stack[d] == m.stack[d]);
        assert(m.stack[d].awaits(m.stack[d + 1].service.id@));
        assert(after.stack[d + 1].service == m.stack[d + 1].service);
    }
    assert forall|d: int| 0 <= d < after.stack.len() implies 0 <= (#[trigger] after.stack[d]).next
        <= after.stack[d].service.edge_count() && paid(
        after.journal,
        after.stack[d].service,
        after.stack[d].next,
    ) by {
        if d < top {
            assert(after.stack[d] == m.stack[d]);
        } else {
            assert(paid(m.journal, m.stack[d].service, m.stack[d].next));
        }
    }
    assert(after.stack[0].service == m.stack[0].service);
}

/// When the agenda moves on, the machine may pick up.
pub proof fn lemma_advance(m: Machine)
    requires
        m.chained(),
        m.sound(),
        m.stack.len() == 0,
        m.at_item(),
    ensures
        m.advance().ready(Signal::Resume),
{
    reveal(Machine::chained);
    reveal(Machine::sound);
}

/// Entering a start that the agenda or the top frame asks for leaves the
/// machine well formed, with the service found on top.
pub proof fn lemma_push(catalog: Seq<Service>, m: Machine, id: Seq<char>)
    requires
        m.chained(),
        m.sound(),
        enter(catalog, m, id) is Some,
        if m.stack.len() == 0 {
            m.at_item() && m.item() is Start && m.item()->Start_0 == id
        } else {
            m.top().awaits(id)
        },
    ensures
        enter(catalog, m, id)->Some_0.wf(),
{
    reveal(Machine::chained);
    reveal(Machine::sound);
    lemma_lookup_is_first(catalog, id);
    let after = enter(catalog, m, id)->Some_0;
    let service = catalog[lookup(catalog, id)->Some_0];
    assert(after.stack == m.stack.push(FrameView { service, next: 0 }));
    assert forall|d: int| 0 <= d < after.stack.len() - 1 implies (#[trigger] after.stack[d]).awaits(
        after.stack[d + 1].service.id@,
    ) by {
        assert(after.stack[d] == m.stack[d]);
        if d + 1 < m.stack.len() {
            assert(after.stack[d + 1] == m.stack[d + 1]);
            assert(m.stack[d].awaits(m.stack[d + 1].service.id@));
        }
    }
    assert forall|d: int| 0 <= d < after.stack.len() implies 0 <= (#[trigger] after.stack[d]).next
        <= after.stack[d].service.edge_count() && paid(
        after.journal,
        after.stack[d].service,
        after.stack[d].next,
    ) by {
        if d < m.stack.len() {
            assert(after.stack[d] == m.stack[d]);
        }
    }
    if m.stack.len() > 0 {
        assert(after.stack[0] == m.stack[0]);
    }
}

/// A top frame with no dependency left may ask for its launch.
pub proof fn lemma_spawn(m: Machine)
    requires
        m.chained(),
        m.sound(),
        m.stack.len() > 0,
        !m.top().open_edge(),
    ensures
        m.log(Record::Spawn(m.top().service)).wait(Waiting::Launch).wf(),
{
    reveal(Machine::chained);
    reveal(Machine::sound);
    let service = m.top().service;
    let record = Record::Spawn(service);
    let after = m.journal.push(record);
    let top = m.stack.len() - 1;
    assert(0 <= m.stack[top].next <= m.stack[top].service.edge_count());
    assert(paid(m.journal, m.stack[top].service, m.stack[top].next));
    assert forall|id: Seq<char>| credited(m.journal, id) implies credited(after, id) by {
        let j = choose|j: int|
            0 <= j < m.journal.len() && #[trigger] m.journal[j] == Record::Returned(id, true);
        assert(after[j] == Record::Returned(id, true));
    }
    assert forall|i: int| 0 <= i < after.len() implies #[trigger] justified(after, i) by {
        assert(after.take(i) =~= m.journal.take(i));
        if i < m.journal.len() {
            assert(justified(m.journal, i));
            assert(after[i] == m.journal[i]);
        } else {
            assert(m.journal.take(i) =~= m.journal);
        }
    }
    assert forall|d: int| 0 <= d < m.stack.len() implies paid(
        after,
        (#[trigger] m.stack[d]).service,
        m.stack[d].next,
    ) by {
        assert(paid(m.journal, m.stack[d].service, m.stack[d].next));
    }
}

/// Wherever a machine that may take a signal comes to rest, it is well
/// formed.
pub proof fn lemma_drive_wf(catalog: Seq<Service>, m: Machine, signal: Signal)
    requires
        m.ready(signal),
    ensures
        drive(catalog, m, signal).wf(),
    decreases m.agenda.len() - m.cursor, m.stack.len(), m.remaining(), signal.rank(),
{
    lemma_bounds(m);
    match signal {
        Signal::Return(callee, result) => {
            let logged = m.log(Record::Returned(callee, result is Ok));
            lemma_logged(m, callee, result);
            if m.stack.len() == 0 {
                if m.item() matches ItemView::Start(_, Policy::Abort) && result is Err {
                    lemma_same_position(logged, logged.finish(result));
                } else {
                    lemma_advance(logged);
                    lemma_drive_wf(catalog, logged.advance(), Signal::Resume);
                }
            } else if m.top().kind() == DependencyType::Required && result is Err {
                lemma_pop(logged, result);
                lemma_drive_wf(catalog, logged.pop(), Signal::Return(m.top().service.id@, result));
            } else if m.top().kind() == DependencyType::Required && m.top().wait() is Some {
                lemma_same_position(logged, logged.wait(Waiting::Settle));
            } else {
                lemma_bump(logged);
                lemma_drive_wf(catalog, logged.bump(), Signal::Resume);
            }
        },
        Signal::Resume => {
            if m.stack.len() == 0 {
                if m.at_item() {
                    match m.item() {
                        ItemView::Start(id, _) => {
                            if enter(catalog, m, id) is Some {
                                lemma_push(catalog, m, id);
                            } else {
                                lemma_drive_wf(
                                    catalog,
                                    m,
                                    Signal::Return(id, Err(OrchestratorErrorView::TaskNotFound(id))),
                                );
                            }
                        },
                        ItemView::Pause(_) => {
                            lemma_same_position(m, m.wait(Waiting::Pace));
                        },
                        ItemView::Stop(_) => {
                            lemma_same_position(m, m.wait(Waiting::Halt));
                        },
                        ItemView::Restart(_) => {
                            lemma_same_position(m, m.wait(Waiting::Relaunch));
                        },
                        ItemView::Stuck => {
                            lemma_same_position(
                                m,
                                m.finish(Err(OrchestratorErrorView::CircularDependency)),
                            );
                        },
                    }
                } else {
                    lemma_same_position(m, m.finish(Ok(())));
                }
            } else if m.top().open_edge() {
                if m.top().kind() == DependencyType::Conflict {
                    lemma_same_position(m, m.wait(Waiting::Conflict));
                } else {
                    let target = m.top().target();
                    if enter(catalog, m, target) is Some {
                        lemma_push(catalog, m, target);
                    } else {
                        lemma_drive_wf(
                            catalog,
                            m,
                            Signal::Return(
                                target,
                                Err(OrchestratorErrorView::TaskNotFound(target)),
                            ),
                        );
                    }
                }
            } else {
                lemma_spawn(m);
            }
        },
    }
}

/// A run asks for the launch of a service only after each required
/// dependency of that service has been started with success: the journal
/// holds the return of each such start, with success, before the spawn that
/// it has just entered.
pub proof fn law_launch_after_required(m: Machine, k: int)
    requires
        m.wf(),
        m.waiting == Waiting::Launch,
        0 <= k < m.top().service.edge_count(),
        m.top().service.edge_kind(k) == DependencyType::Required,
    ensures
        m.action() == ActionView::Launch(m.top().service),
        m.journal.last() == Record::Spawn(m.top().service),
        exists|j: int|
            0 <= j < m.journal.len() - 1 && #[trigger] m.journal[j] == Record::Returned(
                m.top().service.edge_target(k),
                true,
            ),
{
    law_spawn_after_required(m, m.journal.len() - 1, k);
}

/// Coming to rest changes neither the agenda nor what ids are resolved
/// against.
pub proof fn lemma_drive_keeps_agenda(catalog: Seq<Service>, m: Machine, signal: Signal)
    ensures
        drive(catalog, m, signal).agenda == m.agenda,
    decreases m.agenda.len() - m.cursor, m.stack.len(), m.remaining(), signal.rank(),
{
    match signal {
        Signal::Return(callee, result) => {
            let logged = m.log(Record::Returned(callee, result is Ok));
            if m.stack.len() == 0 {
                if m.at_item() {
                    if m.item() matches ItemView::Start(_, Policy::Abort) && result is Err {
                    } else {
                        lemma_drive_keeps_agenda(catalog, logged.advance(), Signal::Resume);
                    }
                }
            } else if m.top().open_edge() {
                if m.top().kind() == DependencyType::Required {
                    if result is Err {
                        lemma_drive_keeps_agenda(
                            catalog,
                            logged.pop(),
                            Signal::Return(m.top().service.id@, result),
                        );
                    } else if m.top().wait() is Some {
                    } else {
                        lemma_drive_keeps_agenda(catalog, logged.bump(), Signal::Resume);
                    }
                } else {
                    lemma_drive_keeps_agenda(catalog, logged.bump(), Signal::Resume);
                }
            } else {
                lemma_drive_keeps_agenda(
                    catalog,
                    logged.pop(),
                    Signal::Return(m.top().service.id@, result),
                );
            }
        },
        Signal::Resume => {
            if m.stack.len() == 0 {
                if m.at_item() {
                    match m.item() {
                        ItemView::Start(id, _) => {
                            if enter(catalog, m, id) is None {
                                lemma_drive_keeps_agenda(
                                    catalog,
                                    m,
                                    Signal::Return(id, Err(OrchestratorErrorView::TaskNotFound(id))),
                                );
                            }
                        },
                        _ => {},
                    }
                }
            } else if m.top().open_edge() {
                if m.top().kind() != DependencyType::Conflict {
                    let target = m.top().target();
                    if enter(catalog, m, target) is None {
                        lemma_drive_keeps_agenda(
                            catalog,
                            m,
                            Signal::Return(
                                target,
                                Err(OrchestratorErrorView::TaskNotFound(target)),
                            ),
                        );
                    }
                }
            }
        },
    }
}

/// A run works through the agenda it was opened with: no step changes it.
pub proof fn law_step_keeps_agenda(catalog: Seq<Service>, m: Machine, event: EventView)
    ensures
        step(catalog, m, event).agenda == m.agenda,
{
    match (m.waiting, event) {
        (Waiting::Entry, EventView::Alive(true)) => {
            lemma_drive_keeps_agenda(
                catalog,
                m.pop(),
                Signal::Return(m.top().service.id@, Ok(())),
            );
        },
        (Waiting::Entry, EventView::Alive(false)) => {
            lemma_drive_keeps_agenda(catalog, m, Signal::Resume);
        },
        (Waiting::Conflict, EventView::Alive(true)) => {
            lemma_drive_keeps_agenda(
                catalog,
                m.pop(),
                Signal::Return(
                    m.top().service.id@,
                    Err(
                        OrchestratorErrorView::ConflictingService(
                            m.top().service.id@,
                            m.top().target(),
                        ),
                    ),
                ),
            );
        },
        (Waiting::Conflict, EventView::Alive(false)) => {
            lemma_drive_keeps_agenda(catalog, m.bump(), Signal::Resume);
        },
        (Waiting::Settle, EventView::Elapsed) => {
            lemma_drive_keeps_agenda(catalog, m.bump(), Signal::Resume);
        },
        (Waiting::Launch, EventView::Outcome(outcome)) => {
            lemma_drive_keeps_agenda(
                catalog,
                m.pop(),
                Signal::Return(m.top().service.id@, wrapped(outcome)),
            );
        },
        (Waiting::Pace, EventView::Elapsed) => {
            lemma_drive_keeps_agenda(catalog, m.advance(), Signal::Resume);
        },
        (Waiting::Halt, EventView::Outcome(outcome)) => {
            if outcome is Ok {
                lemma_drive_keeps_agenda(catalog, m.advance(), Signal::Resume);
            }
        },
        (Waiting::Relaunch, EventView::Outcome(outcome)) => {
            if outcome is Ok {
                lemma_drive_keeps_agenda(catalog, m.advance(), Signal::Resume);
            }
        },
        _ => {},
    }
}

/// A run asks for a stop only where its agenda holds one, and for a restart
/// only where its agenda holds one. A run whose agenda holds neither, as
/// that of a start, leaves every live service alone.
pub proof fn law_stops_come_from_the_agenda(m: Machine)
    requires
        m.wf(),
    ensures
        m.action() is Halt ==> m.at_item() && m.item() == ItemView::Stop(m.action()->Halt_0),
        m.action() is Relaunch ==> m.at_item() && m.item() == ItemView::Restart(
            m.action()->Relaunch_0,
        ),
{
}

/// A run that comes to the end of a stuck plan is over, with the
/// circular-dependency error.
pub proof fn law_stuck_plan_ends_the_run(catalog: Seq<Service>, m: Machine)
    requires
        m.stack.len() == 0,
        m.at_item(),
        m.item() is Stuck,
    ensures
        drive(catalog, m, Signal::Resume).waiting == Waiting::Over,
        drive(catalog, m, Signal::Resume).action() == ActionView::Finish(
            Err(OrchestratorErrorView::CircularDependency),
        ),
{
}

/// A run that has just been opened is well formed.
pub proof fn law_opened_run_is_well_formed(catalog: Seq<Service>, agenda: Seq<ItemView>)
    ensures
        drive(catalog, Machine::fresh(agenda), Signal::Resume).wf(),
        Machine::fresh(agenda).journal.len() == 0,
{
    lemma_fresh(agenda);
    lemma_drive_wf(catalog, Machine::fresh(agenda), Signal::Resume);
}

/// Whatever the caller reports, a well-formed run stays well formed. With
/// the law on spawns this says that in every run, however it goes, no
/// service is spawned before each of its required dependencies has been
/// started with success.
pub proof fn law_step_keeps_well_formed(catalog: Seq<Service>, m: Machine, event: EventView)
    requires
        m.wf(),
    ensures
        step(catalog, m, event).wf(),
{
    lemma_bounds(m);
    match (m.waiting, event) {
        (Waiting::Entry, EventView::Alive(true)) => {
            lemma_pop(m, Ok(()));
            lemma_drive_wf(catalog, m.pop(), Signal::Return(m.top().service.id@, Ok(())));
        },
        (Waiting::Entry, EventView::Alive(false)) => {
            lemma_drive_wf(catalog, m, Signal::Resume);
        },
        (Waiting::Conflict, EventView::Alive(true)) => {
            let result = Err(
                OrchestratorErrorView::ConflictingService(m.top().service.id@, m.top().target()),
            );
            lemma_pop(m, result);
            lemma_drive_wf(catalog, m.pop(), Signal::Return(m.top().service.id@, result));
        },
        (Waiting::Conflict, EventView::Alive(false)) => {
            lemma_bump(m);
            lemma_drive_wf(catalog, m.bump(), Signal::Resume);
        },
        (Waiting::Settle, EventView::Elapsed) => {
            lemma_bump(m);
            lemma_drive_wf(catalog, m.bump(), Signal::Resume);
        },
        (Waiting::Launch, EventView::Outcome(outcome)) => {
            lemma_pop(m, wrapped(outcome));
            lemma_drive_wf(
                catalog,
                m.pop(),
                Signal::Return(m.top().service.id@, wrapped(outcome)),
            );
        },
        (Waiting::Pace, EventView::Elapsed) => {
            lemma_advance(m);
            lemma_drive_wf(catalog, m.advance(), Signal::Resume);
        },
        (Waiting::Halt, EventView::Outcome(outcome)) => {
            if outcome is Ok {
                lemma_advance(m);
                lemma_drive_wf(catalog, m.advance(), Signal::Resume);
            } else {
                lemma_same_position(m, m.finish(wrapped(outcome)));
            }
        },
        (Waiting::Relaunch, EventView::Outcome(outcome)) => {
            if outcome is Ok {
                lemma_advance(m);
                lemma_drive_wf(catalog, m.advance(), Signal::Resume);
            } else {
                lemma_same_position(m, m.finish(wrapped(outcome)));
            }
        },
        _ => {},
    }
}

/// Every spawn that a well-formed run has asked for came after a successful
/// start of each required dependency of the service spawned: for each such
/// dependency the journal holds, before the spawn, the return of its start
/// with success.
pub proof fn law_spawn_after_required(m: Machine, i: int, k: int)
    requires
        m.wf(),
        0 <= i < m.journal.len(),
        m.journal[i] is Spawn,
        0 <= k < m.journal[i]->Spawn_0.edge_count(),
        m.journal[i]->Spawn_0.edge_kind(k) == DependencyType::Required,
    ensures
        exists|j: int|
            0 <= j < i && #[trigger] m.journal[j] == Record::Returned(
                m.journal[i]->Spawn_0.edge_target(k),
                true,
            ),
{
    reveal(Machine::sound);
    let service = m.journal[i]->Spawn_0;
    assert(justified(m.journal, i));
    assert(credited(m.journal.take(i), service.edge_target(k)));
    let j = choose|j: int|
        0 <= j < m.journal.take(i).len() && #[trigger] m.journal.take(i)[j] == Record::Returned(
            service.edge_target(k),
            true,
        );
    assert(m.journal[j] == Record::Returned(service.edge_target(k), true));
}

} // verus!
