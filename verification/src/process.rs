//! The table of live processes.
//!
//! The table owns one handle per service id. It neither spawns nor kills:
//! the caller does, and reports what happened. What the table decides is
//! which handle a command concerns and what becomes of the entry.

use crate::registry::Registry;
use vstd::prelude::*;
use vstd::string::StringExecFns;

verus! {

/// Why a process command failed.
#[derive(Debug, Clone, PartialEq, Eq)]
pub enum ProcessError {
    /// The process could not be spawned; the reason is attached.
    StartError(String),
    /// No handle is held for the service.
    NotFound,
    /// The process could not be terminated; the reason is attached.
    KillError(String),
}

/// A process error with its texts as character sequences.
pub enum ProcessErrorView {
    /// The process could not be spawned, for this reason.
    StartError(Seq<char>),
    /// No handle is held for the service.
    NotFound,
    /// The process could not be terminated, for this reason.
    KillError(Seq<char>),
}

impl View for ProcessError {
    type V = ProcessErrorView;

    open spec fn view(&self) -> ProcessErrorView {
        match self {
            ProcessError::StartError(reason) => ProcessErrorView::StartError(reason@),
            ProcessError::NotFound => ProcessErrorView::NotFound,
            ProcessError::KillError(reason) => ProcessErrorView::KillError(reason@),
        }
    }
}

impl ProcessErrorView {
    /// The text that describes the error.
    pub open spec fn message(self) -> Seq<char> {
        match self {
            ProcessErrorView::StartError(reason) => "Failed to start process: "@ + reason,
            ProcessErrorView::NotFound => "Process not found"@,
            ProcessErrorView::KillError(reason) => "Failed to kill process: "@ + reason,
        }
    }
}

impl ProcessError {
    /// The text that describes the error.
    pub fn to_string(&self) -> (text: String)
        ensures
            text@ == self@.message(),
    {
        match self {
            ProcessError::StartError(reason) => {
                String::from_str("Failed to start process: ").concat(reason.as_str())
            },
            ProcessError::NotFound => String::from_str("Process not found"),
            ProcessError::KillError(reason) => {
                String::from_str("Failed to kill process: ").concat(reason.as_str())
            },
        }
    }
}

/// What polling a process handle showed.
#[derive(Debug, Clone, Copy, PartialEq, Eq, Structural)]
pub enum PollStatus {
    /// The process has not exited.
    Running,
    /// The process has exited.
    Exited,
    /// The poll itself failed; the process is taken to be gone.
    Failed,
}

/// A spawned process: its OS pid and the handle that controls it.
pub struct Live<H> {
    pub pid: u32,
    pub handle: H,
}

/// The model of the table: what is held under each service id.
pub type Handles<H> = Map<Seq<char>, Live<H>>;

/// What `start` makes of a table, given the outcome of the spawn: a spawned
/// process takes the place under `id`, displacing what was there; a failed
/// spawn leaves the table alone.
pub open spec fn after_start<H>(
    table: Handles<H>,
    id: Seq<char>,
    spawned: Result<Live<H>, Seq<char>>,
) -> Handles<H> {
    match spawned {
        Ok(live) => table.insert(id, live),
        Err(_) => table,
    }
}

/// What `stop` makes of a table: the entry under `id` leaves.
pub open spec fn after_stop<H>(table: Handles<H>, id: Seq<char>) -> Handles<H> {
    table.remove(id)
}

/// What `stop` answers: the handle that has to be terminated, or that there
/// is none.
pub open spec fn stop_answer<H>(table: Handles<H>, id: Seq<char>) -> Result<H, ProcessErrorView> {
    if table.dom().contains(id) {
        Ok(table[id].handle)
    } else {
        Err(ProcessErrorView::NotFound)
    }
}

/// What `is_running` answers: whether a handle is held and its process has
/// not exited.
pub open spec fn running_answer<H>(table: Handles<H>, id: Seq<char>, status: PollStatus) -> bool {
    table.dom().contains(id) && status == PollStatus::Running
}

/// What `is_running` makes of a table: the entry of a process that is gone
/// leaves.
pub open spec fn after_poll<H>(table: Handles<H>, id: Seq<char>, status: PollStatus) -> Handles<
    H,
> {
    if status == PollStatus::Running {
        table
    } else {
        table.remove(id)
    }
}

/// Whether `handle` is held under some id.
pub open spec fn holds_handle<H>(table: Handles<H>, handle: H) -> bool {
    exists|id: Seq<char>| #[trigger] table.dom().contains(id) && table[id].handle == handle
}

/// A failed stop leaves the service without a handle, and a liveness query
/// right after it says so.
pub proof fn law_stop_without_handle<H>(table: Handles<H>, id: Seq<char>, status: PollStatus)
    requires
        !table.dom().contains(id),
    ensures
        stop_answer(table, id) == Err::<H, ProcessErrorView>(ProcessErrorView::NotFound),
        after_stop(table, id) == table,
        !running_answer(after_stop(table, id), id, status),
{
    assert(table.remove(id) =~= table);
}

/// While the process runs, asking again changes nothing and gets the same
/// answer.
pub proof fn law_liveness_idempotent<H>(table: Handles<H>, id: Seq<char>)
    ensures
        after_poll(table, id, PollStatus::Running) == table,
        running_answer(after_poll(table, id, PollStatus::Running), id, PollStatus::Running)
            == running_answer(table, id, PollStatus::Running),
{
}

/// When a live process turns out to have exited, the answer falls from true
/// to false once: the handle leaves with that query, and every later query,
/// whatever it is told, answers false and changes nothing.
pub proof fn law_exit_observed_once<H>(
    table: Handles<H>,
    id: Seq<char>,
    gone: PollStatus,
    later: PollStatus,
)
    requires
        table.dom().contains(id),
        gone != PollStatus::Running,
    ensures
        running_answer(table, id, PollStatus::Running),
        !running_answer(table, id, gone),
        after_poll(table, id, gone) == table.remove(id),
        !after_poll(table, id, gone).dom().contains(id),
        !running_answer(after_poll(table, id, gone), id, later),
        after_poll(after_poll(table, id, gone), id, later) == after_poll(table, id, gone),
{
    assert(table.remove(id).remove(id) =~= table.remove(id));
}

/// The table of live processes, one handle of type `H` per service id.
pub struct ProcessManager<H> {
    table: Registry<Live<H>>,
}

impl<H> View for ProcessManager<H> {
    type V = Handles<H>;

    closed spec fn view(&self) -> Handles<H> {
        self.table@
    }
}

impl<H> ProcessManager<H> {
    /// A table without handles.
    pub fn new() -> (manager: Self)
        ensures
            manager@ == Map::<Seq<char>, Live<H>>::empty(),
    {
        ProcessManager { table: Registry::new() }
    }

    /// Records the outcome of spawning the process of `task_id`.
    ///
    /// A spawned process is registered under the id. A handle that was held
    /// under the id is displaced without being terminated, and handed back.
    /// A failed spawn changes nothing and is reported as a start error with
    /// the reason given.
    pub fn start(&mut self, task_id: &str, spawned: Result<Live<H>, String>) -> (displaced: Result<
        Option<H>,
        ProcessError,
    >)
        ensures
            match spawned {
                Ok(live) => {
                    &&& final(self)@ == after_start(old(self)@, task_id@, Ok(live))
                    &&& displaced == Ok::<Option<H>, ProcessError>(
                        if old(self)@.dom().contains(task_id@) {
                            Some(old(self)@[task_id@].handle)
                        } else {
                            None
                        },
                    )
                },
                Err(reason) => {
                    &&& final(self)@ == old(self)@
                    &&& displaced is Err
                    &&& displaced->Err_0@ == ProcessErrorView::StartError(reason@)
                },
            },
    {
        match spawned {
            Ok(live) => {
                match self.table.insert(task_id, live) {
                    Some(previous) => Ok(Some(previous.handle)),
                    None => Ok(None),
                }
            },
            Err(reason) => Err(ProcessError::StartError(reason)),
        }
    }

    /// Gives up the handle of `task_id` so that its process can be
    /// terminated; without a handle the answer is `NotFound`.
    pub fn stop(&mut self, task_id: &str) -> (handle: Result<H, ProcessError>)
        ensures
            final(self)@ == after_stop(old(self)@, task_id@),
            match handle {
                Ok(h) => stop_answer(old(self)@, task_id@) == Ok::<H, ProcessErrorView>(h),
                Err(e) => stop_answer(old(self)@, task_id@) == Err::<H, ProcessErrorView>(e@),
            },
    {
        match self.table.remove(task_id) {
            Some(live) => Ok(live.handle),
            None => Err(ProcessError::NotFound),
        }
    }

    /// The handle held for `task_id`, to be polled or inspected.
    pub fn handle(&self, task_id: &str) -> (handle: Option<&H>)
        ensures
            handle == if self@.dom().contains(task_id@) {
                Some(&self@[task_id@].handle)
            } else {
                None
            },
    {
        match self.table.get(task_id) {
            Some(live) => Some(&live.handle),
            None => None,
        }
    }

    /// Whether `task_id` is live, given what polling its handle showed.
    ///
    /// Without a handle the answer is false whatever `status` says. With
    /// one, a process that has exited, or whose poll failed, is reaped: its
    /// entry leaves the table and the answer is false.
    pub fn is_running(&mut self, task_id: &str, status: PollStatus) -> (running: bool)
        ensures
            running == running_answer(old(self)@, task_id@, status),
            final(self)@ == after_poll(old(self)@, task_id@, status),
    {
        match status {
            PollStatus::Running => self.table.contains(task_id),
            _ => {
                let _ = self.table.remove(task_id);
                false
            },
        }
    }

    /// The OS pid of the process held for `task_id`.
    pub fn get_pid(&self, task_id: &str) -> (pid: Option<u32>)
        ensures
            pid == if self@.dom().contains(task_id@) {
                Some(self@[task_id@].pid)
            } else {
                None
            },
    {
        match self.table.get(task_id) {
            Some(live) => Some(live.pid),
            None => None,
        }
    }

    /// The first half of a restart: stop if running.
    ///
    /// Given what polling showed, the entry of `task_id` leaves the table
    /// either way. The handle of a process that still runs is handed back to
    /// be terminated before the new launch; one that is gone is dropped.
    pub fn restart(&mut self, task_id: &str, status: PollStatus) -> (handle: Option<H>)
        ensures
            final(self)@ == old(self)@.remove(task_id@),
            handle == if running_answer(old(self)@, task_id@, status) {
                Some(old(self)@[task_id@].handle)
            } else {
                None
            },
    {
        if self.is_running(task_id, status) {
            match self.stop(task_id) {
                Ok(handle) => Some(handle),
                Err(_) => None,
            }
        } else {
            assert(final(self)@ =~= old(self)@.remove(task_id@)) by {
                assert(old(self)@.remove(task_id@).remove(task_id@) =~= old(self)@.remove(task_id@));
                assert(!old(self)@.dom().contains(task_id@) ==> old(self)@.remove(task_id@)
                    =~= old(self)@);
            }
            None
        }
    }

    /// The ids that hold a handle, each once.
    pub fn get_all_running_tasks(&self) -> (ids: Vec<String>)
        ensures
            forall|i: int, j: int| 0 <= i < j < ids@.len() ==> ids@[i]@ != ids@[j]@,
            forall|i: int| 0 <= i < ids@.len() ==> self@.dom().contains(#[trigger] ids@[i]@),
            forall|id: Seq<char>|
                self@.dom().contains(id) ==> exists|i: int| 0 <= i < ids@.len() && ids@[i]@ == id,
    {
        let ids = self.table.keys();
        proof {
            let listing = self.table.listing();
            assert forall|i: int, j: int| 0 <= i < j < ids@.len() implies ids@[i]@ != ids@[j]@ by {
                assert(listing[i] != listing[j]);
            }
            assert forall|i: int| 0 <= i < ids@.len() implies self@.dom().contains(
                #[trigger] ids@[i]@,
            ) by {
                assert(listing.contains(listing[i]));
            }
            assert forall|id: Seq<char>| self@.dom().contains(id) implies exists|i: int|
                0 <= i < ids@.len() && ids@[i]@ == id by {
                assert(listing.contains(id));
                let i = choose|i: int| 0 <= i < listing.len() && listing[i] == id;
                assert(ids@[i]@ == id);
            }
        }
        ids
    }

    /// Empties the table for teardown and hands back every handle, each to
    /// be killed and reaped.
    pub fn shutdown(&mut self) -> (handles: Vec<H>)
        ensures
            final(self)@ == Map::<Seq<char>, Live<H>>::empty(),
            forall|id: Seq<char>|
                old(self)@.dom().contains(id) ==> exists|i: int|
                    0 <= i < handles@.len() && handles@[i] == old(self)@[id].handle,
            forall|i: int| 0 <= i < handles@.len() ==> holds_handle(old(self)@, #[trigger] handles@[i]),
    {
        let ghost listing = self.table.listing();
        let ghost before = self.table@;
        let mut lives = self.table.drain();
        let mut handles: Vec<H> = Vec::new();
        let ghost all = lives@;
        while lives.len() > 0
            invariant
                handles@.len() + lives@.len() == all.len(),
                forall|j: int| 0 <= j < handles@.len() ==> handles@[j] == all[j].handle,
                forall|j: int| 0 <= j < lives@.len() ==> lives@[j] == all[handles@.len() + j],
            decreases lives@.len(),
        {
            let live = lives.remove(0);
            handles.push(live.handle);
        }
        proof {
            assert forall|id: Seq<char>| before.dom().contains(id) implies exists|i: int|
                0 <= i < handles@.len() && handles@[i] == before[id].handle by {
                assert(listing.contains(id));
                let i = choose|i: int| 0 <= i < listing.len() && listing[i] == id;
                assert(all[i] == before[listing[i]]);
                assert(handles@[i] == before[id].handle);
            }
            assert forall|i: int| 0 <= i < handles@.len() implies holds_handle(
                before,
                #[trigger] handles@[i],
            ) by {
                let id = listing[i];
                assert(listing.contains(id));
                assert(all[i] == before[listing[i]]);
                assert(before.dom().contains(id) && handles@[i] == before[id].handle);
            }
        }
        handles
    }
}

/// What a stop comes to once the termination signal has been sent: a
/// signal that could not be sent is a kill error with the reason given.
pub fn stopped(killed: Result<(), String>) -> (outcome: Result<(), ProcessError>)
    ensures
        match killed {
            Ok(()) => outcome is Ok,
            Err(reason) => outcome is Err && outcome->Err_0@ == ProcessErrorView::KillError(
                reason@,
            ),
        },
{
    match killed {
        Ok(()) => Ok(()),
        Err(reason) => Err(ProcessError::KillError(reason)),
    }
}

} // verus!
