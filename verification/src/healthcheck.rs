//! The health-probe scheduler: what a probe has to do, what its outcome
//! means, and the table of probe loops.
//!
//! A probe loop belongs to its caller, who spawns and cancels it. The table
//! keeps the handle of the loop registered for each service id, and the
//! handles of loops that a later registration displaced while they were
//! still running. Connecting and fetching are done by the caller too.

use crate::config::{HealthCheck, HealthCheckUnion, Service};
use crate::registry::{Registry, Slot};
use vstd::prelude::*;
use vstd::string::StringExecFns;

verus! {

/// The outcome of one probe cycle for a service.
#[derive(Debug, Clone, PartialEq, Eq)]
pub struct CheckResult {
    pub task_id: String,
    pub status: bool,
    pub message: String,
}

/// The status of an HTTP response: its code, from 100 to 999.
#[derive(Debug, Clone, Copy, PartialEq, Eq)]
pub struct HttpStatus {
    code: u16,
}

/// What `reqwest::StatusCode` writes out for the status of this code: the
/// number, a blank and the reason phrase that goes with the number.
pub uninterp spec fn status_line(code: u16) -> Seq<char>;

/// `reqwest::StatusCode::is_success`, for the status of this code: whether
/// the code is from 200 to 299.
#[verifier::external_body]
fn status_is_success(code: u16) -> (success: bool)
    requires
        100 <= code <= 999,
    ensures
        success == (200 <= code <= 299),
{
    match reqwest::StatusCode::from_u16(code) {
        Ok(status) => status.is_success(),
        Err(_) => false,
    }
}

/// `reqwest::StatusCode::to_string`, for the status of this code: the text
/// that the status writes out.
#[verifier::external_body]
fn status_text(code: u16) -> (text: String)
    requires
        100 <= code <= 999,
    ensures
        text@ == status_line(code),
{
    match reqwest::StatusCode::from_u16(code) {
        Ok(status) => status.to_string(),
        Err(_) => String::new(),
    }
}

impl HttpStatus {
    #[verifier::type_invariant]
    spec fn in_range(&self) -> bool {
        100 <= self.code <= 999
    }

    /// The code of the status.
    pub closed spec fn code(&self) -> u16 {
        self.code
    }

    /// The status of this code, if it is the code of one: a number from 100
    /// to 999.
    pub fn new(code: u16) -> (status: Option<Self>)
        ensures
            status is Some <==> 100 <= code <= 999,
            status is Some ==> status->Some_0.code() == code,
    {
        if 100 <= code && code <= 999 {
            Some(HttpStatus { code })
        } else {
            None
        }
    }

    /// The code of the status.
    pub fn number(&self) -> (code: u16)
        ensures
            code == self.code(),
            100 <= code <= 999,
    {
        proof {
            use_type_invariant(self);
        }
        self.code
    }
}

/// What a probe has to do.
#[derive(Debug, PartialEq, Eq)]
pub enum Probe<'a> {
    /// Connect to this host and port. Report to `check_tcp`.
    Tcp { host: &'a str, port: u16 },
    /// Fetch this address within so many seconds. Report to `check_http`.
    Http { url: &'a str, timeout: u64 },
    /// Nothing: the declaration settles the outcome, a failure with this
    /// message.
    Settled(String),
}

/// A probe over character sequences.
pub enum ProbeView {
    /// Connect to this host and port.
    Tcp { host: Seq<char>, port: u16 },
    /// Fetch this address within so many seconds.
    Http { url: Seq<char>, timeout: u64 },
    /// Nothing: a failure with this message.
    Settled(Seq<char>),
}

impl<'a> View for Probe<'a> {
    type V = ProbeView;

    open spec fn view(&self) -> ProbeView {
        match self {
            Probe::Tcp { host, port } => ProbeView::Tcp { host: host@, port: *port },
            Probe::Http { url, timeout } => ProbeView::Http { url: url@, timeout: *timeout },
            Probe::Settled(message) => ProbeView::Settled(message@),
        }
    }
}

/// What the declaration `check` asks for.
///
/// A `tcp` check connects to its port on its host, `localhost` where none
/// is named; without a port, or with port zero, it fails at once. An
/// `http` check fetches its address within its timeout; without an address
/// it fails at once. Any other type fails at once.
pub open spec fn probe_of(check: HealthCheck) -> ProbeView {
    if check.kind@ == "tcp"@ {
        match check.port {
            Some(port) if port != 0 => ProbeView::Tcp {
                host: match check.host {
                    Some(host) => host@,
                    None => "localhost"@,
                },
                port,
            },
            _ => ProbeView::Settled("TCP port not specified"@),
        }
    } else if check.kind@ == "http"@ {
        match check.url {
            Some(url) => ProbeView::Http { url: url@, timeout: check.timeout },
            None => ProbeView::Settled("HTTP URL not specified"@),
        }
    } else {
        ProbeView::Settled("Unknown health check type: "@ + check.kind@)
    }
}

/// What a connection attempt means: the check passes just when the
/// connection was made.
pub open spec fn tcp_verdict(connected: Result<(), Seq<char>>) -> (bool, Seq<char>) {
    match connected {
        Ok(()) => (true, "TCP connection successful"@),
        Err(reason) => (false, "TCP connection failed: "@ + reason),
    }
}

/// What a fetch that came to this means, given whether the status is in the
/// success class and how it reads.
pub open spec fn http_verdict(response: Result<(bool, Seq<char>), Seq<char>>) -> (bool, Seq<char>) {
    match response {
        Ok((true, text)) => (true, "HTTP check successful: "@ + text),
        Ok((false, text)) => (false, "HTTP check failed: "@ + text),
        Err(reason) => (false, "HTTP request failed: "@ + reason),
    }
}

/// What a fetch means: the check passes just when a response came and the
/// code of its status is from 200 to 299. The message ends in the status as
/// it is written out, or in the reason why no response came.
pub open spec fn fetch_verdict(response: Result<u16, Seq<char>>) -> (bool, Seq<char>) {
    http_verdict(
        match response {
            Ok(code) => Ok((200 <= code <= 299, status_line(code))),
            Err(reason) => Err(reason),
        },
    )
}

/// The loops that were displaced under `id` among the first `n`.
pub open spec fn strays_of<L>(orphans: Seq<(Seq<char>, L)>, id: Seq<char>, n: int) -> Seq<L>
    decreases n,
{
    if n <= 0 {
        Seq::empty()
    } else if orphans[n - 1].0 == id {
        strays_of(orphans, id, n - 1).push(orphans[n - 1].1)
    } else {
        strays_of(orphans, id, n - 1)
    }
}

/// The first `n` displaced loops but those under `id`.
pub open spec fn others_of<L>(orphans: Seq<(Seq<char>, L)>, id: Seq<char>, n: int) -> Seq<(Seq<char>, L)>
    decreases n,
{
    if n <= 0 {
        Seq::empty()
    } else if orphans[n - 1].0 == id {
        others_of(orphans, id, n - 1)
    } else {
        others_of(orphans, id, n - 1).push(orphans[n - 1])
    }
}

/// The model of the table of probe loops.
pub struct Loops<L> {
    /// The loop registered for each service id.
    pub registered: Map<Seq<char>, L>,
    /// The loops that a later registration displaced, each with the id it
    /// was registered for. They still run.
    pub orphans: Seq<(Seq<char>, L)>,
}

impl<L> Loops<L> {
    /// The loops that run for `id`, the oldest first: the displaced ones,
    /// and then the registered one, if any.
    pub open spec fn active(self, id: Seq<char>) -> Seq<L> {
        strays_of(self.orphans, id, self.orphans.len() as int) + if self.registered.dom().contains(
            id,
        ) {
            seq![self.registered[id]]
        } else {
            Seq::empty()
        }
    }

    /// The table after a loop has been registered for `id`: a loop that was
    /// registered before is displaced, and runs on.
    pub open spec fn start(self, id: Seq<char>, handle: L) -> Loops<L> {
        Loops {
            registered: self.registered.insert(id, handle),
            orphans: if self.registered.dom().contains(id) {
                self.orphans.push((id, self.registered[id]))
            } else {
                self.orphans
            },
        }
    }

    /// The table after the loop registered for `id` has been taken out.
    pub open spec fn stop(self, id: Seq<char>) -> Loops<L> {
        Loops { registered: self.registered.remove(id), orphans: self.orphans }
    }

    /// The table after a restart for `id`: the new loop is registered, and
    /// no other loop is left for the id.
    pub open spec fn restart(self, id: Seq<char>, handle: L) -> Loops<L> {
        Loops {
            registered: self.registered.insert(id, handle),
            orphans: others_of(self.orphans, id, self.orphans.len() as int),
        }
    }
}

/// Among the displaced loops that are not under `id`, none is under `id`.
pub proof fn lemma_others_hold_no_stray<L>(orphans: Seq<(Seq<char>, L)>, id: Seq<char>, n: int)
    requires
        0 <= n <= orphans.len(),
    ensures
        strays_of(
            others_of(orphans, id, n),
            id,
            others_of(orphans, id, n).len() as int,
        ) == Seq::<L>::empty(),
    decreases n,
{
    if n > 0 {
        lemma_others_hold_no_stray(orphans, id, n - 1);
        let before = others_of(orphans, id, n - 1);
        if orphans[n - 1].0 != id {
            let now = before.push(orphans[n - 1]);
            lemma_strays_prefix(now, id, before.len() as int, before);
        }
    }
}

/// The loops displaced under `id` among the first `n` depend on the first
/// `n` entries alone.
pub proof fn lemma_strays_prefix<L>(
    orphans: Seq<(Seq<char>, L)>,
    id: Seq<char>,
    n: int,
    prefix: Seq<(Seq<char>, L)>,
)
    requires
        0 <= n <= orphans.len(),
        prefix.len() == n,
        forall|i: int| 0 <= i < n ==> prefix[i] == orphans[i],
    ensures
        strays_of(orphans, id, n) == strays_of(prefix, id, n),
    decreases n,
{
    if n > 0 {
        lemma_strays_prefix(orphans, id, n - 1, prefix.drop_last());
        lemma_strays_prefix(prefix, id, n - 1, prefix.drop_last());
    }
}

/// After a restart exactly one loop runs for the service: the new one.
/// Whatever ran for it before, registered or displaced, is gone from the
/// table, and the loops of other services are as they were.
pub proof fn law_restart_leaves_one_loop<L>(table: Loops<L>, id: Seq<char>, handle: L)
    ensures
        table.restart(id, handle).active(id) == seq![handle],
{
    lemma_others_hold_no_stray(table.orphans, id, table.orphans.len() as int);
    assert(table.restart(id, handle).active(id) =~= seq![handle]);
}

/// A second start for the same service leaves two loops running for it: the
/// hazard that a restart avoids.
pub proof fn law_start_displaces<L>(table: Loops<L>, id: Seq<char>, first: L, second: L)
    requires
        table.active(id).len() == 0,
    ensures
        table.start(id, first).active(id) == seq![first],
        table.start(id, first).start(id, second).active(id) == seq![first, second],
{
    let one = table.start(id, first);
    assert(one.active(id) =~= seq![first]);
    let two = one.start(id, second);
    let n = one.orphans.len() as int;
    assert(two.orphans == one.orphans.push((id, first)));
    lemma_strays_prefix(two.orphans, id, n, one.orphans);
    assert(strays_of(two.orphans, id, n + 1) == strays_of(two.orphans, id, n).push(first));
    assert(strays_of(one.orphans, id, n) =~= Seq::<L>::empty());
    assert(two.active(id) =~= seq![first, second]);
}

/// The table of probe loops, one registered loop of type `L` per service
/// id.
pub struct HealthChecker<L> {
    checks: Registry<L>,
    orphans: Vec<Slot<L>>,
}

/// The displaced loops of a table, each with the characters of its id.
pub open spec fn strays_view<L>(orphans: Seq<Slot<L>>) -> Seq<(Seq<char>, L)> {
    Seq::new(orphans.len(), |i: int| (orphans[i].key@, orphans[i].value))
}

impl<L> View for HealthChecker<L> {
    type V = Loops<L>;

    closed spec fn view(&self) -> Loops<L> {
        Loops { registered: self.checks@, orphans: strays_view(self.orphans@) }
    }
}

impl<L> HealthChecker<L> {
    /// A table without loops.
    pub fn new() -> (checker: Self)
        ensures
            checker@.registered == Map::<Seq<char>, L>::empty(),
            checker@.orphans == Seq::<(Seq<char>, L)>::empty(),
    {
        let checker = HealthChecker { checks: Registry::new(), orphans: Vec::new() };
        assert(checker@.orphans =~= Seq::<(Seq<char>, L)>::empty());
        checker
    }

    /// Registers the loop that has been spawned for `task_id`.
    ///
    /// A loop registered before is displaced, not cancelled: it runs on and
    /// stays in the table's books as a stray.
    pub fn start_checking(&mut self, task_id: &str, handle: L)
        ensures
            final(self)@ == old(self)@.start(task_id@, handle),
            final(self)@.active(task_id@) == old(self)@.active(task_id@).push(handle),
    {
        let ghost before = self@;
        match self.checks.insert(task_id, handle) {
            Some(previous) => {
                self.orphans.push(Slot { key: task_id.to_owned(), value: previous });
                proof {
                    let n = before.orphans.len() as int;
                    assert(self@.orphans =~= before.orphans.push((task_id@, previous)));
                    lemma_strays_prefix(self@.orphans, task_id@, n, before.orphans);
                    assert(strays_of(self@.orphans, task_id@, n + 1) == strays_of(
                        self@.orphans,
                        task_id@,
                        n,
                    ).push(previous));
                    assert(self@.active(task_id@) =~= before.active(task_id@).push(handle));
                }
            },
            None => {
                proof {
                    assert(self@.active(task_id@) =~= before.active(task_id@).push(handle));
                }
            },
        }
    }

    /// Takes the loop registered for `task_id` out and hands it back to be
    /// cancelled. Without one nothing changes.
    pub fn stop_checking(&mut self, task_id: &str) -> (cancel: Option<L>)
        ensures
            final(self)@ == old(self)@.stop(task_id@),
            cancel == if old(self)@.registered.dom().contains(task_id@) {
                Some(old(self)@.registered[task_id@])
            } else {
                None
            },
    {
        self.checks.remove(task_id)
    }

    /// Registers the loop that has been spawned for `task_id` in place of
    /// every loop that ran for it, and hands those back to be cancelled,
    /// the oldest first.
    pub fn restart_checking(&mut self, task_id: &str, handle: L) -> (cancel: Vec<L>)
        ensures
            final(self)@ == old(self)@.restart(task_id@, handle),
            cancel@ == old(self)@.active(task_id@),
            final(self)@.active(task_id@) == seq![handle],
    {
        let ghost before = self@;
        let mut cancel: Vec<L> = Vec::new();
        let previous = self.stop_checking(task_id);
        let key = task_id.to_owned();
        let mut all: Vec<Slot<L>> = Vec::new();
        std::mem::swap(&mut self.orphans, &mut all);
        let mut kept: Vec<Slot<L>> = Vec::new();
        let ghost whole = strays_view(all@);
        let ghost mut taken: int = 0;
        proof {
            assert(cancel@ =~= strays_of(whole, task_id@, 0));
            assert(strays_view(kept@) =~= others_of(whole, task_id@, 0));
        }
        while all.len() > 0
            invariant
                key@ == task_id@,
                0 <= taken <= whole.len(),
                all@.len() + taken == whole.len(),
                forall|i: int|
                    0 <= i < all@.len() ==> (all@[i].key@, all@[i].value) == whole[taken + i],
                cancel@ == strays_of(whole, task_id@, taken),
                strays_view(kept@) == others_of(whole, task_id@, taken),
            decreases all@.len(),
        {
            let slot = all.remove(0);
            proof {
                assert((slot.key@, slot.value) == whole[taken]);
                taken = taken + 1;
            }
            if slot.key == key {
                cancel.push(slot.value);
            } else {
                let ghost kept_before = strays_view(kept@);
                kept.push(slot);
                proof {
                    assert(strays_view(kept@) =~= kept_before.push((slot.key@, slot.value)));
                }
            }
        }
        self.orphans = kept;
        match previous {
            Some(registered) => {
                cancel.push(registered);
            },
            None => {},
        }
        let _ = self.checks.insert(task_id, handle);
        proof {
            assert(before.registered.remove(task_id@).insert(task_id@, handle)
                =~= before.registered.insert(task_id@, handle));
            assert(self@.registered == before.restart(task_id@, handle).registered);
            assert(self@.orphans == before.restart(task_id@, handle).orphans);
            assert(cancel@ =~= before.active(task_id@));
            law_restart_leaves_one_loop(before, task_id@, handle);
        }
        cancel
    }

    /// Empties the table for teardown and hands back every loop, registered
    /// or stray, each to be cancelled.
    pub fn shutdown(&mut self) -> (cancel: Vec<L>)
        ensures
            final(self)@.registered == Map::<Seq<char>, L>::empty(),
            final(self)@.orphans == Seq::<(Seq<char>, L)>::empty(),
            forall|id: Seq<char>|
                old(self)@.registered.dom().contains(id) ==> cancel@.contains(
                    #[trigger] old(self)@.registered[id],
                ),
            forall|i: int|
                0 <= i < old(self)@.orphans.len() ==> cancel@.contains(
                    (#[trigger] old(self)@.orphans[i]).1,
                ),
    {
        let ghost before = self@;
        let ghost listing = self.checks.listing();
        let mut cancel = self.checks.drain();
        let ghost first = cancel@;
        let mut all: Vec<Slot<L>> = Vec::new();
        std::mem::swap(&mut self.orphans, &mut all);
        let ghost whole = all@;
        let ghost mut taken: int = 0;
        assert(self@.orphans =~= Seq::<(Seq<char>, L)>::empty());
        while all.len() > 0
            invariant
                0 <= taken <= whole.len(),
                all@.len() + taken == whole.len(),
                forall|i: int| 0 <= i < all@.len() ==> all@[i] == whole[taken + i],
                cancel@.len() == first.len() + taken,
                forall|i: int| 0 <= i < first.len() ==> cancel@[i] == first[i],
                forall|i: int| 0 <= i < taken ==> cancel@[first.len() + i] == whole[i].value,
            decreases all@.len(),
        {
            let slot = all.remove(0);
            proof {
                assert(slot == whole[taken]);
                taken = taken + 1;
            }
            cancel.push(slot.value);
        }
        proof {
            assert forall|id: Seq<char>| before.registered.dom().contains(id) implies cancel@.contains(
                #[trigger] before.registered[id],
            ) by {
                assert(listing.contains(id));
                let i = choose|i: int| 0 <= i < listing.len() && listing[i] == id;
                assert(first[i] == before.registered[listing[i]]);
                assert(cancel@[i] == first[i]);
            }
            assert forall|i: int| 0 <= i < before.orphans.len() implies cancel@.contains(
                (#[trigger] before.orphans[i]).1,
            ) by {
                assert(cancel@[first.len() + i] == whole[i].value);
            }
        }
        cancel
    }
}

/// The declaration that is probed for `task`: the legacy one, if the
/// service carries it. A service with the typed declaration, or with
/// none, is not monitored.
pub fn monitored(task: &Service) -> (check: Option<&HealthCheck>)
    ensures
        check == match task.health_check {
            Some(HealthCheckUnion::Old(legacy)) => Some(&legacy),
            _ => None,
        },
{
    match &task.health_check {
        Some(HealthCheckUnion::Old(legacy)) => Some(legacy),
        _ => None,
    }
}

/// What a probe of the declaration has to do.
pub fn check(declared: &HealthCheck) -> (probe: Probe<'_>)
    ensures
        probe@ == probe_of(*declared),
{
    if declared.kind == String::from_str("tcp") {
        match declared.port {
            Some(port) => {
                if port == 0 {
                    Probe::Settled(String::from_str("TCP port not specified"))
                } else {
                    let host = match &declared.host {
                        Some(host) => host.as_str(),
                        None => "localhost",
                    };
                    Probe::Tcp { host, port }
                }
            },
            None => Probe::Settled(String::from_str("TCP port not specified")),
        }
    } else if declared.kind == String::from_str("http") {
        match &declared.url {
            Some(url) => Probe::Http { url: url.as_str(), timeout: declared.timeout },
            None => Probe::Settled(String::from_str("HTTP URL not specified")),
        }
    } else {
        Probe::Settled(
            String::from_str("Unknown health check type: ").concat(declared.kind.as_str()),
        )
    }
}

/// What a connection attempt means for a `tcp` check.
pub fn check_tcp(connected: Result<(), String>) -> (outcome: (bool, String))
    ensures
        (outcome.0, outcome.1@) == tcp_verdict(
            match connected {
                Ok(()) => Ok(()),
                Err(reason) => Err(reason@),
            },
        ),
{
    match connected {
        Ok(()) => (true, String::from_str("TCP connection successful")),
        Err(reason) => (
            false,
            String::from_str("TCP connection failed: ").concat(reason.as_str()),
        ),
    }
}

/// What a fetch means for an `http` check, once it is known whether the
/// status is in the success class and how it reads.
pub fn http_outcome(response: Result<(bool, String), String>) -> (outcome: (bool, String))
    ensures
        (outcome.0, outcome.1@) == http_verdict(
            match response {
                Ok((success, text)) => Ok((success, text@)),
                Err(reason) => Err(reason@),
            },
        ),
{
    match response {
        Ok((success, text)) => {
            if success {
                (true, String::from_str("HTTP check successful: ").concat(text.as_str()))
            } else {
                (false, String::from_str("HTTP check failed: ").concat(text.as_str()))
            }
        },
        Err(reason) => (false, String::from_str("HTTP request failed: ").concat(reason.as_str())),
    }
}

/// What a fetch means for an `http` check.
pub fn check_http(response: Result<HttpStatus, String>) -> (outcome: (bool, String))
    ensures
        (outcome.0, outcome.1@) == fetch_verdict(
            match response {
                Ok(status) => Ok(status.code()),
                Err(reason) => Err(reason@),
            },
        ),
{
    match response {
        Ok(status) => {
            let code = status.number();
            http_outcome(Ok((status_is_success(code), status_text(code))))
        },
        Err(reason) => http_outcome(Err(reason)),
    }
}

/// The result of one probe cycle, as the notifier gets it.
pub fn report(task_id: &str, outcome: (bool, String)) -> (result: CheckResult)
    ensures
        result.task_id@ == task_id@,
        result.status == outcome.0,
        result.message == outcome.1,
{
    CheckResult { task_id: task_id.to_owned(), status: outcome.0, message: outcome.1 }
}

/// What a probe loop asks its caller to do next.
#[derive(Debug, PartialEq, Eq)]
pub enum Beat<'a> {
    /// Connect to this host and port, and report `Pulse::Connected`.
    Connect { host: &'a str, port: u16 },
    /// Fetch this address within so many seconds, and report
    /// `Pulse::Fetched`.
    Fetch { url: &'a str, timeout: u64 },
    /// Hand this result to the notifier, and report `Pulse::Notified`.
    Notify(CheckResult),
    /// Sleep for so many seconds, and report `Pulse::Slept`.
    Sleep(u64),
}

/// What the caller of a probe loop reports back.
#[derive(Debug, PartialEq, Eq)]
pub enum Pulse {
    /// A connection attempt has ended: made, or failed for this reason.
    Connected(Result<(), String>),
    /// A fetch has ended: with this status, or failed for this reason.
    Fetched(Result<HttpStatus, String>),
    /// The notifier has the result.
    Notified,
    /// The sleep is over.
    Slept,
}

/// Where a probe loop stands.
pub enum Stage {
    /// A probe is due, and it needs a connection or a fetch.
    Due,
    /// This outcome has to be reported.
    Telling(bool, String),
    /// The loop sleeps until the next probe.
    Resting,
}

/// A stage over character sequences.
pub enum StageView {
    /// A probe is due.
    Due,
    /// This outcome has to be reported.
    Telling(bool, Seq<char>),
    /// The loop sleeps until the next probe.
    Resting,
}

impl View for Stage {
    type V = StageView;

    open spec fn view(&self) -> StageView {
        match self {
            Stage::Due => StageView::Due,
            Stage::Telling(status, message) => StageView::Telling(*status, message@),
            Stage::Resting => StageView::Resting,
        }
    }
}

/// A pulse over character sequences.
pub enum PulseView {
    /// A connection attempt has ended.
    Connected(Result<(), Seq<char>>),
    /// A fetch has ended: with a status of this code, or in failure.
    Fetched(Result<u16, Seq<char>>),
    /// The notifier has the result.
    Notified,
    /// The sleep is over.
    Slept,
}

impl View for Pulse {
    type V = PulseView;

    open spec fn view(&self) -> PulseView {
        match self {
            Pulse::Connected(Ok(())) => PulseView::Connected(Ok(())),
            Pulse::Connected(Err(reason)) => PulseView::Connected(Err(reason@)),
            Pulse::Fetched(Ok(status)) => PulseView::Fetched(Ok(status.code())),
            Pulse::Fetched(Err(reason)) => PulseView::Fetched(Err(reason@)),
            Pulse::Notified => PulseView::Notified,
            Pulse::Slept => PulseView::Slept,
        }
    }
}

/// A beat over character sequences.
pub enum BeatView {
    /// Connect to this host and port.
    Connect { host: Seq<char>, port: u16 },
    /// Fetch this address within so many seconds.
    Fetch { url: Seq<char>, timeout: u64 },
    /// Hand this result to the notifier.
    Notify { task_id: Seq<char>, status: bool, message: Seq<char> },
    /// Sleep for so many seconds.
    Sleep(u64),
}

impl<'a> View for Beat<'a> {
    type V = BeatView;

    open spec fn view(&self) -> BeatView {
        match self {
            Beat::Connect { host, port } => BeatView::Connect { host: host@, port: *port },
            Beat::Fetch { url, timeout } => BeatView::Fetch { url: url@, timeout: *timeout },
            Beat::Notify(result) => BeatView::Notify {
                task_id: result.task_id@,
                status: result.status,
                message: result.message@,
            },
            Beat::Sleep(seconds) => BeatView::Sleep(*seconds),
        }
    }
}

/// The stage at which a cycle of the loop begins: a probe that the
/// declaration settles is a failure to report; any other is due.
pub open spec fn opening(declared: HealthCheck) -> StageView {
    match probe_of(declared) {
        ProbeView::Settled(message) => StageView::Telling(false, message),
        _ => StageView::Due,
    }
}

/// The stage after `pulse` has been reported at `stage`.
///
/// A probe that is due takes the outcome of what it asked for, and then
/// has that outcome to report. Once the notifier has the result the loop
/// rests, and after its sleep the next cycle begins. A pulse that does not
/// answer what the loop asked leaves it where it is.
pub open spec fn cycle(declared: HealthCheck, stage: StageView, pulse: PulseView) -> StageView {
    match (stage, pulse) {
        (StageView::Due, PulseView::Connected(connected)) => if probe_of(declared) is Tcp {
            StageView::Telling(tcp_verdict(connected).0, tcp_verdict(connected).1)
        } else {
            stage
        },
        (StageView::Due, PulseView::Fetched(response)) => if probe_of(declared) is Http {
            StageView::Telling(fetch_verdict(response).0, fetch_verdict(response).1)
        } else {
            stage
        },
        (StageView::Telling(_, _), PulseView::Notified) => StageView::Resting,
        (StageView::Resting, PulseView::Slept) => opening(declared),
        _ => stage,
    }
}

/// What the loop asks for at `stage`: the connection or the fetch of its
/// probe, the report of an outcome under the service's id, or a sleep of
/// the declared interval.
pub open spec fn beat_of(task_id: Seq<char>, declared: HealthCheck, stage: StageView) -> BeatView {
    match stage {
        StageView::Due => match probe_of(declared) {
            ProbeView::Tcp { host, port } => BeatView::Connect { host, port },
            ProbeView::Http { url, timeout } => BeatView::Fetch { url, timeout },
            ProbeView::Settled(message) => BeatView::Notify { task_id, status: false, message },
        },
        StageView::Telling(status, message) => BeatView::Notify { task_id, status, message },
        StageView::Resting => BeatView::Sleep(declared.interval),
    }
}

/// The probe loop of one service: probe, report, sleep, and again.
pub struct ProbeLoop<'a> {
    task_id: &'a str,
    declared: &'a HealthCheck,
    stage: Stage,
}

impl<'a> ProbeLoop<'a> {
    /// The id of the service probed.
    pub closed spec fn subject(&self) -> Seq<char> {
        self.task_id@
    }

    /// The declaration probed.
    pub closed spec fn declaration(&self) -> HealthCheck {
        *self.declared
    }

    /// Where the loop stands.
    pub closed spec fn stage(&self) -> StageView {
        self.stage@
    }

    /// The stage at which a cycle begins.
    fn open(declared: &HealthCheck) -> (stage: Stage)
        ensures
            stage@ == opening(*declared),
    {
        match check(declared) {
            Probe::Settled(message) => Stage::Telling(false, message),
            _ => Stage::Due,
        }
    }

    /// A loop for the service `task_id` with the declaration `declared`, at
    /// the beginning of its first cycle.
    pub fn new(task_id: &'a str, declared: &'a HealthCheck) -> (probe_loop: Self)
        ensures
            probe_loop.subject() == task_id@,
            probe_loop.declaration() == *declared,
            probe_loop.stage() == opening(*declared),
    {
        ProbeLoop { task_id, declared, stage: Self::open(declared) }
    }

    /// What the loop asks for where it stands.
    pub fn beat(&self) -> (beat: Beat<'a>)
        ensures
            beat@ == beat_of(self.subject(), self.declaration(), self.stage()),
    {
        match &self.stage {
            Stage::Due => match check(self.declared) {
                Probe::Tcp { host, port } => Beat::Connect { host, port },
                Probe::Http { url, timeout } => Beat::Fetch { url, timeout },
                Probe::Settled(message) => Beat::Notify(report(self.task_id, (false, message))),
            },
            Stage::Telling(status, message) => Beat::Notify(
                report(self.task_id, (*status, message.clone())),
            ),
            Stage::Resting => Beat::Sleep(self.declared.interval),
        }
    }

    /// Takes the caller's report and says what to do next.
    pub fn step(&mut self, pulse: Pulse) -> (beat: Beat<'a>)
        ensures
            final(self).subject() == old(self).subject(),
            final(self).declaration() == old(self).declaration(),
            final(self).stage() == cycle(old(self).declaration(), old(self).stage(), pulse@),
            beat@ == beat_of(final(self).subject(), final(self).declaration(), final(self).stage()),
    {
        let is_tcp = match check(self.declared) {
            Probe::Tcp { host: _, port: _ } => true,
            _ => false,
        };
        let is_http = match check(self.declared) {
            Probe::Http { url: _, timeout: _ } => true,
            _ => false,
        };
        let due = match &self.stage {
            Stage::Due => true,
            _ => false,
        };
        let telling = match &self.stage {
            Stage::Telling(_, _) => true,
            _ => false,
        };
        let resting = match &self.stage {
            Stage::Resting => true,
            _ => false,
        };
        match pulse {
            Pulse::Connected(connected) => {
                if due && is_tcp {
                    let outcome = check_tcp(connected);
                    self.stage = Stage::Telling(outcome.0, outcome.1);
                }
            },
            Pulse::Fetched(response) => {
                if due && is_http {
                    let outcome = check_http(response);
                    self.stage = Stage::Telling(outcome.0, outcome.1);
                }
            },
            Pulse::Notified => {
                if telling {
                    self.stage = Stage::Resting;
                }
            },
            Pulse::Slept => {
                if resting {
                    self.stage = Self::open(self.declared);
                }
            },
        }
        self.beat()
    }
}

/// Every cycle of a probe loop ends in one report and one sleep of the
/// declared interval: whatever the probe comes to, the outcome is told
/// under the service's id, the loop then rests for the interval, and the
/// next cycle begins as the first did.
pub proof fn law_cycle_reports_then_rests(
    task_id: Seq<char>,
    declared: HealthCheck,
    status: bool,
    message: Seq<char>,
)
    ensures
        beat_of(task_id, declared, StageView::Telling(status, message)) == (BeatView::Notify {
            task_id,
            status,
            message,
        }),
        cycle(declared, StageView::Telling(status, message), PulseView::Notified)
            == StageView::Resting,
        beat_of(task_id, declared, StageView::Resting) == BeatView::Sleep(declared.interval),
        cycle(declared, StageView::Resting, PulseView::Slept) == opening(declared),
{
}

} // verus!
