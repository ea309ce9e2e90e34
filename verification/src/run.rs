//! A run: one orchestrator command in progress.
//!
//! Starting a service means starting what it depends on first, and what
//! happens next depends on what the process manager answers. A run holds
//! the position reached. It names the next thing to do as an [`Action`];
//! the caller does it and reports the outcome as an [`Event`]; the run
//! moves on. Nothing here spawns, kills or sleeps.
//!
//! What a run does is what its model, a [`Machine`], does.

use crate::catalog::{find, pointed_at};
use crate::config::{DependencyType, Service};
use crate::machine::{
    drive, enter, lemma_advance, lemma_bounds, lemma_bump, lemma_fresh, lemma_logged,
    lemma_pop, lemma_push, lemma_same_position, lemma_spawn, step, wrapped, ActionView,
    EventView, FrameView, ItemView, Machine, Policy, Record, Signal, Waiting,
};
use crate::orchestrator::{OrchestratorError, OrchestratorErrorView};
use crate::process::ProcessError;
use vstd::prelude::*;

verus! {

/// One top-level item of a run.
#[derive(Debug, Clone, Copy)]
pub enum Item<'a> {
    /// Start the service of this id, dependencies first.
    Start(&'a str, Policy),
    /// Block for this many milliseconds.
    Pause(u64),
    /// Stop the service of this id. A failure ends the run.
    Stop(&'a str),
    /// Restart this service with its launch parameters. A failure ends the
    /// run.
    Restart(&'a Service),
    /// End the run with a circular-dependency error.
    Stuck,
}

impl<'a> View for Item<'a> {
    type V = ItemView;

    open spec fn view(&self) -> ItemView {
        match self {
            Item::Start(id, policy) => ItemView::Start(id@, *policy),
            Item::Pause(ms) => ItemView::Pause(*ms),
            Item::Stop(id) => ItemView::Stop(id@),
            Item::Restart(service) => ItemView::Restart(**service),
            Item::Stuck => ItemView::Stuck,
        }
    }
}

/// The views of a list of items.
pub open spec fn items_view(items: Seq<Item<'_>>) -> Seq<ItemView> {
    Seq::new(items.len(), |i: int| items[i]@)
}

/// A service whose start is under way.
pub struct Frame<'a> {
    service: &'a Service,
    next: usize,
}

impl<'a> View for Frame<'a> {
    type V = FrameView;

    closed spec fn view(&self) -> FrameView {
        FrameView { service: *self.service, next: self.next as int }
    }
}

/// The views of a stack of frames.
pub open spec fn frames_view(frames: Seq<Frame<'_>>) -> Seq<FrameView> {
    Seq::new(frames.len(), |i: int| frames[i]@)
}

/// What a run asks its caller to do next.
#[derive(Debug)]
pub enum Action<'a> {
    /// Ask the process manager whether the service of this id is live, and
    /// report `Event::Alive`.
    Probe(&'a str),
    /// Block for this many milliseconds, and report `Event::Elapsed`.
    Pause(u64),
    /// Spawn this service's process, and report `Event::Outcome`.
    Launch(&'a Service),
    /// Stop the service of this id, and report `Event::Outcome`.
    Halt(&'a str),
    /// Stop this service if it runs and spawn it again, and report
    /// `Event::Outcome`.
    Relaunch(&'a Service),
    /// Nothing more: the command has ended with this result.
    Finish(Result<(), OrchestratorError>),
}

/// A result with its error as a view.
pub open spec fn verdict(result: Result<(), OrchestratorError>) -> Result<
    (),
    OrchestratorErrorView,
> {
    match result {
        Ok(()) => Ok(()),
        Err(e) => Err(e@),
    }
}

impl<'a> View for Action<'a> {
    type V = ActionView;

    open spec fn view(&self) -> ActionView {
        match self {
            Action::Probe(id) => ActionView::Probe(id@),
            Action::Pause(ms) => ActionView::Pause(*ms),
            Action::Launch(service) => ActionView::Launch(**service),
            Action::Halt(id) => ActionView::Halt(id@),
            Action::Relaunch(service) => ActionView::Relaunch(**service),
            Action::Finish(result) => ActionView::Finish(verdict(*result)),
        }
    }
}

/// What the caller reports back.
#[derive(Debug, PartialEq, Eq)]
pub enum Event {
    /// The answer to a probe.
    Alive(bool),
    /// A pause has ended.
    Elapsed,
    /// What the process manager made of a launch, a stop or a restart.
    Outcome(Result<(), ProcessError>),
}

impl View for Event {
    type V = EventView;

    open spec fn view(&self) -> EventView {
        match self {
            Event::Alive(alive) => EventView::Alive(*alive),
            Event::Elapsed => EventView::Elapsed,
            Event::Outcome(Ok(())) => EventView::Outcome(Ok(())),
            Event::Outcome(Err(e)) => EventView::Outcome(Err(e@)),
        }
    }
}

/// What wakes a run up: the executable form of a signal.
enum Wake {
    Resume,
    Return(Ghost<Seq<char>>, Result<(), OrchestratorError>),
}

impl Wake {
    spec fn signal(&self) -> Signal {
        match self {
            Wake::Resume => Signal::Resume,
            Wake::Return(callee, result) => Signal::Return(callee@, verdict(*result)),
        }
    }
}

/// A run in progress over the services of one snapshot.
pub struct Run<'a> {
    nodes: Vec<&'a Service>,
    agenda: Vec<Item<'a>>,
    cursor: usize,
    stack: Vec<Frame<'a>>,
    waiting: Waiting,
    outcome: Option<Result<(), OrchestratorError>>,
    journal: Ghost<Seq<Record>>,
}

impl<'a> View for Run<'a> {
    type V = Machine;

    closed spec fn view(&self) -> Machine {
        Machine {
            agenda: items_view(self.agenda@),
            cursor: self.cursor as int,
            stack: frames_view(self.stack@),
            waiting: self.waiting,
            outcome: match self.outcome {
                Some(result) => Some(verdict(result)),
                None => None,
            },
            journal: self.journal@,
        }
    }
}

impl<'a> Run<'a> {
    /// The services that ids are resolved against.
    pub closed spec fn catalog(&self) -> Seq<Service> {
        pointed_at(self.nodes@)
    }

    /// Whether the run is well formed.
    pub open spec fn wf(&self) -> bool {
        self@.wf()
    }

    /// A run that works through `agenda`, resolving ids against `nodes`. It
    /// stands at the first thing it has to ask for.
    pub fn new(nodes: Vec<&'a Service>, agenda: Vec<Item<'a>>) -> (run: Self)
        ensures
            run.wf(),
            run.catalog() == pointed_at(nodes@),
            run@ == drive(
                pointed_at(nodes@),
                Machine::fresh(items_view(agenda@)),
                Signal::Resume,
            ),
    {
        let mut run = Run {
            nodes,
            agenda,
            cursor: 0,
            stack: Vec::new(),
            waiting: Waiting::Over,
            outcome: None,
            journal: Ghost(Seq::empty()),
        };
        proof {
            assert(run@ =~= Machine::fresh(items_view(agenda@)));
            lemma_fresh(items_view(agenda@));
        }
        run.drive(Wake::Resume);
        run
    }

    /// A run that is over before it began, with `error`.
    pub fn failed(nodes: Vec<&'a Service>, error: OrchestratorError) -> (run: Self)
        ensures
            run.wf(),
            run.catalog() == pointed_at(nodes@),
            run@ == Machine::failed(error@),
    {
        let run = Run {
            nodes,
            agenda: Vec::new(),
            cursor: 0,
            stack: Vec::new(),
            waiting: Waiting::Over,
            outcome: Some(Err(error)),
            journal: Ghost(Seq::empty()),
        };
        proof {
            assert(run@ =~= Machine::failed(error@));
            crate::machine::lemma_failed(error@);
        }
        run
    }

    /// Whether the run has ended.
    pub fn is_over(&self) -> (over: bool)
        ensures
            over == (self@.waiting == Waiting::Over),
    {
        match self.waiting {
            Waiting::Over => true,
            _ => false,
        }
    }

    /// What the run asks for in the state it is in.
    pub fn pending(&self) -> (action: Action<'a>)
        requires
            self.wf(),
        ensures
            action@ == self@.action(),
    {
        proof {
            lemma_bounds(self@);
        }
        match self.waiting {
            Waiting::Entry => {
                let top = &self.stack[self.stack.len() - 1];
                Action::Probe(top.service.id.as_str())
            },
            Waiting::Conflict => {
                let top = &self.stack[self.stack.len() - 1];
                Action::Probe(top.service.edge(top.next).target)
            },
            Waiting::Settle => {
                let top = &self.stack[self.stack.len() - 1];
                match top.service.edge(top.next).wait {
                    Some(ms) => Action::Pause(ms),
                    None => Action::Pause(0),
                }
            },
            Waiting::Launch => {
                let top = &self.stack[self.stack.len() - 1];
                Action::Launch(top.service)
            },
            Waiting::Pace => match self.agenda[self.cursor] {
                Item::Pause(ms) => Action::Pause(ms),
                _ => Action::Pause(0),
            },
            Waiting::Halt => match self.agenda[self.cursor] {
                Item::Stop(id) => Action::Halt(id),
                _ => Action::Pause(0),
            },
            Waiting::Relaunch => match self.agenda[self.cursor] {
                Item::Restart(service) => Action::Relaunch(service),
                _ => Action::Pause(0),
            },
            Waiting::Over => match &self.outcome {
                Some(Ok(())) => Action::Finish(Ok(())),
                Some(Err(e)) => Action::Finish(Err(e.duplicate())),
                None => Action::Finish(Ok(())),
            },
        }
    }

    /// Takes the caller's report and says what to do next.
    ///
    /// The run moves as [`step`] says, and the action is the one that the
    /// new state asks for. A report that does not answer the pending action
    /// changes nothing, and the action is asked for again.
    pub fn step(&mut self, event: Event) -> (action: Action<'a>)
        requires
            old(self).wf(),
        ensures
            final(self).wf(),
            final(self).catalog() == old(self).catalog(),
            final(self)@ == step(old(self).catalog(), old(self)@, event@),
            action@ == final(self)@.action(),
    {
        self.take(event);
        self.pending()
    }

    /// Moves the run as the caller's report says.
    fn take(&mut self, event: Event)
        requires
            old(self).wf(),
        ensures
            final(self).wf(),
            final(self).catalog() == old(self).catalog(),
            final(self)@ == step(old(self).catalog(), old(self)@, event@),
    {
        let ghost before = self@;
        proof {
            lemma_bounds(before);
        }
        match self.waiting {
            Waiting::Entry => match event {
                Event::Alive(true) => {
                    let frame = self.unwind(Ghost(Ok(())));
                    self.drive(Wake::Return(Ghost(frame.service.id@), Ok(())));
                },
                Event::Alive(false) => {
                    self.drive(Wake::Resume);
                },
                _ => {},
            },
            Waiting::Conflict => match event {
                Event::Alive(true) => {
                    let top = &self.stack[self.stack.len() - 1];
                    let service: &'a Service = top.service;
                    let blocker = service.edge(top.next).target;
                    let error = OrchestratorError::ConflictingService(
                        service.id.clone(),
                        blocker.to_owned(),
                    );
                    let _ = self.unwind(Ghost(Err(error@)));
                    self.drive(Wake::Return(Ghost(service.id@), Err(error)));
                },
                Event::Alive(false) => {
                    self.skip();
                    self.drive(Wake::Resume);
                },
                _ => {},
            },
            Waiting::Settle => match event {
                Event::Elapsed => {
                    self.skip();
                    self.drive(Wake::Resume);
                },
                _ => {},
            },
            Waiting::Launch => match event {
                Event::Outcome(outcome) => {
                    let result = match outcome {
                        Ok(()) => Ok(()),
                        Err(e) => Err(OrchestratorError::from(e)),
                    };
                    let frame = self.unwind(Ghost(verdict(result)));
                    self.drive(Wake::Return(Ghost(frame.service.id@), result));
                },
                _ => {},
            },
            Waiting::Pace => match event {
                Event::Elapsed => {
                    self.forward();
                    self.drive(Wake::Resume);
                },
                _ => {},
            },
            Waiting::Halt => match event {
                Event::Outcome(outcome) => {
                    self.settle(outcome);
                },
                _ => {},
            },
            Waiting::Relaunch => match event {
                Event::Outcome(outcome) => {
                    self.settle(outcome);
                },
                _ => {},
            },
            Waiting::Over => {},
        }
    }

    /// Takes the outcome of a stop or a restart of the agenda.
    fn settle(&mut self, outcome: Result<(), ProcessError>)
        requires
            old(self).wf(),
            old(self)@.waiting == Waiting::Halt || old(self)@.waiting == Waiting::Relaunch,
        ensures
            final(self).wf(),
            final(self).catalog() == old(self).catalog(),
            final(self)@ == step(old(self).catalog(), old(self)@, Event::Outcome(outcome)@),
    {
        let ghost before = self@;
        match outcome {
            Ok(()) => {
                self.forward();
                self.drive(Wake::Resume);
            },
            Err(e) => {
                self.waiting = Waiting::Over;
                self.outcome = Some(Err(OrchestratorError::from(e)));
                proof {
                    assert(self@ =~= before.finish(wrapped(Err(e@))));
                    lemma_same_position(before, self@);
                }
            },
        }
    }

    /// Moves the agenda on to its next item.
    fn forward(&mut self)
        requires
            old(self)@.chained(),
            old(self)@.sound(),
            old(self)@.stack.len() == 0,
            old(self)@.at_item(),
        ensures
            final(self).catalog() == old(self).catalog(),
            final(self)@ == old(self)@.advance(),
            final(self)@.ready(Signal::Resume),
    {
        let ghost before = self@;
        assert(self.cursor < self.agenda.len());
        self.cursor = self.cursor + 1;
        proof {
            assert(self@ =~= before.advance());
            lemma_advance(before);
        }
    }

    /// Takes the top frame off the stack.
    fn unwind(&mut self, result: Ghost<Result<(), OrchestratorErrorView>>) -> (frame: Frame<'a>)
        requires
            old(self)@.chained(),
            old(self)@.sound(),
            old(self)@.stack.len() > 0,
        ensures
            final(self).catalog() == old(self).catalog(),
            final(self)@ == old(self)@.pop(),
            frame@ == old(self)@.top(),
            final(self)@.ready(Signal::Return(frame@.service.id@, result@)),
            final(self)@.stack.len() == old(self)@.stack.len() - 1,
    {
        let ghost before = self@;
        let frame = self.stack.pop().unwrap();
        proof {
            assert(self@ =~= before.pop());
            lemma_pop(before, result@);
        }
        frame
    }

    /// Moves the top frame on to its next dependency.
    fn skip(&mut self)
        requires
            old(self)@.chained(),
            old(self)@.sound(),
            old(self)@.stack.len() > 0,
            old(self)@.top().open_edge(),
            old(self)@.top().kind() == DependencyType::Required ==> credited_here(old(self)@),
        ensures
            final(self).catalog() == old(self).catalog(),
            final(self)@ == old(self)@.bump(),
            final(self)@.ready(Signal::Resume),
            final(self)@.stack.len() == old(self)@.stack.len(),
            0 <= final(self)@.remaining() < old(self)@.remaining(),
    {
        let ghost before = self@;
        let mut frame = self.stack.pop().unwrap();
        assert(frame@ == before.top());
        let count = frame.service.count_edges();
        assert(frame.next < count);
        frame.next = frame.next + 1;
        self.stack.push(frame);
        proof {
            assert(self@ =~= before.bump());
            lemma_bump(before);
        }
    }

    /// Enters the start of the service that `id` means, if there is one.
    fn enter(&mut self, id: &str) -> (entered: bool)
        requires
            old(self)@.chained(),
            old(self)@.sound(),
            if old(self)@.stack.len() == 0 {
                old(self)@.at_item() && old(self)@.item() is Start && old(self)@.item()->Start_0
                    == id@
            } else {
                old(self)@.top().awaits(id@)
            },
        ensures
            final(self).catalog() == old(self).catalog(),
            entered == (enter(old(self).catalog(), old(self)@, id@) is Some),
            entered ==> final(self)@ == enter(old(self).catalog(), old(self)@, id@)->Some_0
                && final(self)@.wf(),
            !entered ==> final(self)@ == old(self)@,
    {
        let ghost before = self@;
        match find(&self.nodes, id) {
            Some(i) => {
                let service: &'a Service = self.nodes[i];
                self.stack.push(Frame { service, next: 0 });
                self.waiting = Waiting::Entry;
                proof {
                    assert(self.catalog()[i as int] == *service);
                    assert(self@ =~= before.push(*service).wait(Waiting::Entry));
                    lemma_push(self.catalog(), before, id@);
                }
                true
            },
            None => false,
        }
    }

    /// Settles the run in `waiting`, at the place where it stands.
    fn rest(&mut self, waiting: Waiting)
        requires
            old(self)@.chained(),
            old(self)@.sound(),
        ensures
            final(self).catalog() == old(self).catalog(),
            final(self)@ == old(self)@.wait(waiting),
            final(self)@.chained(),
            final(self)@.sound(),
    {
        let ghost before = self@;
        self.waiting = waiting;
        proof {
            assert(self@ =~= before.wait(waiting));
            lemma_same_position(before, self@);
        }
    }

    /// Ends the run with `result`.
    fn end(&mut self, result: Result<(), OrchestratorError>)
        requires
            old(self)@.chained(),
            old(self)@.sound(),
            old(self)@.stack.len() == 0,
        ensures
            final(self).catalog() == old(self).catalog(),
            final(self)@ == old(self)@.finish(verdict(result)),
            final(self)@.wf(),
    {
        let ghost before = self@;
        self.waiting = Waiting::Over;
        self.outcome = Some(result);
        proof {
            assert(self@ =~= before.finish(verdict(result)));
            lemma_same_position(before, self@);
        }
    }

    /// Enters the return of a start in the journal.
    fn note(&mut self, callee: Ghost<Seq<char>>, result: &Result<(), OrchestratorError>)
        requires
            old(self)@.ready(Signal::Return(callee@, verdict(*result))),
        ensures
            final(self).catalog() == old(self).catalog(),
            final(self)@ == old(self)@.log(Record::Returned(callee@, *result is Ok)),
            final(self)@.ready(Signal::Return(callee@, verdict(*result))),
            *result is Ok ==> crate::machine::credited(final(self)@.journal, callee@),
    {
        let ghost before = self@;
        let ghost ok = *result is Ok;
        self.journal = Ghost(self.journal@.push(Record::Returned(callee@, ok)));
        proof {
            assert(self@ =~= before.log(Record::Returned(callee@, ok)));
            lemma_logged(before, callee@, verdict(*result));
        }
    }

    /// Asks for the launch of the top frame's service.
    fn launch(&mut self)
        requires
            old(self)@.chained(),
            old(self)@.sound(),
            old(self)@.stack.len() > 0,
            !old(self)@.top().open_edge(),
        ensures
            final(self).catalog() == old(self).catalog(),
            final(self)@ == old(self)@.log(Record::Spawn(old(self)@.top().service)).wait(
                Waiting::Launch,
            ),
            final(self)@.wf(),
    {
        let ghost before = self@;
        self.journal = Ghost(self.journal@.push(Record::Spawn(before.top().service)));
        self.waiting = Waiting::Launch;
        proof {
            assert(self@ =~= before.log(Record::Spawn(before.top().service)).wait(Waiting::Launch));
            lemma_spawn(before);
        }
    }

    /// Brings the run to the state in which it next asks for something.
    fn drive(&mut self, wake: Wake)
        requires
            old(self)@.ready(wake.signal()),
        ensures
            final(self).catalog() == old(self).catalog(),
            final(self)@ == drive(old(self).catalog(), old(self)@, wake.signal()),
            final(self)@.wf(),
    {
        let ghost catalog = self.catalog();
        let ghost goal = drive(catalog, self@, wake.signal());
        let mut wake = wake;
        loop
            invariant_except_break
                self@.ready(wake.signal()),
                drive(catalog, self@, wake.signal()) == goal,
            invariant
                self.catalog() == catalog,
            ensures
                self.catalog() == catalog,
                self@ == goal,
                self@.wf(),
            decreases
                    self@.agenda.len() - self@.cursor,
                    self@.stack.len(),
                    self@.remaining(),
                    wake.signal().rank(),
        {
            let ghost before = self@;
            proof {
                lemma_bounds(before);
            }
            match wake {
                Wake::Return(callee, result) => {
                    self.note(callee, &result);
                    if self.stack.len() == 0 {
                        let abort = match (self.agenda[self.cursor], &result) {
                            (Item::Start(_, Policy::Abort), Err(_)) => true,
                            _ => false,
                        };
                        if abort {
                            self.end(result);
                            break ;
                        }
                        self.forward();
                        wake = Wake::Resume;
                    } else {
                        let top = &self.stack[self.stack.len() - 1];
                        let service: &'a Service = top.service;
                        let edge = service.edge(top.next);
                        let required = match edge.kind {
                            DependencyType::Required => true,
                            _ => false,
                        };
                        if required && result.is_err() {
                            let _ = self.unwind(Ghost(verdict(result)));
                            wake = Wake::Return(Ghost(service.id@), result);
                        } else if required && edge.wait.is_some() {
                            self.rest(Waiting::Settle);
                            break ;
                        } else {
                            self.skip();
                            wake = Wake::Resume;
                        }
                    }
                },
                Wake::Resume => {
                    if self.stack.len() == 0 {
                        if self.cursor < self.agenda.len() {
                            match self.agenda[self.cursor] {
                                Item::Start(id, _) => {
                                    if self.enter(id) {
                                        break ;
                                    }
                                    wake =
                                    Wake::Return(
                                        Ghost(id@),
                                        Err(OrchestratorError::TaskNotFound(id.to_owned())),
                                    );
                                },
                                Item::Pause(_) => {
                                    self.rest(Waiting::Pace);
                                    break ;
                                },
                                Item::Stop(_) => {
                                    self.rest(Waiting::Halt);
                                    break ;
                                },
                                Item::Restart(_) => {
                                    self.rest(Waiting::Relaunch);
                                    break ;
                                },
                                Item::Stuck => {
                                    self.end(Err(OrchestratorError::CircularDependency));
                                    break ;
                                },
                            }
                        } else {
                            self.end(Ok(()));
                            break ;
                        }
                    } else {
                        let top = &self.stack[self.stack.len() - 1];
                        let service: &'a Service = top.service;
                        let next = top.next;
                        if next < service.count_edges() {
                            let edge = service.edge(next);
                            match edge.kind {
                                DependencyType::Conflict => {
                                    self.rest(Waiting::Conflict);
                                    break ;
                                },
                                _ => {
                                    if self.enter(edge.target) {
                                        break ;
                                    }
                                    wake =
                                    Wake::Return(
                                        Ghost(edge.target@),
                                        Err(OrchestratorError::TaskNotFound(edge.target.to_owned())),
                                    );
                                },
                            }
                        } else {
                            self.launch();
                            break ;
                        }
                    }
                },
            }
        }
    }
}

/// Whether the start that the top frame waits for has returned with success.
pub open spec fn credited_here(m: Machine) -> bool {
    crate::machine::credited(m.journal, m.top().target())
}

} // verus!
