//! Gathering events, and writing them in one transaction.

use vstd::prelude::*;

use crate::db::{Ask, Error, Failure, Request};
use crate::file_handle::FileHandle;
use crate::watcher::event::{changes, Change, Event};
use crate::watcher::task::{Act, Action, Doing, Task};

verus! {

/// How long to wait for another event, in milliseconds.
pub const DEBOUNCE_MS: u64 = 100;

/// Events that are gathered until none has come for a while.
pub struct Debounce {
    queue: Vec<Event>,
}

/// How long to wait for an event.
#[derive(Debug, Clone, Copy, PartialEq, Eq, Structural)]
pub enum Wait {
    /// Until there is one.
    Forever,
    /// No longer than these milliseconds.
    Ms(u64),
}

impl View for Debounce {
    type V = Seq<Change>;

    closed spec fn view(&self) -> Seq<Change> {
        changes(self.queue@)
    }
}

impl Debounce {
    /// No events so far.
    pub fn new() -> (r: Self)
        ensures
            r@ == Seq::<Change>::empty(),
    {
        let r = Debounce { queue: Vec::new() };
        assert(r@ =~= Seq::<Change>::empty());
        r
    }

    /// How long to wait for the next event: the first one may take any time.
    pub fn wait(&self) -> (r: Wait)
        ensures
            r == (if self@.len() == 0 {
                Wait::Forever
            } else {
                Wait::Ms(DEBOUNCE_MS)
            }),
    {
        if self.queue.len() == 0 {
            Wait::Forever
        } else {
            Wait::Ms(DEBOUNCE_MS)
        }
    }

    /// Takes an event in.
    pub fn push(&mut self, event: Event)
        ensures
            final(self)@ == old(self)@.push(event@),
    {
        self.queue.push(event);
        assert(self@ =~= old(self)@.push(event@));
    }

    /// Hands all events over, in the order in which they came, once none has come for a
    /// while.
    pub fn timeout(&mut self) -> (r: Vec<Event>)
        ensures
            changes(r@) == old(self)@,
            final(self)@ == Seq::<Change>::empty(),
    {
        let mut queue: Vec<Event> = Vec::new();
        std::mem::swap(&mut queue, &mut self.queue);
        assert(self@ =~= Seq::<Change>::empty());
        queue
    }
}

/// How far a batch has come.
pub enum Phase {
    /// The transaction begins.
    Begin,
    /// A task is worked on.
    Work(Task),
    /// The transaction is committed.
    Commit,
    /// Nothing is left to do. Unless it was committed, the transaction is undone.
    Finished(Result<(), Error>),
}

/// The meaning of a [`Phase`].
pub enum Stage {
    Begin,
    Work(Doing),
    Commit,
    Finished(Result<(), Error>),
}

impl View for Phase {
    type V = Stage;

    open spec fn view(&self) -> Stage {
        match *self {
            Phase::Begin => Stage::Begin,
            Phase::Work(task) => Stage::Work(task@),
            Phase::Commit => Stage::Commit,
            Phase::Finished(r) => Stage::Finished(r),
        }
    }
}

/// Events that are written in one transaction.
pub struct Batch {
    events: Vec<Event>,
    /// How many events a task was begun for.
    begun: usize,
    phase: Phase,
}

/// The meaning of a [`Batch`].
pub struct Batching {
    /// The changes that no task was begun for.
    pub rest: Seq<Change>,
    pub stage: Stage,
}

impl View for Batch {
    type V = Batching;

    closed spec fn view(&self) -> Batching {
        Batching { rest: changes(self.events@).skip(self.begun as int), stage: self.phase@ }
    }
}

/// What is to be done next.
pub enum BatchAction {
    /// To begin a transaction.
    Begin,
    /// To run the statement of a request.
    Run(Request),
    /// To have a directory discovered.
    Discover(FileHandle),
    /// To commit the transaction.
    Commit,
    /// Nothing.
    Done,
}

/// The meaning of a [`BatchAction`].
pub enum BatchAct {
    Begin,
    Run(Ask),
    Discover(Seq<u8>),
    Commit,
    Done,
}

impl View for BatchAction {
    type V = BatchAct;

    open spec fn view(&self) -> BatchAct {
        match *self {
            BatchAction::Begin => BatchAct::Begin,
            BatchAction::Run(request) => BatchAct::Run(request@),
            BatchAction::Discover(fh) => BatchAct::Discover(fh@),
            BatchAction::Commit => BatchAct::Commit,
            BatchAction::Done => BatchAct::Done,
        }
    }
}

impl Batching {
    /// A batch that begins.
    pub open spec fn new(changes: Seq<Change>) -> Batching {
        Batching { rest: changes, stage: Stage::Begin }
    }

    /// The batch when it turns to the next change; after the last one it is committed.
    pub open spec fn turn(self) -> Batching {
        if self.rest.len() > 0 {
            Batching { rest: self.rest.drop_first(), stage: Stage::Work(self.rest[0].task()) }
        } else {
            Batching { stage: Stage::Commit, ..self }
        }
    }

    /// The batch with a task as far as it has come. The first task that fails ends the
    /// batch.
    pub open spec fn after(self, task: Doing) -> Batching {
        match task.result() {
            None => Batching { stage: Stage::Work(task), ..self },
            Some(Ok(_)) => self.turn(),
            Some(Err(e)) => Batching { stage: Stage::Finished(Err(e)), ..self },
        }
    }

    /// What is to be done next.
    pub open spec fn action(self) -> BatchAct {
        match self.stage {
            Stage::Begin => BatchAct::Begin,
            Stage::Work(task) => match task.action() {
                Act::Run(ask) => BatchAct::Run(ask),
                Act::Discover(fh) => BatchAct::Discover(fh),
                Act::Done => BatchAct::Done,
            },
            Stage::Commit => BatchAct::Commit,
            Stage::Finished(_) => BatchAct::Done,
        }
    }

    /// The batch once a statement, or the begin or the commit of the transaction, has
    /// come to `x`.
    pub open spec fn step(self, x: Result<i64, Failure>) -> Batching {
        match self.stage {
            Stage::Begin => match x {
                Ok(_) => self.turn(),
                Err(failure) => Batching {
                    stage: Stage::Finished(Err(Error::SQLite(failure))),
                    ..self
                },
            },
            Stage::Work(task) => self.after(task.step(x)),
            Stage::Commit => {
                let r = match x {
                    Ok(_) => Ok(()),
                    Err(failure) => Err(Error::SQLite(failure)),
                };
                Batching { stage: Stage::Finished(r), ..self }
            },
            Stage::Finished(_) => self,
        }
    }

    /// The batch once the directory will be discovered.
    pub open spec fn discovered(self) -> Batching {
        match self.stage {
            Stage::Work(task) => self.after(task.discovered()),
            _ => self,
        }
    }

    /// What the batch came to, once nothing is left to do.
    pub open spec fn result(self) -> Option<Result<(), Error>> {
        match self.stage {
            Stage::Finished(r) => Some(r),
            _ => None,
        }
    }
}

impl Batch {
    #[verifier::type_invariant]
    closed spec fn inv(self) -> bool {
        self.begun <= self.events.len()
    }

    /// Begins a batch.
    pub fn new(events: Vec<Event>) -> (r: Self)
        ensures
            r@ == Batching::new(changes(events@)),
    {
        assert(changes(events@).skip(0) =~= changes(events@));
        Batch { events, begun: 0, phase: Phase::Begin }
    }

    /// Turns to the next event.
    fn turn(self) -> (r: Self)
        ensures
            r@ == self@.turn(),
    {
        proof {
            use_type_invariant(&self);
        }
        let Batch { events, begun, .. } = self;
        if begun < events.len() {
            let task = events[begun].task();
            assert(changes(events@).skip(begun as int).drop_first() =~= changes(events@).skip(
                begun + 1,
            ));
            Batch { events, begun: begun + 1, phase: Phase::Work(task) }
        } else {
            Batch { events, begun, phase: Phase::Commit }
        }
    }

    /// Goes on with a task as far as it has come.
    fn after(self, task: Task) -> (r: Self)
        ensures
            r@ == self@.after(task@),
    {
        proof {
            use_type_invariant(&self);
        }
        match task.finish() {
            Err(task) => {
                let Batch { events, begun, .. } = self;
                Batch { events, begun, phase: Phase::Work(task) }
            },
            Ok(Ok(_)) => self.turn(),
            Ok(Err(e)) => {
                let Batch { events, begun, .. } = self;
                Batch { events, begun, phase: Phase::Finished(Err(e)) }
            },
        }
    }

    /// What is to be done next.
    pub fn action(&self) -> (r: BatchAction)
        ensures
            r@ == self@.action(),
    {
        match &self.phase {
            Phase::Begin => BatchAction::Begin,
            Phase::Work(task) => match task.action() {
                Action::Run(request) => BatchAction::Run(request),
                Action::Discover(fh) => BatchAction::Discover(fh),
                Action::Done => BatchAction::Done,
            },
            Phase::Commit => BatchAction::Commit,
            Phase::Finished(_) => BatchAction::Done,
        }
    }

    /// Goes on once a statement, or the begin or the commit of the transaction, has come
    /// to `x`.
    pub fn step(self, x: Result<i64, Failure>) -> (r: Self)
        ensures
            r@ == self@.step(x),
    {
        proof {
            use_type_invariant(&self);
        }
        let Batch { events, begun, phase } = self;
        match phase {
            Phase::Begin => match x {
                Ok(_) => Batch { events, begun, phase: Phase::Begin }.turn(),
                Err(failure) => Batch {
                    events,
                    begun,
                    phase: Phase::Finished(Err(Error::SQLite(failure))),
                },
            },
            Phase::Work(task) => Batch { events, begun, phase: Phase::Commit }.after(task.step(x)),
            Phase::Commit => {
                let r = match x {
                    Ok(_) => Ok(()),
                    Err(failure) => Err(Error::SQLite(failure)),
                };
                Batch { events, begun, phase: Phase::Finished(r) }
            },
            Phase::Finished(r) => Batch { events, begun, phase: Phase::Finished(r) },
        }
    }

    /// Goes on once the directory will be discovered.
    pub fn discovered(self) -> (r: Self)
        ensures
            r@ == self@.discovered(),
    {
        proof {
            use_type_invariant(&self);
        }
        let Batch { events, begun, phase } = self;
        match phase {
            Phase::Work(task) => Batch { events, begun, phase: Phase::Commit }.after(
                task.discovered(),
            ),
            phase => Batch { events, begun, phase },
        }
    }

    /// What the batch came to, or the batch itself if something is left to do.
    pub fn finish(self) -> (r: Result<Result<(), Error>, Batch>)
        ensures
            match r {
                Ok(result) => self@.result() == Some(result),
                Err(batch) => self@.result() is None && batch@ == self@,
            },
    {
        proof {
            use_type_invariant(&self);
        }
        let Batch { events, begun, phase } = self;
        match phase {
            Phase::Finished(r) => Ok(r),
            phase => Err(Batch { events, begun, phase }),
        }
    }
}

} // verus!
