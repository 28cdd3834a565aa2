//! What the shell hands out and takes in: events, actions and their outcomes, and the work that
//! is still to be done.

use vstd::prelude::*;

use crate::job::{Job, JobModel, PendingJob};
use crate::platform::{Answer, PlatformQuery, Query, QueryModel};

verus! {

/// How much one read can land. The link hands over whatever arrived, and partial frames are
/// stitched together, so this is no limit on what a frame may hold.
pub const RX_CAP: usize = 1024;

/// The name the shell's service is advertised under.
pub const SERVICE_NAME: &'static str = "rshell";

/// What the platform reports to the shell.
pub enum Event {
    /// A timer went off.
    Timer,
    /// A client has connected, or accepting one has failed.
    Accepted { handle: i32, status: i32 },
    /// A read is done. The bytes that arrived are the first `len` of the receive buffer.
    Received { status: i32, len: i32, rx: [u8; RX_CAP] },
    /// A frame has left, or sending it has failed.
    Sent { status: i32 },
    /// The link is closed.
    Closed,
    /// Anything else.
    Other,
}

/// What the shell wants done next.
pub enum Action<Q> {
    /// Nothing, until the next event.
    Rest,
    /// Nothing now, but there is more to come.
    Proceed,
    /// Define a Publish & Subscribe key that anyone can read. Answered by [`Outcome::Done`].
    Define { key: u32 },
    /// Publish a value. Answered by [`Outcome::Done`], however it went.
    Publish { key: u32, value: i32 },
    /// Ask for one timer event, in so many milliseconds. Answered by [`Outcome::Done`].
    WakeAfter(i32),
    /// Ask for a timer event every so many milliseconds. Answered by [`Outcome::Done`].
    WakeEvery(i32),
    /// Open the listener under [`SERVICE_NAME`]. Answered by [`Outcome::Listened`].
    Listen,
    /// Start accepting a client. Answered by [`Outcome::Called`].
    Accept,
    /// Start a read into the receive buffer. Answered by [`Outcome::Called`].
    Receive { handle: i32 },
    /// Start sending the frame that is on its way. Answered by [`Outcome::Called`].
    Send { handle: i32 },
    /// Close a client's socket. Answered by [`Outcome::Done`], however it went.
    Close { handle: i32 },
    /// Kill a process. Answered by [`Outcome::Done`], however it went.
    Kill { uid: u32 },
    /// Ask the platform. Answered by [`Outcome::Answered`].
    Ask(Q),
}

/// An action as it is handed out.
pub type ShellAction = Action<PlatformQuery>;

/// The model of an action.
pub type ActionModel = Action<QueryModel>;

impl View for Action<Query<String, Vec<u8>>> {
    type V = ActionModel;

    open spec fn view(&self) -> ActionModel {
        match *self {
            Action::Rest => Action::Rest,
            Action::Proceed => Action::Proceed,
            Action::Define { key } => Action::Define { key },
            Action::Publish { key, value } => Action::Publish { key, value },
            Action::WakeAfter(ms) => Action::WakeAfter(ms),
            Action::WakeEvery(ms) => Action::WakeEvery(ms),
            Action::Listen => Action::Listen,
            Action::Accept => Action::Accept,
            Action::Receive { handle } => Action::Receive { handle },
            Action::Send { handle } => Action::Send { handle },
            Action::Close { handle } => Action::Close { handle },
            Action::Kill { uid } => Action::Kill { uid },
            Action::Ask(query) => Action::Ask(query@),
        }
    }
}

/// How an action went.
pub enum Outcome {
    /// It is done.
    Done,
    /// The listener is up on this channel, or it could not be opened.
    Listened(Result<u8, String>),
    /// Whether the call was taken.
    Called(bool),
    /// What the platform answered.
    Answered(Answer),
}

/// What the shell waits for before it goes on. The parameter is the type of a command under way.
pub enum Await<J> {
    Nothing,
    /// The listener. The first attempt is reported in more words than the later ones.
    Listen { first: bool },
    Accept,
    Receive,
    Send,
    Answer(J),
}

impl View for Await<Job<String, Vec<u8>, crate::scan::FindScan, crate::scan::GrepScan>> {
    type V = Await<JobModel>;

    open spec fn view(&self) -> Await<JobModel> {
        match *self {
            Await::Nothing => Await::Nothing,
            Await::Listen { first } => Await::Listen { first },
            Await::Accept => Await::Accept,
            Await::Receive => Await::Receive,
            Await::Send => Await::Send,
            Await::Answer(job) => Await::Answer(job@),
        }
    }
}

impl Await<JobModel> {
    /// The outcome is of the kind that is waited for.
    pub open spec fn fits(self, outcome: Outcome) -> bool {
        match (self, outcome) {
            (Await::Nothing, Outcome::Done) => true,
            (Await::Listen { .. }, Outcome::Listened(_)) => true,
            (Await::Accept | Await::Receive | Await::Send, Outcome::Called(_)) => true,
            (Await::Answer(job), Outcome::Answered(answer)) => job.awaits(answer),
            _ => false,
        }
    }
}

/// One thing the shell still has to do. The parameters are the types of text, of raw bytes, of a
/// question and of the command that asks it.
pub enum Work<S, B, Q, J> {
    Define { key: u32 },
    Publish { key: u32, value: i32 },
    WakeAfter(i32),
    WakeEvery(i32),
    Listen { first: bool },
    /// Start accepting, if there is a listener and no client, and it has not started yet.
    Accept,
    /// Start a read, if there is a client.
    Receive,
    /// Take the next frame out of the inbound bytes, if a whole one is there, and handle it.
    Frames,
    /// The same, unless the client is gone.
    MoreFrames,
    /// Queue a frame.
    Enqueue { tag: u8, data: B },
    /// Send the next frame, unless one is on its way.
    Transmit,
    /// Get ready for the bytes of a file.
    StartPut { path: S, len: usize },
    Close { handle: i32 },
    Kill { uid: u32 },
    Ask(Q, J),
}

/// Work as the shell holds it.
pub type PlannedWork = Work<String, Vec<u8>, PlatformQuery, PendingJob>;

/// The model of work.
pub type WorkModel = Work<Seq<char>, Seq<u8>, QueryModel, JobModel>;

impl View for Work<String, Vec<u8>, PlatformQuery, PendingJob> {
    type V = WorkModel;

    open spec fn view(&self) -> WorkModel {
        match *self {
            Work::Define { key } => Work::Define { key },
            Work::Publish { key, value } => Work::Publish { key, value },
            Work::WakeAfter(ms) => Work::WakeAfter(ms),
            Work::WakeEvery(ms) => Work::WakeEvery(ms),
            Work::Listen { first } => Work::Listen { first },
            Work::Accept => Work::Accept,
            Work::Receive => Work::Receive,
            Work::Frames => Work::Frames,
            Work::MoreFrames => Work::MoreFrames,
            Work::Enqueue { tag, data } => Work::Enqueue { tag, data: data@ },
            Work::Transmit => Work::Transmit,
            Work::StartPut { path, len } => Work::StartPut { path: path@, len },
            Work::Close { handle } => Work::Close { handle },
            Work::Kill { uid } => Work::Kill { uid },
            Work::Ask(query, job) => Work::Ask(query@, job@),
        }
    }
}

/// The models of a list of work.
pub open spec fn models(list: Seq<PlannedWork>) -> Seq<WorkModel> {
    list.map_values(|w: PlannedWork| w@)
}

} // verus!
