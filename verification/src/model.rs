//! The shell as a state machine: its state, and how events and outcomes change it.
//!
//! An event leaves the shell with work to do. Each step settles the outcome of the last action and
//! then does one piece of that work, which may call for an action. Work that comes up on the way
//! is done before the work that was there.

use vstd::prelude::*;

use crate::command;
use crate::command::Verb;
use crate::job;
use crate::job::{JobModel, Progress, StepModel, MAX_FILE};
use crate::lines;
use crate::number;
use crate::path;
use crate::platform::Answer;
use crate::pubsub;
use crate::reply;
use crate::reply::ReplyModel;
use crate::screen;
use crate::screen::{Area, RowModel, ScreenModel, Tint};
use crate::text;
use crate::wire;
use crate::wire::{Cut, TAG_DATA, TAG_ERR, TAG_OK};
use crate::work::{Action, ActionModel, Await, Event, Outcome, Work, WorkModel};

verus! {

/// The file server's third UID. It is system-permanent: when it dies, the device resets.
pub const EFILE_UID3: u32 = 0x1000_39e3;

/// How often the shell looks after its listener, in milliseconds: often enough to start accepting
/// again promptly, rarely enough to cost nothing on the battery.
pub const SUPERVISION_MS: i32 = 5_000;

/// The model of a `put` in progress: where the bytes go, how many are still to come, and those
/// that have arrived.
#[verifier::ext_equal]
pub struct PutModel {
    pub path: Seq<char>,
    pub remaining: int,
    pub acc: Seq<u8>,
}

/// The state of the shell.
#[verifier::ext_equal]
pub struct ShellModel {
    /// The first timer event has come.
    pub started: bool,
    pub listener_up: bool,
    /// The channel the listener is on.
    pub channel: u8,
    /// The client's socket.
    pub client: Option<i32>,
    /// A call for a client is under way.
    pub accepting: bool,
    /// Inbound bytes that are not taken up as whole frames yet.
    pub inbuf: Seq<u8>,
    /// Outbound frames that wait their turn.
    pub out: Seq<Seq<u8>>,
    /// The outbound frame that is on its way.
    pub inflight: Option<Seq<u8>>,
    /// The working directory.
    pub cwd: Seq<char>,
    pub put: Option<PutModel>,
    pub quit_requested: bool,
    pub reboot_requested: bool,
    pub exit: bool,
    /// The last few notable events, newest last.
    pub log_lines: Seq<Seq<char>>,
    /// How many commands were handled.
    pub cmds: i32,
    /// How many clients were accepted.
    pub clients: i32,
    /// What is still to be done, next first.
    pub agenda: Seq<WorkModel>,
    pub awaiting: Await<JobModel>,
}

/// The frames of a reply, to be queued in order: data first, then how it went.
pub open spec fn reply_work(r: ReplyModel) -> Seq<WorkModel> {
    r.data.map_values(|data: Seq<u8>| WorkModel::Enqueue { tag: TAG_DATA, data }).push(
        Work::Enqueue {
            tag: if r.ok {
                TAG_OK
            } else {
                TAG_ERR
            },
            data: vstd::utf8::encode_utf8(r.text),
        },
    )
}

/// What a command's next step leaves to be done.
pub open spec fn step_work(step: StepModel) -> Seq<WorkModel> {
    match step {
        Progress::Ask(query, job) => seq![Work::Ask(query, job)],
        Progress::Finish(r) => reply_work(r),
    }
}

/// What a command leaves to be done when the answer it waits for has come.
#[verifier::opaque]
pub open spec fn answer_work(job: JobModel, answer: Answer) -> Seq<WorkModel> {
    step_work(job::continued(job, answer))
}

/// The text that a payload holds; none where it is not UTF-8.
pub open spec fn line_in(payload: Seq<u8>) -> Seq<char> {
    if vstd::utf8::valid_utf8(payload) {
        vstd::utf8::decode_utf8(payload)
    } else {
        seq![]
    }
}

/// The first of two numbers that is not larger than the other.
pub open spec fn least(a: int, b: int) -> int {
    if a <= b {
        a
    } else {
        b
    }
}

/// The bytes that a read landed in the receive buffer.
pub open spec fn landed(rx: Seq<u8>, len: int) -> Seq<u8> {
    rx.take(least(len, rx.len() as int))
}

/// What `put <path> <len>` was given: the path and the length behind its last space. Nothing where
/// there is no space, or no number behind it.
pub open spec fn put_args(arg: Seq<char>) -> Option<(Seq<char>, int)> {
    match text::last_index(arg, ' ') {
        Some(i) => match number::parsed(
            text::trimmed(arg.skip(i + 1)),
            10,
            usize::MAX as int,
        ) {
            Some(len) => Some((text::trimmed(arg.take(i)), len)),
            None => None,
        },
        None => None,
    }
}

/// What is said to a `put` that is about to receive its bytes.
pub open spec fn send_text(len: int) -> Seq<char> {
    "send "@ + number::dec(len as nat) + " bytes"@
}

/// What is said when the listener comes up.
pub open spec fn listening_text(channel: u8) -> Seq<char> {
    "listening on channel "@ + number::dec(channel as nat)
}

impl ShellModel {
    /// A shell that has just been made: it asks to be woken, and leaves the real work for then.
    pub open spec fn made() -> ShellModel {
        ShellModel {
            started: false,
            listener_up: false,
            channel: 0,
            client: None,
            accepting: false,
            inbuf: seq![],
            out: seq![],
            inflight: None,
            cwd: "Z:\\"@,
            put: None,
            quit_requested: false,
            reboot_requested: false,
            exit: false,
            log_lines: seq![],
            cmds: 0,
            clients: 0,
            agenda: seq![Work::WakeAfter(1)],
            awaiting: Await::Nothing,
        }
    }

    /// What every operation keeps.
    pub open spec fn wf(self) -> bool {
        &&& path::ends_in_separator(self.cwd)
        &&& self.log_lines.len() <= lines::RECENT
        &&& self.put matches Some(put) ==> 0 < put.remaining && put.acc.len() + put.remaining
            <= MAX_FILE
        &&& self.inflight is Some ==> self.client is Some
        &&& self.accepting ==> self.listener_up && self.client is None
        &&& self.awaiting_wf()
        &&& forall|i: int| 0 <= i < self.agenda.len() ==> work_wf(#[trigger] self.agenda[i])
    }

    /// What is waited for was called for.
    pub open spec fn awaiting_wf(self) -> bool {
        match self.awaiting {
            Await::Nothing | Await::Listen { .. } => true,
            Await::Accept => self.listener_up && self.client is None && !self.accepting,
            Await::Receive => self.client is Some,
            Await::Send => self.inflight is Some,
            Await::Answer(job) => job.wf(),
        }
    }

    /// There is nothing to do and nothing to wait for but the next event.
    pub open spec fn at_rest(self) -> bool {
        self.agenda.len() == 0 && self.awaiting is Nothing
    }

    /// The shell with more to do, before anything else.
    pub open spec fn planned(self, list: Seq<WorkModel>) -> ShellModel {
        ShellModel { agenda: list + self.agenda, ..self }
    }

    /// The shell with a line more for the screen.
    pub open spec fn noted(self, line: Seq<char>) -> ShellModel {
        ShellModel {
            log_lines: lines::last(self.log_lines.push(line), lines::RECENT as int),
            ..self
        }
    }

    /// The shell that has a reply with no data to send.
    pub open spec fn replied(self, r: ReplyModel) -> ShellModel {
        self.planned(reply_work(r))
    }

    /// The shell without its client, if it has one. What was under way for the client is gone, a
    /// reset that it asked for among it, and the shell goes back to accepting.
    pub open spec fn dropped(self) -> ShellModel {
        let s = ShellModel {
            client: None,
            inbuf: seq![],
            out: seq![],
            inflight: None,
            put: None,
            reboot_requested: false,
            ..self
        };
        match self.client {
            Some(handle) => s.noted("client disconnected"@).planned(
                seq![
                    Work::Close { handle },
                    Work::Publish { key: pubsub::KEY_STATE, value: pubsub::STATE_LISTENING },
                    Work::Accept,
                ],
            ),
            None => s.planned(seq![Work::Accept]),
        }
    }

    // -----------------------------------------------------------------------------------------
    // The screen.

    /// The title, with the channel once there is one.
    pub open spec fn title(self) -> Seq<char> {
        if self.listener_up {
            "RFCOMM shell"@ + "  ch "@ + number::dec(self.channel as nat)
        } else {
            "RFCOMM shell"@
        }
    }

    /// What the shell is doing.
    pub open spec fn status(self) -> Seq<char> {
        if self.client is Some {
            "client: connected"@
        } else if self.listener_up {
            "waiting for a client"@
        } else {
            "starting..."@
        }
    }

    /// All that the shell shows.
    pub open spec fn shown(self, area: Area, line_h: i32) -> ScreenModel {
        ScreenModel {
            title: self.title(),
            left: None,
            right: Some("Exit"@),
            rows: seq![
                RowModel {
                    top: area.top as int,
                    bottom: area.top + line_h,
                    text: self.status(),
                    tint: Tint::Accent,
                },
            ] + screen::stacked(
                self.log_lines,
                Tint::Text,
                area.top + line_h,
                area.bottom as int,
                line_h as int,
            ),
        }
    }

    // -----------------------------------------------------------------------------------------
    // Events.

    /// The first timer event: bring the listener up and ask for a heartbeat.
    pub open spec fn start_begun(self) -> ShellModel {
        ShellModel { started: true, ..self }.planned(
            seq![
                Work::Define { key: pubsub::KEY_STATE },
                Work::Define { key: pubsub::KEY_CHANNEL },
                Work::Define { key: pubsub::KEY_CMDS },
                Work::Define { key: pubsub::KEY_CLIENTS },
                Work::Listen { first: true },
                Work::WakeEvery(SUPERVISION_MS),
            ],
        )
    }

    /// A later timer event: bring the listener up if it is not, and accept if that stopped.
    pub open spec fn ticked(self) -> ShellModel {
        if self.listener_up {
            self.planned(seq![Work::Accept])
        } else {
            self.planned(seq![Work::Listen { first: false }, Work::Accept])
        }
    }

    /// A client has connected, or accepting one has failed.
    pub open spec fn accepted(self, handle: i32, status: i32) -> ShellModel {
        if status == 0 && handle >= 0 {
            let clients = self.clients.wrapping_add(1);
            ShellModel {
                accepting: false,
                client: Some(handle),
                inbuf: seq![],
                out: seq![],
                inflight: None,
                put: None,
                reboot_requested: false,
                clients,
                ..self
            }.noted("client connected"@).planned(
                seq![
                    Work::Publish { key: pubsub::KEY_CLIENTS, value: clients },
                    Work::Publish { key: pubsub::KEY_STATE, value: pubsub::STATE_CONNECTED },
                    Work::Enqueue {
                        tag: TAG_OK,
                        data: vstd::utf8::encode_utf8("rshell ready"@),
                    },
                    Work::Receive,
                ],
            )
        } else {
            ShellModel { accepting: false, ..self }.planned(seq![Work::Accept])
        }
    }

    /// A read is done. An error or an empty read is how the link reports the client going away.
    pub open spec fn received(self, status: i32, len: int, rx: Seq<u8>) -> ShellModel {
        if status != 0 || len == 0 {
            self.dropped()
        } else {
            ShellModel { inbuf: self.inbuf + landed(rx, len), ..self }.planned(
                seq![Work::Frames, Work::Receive],
            )
        }
    }

    /// A frame has left, or sending it has failed. With nothing more to send, a reboot or an exit
    /// that was asked for is due.
    pub open spec fn sent(self, status: i32) -> ShellModel {
        let s = ShellModel { inflight: None, ..self };
        if status != 0 {
            s.dropped()
        } else if self.out.len() > 0 {
            s.planned(seq![Work::Transmit])
        } else if self.reboot_requested {
            ShellModel { reboot_requested: false, ..s }.planned(
                seq![
                    Work::Kill { uid: EFILE_UID3 },
                    Work::Enqueue {
                        tag: TAG_ERR,
                        data: vstd::utf8::encode_utf8(
                            "file-server kill returned but the phone is still up"@,
                        ),
                    },
                    Work::Transmit,
                ],
            )
        } else if self.quit_requested {
            ShellModel { exit: true, ..s }
        } else {
            s
        }
    }

    /// What an event makes of the shell.
    pub open spec fn routed(self, event: Event) -> ShellModel {
        match event {
            Event::Timer => if self.started {
                self.ticked()
            } else {
                self.start_begun()
            },
            Event::Accepted { handle, status } => self.accepted(handle, status),
            Event::Received { status, len, rx } => self.received(
                status,
                if len < 0 {
                    0
                } else {
                    len as int
                },
                rx@,
            ),
            Event::Sent { status } => self.sent(status),
            Event::Closed => self.dropped(),
            Event::Other => self,
        }
    }

    // -----------------------------------------------------------------------------------------
    // Frames from the client.

    /// The shell with a payload handled: bytes for a `put` in progress, or else a line.
    pub open spec fn handled(self, payload: Seq<u8>) -> ShellModel {
        match self.put {
            Some(put) => ShellModel { put: None, ..self }.put_fed(put, payload),
            None => {
                let cmds = self.cmds.wrapping_add(1);
                ShellModel { cmds, ..self }.dispatched(line_in(payload)).planned(
                    seq![Work::Publish { key: pubsub::KEY_CMDS, value: cmds }],
                )
            },
        }
    }

    /// The shell with bytes for a `put`. When the last of them is there, the file is written;
    /// bytes beyond it are dropped.
    pub open spec fn put_fed(self, put: PutModel, data: Seq<u8>) -> ShellModel {
        let n = least(data.len() as int, put.remaining);
        let acc = put.acc + data.take(n);
        if put.remaining == n {
            self.planned(step_work(command::write_begun(put.path, acc)))
        } else {
            ShellModel {
                put: Some(PutModel { path: put.path, remaining: put.remaining - n, acc }),
                ..self
            }
        }
    }

    /// The working directory that `cd` goes to.
    pub open spec fn cd_target(self, arg: Seq<char>) -> Seq<char> {
        let a = text::trimmed(arg);
        if a == ".."@ {
            path::parent(self.cwd)
        } else if a.len() == 0 {
            self.cwd
        } else {
            path::resolved_dir(self.cwd, a)
        }
    }

    /// The shell with `cd [path]` begun: it has moved, and says where to.
    pub open spec fn cd_begun(self, arg: Seq<char>) -> ShellModel {
        let s = ShellModel { cwd: self.cd_target(arg), ..self };
        s.replied(reply::success(s.cwd))
    }

    /// The shell with `reboot now` begun. The reset waits for the reply to leave: a client that
    /// never hears back cannot tell a reboot from a broken link.
    pub open spec fn reboot_begun(self, arg: Seq<char>) -> ShellModel {
        if text::trimmed(arg) == "now"@ {
            ShellModel { reboot_requested: true, ..self }.replied(
                reply::success(
                    "rebooting: killing the file server once this reply is on the wire"@,
                ),
            )
        } else {
            self.replied(
                reply::failure(
                    "usage: reboot now  (hard reset via the file server; nothing is flushed first)"@,
                ),
            )
        }
    }

    /// The shell with `put <path> <len>` begun: it says that the bytes may come. A file of no
    /// bytes is written at once.
    pub open spec fn put_begun(self, arg: Seq<char>) -> ShellModel {
        match put_args(arg) {
            None => self.replied(reply::failure("usage: put <path> <len>"@)),
            Some((file, len)) => {
                let path = path::resolved(self.cwd, file);
                if len > MAX_FILE {
                    self.replied(
                        reply::failure(
                            number::dec(len as nat) + " bytes is too large for put"@,
                        ),
                    )
                } else if len == 0 {
                    self.planned(step_work(command::write_begun(path, seq![])))
                } else {
                    self.planned(
                        reply_work(reply::success(send_text(len))) + seq![
                            Work::StartPut { path, len: len as usize },
                        ],
                    )
                }
            },
        }
    }

    /// The shell with a line handled: it is noted, and its command begun.
    #[verifier::opaque]
    pub open spec fn dispatched(self, line: Seq<char>) -> ShellModel {
        let arg = command::line_arg(line);
        let s = if text::trimmed(line).len() == 0 {
            self
        } else {
            self.noted(text::trimmed(line))
        };
        match command::line_verb(line) {
            Verb::Blank => s,
            Verb::Pwd => s.replied(reply::success(s.cwd)),
            Verb::Cd => s.cd_begun(arg),
            Verb::Put => s.put_begun(arg),
            Verb::Reboot => s.reboot_begun(arg),
            Verb::Ping => s.replied(reply::success("pong"@)),
            Verb::Quit => ShellModel { quit_requested: true, ..s }.replied(
                reply::success("bye"@),
            ),
            Verb::Ls => s.planned(step_work(command::ls_begun(s.cwd, arg))),
            Verb::Cat => s.planned(step_work(command::cat_begun(s.cwd, arg))),
            Verb::Rm => s.planned(step_work(command::rm_begun(s.cwd, arg))),
            Verb::Mkdir => s.planned(step_work(command::mkdir_begun(s.cwd, arg))),
            Verb::Stat => s.planned(step_work(command::stat_begun(s.cwd, arg))),
            Verb::Find => s.planned(step_work(command::find_begun(s.cwd, arg))),
            Verb::Grep => s.planned(step_work(command::grep_begun(s.cwd, arg))),
            Verb::Exec => s.planned(step_work(command::exec_begun(s.cwd, arg))),
            Verb::Ps => s.planned(step_work(command::ps_begun(arg))),
            Verb::Cenrep => s.planned(step_work(command::cenrep_begun(arg))),
            Verb::Hal => s.planned(step_work(command::hal_begun(arg))),
            Verb::Unknown => s.replied(
                reply::failure(
                    "unknown verb (pwd cd ls stat cat get put rm mkdir find grep exec reboot ps cenrep hal ping quit)"@,
                ),
            ),
        }
    }

    /// The shell with the frame at the front of the inbound bytes handled, if a whole one is
    /// there. A frame that claims to be too large costs the client the link.
    pub open spec fn frame_taken(self) -> ShellModel {
        match wire::front(self.inbuf) {
            Cut::Partial => self,
            Cut::Oversize => self.dropped(),
            Cut::Whole(payload) => ShellModel {
                inbuf: wire::behind(self.inbuf),
                ..self
            }.planned(seq![Work::MoreFrames]).handled(payload),
        }
    }

    // -----------------------------------------------------------------------------------------
    // Steps.

    /// The listener has come up, or could not be opened.
    pub open spec fn listened(self, first: bool, result: Result<u8, String>) -> ShellModel {
        match result {
            Ok(channel) => {
                let s = ShellModel { listener_up: true, channel, ..self };
                let told = seq![
                    Work::Publish { key: pubsub::KEY_CHANNEL, value: channel as i32 },
                    Work::Publish { key: pubsub::KEY_STATE, value: pubsub::STATE_LISTENING },
                ];
                if first {
                    s.noted(listening_text(channel)).planned(told + seq![Work::Accept])
                } else {
                    s.planned(told)
                }
            },
            Err(e) => if first {
                self.noted("listen failed: "@ + e@).planned(
                    seq![Work::Publish { key: pubsub::KEY_STATE, value: pubsub::STATE_DOWN }],
                )
            } else {
                self
            },
        }
    }

    /// The shell with the outcome of its last action taken in.
    pub open spec fn settled(self, outcome: Outcome) -> ShellModel {
        let s = ShellModel { awaiting: Await::Nothing, ..self };
        match self.awaiting {
            Await::Nothing => s,
            Await::Listen { first } => s.listened(first, outcome->Listened_0),
            Await::Accept => ShellModel { accepting: outcome->Called_0, ..s },
            Await::Receive | Await::Send => if outcome->Called_0 {
                s
            } else {
                s.dropped()
            },
            Await::Answer(job) => s.planned(answer_work(job, outcome->Answered_0)),
        }
    }

    /// The next frame goes on its way, unless there is none, one is on its way already, or there
    /// is nobody to send it to.
    pub open spec fn transmitted(self) -> (ShellModel, ActionModel) {
        match (self.inflight, self.client) {
            (None, Some(handle)) if self.out.len() > 0 => (
                ShellModel {
                    inflight: Some(self.out[0]),
                    out: self.out.skip(1),
                    awaiting: Await::Send,
                    ..self
                },
                Action::Send { handle },
            ),
            _ => (self, Action::Proceed),
        }
    }

    /// The shell with a frame more to send, and the next one on its way.
    pub open spec fn enqueued(self, tag: u8, data: Seq<u8>) -> (ShellModel, ActionModel) {
        ShellModel { out: self.out.push(wire::tagged(tag, data)), ..self }.transmitted()
    }

    /// The shell with one piece of work done, and the action that it calls for.
    pub open spec fn done(self, work: WorkModel) -> (ShellModel, ActionModel) {
        match work {
            Work::Define { key } => (self, Action::Define { key }),
            Work::Publish { key, value } => (self, Action::Publish { key, value }),
            Work::WakeAfter(ms) => (self, Action::WakeAfter(ms)),
            Work::WakeEvery(ms) => (self, Action::WakeEvery(ms)),
            Work::Listen { first } => (
                ShellModel { awaiting: Await::Listen { first }, ..self },
                Action::Listen,
            ),
            Work::Accept => if self.accepting || self.client is Some || !self.listener_up {
                (self, Action::Proceed)
            } else {
                (ShellModel { awaiting: Await::Accept, ..self }, Action::Accept)
            },
            Work::Receive => match self.client {
                Some(handle) => (
                    ShellModel { awaiting: Await::Receive, ..self },
                    Action::Receive { handle },
                ),
                None => (self, Action::Proceed),
            },
            Work::Frames => (self.frame_taken(), Action::Proceed),
            Work::MoreFrames => if self.client is Some {
                (self.frame_taken(), Action::Proceed)
            } else {
                (self, Action::Proceed)
            },
            Work::Enqueue { tag, data } => self.enqueued(tag, data),
            Work::Transmit => self.transmitted(),
            Work::StartPut { path, len } => (
                ShellModel {
                    put: Some(PutModel { path, remaining: len as int, acc: seq![] }),
                    ..self
                },
                Action::Proceed,
            ),
            Work::Close { handle } => (self, Action::Close { handle }),
            Work::Kill { uid } => (self, Action::Kill { uid }),
            Work::Ask(query, job) => (
                ShellModel { awaiting: Await::Answer(job), ..self },
                Action::Ask(query),
            ),
        }
    }

    /// The shell with the first piece of its work done, and the action that it calls for.
    pub open spec fn performed(self) -> (ShellModel, ActionModel) {
        if self.agenda.len() == 0 {
            (self, Action::Rest)
        } else {
            ShellModel { agenda: self.agenda.skip(1), ..self }.done(self.agenda[0])
        }
    }

    /// One step: the outcome of the last action is taken in, and the next piece of work is done.
    pub open spec fn stepped(self, outcome: Outcome) -> (ShellModel, ActionModel) {
        self.settled(outcome).performed()
    }
}

/// A piece of work that can be done as it stands.
pub open spec fn work_wf(work: WorkModel) -> bool {
    match work {
        Work::StartPut { len, .. } => 0 < len <= MAX_FILE,
        Work::Ask(query, job) => job.wf() && job::asks_for(query, job),
        _ => true,
    }
}

/// More to do keeps the shell in order.
pub proof fn lemma_planned_wf(s: ShellModel, list: Seq<WorkModel>)
    requires
        s.wf(),
        forall|i: int| 0 <= i < list.len() ==> work_wf(#[trigger] list[i]),
    ensures
        s.planned(list).wf(),
{
    let r = s.planned(list);
    assert forall|i: int| 0 <= i < r.agenda.len() implies work_wf(#[trigger] r.agenda[i]) by {
        if i < list.len() {
            assert(r.agenda[i] == list[i]);
        } else {
            assert(r.agenda[i] == s.agenda[i - list.len()]);
        }
    }
}

/// Letting the client go keeps the shell in order.
proof fn lemma_dropped_wf(s: ShellModel)
    requires
        s.wf(),
        s.awaiting is Nothing,
    ensures
        s.dropped().wf(),
        s.dropped().awaiting is Nothing,
{
    let t = ShellModel {
        client: None,
        inbuf: seq![],
        out: seq![],
        inflight: None,
        put: None,
        reboot_requested: false,
        ..s
    };
    assert(t.wf());
    match s.client {
        Some(handle) => {
            let list = seq![
                Work::Close { handle },
                Work::Publish { key: pubsub::KEY_STATE, value: pubsub::STATE_LISTENING },
                Work::Accept,
            ];
            lemma_planned_wf(t.noted("client disconnected"@), list);
        },
        None => lemma_planned_wf(t, seq![Work::Accept]),
    }
}

/// An event keeps the shell in order.
pub proof fn lemma_routed_wf(s: ShellModel, event: Event)
    requires
        s.wf(),
        s.at_rest(),
    ensures
        s.routed(event).wf(),
{
    match event {
        Event::Timer => {},
        Event::Accepted { .. } => {},
        Event::Received { status, len, .. } => {
            if status != 0 || len <= 0 {
                lemma_dropped_wf(s);
            }
        },
        Event::Sent { status } => {
            if status != 0 {
                lemma_dropped_wf(ShellModel { inflight: None, ..s });
            }
        },
        Event::Closed => lemma_dropped_wf(s),
        Event::Other => {},
    }
}

/// The outcome of an action keeps the shell in order.
pub proof fn lemma_settled_wf(s: ShellModel, outcome: Outcome)
    requires
        s.wf(),
        s.awaiting.fits(outcome),
    ensures
        s.settled(outcome).wf(),
        s.settled(outcome).awaiting is Nothing,
{
    match s.awaiting {
        Await::Answer(job) => {
            reveal(answer_work);
            let t = ShellModel { awaiting: Await::Nothing, ..s };
            job::lemma_continued_wf(job, outcome->Answered_0);
            lemma_begun_wf(t, job::continued(job, outcome->Answered_0));
        },
        _ => {},
    }
}

/// What a command's next step leaves to be done can be done as it stands.
proof fn lemma_step_work_wf(step: StepModel)
    requires
        step.wf(),
    ensures
        forall|i: int| 0 <= i < step_work(step).len() ==> work_wf(#[trigger] step_work(step)[i]),
{
}

/// A `put` keeps the shell in order.
proof fn lemma_put_begun_wf(s: ShellModel, arg: Seq<char>)
    requires
        s.wf(),
    ensures
        s.put_begun(arg).wf(),
{
    match put_args(arg) {
        None => {},
        Some((file, len)) => {
            let path = path::resolved(s.cwd, file);
            let i = text::last_index(arg, ' ')->0;
            number::lemma_parsed_bounds(text::trimmed(arg.skip(i + 1)), 10, usize::MAX as int);
            lemma_step_work_wf(command::write_begun(path, seq![]));
            if len > MAX_FILE {
            } else if len == 0 {
                lemma_planned_wf(s, step_work(command::write_begun(path, seq![])));
            } else {
                let list = reply_work(reply::success(send_text(len))) + seq![
                    Work::StartPut { path, len: len as usize },
                ];
                lemma_planned_wf(s, list);
            }
        },
    }
}

/// A reply keeps the shell in order.
proof fn lemma_replied_wf(s: ShellModel, r: ReplyModel)
    requires
        s.wf(),
    ensures
        s.replied(r).wf(),
{
    lemma_planned_wf(s, reply_work(r));
}

/// A `reboot` keeps the shell in order.
proof fn lemma_reboot_begun_wf(s: ShellModel, arg: Seq<char>)
    requires
        s.wf(),
    ensures
        s.reboot_begun(arg).wf(),
{
    let asked = ShellModel { reboot_requested: true, ..s };
    lemma_replied_wf(
        asked,
        reply::success("rebooting: killing the file server once this reply is on the wire"@),
    );
    lemma_replied_wf(
        s,
        reply::failure(
            "usage: reboot now  (hard reset via the file server; nothing is flushed first)"@,
        ),
    );
}

/// A line keeps the shell in order.
proof fn lemma_dispatched_wf(s: ShellModel, line: Seq<char>)
    requires
        s.wf(),
    ensures
        s.dispatched(line).wf(),
        s.dispatched(line).awaiting == s.awaiting,
{
    reveal(ShellModel::dispatched);
    let arg = command::line_arg(line);
    let t = if text::trimmed(line).len() == 0 {
        s
    } else {
        s.noted(text::trimmed(line))
    };
    assert(t.wf());
    match command::line_verb(line) {
        Verb::Blank => {},
        Verb::Pwd => lemma_replied_wf(t, reply::success(t.cwd)),
        Verb::Cd => {
            path::law_the_parent_is_a_directory_above(t.cwd);
            let there = ShellModel { cwd: t.cd_target(arg), ..t };
            lemma_replied_wf(there, reply::success(there.cwd));
        },
        Verb::Reboot => lemma_reboot_begun_wf(t, arg),
        Verb::Ping => lemma_replied_wf(t, reply::success("pong"@)),
        Verb::Quit => lemma_replied_wf(
            ShellModel { quit_requested: true, ..t },
            reply::success("bye"@),
        ),
        Verb::Unknown => lemma_replied_wf(
            t,
            reply::failure(
                "unknown verb (pwd cd ls stat cat get put rm mkdir find grep exec reboot ps cenrep hal ping quit)"@,
            ),
        ),
        Verb::Put => lemma_put_begun_wf(t, arg),
        Verb::Ls => lemma_begun_wf(t, command::ls_begun(t.cwd, arg)),
        Verb::Cat => lemma_begun_wf(t, command::cat_begun(t.cwd, arg)),
        Verb::Rm => lemma_begun_wf(t, command::rm_begun(t.cwd, arg)),
        Verb::Mkdir => lemma_begun_wf(t, command::mkdir_begun(t.cwd, arg)),
        Verb::Stat => lemma_begun_wf(t, command::stat_begun(t.cwd, arg)),
        Verb::Find => lemma_begun_wf(t, command::find_begun(t.cwd, arg)),
        Verb::Grep => lemma_begun_wf(t, command::grep_begun(t.cwd, arg)),
        Verb::Exec => lemma_begun_wf(t, command::exec_begun(t.cwd, arg)),
        Verb::Ps => lemma_begun_wf(t, command::ps_begun(arg)),
        Verb::Cenrep => lemma_begun_wf(t, command::cenrep_begun(arg)),
        Verb::Hal => lemma_begun_wf(t, command::hal_begun(arg)),
    }
}

/// A command that leaves the shell itself alone keeps it in order.
proof fn lemma_begun_wf(s: ShellModel, step: StepModel)
    requires
        s.wf(),
        step.wf(),
    ensures
        s.planned(step_work(step)).wf(),
{
    lemma_step_work_wf(step);
    lemma_planned_wf(s, step_work(step));
}

/// A frame from the client keeps the shell in order.
proof fn lemma_frame_taken_wf(s: ShellModel)
    requires
        s.wf(),
        s.awaiting is Nothing,
    ensures
        s.frame_taken().wf(),
        s.frame_taken().awaiting is Nothing,
{
    match wire::front(s.inbuf) {
        Cut::Partial => {},
        Cut::Oversize => {},
        Cut::Whole(payload) => {
            let t = ShellModel { inbuf: wire::behind(s.inbuf), ..s };
            lemma_planned_wf(t, seq![Work::MoreFrames]);
            let u = t.planned(seq![Work::MoreFrames]);
            match u.put {
                Some(put) => {
                    let v = ShellModel { put: None, ..u };
                    let n = least(payload.len() as int, put.remaining);
                    lemma_begun_wf(v, command::write_begun(put.path, put.acc + payload.take(n)));
                },
                None => {
                    let v = ShellModel { cmds: u.cmds.wrapping_add(1), ..u };
                    lemma_dispatched_wf(v, line_in(payload));
                    lemma_planned_wf(
                        v.dispatched(line_in(payload)),
                        seq![Work::Publish { key: pubsub::KEY_CMDS, value: v.cmds }],
                    );
                },
            }
        },
    }
}

/// A piece of work keeps the shell in order.
pub proof fn lemma_performed_wf(s: ShellModel)
    requires
        s.wf(),
        s.awaiting is Nothing,
    ensures
        s.performed().0.wf(),
        s.performed().1 is Rest ==> s.performed().0.at_rest(),
{
    if s.agenda.len() > 0 {
        let t = ShellModel { agenda: s.agenda.skip(1), ..s };
        assert forall|i: int| 0 <= i < t.agenda.len() implies work_wf(#[trigger] t.agenda[i]) by {
            assert(t.agenda[i] == s.agenda[i + 1]);
        }
        assert(t.wf());
        assert(work_wf(s.agenda[0]));
        lemma_frame_taken_wf(t);
    }
}

/// A line plans, and may move the shell or ask for its end. It leaves the rest alone.
pub proof fn lemma_a_line_sends_nothing(s: ShellModel, line: Seq<char>)
    ensures
        s.dispatched(line).out == s.out,
        s.dispatched(line).inflight == s.inflight,
        s.dispatched(line).client == s.client,
        s.dispatched(line).inbuf == s.inbuf,
        s.dispatched(line).put == s.put,
        s.dispatched(line).accepting == s.accepting,
        s.dispatched(line).listener_up == s.listener_up,
        s.dispatched(line).exit == s.exit,
        s.dispatched(line).cmds == s.cmds,
        s.dispatched(line).clients == s.clients,
        s.dispatched(line).awaiting == s.awaiting,
        s.dispatched(line).started == s.started,
{
    reveal(ShellModel::dispatched);
}

} // verus!
