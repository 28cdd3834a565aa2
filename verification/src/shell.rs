//! The shell itself: the executable form of the state machine.

use std::collections::VecDeque;

use vstd::prelude::*;
use vstd::slice::slice_subrange;
use vstd::slice::slice_to_vec;

use crate::command::{
    cmd_cat, cmd_cenrep, cmd_exec, cmd_find, cmd_grep, cmd_hal, cmd_ls, cmd_mkdir, cmd_ps, cmd_rm,
    cmd_stat, parse_line, write_file, Verb,
};
use crate::job::{counted, resume, waits_for, CommandStep, PendingJob, Progress, MAX_FILE};
use crate::lines::{keep_last, RECENT};
use crate::listing;
use crate::model;
use crate::model::{PutModel, ShellModel, EFILE_UID3, SUPERVISION_MS};
use crate::number::{parse_usize, push_count, push_dec};
use crate::path::{parent_of, resolve_dir, resolve_path};
use crate::pubsub;
use crate::reply;
use crate::reply::{say_err, say_error, say_ok, Reply};
use crate::screen::{push_rows, Area, Handled, Key, Row, Screen, Tint};
use crate::text::{chars_of, rfind_char, spells, string_of, trim};
use crate::utf8::utf8_text;
use crate::wire;
use crate::wire::{
    cut_frame, declared, push_bytes, tagged_frame, Cut, MAX_FRAME, TAG_DATA, TAG_ERR, TAG_OK,
};
use crate::work;
use crate::work::{Action, Await, Event, Outcome, PlannedWork, ShellAction, Work, RX_CAP};

verus! {

/// A `put` in progress: where the bytes go, how many are still to come, and those that have
/// arrived.
struct Put {
    path: String,
    remaining: usize,
    acc: Vec<u8>,
}

impl View for Put {
    type V = PutModel;

    closed spec fn view(&self) -> PutModel {
        PutModel { path: self.path@, remaining: self.remaining as int, acc: self.acc@ }
    }
}

/// The remote shell: one RFCOMM server, one client at a time.
pub struct Shell {
    started: bool,
    listener_up: bool,
    channel: u8,
    client: Option<i32>,
    accepting: bool,
    inbuf: Vec<u8>,
    out: VecDeque<Vec<u8>>,
    inflight: Option<Vec<u8>>,
    cwd: String,
    put: Option<Put>,
    quit_requested: bool,
    reboot_requested: bool,
    exit: bool,
    log_lines: Vec<String>,
    cmds: i32,
    clients: i32,
    agenda: VecDeque<PlannedWork>,
    awaiting: Await<PendingJob>,
}

impl View for Shell {
    type V = ShellModel;

    closed spec fn view(&self) -> ShellModel {
        ShellModel {
            started: self.started,
            listener_up: self.listener_up,
            channel: self.channel,
            client: self.client,
            accepting: self.accepting,
            inbuf: self.inbuf@,
            out: reply::contents(self.out@),
            inflight: match self.inflight {
                Some(frame) => Some(frame@),
                None => None,
            },
            cwd: self.cwd@,
            put: match self.put {
                Some(put) => Some(put@),
                None => None,
            },
            quit_requested: self.quit_requested,
            reboot_requested: self.reboot_requested,
            exit: self.exit,
            log_lines: listing::texts(self.log_lines@),
            cmds: self.cmds,
            clients: self.clients,
            agenda: work::models(self.agenda@),
            awaiting: self.awaiting@,
        }
    }
}

/// Puts a list of work before what is planned.
fn plan_before(agenda: &mut VecDeque<PlannedWork>, list: Vec<PlannedWork>)
    ensures
        work::models(final(agenda)@) == work::models(list@) + work::models(old(agenda)@),
{
    let mut list = list;
    let ghost all = list@;
    let ghost start = agenda@;
    assert(all.skip(all.len() as int) + start =~= start);
    while list.len() > 0
        invariant
            list@.len() <= all.len(),
            list@ == all.take(list@.len() as int),
            agenda@ == all.skip(list@.len() as int) + start,
        decreases list@.len(),
    {
        let ghost n = list@.len() as int;
        if let Some(w) = list.pop() {
            assert(w == all[n - 1]);
            assert(all.skip(n - 1) =~= seq![w] + all.skip(n));
            agenda.push_front(w);
            assert(agenda@ =~= all.skip(n - 1) + start);
            assert(list@ =~= all.take(n - 1));
        }
    }
    assert(all.skip(0) =~= all);
    assert(work::models(agenda@) =~= work::models(all) + work::models(start));
}

/// Puts the frames of a reply before what is planned.
fn plan_reply_before(agenda: &mut VecDeque<PlannedWork>, r: Reply)
    ensures
        work::models(final(agenda)@) == model::reply_work(r@) + work::models(old(agenda)@),
{
    let ghost start = work::models(agenda@);
    let ghost all = r@.data;
    let ghost text = vstd::utf8::encode_utf8(r.text@);
    let tag: u8 = if r.ok {
        TAG_OK
    } else {
        TAG_ERR
    };
    let bytes = slice_to_vec(r.text.as_str().as_bytes());
    agenda.push_front(Work::Enqueue { tag, data: bytes });
    let mut data = r.data;
    let ghost frames = model::reply_work(r@);
    assert(work::models(agenda@) =~= frames.skip(all.len() as int) + start);
    while data.len() > 0
        invariant
            data@.len() <= all.len(),
            reply::contents(data@) == all.take(data@.len() as int),
            frames.len() == all.len() + 1,
            forall|i: int|
                0 <= i < all.len() ==> #[trigger] frames[i] == (work::WorkModel::Enqueue {
                    tag: TAG_DATA,
                    data: all[i],
                }),
            work::models(agenda@) == frames.skip(data@.len() as int) + start,
        decreases data@.len(),
    {
        let ghost n = data@.len() as int;
        let ghost before = agenda@;
        let ghost held = reply::contents(data@);
        assert(held[n - 1] == data@[n - 1]@);
        if let Some(chunk) = data.pop() {
            assert(chunk@ == all[n - 1]);
            let w = Work::Enqueue { tag: TAG_DATA, data: chunk };
            assert(w@ == frames[n - 1]);
            agenda.push_front(w);
            assert(work::models(agenda@) =~= seq![w@] + work::models(before));
            assert(frames.skip(n - 1) =~= seq![w@] + frames.skip(n));
            assert(work::models(agenda@) =~= frames.skip(n - 1) + start);
            assert(reply::contents(data@) =~= all.take(n - 1));
        }
    }
    assert(frames.skip(0) =~= frames);
}

impl Shell {
    /// A shell that has just been made. The constructor is cheap: the real work waits for the
    /// timer event it asks for.
    pub fn new() -> (r: Shell)
        ensures
            r@ == ShellModel::made(),
            r@.wf(),
    {
        let mut agenda: VecDeque<PlannedWork> = VecDeque::new();
        agenda.push_back(Work::WakeAfter(1));
        let r = Shell {
            started: false,
            listener_up: false,
            channel: 0,
            client: None,
            accepting: false,
            inbuf: Vec::new(),
            out: VecDeque::new(),
            inflight: None,
            cwd: "Z:\\".to_owned(),
            put: None,
            quit_requested: false,
            reboot_requested: false,
            exit: false,
            log_lines: Vec::new(),
            cmds: 0,
            clients: 0,
            agenda,
            awaiting: Await::Nothing,
        };
        proof {
            reveal_strlit("Z:\\");
        }
        assert(r@ =~= ShellModel::made());
        r
    }

    /// Puts a list of work before anything else.
    fn plan(&mut self, list: Vec<PlannedWork>)
        ensures
            final(self)@ == old(self)@.planned(work::models(list@)),
    {
        plan_before(&mut self.agenda, list);
        assert(self@ =~= old(self)@.planned(work::models(list@)));
    }

    /// Puts what a command's next step leaves to be done before anything else.
    fn plan_step(&mut self, step: CommandStep)
        ensures
            final(self)@ == old(self)@.planned(model::step_work(step@)),
    {
        match step {
            Progress::Ask(query, job) => {
                self.agenda.push_front(Work::Ask(query, job));
            },
            Progress::Finish(r) => plan_reply_before(&mut self.agenda, r),
        }
        assert(self@ =~= old(self)@.planned(model::step_work(step@)));
    }

    /// Records a line for the screen, keeping only the most recent handful.
    fn note(&mut self, s: &str)
        ensures
            final(self)@ == old(self)@.noted(s@),
    {
        self.log_lines.push(s.to_owned());
        assert(listing::texts(self.log_lines@) =~= old(self)@.log_lines.push(s@));
        keep_last(&mut self.log_lines, RECENT);
        assert(self@ =~= old(self)@.noted(s@));
    }

    /// Plans a reply that says a command succeeded.
    fn send_ok(&mut self, msg: &str)
        ensures
            final(self)@ == old(self)@.replied(reply::success(msg@)),
    {
        self.plan_step(Progress::Finish(say_ok(msg.to_owned())));
    }

    /// Plans a reply that says a command failed.
    fn send_err(&mut self, msg: &str)
        ensures
            final(self)@ == old(self)@.replied(reply::failure(msg@)),
    {
        self.plan_step(Progress::Finish(say_error(msg)));
    }

    /// Lets the client go, if there is one, and goes back to accepting.
    fn drop_client(&mut self)
        ensures
            final(self)@ == old(self)@.dropped(),
    {
        let client = self.client;
        self.client = None;
        self.inbuf.clear();
        self.out.clear();
        self.inflight = None;
        self.put = None;
        self.reboot_requested = false;
        assert(self@ =~= (ShellModel {
            client: None,
            inbuf: seq![],
            out: seq![],
            inflight: None,
            put: None,
            reboot_requested: false,
            ..old(self)@
        }));
        match client {
            Some(handle) => {
                self.note("client disconnected");
                let mut list: Vec<PlannedWork> = Vec::new();
                list.push(Work::Close { handle });
                list.push(Work::Publish {
                    key: pubsub::KEY_STATE,
                    value: pubsub::STATE_LISTENING,
                });
                list.push(Work::Accept);
                assert(work::models(list@) =~= seq![
                    Work::Close { handle },
                    Work::Publish { key: pubsub::KEY_STATE, value: pubsub::STATE_LISTENING },
                    Work::Accept,
                ]);
                self.plan(list);
            },
            None => {
                let mut list: Vec<PlannedWork> = Vec::new();
                list.push(Work::Accept);
                assert(work::models(list@) =~= seq![Work::Accept]);
                self.plan(list);
            },
        }
    }

    // -----------------------------------------------------------------------------------------
    // Events.

    /// The first timer event: brings the listener up and asks for a heartbeat.
    fn start(&mut self)
        ensures
            final(self)@ == old(self)@.start_begun(),
    {
        self.started = true;
        let mut list: Vec<PlannedWork> = Vec::new();
        list.push(Work::Define { key: pubsub::KEY_STATE });
        list.push(Work::Define { key: pubsub::KEY_CHANNEL });
        list.push(Work::Define { key: pubsub::KEY_CMDS });
        list.push(Work::Define { key: pubsub::KEY_CLIENTS });
        list.push(Work::Listen { first: true });
        list.push(Work::WakeEvery(SUPERVISION_MS));
        self.plan(list);
        assert(self@ =~= old(self)@.start_begun());
    }

    /// A later timer event: brings the listener up if it is not, and accepts if that stopped.
    fn tick(&mut self)
        ensures
            final(self)@ == old(self)@.ticked(),
    {
        let mut list: Vec<PlannedWork> = Vec::new();
        if !self.listener_up {
            list.push(Work::Listen { first: false });
        }
        list.push(Work::Accept);
        self.plan(list);
        assert(self@ =~= old(self)@.ticked());
    }

    /// A client has connected, or accepting one has failed.
    fn on_accepted(&mut self, handle: i32, status: i32)
        ensures
            final(self)@ == old(self)@.accepted(handle, status),
    {
        self.accepting = false;
        let mut list: Vec<PlannedWork> = Vec::new();
        if status == 0 && handle >= 0 {
            self.client = Some(handle);
            self.inbuf.clear();
            self.out.clear();
            self.inflight = None;
            self.put = None;
            self.reboot_requested = false;
            self.clients = self.clients.wrapping_add(1);
            assert(self@ =~= (ShellModel {
                accepting: false,
                client: Some(handle),
                inbuf: seq![],
                out: seq![],
                inflight: None,
                put: None,
                reboot_requested: false,
                clients: old(self)@.clients.wrapping_add(1),
                ..old(self)@
            }));
            self.note("client connected");
            list.push(Work::Publish { key: pubsub::KEY_CLIENTS, value: self.clients });
            list.push(Work::Publish {
                key: pubsub::KEY_STATE,
                value: pubsub::STATE_CONNECTED,
            });
            list.push(Work::Enqueue {
                tag: TAG_OK,
                data: slice_to_vec("rshell ready".as_bytes()),
            });
            list.push(Work::Receive);
        } else {
            list.push(Work::Accept);
        }
        self.plan(list);
        assert(self@ =~= old(self)@.accepted(handle, status));
    }

    /// A read is done.
    fn on_recv(&mut self, status: i32, len: usize, rx: &[u8; RX_CAP])
        ensures
            final(self)@ == old(self)@.received(status, len as int, rx@),
    {
        if status != 0 || len == 0 {
            self.drop_client();
            return;
        }
        let n: usize = if len < RX_CAP {
            len
        } else {
            RX_CAP
        };
        let bytes = slice_subrange(rx.as_slice(), 0, n);
        assert(bytes@ =~= model::landed(rx@, len as int));
        push_bytes(&mut self.inbuf, bytes);
        let mut list: Vec<PlannedWork> = Vec::new();
        list.push(Work::Frames);
        list.push(Work::Receive);
        self.plan(list);
        assert(self@ =~= old(self)@.received(status, len as int, rx@));
    }

    /// A frame has left, or sending it has failed.
    fn on_sent(&mut self, status: i32)
        ensures
            final(self)@ == old(self)@.sent(status),
    {
        self.inflight = None;
        assert(self@ =~= (ShellModel { inflight: None, ..old(self)@ }));
        if status != 0 {
            self.drop_client();
            return;
        }
        if self.out.len() > 0 {
            let mut list: Vec<PlannedWork> = Vec::new();
            list.push(Work::Transmit);
            self.plan(list);
        } else if self.reboot_requested {
            self.reboot_requested = false;
            let mut list: Vec<PlannedWork> = Vec::new();
            list.push(Work::Kill { uid: EFILE_UID3 });
            list.push(Work::Enqueue {
                tag: TAG_ERR,
                data: slice_to_vec(
                    "file-server kill returned but the phone is still up".as_bytes(),
                ),
            });
            list.push(Work::Transmit);
            self.plan(list);
        } else if self.quit_requested {
            self.exit = true;
        }
        assert(self@ =~= old(self)@.sent(status));
    }

    /// Takes in one event. Says whether it was one of the shell's.
    pub fn route(&mut self, event: &Event) -> (r: bool)
        requires
            old(self)@.wf(),
            old(self)@.at_rest(),
        ensures
            final(self)@ == old(self)@.routed(*event),
            final(self)@.wf(),
            r == !(event is Other),
    {
        proof {
            model::lemma_routed_wf(self@, *event);
        }
        match event {
            Event::Timer => {
                if self.started {
                    self.tick();
                } else {
                    self.start();
                }
                true
            },
            Event::Accepted { handle, status } => {
                self.on_accepted(*handle, *status);
                true
            },
            Event::Received { status, len, rx } => {
                let n: usize = if *len < 0 {
                    0
                } else {
                    *len as usize
                };
                self.on_recv(*status, n, rx);
                true
            },
            Event::Sent { status } => {
                self.on_sent(*status);
                true
            },
            Event::Closed => {
                self.drop_client();
                true
            },
            Event::Other => false,
        }
    }

    // -----------------------------------------------------------------------------------------
    // Frames from the client.

    /// Handles the frame at the front of the inbound bytes, if a whole one is there.
    fn process_frames(&mut self)
        requires
            old(self)@.wf(),
        ensures
            final(self)@ == old(self)@.frame_taken(),
    {
        match cut_frame(&mut self.inbuf) {
            Cut::Partial => {
                assert(self@ =~= old(self)@);
            },
            Cut::Oversize => {
                assert(self@ =~= old(self)@);
                self.drop_client();
            },
            Cut::Whole(payload) => {
                let mut list: Vec<PlannedWork> = Vec::new();
                list.push(Work::MoreFrames);
                assert(work::models(list@) =~= seq![Work::MoreFrames]);
                self.plan(list);
                assert(self@ =~= (ShellModel {
                    inbuf: wire::behind(old(self)@.inbuf),
                    ..old(self)@
                }).planned(seq![Work::MoreFrames]));
                self.handle_payload(&payload);
            },
        }
    }

    /// Handles a payload: bytes for a `put` in progress, or else a line.
    fn handle_payload(&mut self, payload: &[u8])
        requires
            old(self)@.put matches Some(put) ==> 0 < put.remaining,
        ensures
            final(self)@ == old(self)@.handled(payload@),
    {
        if let Some(put) = self.put.take() {
            assert(self@ =~= (ShellModel { put: None, ..old(self)@ }));
            self.recv_put_data(put, payload);
            return;
        }
        let line: &str = match utf8_text(payload) {
            Some(s) => s,
            None => "",
        };
        proof {
            reveal_strlit("");
        }
        assert(line@ =~= model::line_in(payload@));
        self.cmds = self.cmds.wrapping_add(1);
        let cmds: i32 = self.cmds;
        assert(self@ =~= (ShellModel { cmds, ..old(self)@ }));
        self.dispatch(line);
        let mut list: Vec<PlannedWork> = Vec::new();
        list.push(Work::Publish { key: pubsub::KEY_CMDS, value: cmds });
        assert(work::models(list@) =~= seq![
            Work::Publish { key: pubsub::KEY_CMDS, value: cmds },
        ]);
        self.plan(list);
    }

    /// Takes bytes for a `put`, and writes the file when the last of them is there.
    fn recv_put_data(&mut self, put: Put, data: &[u8])
        ensures
            final(self)@ == old(self)@.put_fed(put@, data@),
    {
        let mut put = put;
        let ghost was = put@;
        let n: usize = if data.len() < put.remaining {
            data.len()
        } else {
            put.remaining
        };
        let bytes = slice_subrange(data, 0, n);
        assert(bytes@ =~= data@.take(n as int));
        push_bytes(&mut put.acc, bytes);
        put.remaining = put.remaining - n;
        assert(n == model::least(data@.len() as int, was.remaining));
        if put.remaining == 0 {
            self.plan_step(write_file(put.path, put.acc));
        } else {
            self.put = Some(put);
            assert(self@ =~= old(self)@.put_fed(was, data@));
        }
    }

    /// Handles a line: notes it and begins its command.
    fn dispatch(&mut self, line: &str)
        ensures
            final(self)@ == old(self)@.dispatched(line@),
    {
        proof {
            reveal(ShellModel::dispatched);
        }
        let command = parse_line(line);
        if !command.line.as_str().is_empty() {
            self.note(&command.line);
        }
        let arg = command.arg;
        match command.verb {
            Verb::Blank => {},
            Verb::Pwd => {
                let cwd = self.cwd.clone();
                self.send_ok(&cwd);
            },
            Verb::Cd => self.cmd_cd(&arg),
            Verb::Put => self.cmd_put(&arg),
            Verb::Reboot => self.cmd_reboot(&arg),
            Verb::Ping => self.send_ok("pong"),
            Verb::Quit => {
                let ghost was = self@;
                self.quit_requested = true;
                assert(self@ =~= (ShellModel { quit_requested: true, ..was }));
                self.send_ok("bye");
            },
            Verb::Ls => self.plan_step(cmd_ls(&self.cwd, &arg)),
            Verb::Cat => self.plan_step(cmd_cat(&self.cwd, &arg)),
            Verb::Rm => self.plan_step(cmd_rm(&self.cwd, &arg)),
            Verb::Mkdir => self.plan_step(cmd_mkdir(&self.cwd, &arg)),
            Verb::Stat => self.plan_step(cmd_stat(&self.cwd, &arg)),
            Verb::Find => self.plan_step(cmd_find(&self.cwd, &arg)),
            Verb::Grep => self.plan_step(cmd_grep(&self.cwd, &arg)),
            Verb::Exec => self.plan_step(cmd_exec(&self.cwd, &arg)),
            Verb::Ps => self.plan_step(cmd_ps(&arg)),
            Verb::Cenrep => self.plan_step(cmd_cenrep(&arg)),
            Verb::Hal => self.plan_step(cmd_hal(&arg)),
            Verb::Unknown => self.send_err(
                "unknown verb (pwd cd ls stat cat get put rm mkdir find grep exec reboot ps cenrep hal ping quit)",
            ),
        }
    }

    /// `cd [path]`: moves, and says where to.
    fn cmd_cd(&mut self, arg: &str)
        ensures
            final(self)@ == old(self)@.cd_begun(arg@),
    {
        let cs = chars_of(arg);
        let a = trim(&cs);
        if spells(a, "..") {
            self.cwd = parent_of(&self.cwd);
        } else if a.len() > 0 {
            self.cwd = resolve_dir(&self.cwd, &string_of(a));
        }
        assert(self@ =~= (ShellModel { cwd: old(self)@.cd_target(arg@), ..old(self)@ }));
        let cwd = self.cwd.clone();
        self.send_ok(&cwd);
    }

    /// `reboot now`: resets the phone once the reply has left. The word `now` is required, so
    /// that a typo or a stale line in a script cannot take the phone down.
    fn cmd_reboot(&mut self, arg: &str)
        ensures
            final(self)@ == old(self)@.reboot_begun(arg@),
    {
        let cs = chars_of(arg);
        if !spells(trim(&cs), "now") {
            return self.send_err(
                "usage: reboot now  (hard reset via the file server; nothing is flushed first)",
            );
        }
        self.reboot_requested = true;
        assert(self@ =~= (ShellModel { reboot_requested: true, ..old(self)@ }));
        self.send_ok("rebooting: killing the file server once this reply is on the wire");
    }

    /// `put <path> <len>`: gets ready for the bytes of a file.
    fn cmd_put(&mut self, arg: &str)
        ensures
            final(self)@ == old(self)@.put_begun(arg@),
    {
        let cs = chars_of(arg);
        let total: usize = cs.len();
        let i: usize = match rfind_char(&cs, ' ') {
            Some(i) => i,
            None => return self.send_err("usage: put <path> <len>"),
        };
        let file = slice_subrange(&cs, 0, i);
        assert(file@ =~= arg@.take(i as int));
        let number = slice_subrange(&cs, i + 1, total);
        assert(number@ =~= arg@.skip(i + 1));
        let len: usize = match parse_usize(trim(number)) {
            Some(n) => n,
            None => return self.send_err("usage: put <path> <len>"),
        };
        if len > MAX_FILE {
            self.plan_step(Progress::Finish(say_err(counted(len, " bytes is too large for put"))));
            return;
        }
        let path = resolve_path(&self.cwd, &string_of(trim(file)));
        if len == 0 {
            let none: Vec<u8> = Vec::new();
            assert(none@ =~= seq![]);
            self.plan_step(write_file(path, none));
        } else {
            let mut text = "send ".to_owned();
            push_count(&mut text, len);
            text.append(" bytes");
            let mut list: Vec<PlannedWork> = Vec::new();
            list.push(Work::StartPut { path, len });
            self.plan(list);
            self.plan_step(Progress::Finish(say_ok(text)));
            assert(self@ =~= old(self)@.put_begun(arg@));
        }
    }

    // -----------------------------------------------------------------------------------------
    // Steps.

    /// The listener has come up, or could not be opened.
    fn on_listened(&mut self, first: bool, result: Result<u8, String>)
        ensures
            final(self)@ == old(self)@.listened(first, result),
    {
        match result {
            Ok(channel) => {
                self.listener_up = true;
                self.channel = channel;
                assert(self@ =~= (ShellModel { listener_up: true, channel, ..old(self)@ }));
                if first {
                    let mut line = "listening on channel ".to_owned();
                    push_dec(&mut line, channel as u64);
                    self.note(&line);
                }
                let mut list: Vec<PlannedWork> = Vec::new();
                list.push(Work::Publish { key: pubsub::KEY_CHANNEL, value: channel as i32 });
                list.push(Work::Publish {
                    key: pubsub::KEY_STATE,
                    value: pubsub::STATE_LISTENING,
                });
                if first {
                    list.push(Work::Accept);
                }
                self.plan(list);
                assert(self@ =~= old(self)@.listened(first, result));
            },
            Err(e) => {
                if first {
                    let mut line = "listen failed: ".to_owned();
                    line.append(&e);
                    self.note(&line);
                    let mut list: Vec<PlannedWork> = Vec::new();
                    list.push(Work::Publish {
                        key: pubsub::KEY_STATE,
                        value: pubsub::STATE_DOWN,
                    });
                    self.plan(list);
                    assert(self@ =~= old(self)@.listened(first, result));
                }
            },
        }
    }

    /// Takes in the outcome of the last action.
    fn settle(&mut self, outcome: Outcome)
        requires
            old(self)@.wf(),
            old(self)@.awaiting.fits(outcome),
        ensures
            final(self)@ == old(self)@.settled(outcome),
    {
        let mut awaiting: Await<PendingJob> = Await::Nothing;
        core::mem::swap(&mut awaiting, &mut self.awaiting);
        assert(self@ =~= (ShellModel { awaiting: Await::Nothing, ..old(self)@ }));
        match (awaiting, outcome) {
            (Await::Nothing, _) => {},
            (Await::Listen { first }, Outcome::Listened(result)) => {
                self.on_listened(first, result);
            },
            (Await::Accept, Outcome::Called(taken)) => {
                self.accepting = taken;
                assert(self@ =~= old(self)@.settled(outcome));
            },
            (Await::Receive, Outcome::Called(taken)) => {
                if !taken {
                    self.drop_client();
                }
            },
            (Await::Send, Outcome::Called(taken)) => {
                if !taken {
                    self.drop_client();
                }
            },
            (Await::Answer(job), Outcome::Answered(answer)) => {
                proof {
                    reveal(model::answer_work);
                }
                self.plan_step(resume(job, answer));
            },
            _ => vstd::pervasive::unreached(),
        }
    }

    /// Starts accepting a client, unless that has started, there is one, or there is no listener.
    fn begin_accept(&mut self) -> (r: ShellAction)
        ensures
            (final(self)@, r@) == old(self)@.done(Work::Accept),
    {
        if self.accepting || self.client.is_some() || !self.listener_up {
            return Action::Proceed;
        }
        self.awaiting = Await::Accept;
        assert(self@ =~= old(self)@.done(Work::Accept).0);
        Action::Accept
    }

    /// Starts a read, if there is a client.
    fn issue_recv(&mut self) -> (r: ShellAction)
        ensures
            (final(self)@, r@) == old(self)@.done(Work::Receive),
    {
        match self.client {
            Some(handle) => {
                self.awaiting = Await::Receive;
                assert(self@ =~= old(self)@.done(Work::Receive).0);
                Action::Receive { handle }
            },
            None => Action::Proceed,
        }
    }

    /// Sends the next frame, unless one is on its way.
    fn kick_tx(&mut self) -> (r: ShellAction)
        ensures
            (final(self)@, r@) == old(self)@.transmitted(),
    {
        if self.inflight.is_some() {
            return Action::Proceed;
        }
        let handle: i32 = match self.client {
            Some(handle) => handle,
            None => return Action::Proceed,
        };
        match self.out.pop_front() {
            Some(frame) => {
                assert(reply::contents(self.out@) =~= old(self)@.out.skip(1));
                self.inflight = Some(frame);
                self.awaiting = Await::Send;
                assert(self@ =~= old(self)@.transmitted().0);
                Action::Send { handle }
            },
            None => {
                assert(self@ =~= old(self)@);
                Action::Proceed
            },
        }
    }

    /// Queues a frame, and sends the next one.
    fn enqueue_tagged(&mut self, tag: u8, data: &[u8]) -> (r: ShellAction)
        ensures
            (final(self)@, r@) == old(self)@.enqueued(tag, data@),
    {
        self.out.push_back(tagged_frame(tag, data));
        assert(self@ =~= (ShellModel {
            out: old(self)@.out.push(wire::tagged(tag, data@)),
            ..old(self)@
        }));
        self.kick_tx()
    }

    /// Does the first piece of work, and hands out the action that it calls for.
    fn perform(&mut self) -> (r: ShellAction)
        requires
            old(self)@.wf(),
            old(self)@.awaiting is Nothing,
        ensures
            (final(self)@, r@) == old(self)@.performed(),
    {
        let work = match self.agenda.pop_front() {
            Some(work) => work,
            None => {
                assert(self@ =~= old(self)@);
                return Action::Rest;
            },
        };
        assert(work@ == old(self)@.agenda[0]);
        assert(self@ =~= (ShellModel { agenda: old(self)@.agenda.skip(1), ..old(self)@ }));
        let ghost was = self@;
        match work {
            Work::Define { key } => Action::Define { key },
            Work::Publish { key, value } => Action::Publish { key, value },
            Work::WakeAfter(ms) => Action::WakeAfter(ms),
            Work::WakeEvery(ms) => Action::WakeEvery(ms),
            Work::Listen { first } => {
                self.awaiting = Await::Listen { first };
                assert(self@ =~= was.done(work@).0);
                Action::Listen
            },
            Work::Accept => self.begin_accept(),
            Work::Receive => self.issue_recv(),
            Work::Frames => {
                self.process_frames();
                Action::Proceed
            },
            Work::MoreFrames => {
                if self.client.is_some() {
                    self.process_frames();
                }
                Action::Proceed
            },
            Work::Enqueue { tag, data } => self.enqueue_tagged(tag, &data),
            Work::Transmit => self.kick_tx(),
            Work::StartPut { path, len } => {
                self.put = Some(Put { path, remaining: len, acc: Vec::new() });
                assert(self@ =~= was.done(work@).0);
                Action::Proceed
            },
            Work::Close { handle } => Action::Close { handle },
            Work::Kill { uid } => Action::Kill { uid },
            Work::Ask(query, job) => {
                self.awaiting = Await::Answer(job);
                assert(self@ =~= was.done(work@).0);
                Action::Ask(query)
            },
        }
    }

    /// One step: takes in the outcome of the last action, does the next piece of work, and hands
    /// out the action that it calls for. At rest there is none.
    pub fn step(&mut self, outcome: Outcome) -> (r: ShellAction)
        requires
            old(self)@.wf(),
            old(self)@.awaiting.fits(outcome),
        ensures
            (final(self)@, r@) == old(self)@.stepped(outcome),
            final(self)@.wf(),
            r is Rest ==> final(self)@.at_rest(),
    {
        proof {
            model::lemma_settled_wf(self@, outcome);
            model::lemma_performed_wf(self@.settled(outcome));
        }
        self.settle(outcome);
        self.perform()
    }

    // -----------------------------------------------------------------------------------------
    // What is seen from outside.

    /// Whether an outcome is of the kind that the shell waits for.
    pub fn expects(&self, outcome: &Outcome) -> (r: bool)
        ensures
            r == self@.awaiting.fits(*outcome),
    {
        match (&self.awaiting, outcome) {
            (Await::Nothing, Outcome::Done) => true,
            (Await::Listen { .. }, Outcome::Listened(_)) => true,
            (Await::Accept | Await::Receive | Await::Send, Outcome::Called(_)) => true,
            (Await::Answer(job), Outcome::Answered(answer)) => waits_for(job, answer),
            _ => false,
        }
    }

    /// Whether there is nothing to do and nothing to wait for but the next event.
    pub fn at_rest(&self) -> (r: bool)
        ensures
            r == self@.at_rest(),
    {
        self.agenda.len() == 0 && match self.awaiting {
            Await::Nothing => true,
            _ => false,
        }
    }

    /// The frame that is on its way.
    pub fn inflight(&self) -> (r: Option<&[u8]>)
        ensures
            match r {
                Some(frame) => self@.inflight == Some(frame@),
                None => self@.inflight is None,
            },
    {
        match &self.inflight {
            Some(frame) => Some(frame.as_slice()),
            None => None,
        }
    }

    /// How large the frame at the front of the inbound bytes claims to be, if that is more than
    /// there may be. Its client is let go when the shell comes to it.
    pub fn oversize(&self) -> (r: Option<usize>)
        ensures
            match r {
                Some(len) => wire::front(self@.inbuf) is Oversize && len == wire::declared_len(
                    self@.inbuf,
                ),
                None => !(wire::front(self@.inbuf) is Oversize),
            },
    {
        match declared(&self.inbuf) {
            Some(len) => {
                if len > MAX_FRAME {
                    Some(len)
                } else {
                    None
                }
            },
            None => None,
        }
    }

    /// Whether the shell is to be ended.
    pub fn should_exit(&self) -> (r: bool)
        ensures
            r == self@.exit,
    {
        self.exit
    }

    /// Takes in a key: the right softkey and the red key leave.
    pub fn handle_key(&mut self, key: Key) -> (r: Handled)
        ensures
            final(self)@ == (ShellModel {
                exit: old(self)@.exit || key == Key::Right || key == Key::End,
                ..old(self)@
            }),
            r == if key == Key::Right || key == Key::End {
                Handled::Consumed
            } else {
                Handled::Ignored
            },
    {
        match key {
            Key::Right | Key::End => {
                self.exit = true;
                assert(self@ =~= (ShellModel { exit: true, ..old(self)@ }));
                Handled::Consumed
            },
            _ => Handled::Ignored,
        }
    }

    /// All that the shell shows: what it is doing, and the last few notable events as far as they
    /// fit.
    pub fn draw(&self, area: Area, line_h: i32) -> (r: Screen)
        requires
            area.holds(line_h),
        ensures
            r@ == self@.shown(area, line_h),
    {
        let mut title = "RFCOMM shell".to_owned();
        if self.listener_up {
            title.append("  ch ");
            push_dec(&mut title, self.channel as u64);
        }
        let status = if self.client.is_some() {
            "client: connected"
        } else if self.listener_up {
            "waiting for a client"
        } else {
            "starting..."
        };
        let y: i32 = area.top + line_h;
        let mut list: Vec<Row> = Vec::new();
        list.push(
            Row { top: area.top, bottom: y, text: status.to_owned(), tint: Tint::Accent },
        );
        push_rows(&mut list, &self.log_lines, Tint::Text, y, area.bottom, line_h);
        let r = Screen { title, left: None, right: Some("Exit".to_owned()), rows: list };
        assert(r@ =~= self@.shown(area, line_h));
        r
    }

    /// The shell's name.
    pub fn title(&self) -> (r: &str)
        ensures
            r@ == "RFCOMM shell"@,
    {
        "RFCOMM shell"
    }
}

impl Default for Shell {
    fn default() -> (r: Shell)
        ensures
            r@ == ShellModel::made(),
            r@.wf(),
    {
        Shell::new()
    }
}

} // verus!
