//! What each event, outcome and piece of work makes of the shell, in plain terms.

use vstd::prelude::*;

use crate::job;
use crate::job::{Job, Progress};
use crate::laws;
use crate::model;
use crate::model::{PutModel, ShellModel};
use crate::number;
use crate::path;
use crate::platform::Query;
use crate::reply;
use crate::screen;
use crate::screen::{Area, Tint};
use crate::text;
use crate::verbs;
use crate::wire;
use crate::wire::Cut;
use crate::work::{ActionModel, Await, Event, Outcome, WorkModel, RX_CAP};

verus! {

// ---------------------------------------------------------------------------------------------
// The beginning, and the timer.

/// A new shell stands at the root of the ROM drive and waits for its timer. It has no client, no
/// bytes, no frames, nothing on its screen, and has counted nothing.
pub proof fn law_a_new_shell_has_done_nothing()
    ensures
        ({
            let s = ShellModel::made();
            &&& s.cwd == "Z:\\"@
            &&& s.agenda == seq![WorkModel::WakeAfter(1)]
            &&& s.awaiting is Nothing
            &&& !s.started && !s.listener_up && !s.accepting && !s.exit
            &&& !s.quit_requested && !s.reboot_requested
            &&& s.client is None && s.put is None && s.inflight is None
            &&& s.inbuf.len() == 0 && s.out.len() == 0 && s.log_lines.len() == 0
            &&& s.channel == 0 && s.cmds == 0 && s.clients == 0
        }),
{
}

/// The first timer defines the four properties, listens, and sets the timer that looks after the
/// listener, every five seconds.
pub proof fn law_the_first_timer_brings_the_shell_up(s: ShellModel)
    requires
        !s.started,
    ensures
        ({
            let after = s.routed(Event::Timer);
            &&& after == (ShellModel { started: true, agenda: after.agenda, ..s })
            &&& after.agenda == seq![
                WorkModel::Define { key: 1 },
                WorkModel::Define { key: 2 },
                WorkModel::Define { key: 3 },
                WorkModel::Define { key: 4 },
                WorkModel::Listen { first: true },
                WorkModel::WakeEvery(5000),
            ] + s.agenda
        }),
{
}

/// A later timer calls for a client, after another try at the listener where there is none.
pub proof fn law_a_later_timer_looks_after_the_listener(s: ShellModel)
    requires
        s.started,
    ensures
        ({
            let after = s.routed(Event::Timer);
            &&& after == (ShellModel { agenda: after.agenda, ..s })
            &&& s.listener_up ==> after.agenda == seq![WorkModel::Accept] + s.agenda
            &&& !s.listener_up ==> after.agenda == seq![
                WorkModel::Listen { first: false },
                WorkModel::Accept,
            ] + s.agenda
        }),
{
}

/// A listener that came up is told of, with its channel; the first time it is also noted, and a
/// client called for. One that did not come up is noted and told of the first time only.
pub proof fn law_a_listener_is_told_of(s: ShellModel, channel: u8, e: String)
    ensures
        ({
            let told = seq![
                WorkModel::Publish { key: 2, value: channel as i32 },
                WorkModel::Publish { key: 1, value: 1 },
            ];
            let up = ShellModel { listener_up: true, channel, ..s };
            &&& s.listened(false, Ok(channel)) == (ShellModel { agenda: told + s.agenda, ..up })
            &&& s.listened(true, Ok(channel)) == (ShellModel {
                agenda: told + (seq![WorkModel::Accept] + s.agenda),
                ..up.noted("listening on channel "@ + number::dec(channel as nat))
            })
        }),
        s.listened(false, Err(e)) == s,
        s.listened(true, Err(e)) == (ShellModel {
            agenda: seq![WorkModel::Publish { key: 1, value: 0 }] + s.agenda,
            ..s.noted("listen failed: "@ + e@)
        }),
{
    let told = seq![
        WorkModel::Publish { key: 2, value: channel as i32 },
        WorkModel::Publish { key: 1, value: 1 },
    ];
    assert(told + seq![WorkModel::Accept] + s.agenda =~= told + (seq![WorkModel::Accept]
        + s.agenda));
    assert(s.listened(true, Ok(channel)).agenda =~= told + (seq![WorkModel::Accept] + s.agenda));
}

/// What the screen keeps: a new line goes behind the others, and the oldest goes once there are
/// eight.
pub proof fn law_a_line_is_noted_behind_the_others(s: ShellModel, line: Seq<char>)
    requires
        s.log_lines.len() <= 8,
    ensures
        s.noted(line) == (ShellModel { log_lines: s.noted(line).log_lines, ..s }),
        s.log_lines.len() < 8 ==> s.noted(line).log_lines == s.log_lines.push(line),
        s.log_lines.len() == 8 ==> s.noted(line).log_lines == s.log_lines.skip(1).push(line),
{
    assert(s.log_lines.len() == 8 ==> s.log_lines.push(line).skip(1) =~= s.log_lines.skip(
        1,
    ).push(line));
}

/// Work that comes up is done before the work that was there.
pub proof fn law_new_work_goes_in_front(s: ShellModel, list: Seq<WorkModel>)
    ensures
        s.planned(list) == (ShellModel { agenda: list + s.agenda, ..s }),
{
}

// ---------------------------------------------------------------------------------------------
// Clients.

/// A client that was accepted is counted, noted, told of and greeted, and then read from; nothing
/// is left of the one before. Otherwise a client is called for again.
pub proof fn law_a_client_is_let_in(s: ShellModel, handle: i32, status: i32)
    ensures
        ({
            let after = s.routed(Event::Accepted { handle, status });
            if status == 0 && handle >= 0 {
                let clients = s.clients.wrapping_add(1);
                &&& after.agenda == seq![
                    WorkModel::Publish { key: 4, value: clients },
                    WorkModel::Publish { key: 1, value: 2 },
                    WorkModel::Enqueue {
                        tag: 43,
                        data: vstd::utf8::encode_utf8("rshell ready"@),
                    },
                    WorkModel::Receive,
                ] + s.agenda
                &&& after == (ShellModel {
                    accepting: false,
                    client: Some(handle),
                    inbuf: seq![],
                    out: seq![],
                    inflight: None,
                    put: None,
                    reboot_requested: false,
                    clients,
                    log_lines: s.noted("client connected"@).log_lines,
                    agenda: after.agenda,
                    ..s
                })
            } else {
                &&& after.agenda == seq![WorkModel::Accept] + s.agenda
                &&& after == (ShellModel { accepting: false, agenda: after.agenda, ..s })
            }
        }),
{
}

/// A client that goes is closed, noted and told of, nothing is left of it, and the next one is
/// called for. The working directory, the counts and a request to quit stay.
pub proof fn law_a_client_is_let_go(s: ShellModel)
    ensures
        ({
            let after = s.routed(Event::Closed);
            let rest = ShellModel {
                client: None,
                inbuf: seq![],
                out: seq![],
                inflight: None,
                put: None,
                reboot_requested: false,
                ..s
            };
            &&& s.client matches Some(handle) ==> after == (ShellModel {
                agenda: seq![
                    WorkModel::Close { handle },
                    WorkModel::Publish { key: 1, value: 1 },
                    WorkModel::Accept,
                ] + s.agenda,
                log_lines: s.noted("client disconnected"@).log_lines,
                ..rest
            })
            &&& s.client is None ==> after == (ShellModel {
                agenda: seq![WorkModel::Accept] + s.agenda,
                ..rest
            })
        }),
{
}

/// Just the bytes that a read landed go behind those that are there, and are looked at before the
/// next read. A read that failed, or landed nothing, means that the client is gone.
pub proof fn law_a_read_lands_its_bytes(s: ShellModel, status: i32, len: i32, rx: [u8; RX_CAP])
    ensures
        ({
            let after = s.routed(Event::Received { status, len, rx });
            let n = if len <= 1024 {
                len as int
            } else {
                1024
            };
            if status == 0 && len > 0 {
                after == (ShellModel {
                    inbuf: s.inbuf + rx@.take(n),
                    agenda: seq![WorkModel::Frames, WorkModel::Receive] + s.agenda,
                    ..s
                })
            } else {
                after == s.routed(Event::Closed)
            }
        }),
{
}

/// Once a frame has gone out, the next one follows. After the last, a reset that was asked for is
/// done, by killing the file server, and, should the phone still be there, that is reported; else
/// the shell ends where that was asked for. A write that failed means that the client is gone.
pub proof fn law_a_frame_gone_out_makes_way(s: ShellModel, status: i32)
    ensures
        ({
            let after = s.routed(Event::Sent { status });
            let free = ShellModel { inflight: None, ..s };
            if status != 0 {
                after == free.routed(Event::Closed)
            } else if s.out.len() > 0 {
                after == (ShellModel { agenda: seq![WorkModel::Transmit] + s.agenda, ..free })
            } else if s.reboot_requested {
                after == (ShellModel {
                    reboot_requested: false,
                    agenda: seq![
                        WorkModel::Kill { uid: 0x1000_39e3 },
                        WorkModel::Enqueue {
                            tag: 45,
                            data: vstd::utf8::encode_utf8(
                                "file-server kill returned but the phone is still up"@,
                            ),
                        },
                        WorkModel::Transmit,
                    ] + s.agenda,
                    ..free
                })
            } else {
                after == (ShellModel { exit: s.exit || s.quit_requested, ..free })
            }
        }),
{
}

/// No other event changes anything.
pub proof fn law_other_events_change_nothing(s: ShellModel)
    ensures
        s.routed(Event::Other) == s,
{
}

// ---------------------------------------------------------------------------------------------
// Outcomes and work.

/// An outcome is that of the action it was awaited from: a listener that came up or did not, a
/// client that is or is not being called for, a read or a write that could not be begun, an answer
/// that the job goes on from.
pub proof fn law_an_outcome_is_taken_for_what_it_is(s: ShellModel, outcome: Outcome)
    requires
        s.awaiting.fits(outcome),
    ensures
        ({
            let t = ShellModel { awaiting: Await::Nothing, ..s };
            let after = s.settled(outcome);
            match (s.awaiting, outcome) {
                (Await::Listen { first }, Outcome::Listened(r)) => after == t.listened(first, r),
                (Await::Accept, Outcome::Called(taken)) => after == (ShellModel {
                    accepting: taken,
                    ..t
                }),
                (Await::Receive | Await::Send, Outcome::Called(taken)) => if taken {
                    after == t
                } else {
                    after == t.routed(Event::Closed)
                },
                (Await::Answer(job), Outcome::Answered(answer)) => {
                    let next = match job::continued(job, answer) {
                        Progress::Ask(query, waiting) => seq![WorkModel::Ask(query, waiting)],
                        Progress::Finish(r) => model::reply_work(r),
                    };
                    after == (ShellModel { agenda: next + s.agenda, ..t })
                },
                _ => after == t,
            }
        }),
{
    reveal(model::answer_work);
}

/// Work that is an action is that very action. Only listening and asking leave something to wait
/// for.
pub proof fn law_work_is_handed_out_as_it_stands(s: ShellModel, work: WorkModel)
    ensures
        match work {
            WorkModel::Define { key } => s.done(work) == (s, ActionModel::Define { key }),
            WorkModel::Publish { key, value } => s.done(work) == (
                s,
                ActionModel::Publish { key, value },
            ),
            WorkModel::WakeAfter(ms) => s.done(work) == (s, ActionModel::WakeAfter(ms)),
            WorkModel::WakeEvery(ms) => s.done(work) == (s, ActionModel::WakeEvery(ms)),
            WorkModel::Close { handle } => s.done(work) == (s, ActionModel::Close { handle }),
            WorkModel::Kill { uid } => s.done(work) == (s, ActionModel::Kill { uid }),
            WorkModel::Listen { first } => s.done(work) == (
                ShellModel { awaiting: Await::Listen { first }, ..s },
                ActionModel::Listen,
            ),
            WorkModel::Ask(query, waiting) => s.done(work) == (
                ShellModel { awaiting: Await::Answer(waiting), ..s },
                ActionModel::Ask(query),
            ),
            WorkModel::StartPut { path, len } => s.done(work) == (
                ShellModel {
                    put: Some(PutModel { path, remaining: len as int, acc: seq![] }),
                    ..s
                },
                ActionModel::Proceed,
            ),
            _ => true,
        },
{
}

/// The next client is called for where the listener is up, none is there and none is being called
/// for. The client that is there is read from.
pub proof fn law_clients_are_called_for_and_read_from(s: ShellModel)
    ensures
        s.done(WorkModel::Accept) == if s.listener_up && s.client is None && !s.accepting {
            (ShellModel { awaiting: Await::Accept, ..s }, ActionModel::Accept)
        } else {
            (s, ActionModel::Proceed)
        },
        s.done(WorkModel::Receive) == match s.client {
            Some(handle) => (
                ShellModel { awaiting: Await::Receive, ..s },
                ActionModel::Receive { handle },
            ),
            None => (s, ActionModel::Proceed),
        },
{
}

/// The oldest frame is sent to the client, where there is one and no other frame is under way.
pub proof fn law_the_oldest_frame_goes_out(s: ShellModel)
    ensures
        s.done(WorkModel::Transmit) == if s.client is Some && s.inflight is None && s.out.len()
            > 0 {
            (
                ShellModel {
                    inflight: Some(s.out[0]),
                    out: s.out.skip(1),
                    awaiting: Await::Send,
                    ..s
                },
                ActionModel::Send { handle: s.client->0 },
            )
        } else {
            (s, ActionModel::Proceed)
        },
{
}

/// A reply's frame is a length, the tag and the data, behind the frames that wait, and goes out
/// when its turn comes.
pub proof fn law_a_frame_waits_behind_the_others(s: ShellModel, tag: u8, data: Seq<u8>)
    ensures
        s.done(WorkModel::Enqueue { tag, data }) == (ShellModel {
            out: s.out.push(wire::framed(seq![tag] + data)),
            ..s
        }).done(WorkModel::Transmit),
{
}

/// A step settles the outcome and then does the first piece of work; with no work left it rests.
pub proof fn law_a_step_does_the_first_piece_of_work(s: ShellModel, outcome: Outcome)
    ensures
        ({
            let t = s.settled(outcome);
            &&& t.agenda.len() == 0 ==> s.stepped(outcome) == (t, ActionModel::Rest)
            &&& t.agenda.len() > 0 ==> s.stepped(outcome) == (ShellModel {
                agenda: t.agenda.skip(1),
                ..t
            }).done(t.agenda[0])
        }),
{
}

/// Bytes that make no whole frame wait for more; a whole frame is taken off and handled, and then
/// what is behind it is looked at, as long as the client is there; a frame that declares more than
/// half a megabyte means that the client is gone.
pub proof fn law_a_whole_frame_is_taken_off_and_handled(s: ShellModel)
    ensures
        ({
            let after = match wire::front(s.inbuf) {
                Cut::Partial => s,
                Cut::Oversize => s.routed(Event::Closed),
                Cut::Whole(payload) => (ShellModel {
                    inbuf: wire::behind(s.inbuf),
                    agenda: seq![WorkModel::MoreFrames] + s.agenda,
                    ..s
                }).handled(payload),
            };
            &&& s.done(WorkModel::Frames) == (after, ActionModel::Proceed)
            &&& s.client is Some ==> s.done(WorkModel::MoreFrames) == (after, ActionModel::Proceed)
            &&& s.client is None ==> s.done(WorkModel::MoreFrames) == (s, ActionModel::Proceed)
        }),
{
}

/// A payload is a line of its own, and is counted and told of; or, while a `put` waits for bytes, it
/// is the next of them, as many as are still to come, and with the last of them the file is written.
pub proof fn law_a_payload_is_a_line_or_part_of_a_file(s: ShellModel, payload: Seq<u8>)
    ensures
        s.put is None && vstd::utf8::valid_utf8(payload) ==> {
            let cmds = s.cmds.wrapping_add(1);
            let told = seq![WorkModel::Publish { key: 3, value: cmds }];
            let run = (ShellModel { cmds, ..s }).dispatched(vstd::utf8::decode_utf8(payload));
            s.handled(payload) == (ShellModel { agenda: told + run.agenda, ..run })
        },
        s.put matches Some(put) ==> if payload.len() < put.remaining {
            s.handled(payload) == (ShellModel {
                put: Some(
                    PutModel {
                        path: put.path,
                        remaining: put.remaining - payload.len(),
                        acc: put.acc + payload,
                    },
                ),
                ..s
            })
        } else {
            let path = put.path;
            let data = put.acc + payload.take(put.remaining);
            s.handled(payload) == (ShellModel {
                put: None,
                agenda: seq![
                    WorkModel::Ask(Query::CheckPath(path), Job::WriteCheck { path, data }),
                ] + s.agenda,
                ..s
            })
        },
{
    assert(payload.take(payload.len() as int) =~= payload);
}

/// The shell is at rest when it has nothing to do and waits for nothing.
pub proof fn law_at_rest_nothing_is_left_to_do(s: ShellModel)
    ensures
        s.at_rest() <==> s.agenda.len() == 0 && s.awaiting is Nothing,
{
}

// ---------------------------------------------------------------------------------------------
// The commands that change the shell.

/// A payload is a line where it is UTF-8, and a blank one where it is not; and a blank line is
/// counted, but neither noted nor answered.
pub proof fn law_a_blank_line_is_only_counted(s: ShellModel, payload: Seq<u8>)
    requires
        s.put is None,
        vstd::utf8::valid_utf8(payload) ==> text::all_whitespace(
            vstd::utf8::decode_utf8(payload),
        ),
    ensures
        ({
            let cmds = s.cmds.wrapping_add(1);
            s.handled(payload) == (ShellModel {
                cmds,
                agenda: seq![WorkModel::Publish { key: 3, value: cmds }] + s.agenda,
                ..s
            })
        }),
{
    reveal(ShellModel::dispatched);
    let line = model::line_in(payload);
    assert(text::all_whitespace(line));
    let none = Seq::<char>::empty();
    text::law_trimming_takes_off_just_the_blanks(line, none, none);
    assert(line + none + none =~= line);
    assert(text::trimmed(line) =~= none);
    verbs::law_a_text_is_split_at_its_first_space(none, none);
}

/// `put F N`: the shell gets ready for N bytes of F, or writes nothing at all where N is nought, or
/// refuses more than a megabyte; and needs both.
pub proof fn law_put_gets_ready_for_as_many_as_it_was_told(
    s: ShellModel,
    file: Seq<char>,
    count: Seq<char>,
    n: usize,
)
    requires
        !count.contains(' '),
    ensures
        !file.contains(' ') ==> s.put_begun(file) == s.planned(
            seq![
                WorkModel::Enqueue {
                    tag: 45,
                    data: vstd::utf8::encode_utf8("usage: put <path> <len>"@),
                },
            ],
        ),
        number::parsed(text::trimmed(count), 10, usize::MAX as int) is None ==> s.put_begun(
            file + seq![' '] + count,
        ) == s.planned(
            seq![
                WorkModel::Enqueue {
                    tag: 45,
                    data: vstd::utf8::encode_utf8("usage: put <path> <len>"@),
                },
            ],
        ),
        number::parsed(text::trimmed(count), 10, usize::MAX as int) == Some(n as int) ==> ({
            let path = path::resolved(s.cwd, text::trimmed(file));
            let after = s.put_begun(file + seq![' '] + count);
            if n > 1048576 {
                after == s.planned(
                    seq![
                        WorkModel::Enqueue {
                            tag: 45,
                            data: vstd::utf8::encode_utf8(
                                number::dec(n as nat) + " bytes is too large for put"@,
                            ),
                        },
                    ],
                )
            } else if n == 0 {
                after == s.planned(
                    seq![
                        WorkModel::Ask(
                            Query::CheckPath(path),
                            Job::WriteCheck { path, data: seq![] },
                        ),
                    ],
                )
            } else {
                after == s.planned(
                    seq![
                        WorkModel::Enqueue {
                            tag: 43,
                            data: vstd::utf8::encode_utf8(
                                "send "@ + number::dec(n as nat) + " bytes"@,
                            ),
                        },
                        WorkModel::StartPut { path, len: n },
                    ],
                )
            }
        }),
{
    let all = file + seq![' '] + count;
    let at = file.len() as int;
    text::lemma_last_index(all, ' ');
    text::lemma_last_index(file, ' ');
    assert(all[at] == ' ');
    match text::last_index(all, ' ') {
        Some(i) => {
            if i > at {
                assert(count[i - at - 1] == all[i]);
                assert(count.contains(count[i - at - 1]));
            }
        },
        None => {
            assert(all.contains(all[at]));
        },
    }
    if let Some(i) = text::last_index(file, ' ') {
        assert(file.contains(file[i]));
    }
    assert(all.take(at) =~= file);
    assert(all.skip(at + 1) =~= count);
    let usage = seq![
        WorkModel::Enqueue {
            tag: 45,
            data: vstd::utf8::encode_utf8("usage: put <path> <len>"@),
        },
    ];
    assert(model::reply_work(reply::failure("usage: put <path> <len>"@)) =~= usage);
    if number::parsed(text::trimmed(count), 10, usize::MAX as int) == Some(n as int) {
        let large = number::dec(n as nat) + " bytes is too large for put"@;
        let send = "send "@ + number::dec(n as nat) + " bytes"@;
        let path = path::resolved(s.cwd, text::trimmed(file));
        assert(model::reply_work(reply::failure(large)) =~= seq![
            WorkModel::Enqueue { tag: 45, data: vstd::utf8::encode_utf8(large) },
        ]);
        assert(model::reply_work(reply::success(send)) + seq![
            WorkModel::StartPut { path, len: n },
        ] =~= seq![
            WorkModel::Enqueue { tag: 43, data: vstd::utf8::encode_utf8(send) },
            WorkModel::StartPut { path, len: n },
        ]);
    }
}

/// `reboot now` asks for the reset and says what will happen; `reboot` with anything else only says
/// how it is used.
pub proof fn law_reboot_now_is_announced(s: ShellModel, arg: Seq<char>)
    ensures
        s.reboot_begun(arg) == if text::trimmed(arg) == "now"@ {
            (ShellModel { reboot_requested: true, ..s }).planned(
                seq![
                    WorkModel::Enqueue {
                        tag: 43,
                        data: vstd::utf8::encode_utf8(
                            "rebooting: killing the file server once this reply is on the wire"@,
                        ),
                    },
                ],
            )
        } else {
            s.planned(
                seq![
                    WorkModel::Enqueue {
                        tag: 45,
                        data: vstd::utf8::encode_utf8(
                            "usage: reboot now  (hard reset via the file server; nothing is flushed first)"@,
                        ),
                    },
                ],
            )
        },
{
    let yes = "rebooting: killing the file server once this reply is on the wire"@;
    let no = "usage: reboot now  (hard reset via the file server; nothing is flushed first)"@;
    assert(model::reply_work(reply::success(yes)) =~= seq![
        WorkModel::Enqueue { tag: 43, data: vstd::utf8::encode_utf8(yes) },
    ]);
    assert(model::reply_work(reply::failure(no)) =~= seq![
        WorkModel::Enqueue { tag: 45, data: vstd::utf8::encode_utf8(no) },
    ]);
}

/// `cd`, `put` and `reboot` are run with what stands behind them on the line.
pub proof fn law_cd_put_and_reboot_are_run_with_their_argument(s: ShellModel, arg: Seq<char>)
    ensures
        ({
            let noted = s.noted(text::trimmed("cd"@ + seq![' '] + arg));
            s.dispatched("cd"@ + seq![' '] + arg) == noted.cd_begun(text::trimmed(arg))
        }),
        ({
            let noted = s.noted(text::trimmed("put"@ + seq![' '] + arg));
            s.dispatched("put"@ + seq![' '] + arg) == noted.put_begun(text::trimmed(arg))
        }),
        ({
            let noted = s.noted(text::trimmed("reboot"@ + seq![' '] + arg));
            s.dispatched("reboot"@ + seq![' '] + arg) == noted.reboot_begun(text::trimmed(arg))
        }),
{
    reveal(ShellModel::dispatched);
    reveal_strlit("cd");
    reveal_strlit("put");
    reveal_strlit("reboot");
    verbs::law_each_word_names_its_verb();
    laws::law_a_line_is_a_verb_and_an_argument("cd"@, arg);
    laws::law_a_line_is_a_verb_and_an_argument("put"@, arg);
    laws::law_a_line_is_a_verb_and_an_argument("reboot"@, arg);
}

// ---------------------------------------------------------------------------------------------
// The screen.

/// The screen's title names the channel of a listener that is up. Its first row says whether a
/// client is there; below it stand the lines that were noted, oldest first, as far as there is
/// room, and on the right key stands the way out.
pub proof fn law_the_screen_shows_the_state(s: ShellModel, area: Area, line_h: i32)
    ensures
        ({
            let shown = s.shown(area, line_h);
            &&& shown.title == if s.listener_up {
                "RFCOMM shell"@ + "  ch "@ + number::dec(s.channel as nat)
            } else {
                "RFCOMM shell"@
            }
            &&& shown.left is None
            &&& shown.right == Some("Exit"@)
            &&& shown.rows.len() > 0
            &&& shown.rows[0].text == if s.client is Some {
                "client: connected"@
            } else if s.listener_up {
                "waiting for a client"@
            } else {
                "starting..."@
            }
            &&& shown.rows[0].tint is Accent
            &&& shown.rows[0].top == area.top
            &&& shown.rows[0].bottom == area.top + line_h
            &&& shown.rows.skip(1) == screen::stacked(
                s.log_lines,
                Tint::Text,
                area.top + line_h,
                area.bottom as int,
                line_h as int,
            )
        }),
{
    let below = screen::stacked(
        s.log_lines,
        Tint::Text,
        area.top + line_h,
        area.bottom as int,
        line_h as int,
    );
    assert(s.shown(area, line_h).rows.skip(1) =~= below);
}

} // verus!
