//! What holds of the shell as a whole, whatever the client sends and the platform answers.

use vstd::prelude::*;

use crate::command;
use crate::command::Verb;
use crate::job;
use crate::job::{Job, JobModel, Progress, StepModel, MAX_FILE};
use crate::lines;
use crate::model;
use crate::model::{PutModel, ShellModel};
use crate::number;
use crate::platform::{Answer, Query};
use crate::pubsub;
use crate::replies;
use crate::reply;
use crate::text;
use crate::wire;
use crate::wire::{Cut, MAX_FRAME, TAG_ERR, TAG_OK};
use crate::work::{Action, ActionModel, Await, Event, Outcome, Work, WorkModel};

verus! {

// ---------------------------------------------------------------------------------------------
// The way out.

/// The frames that have not left yet, in the order in which they leave.
pub open spec fn outbound(s: ShellModel) -> Seq<Seq<u8>> {
    match s.inflight {
        Some(frame) => seq![frame] + s.out,
        None => s.out,
    }
}

/// Frames leave in the order in which they were queued. A frame joins at the end, sending takes
/// the one at the front, and only word that it has left removes it.
pub proof fn law_frames_leave_in_order(s: ShellModel, tag: u8, data: Seq<u8>)
    ensures
        outbound(s.enqueued(tag, data).0) == outbound(s).push(wire::tagged(tag, data)),
        outbound(s.transmitted().0) == outbound(s),
        s.transmitted().1 is Send ==> s.transmitted().0.inflight == Some(outbound(s)[0]),
        s.inflight is Some ==> outbound(s.sent(0)) == outbound(s).skip(1),
{
    assert(outbound(s.transmitted().0) =~= outbound(s));
    let t = ShellModel { out: s.out.push(wire::tagged(tag, data)), ..s };
    assert(outbound(t) =~= outbound(s).push(wire::tagged(tag, data)));
    assert(outbound(t.transmitted().0) =~= outbound(t));
    if s.inflight is Some {
        assert(outbound(s.sent(0)) =~= outbound(s).skip(1));
    }
}

/// A frame is sent to, and a read is started on, no one but the client of the moment, and one
/// frame at a time.
pub proof fn law_only_the_client_is_served(s: ShellModel, outcome: Outcome)
    ensures
        ({
            let t = s.settled(outcome);
            match s.stepped(outcome).1 {
                Action::Send { handle } => t.client == Some(handle) && t.inflight is None,
                Action::Receive { handle } => t.client == Some(handle),
                _ => true,
            }
        }),
{
}

/// A piece of work leaves the outbound frames alone, adds one at their end, or lets them all go
/// with the client.
pub proof fn law_outbound_frames_only_grow_or_go(s: ShellModel)
    requires
        s.awaiting is Nothing,
    ensures
        ({
            let after = outbound(s.performed().0);
            ||| after == outbound(s)
            ||| after.len() == outbound(s).len() + 1 && after.drop_last() == outbound(s)
            ||| after.len() == 0 && s.performed().0.client is None
        }),
{
    if s.agenda.len() > 0 {
        let t = ShellModel { agenda: s.agenda.skip(1), ..s };
        assert(outbound(t) == outbound(s));
        match s.agenda[0] {
            Work::Enqueue { tag, data } => {
                law_frames_leave_in_order(t, tag, data);
                assert(outbound(t).push(wire::tagged(tag, data)).drop_last() =~= outbound(t));
            },
            Work::Transmit => law_frames_leave_in_order(t, 0, seq![]),
            Work::Frames | Work::MoreFrames => lemma_a_frame_sends_nothing(t),
            _ => {},
        }
    }
}

/// A frame that is taken in sends nothing: it leaves the outbound frames and the client alone, or
/// the client is let go.
pub proof fn lemma_a_frame_sends_nothing(s: ShellModel)
    ensures
        s.frame_taken().exit == s.exit,
        ({
            ||| s.frame_taken().out == s.out && s.frame_taken().inflight == s.inflight
                && s.frame_taken().client == s.client
            ||| s.frame_taken() == s.dropped()
        }),
{
    match wire::front(s.inbuf) {
        Cut::Whole(payload) => {
            let t = ShellModel { inbuf: wire::behind(s.inbuf), ..s }.planned(
                seq![Work::MoreFrames],
            );
            model::lemma_a_line_sends_nothing(
                ShellModel { cmds: t.cmds.wrapping_add(1), ..t },
                model::line_in(payload),
            );
        },
        _ => {},
    }
}

// ---------------------------------------------------------------------------------------------
// The link.

/// One client at a time: a client is called for only when there is none, there is a listener, and
/// no call is under way; and no step but an accepted call brings one in.
pub proof fn law_one_client_at_a_time(s: ShellModel, outcome: Outcome)
    ensures
        s.stepped(outcome).1 is Accept ==> {
            let t = s.settled(outcome);
            t.client is None && t.listener_up && !t.accepting
        },
        s.stepped(outcome).0.client == s.client || s.stepped(outcome).0.client is None,
{
    let t = s.settled(outcome);
    if t.agenda.len() > 0 {
        lemma_a_frame_sends_nothing(ShellModel { agenda: t.agenda.skip(1), ..t });
    }
}

/// A client is called for exactly when there is none, there is a listener, and no call is under
/// way. A call is under way then exactly when it was taken, and nothing else changes. So in every
/// state there is at most one call under way, and none while there is a client.
pub proof fn law_a_client_is_called_for_only_when_due(s: ShellModel, taken: bool)
    requires
        s.wf(),
        s.awaiting is Nothing,
    ensures
        ({
            let due = !s.accepting && s.client is None && s.listener_up;
            let (after, action) = s.done(Work::Accept);
            &&& action is Accept <==> due
            &&& !due ==> after == s && action is Proceed
            &&& due ==> after == (ShellModel { awaiting: Await::Accept, ..s })
            &&& due ==> after.settled(Outcome::Called(taken)) == (ShellModel {
                accepting: taken,
                ..s
            })
        }),
        s.accepting ==> s.client is None && s.listener_up,
{
}

/// A dropped client leaves nothing behind: no bytes, no frames, no file half received, no reset
/// asked for. Its socket is closed and the state is published, once, and only if there was one. The
/// rest of the shell stays as it is.
pub proof fn law_a_dropped_client_leaves_nothing(s: ShellModel)
    ensures
        s.dropped().client is None,
        s.dropped().inbuf.len() == 0,
        outbound(s.dropped()).len() == 0,
        s.dropped().put is None,
        !s.dropped().reboot_requested,
        s.dropped().agenda == match s.client {
            Some(handle) => seq![
                Work::Close { handle },
                Work::Publish { key: pubsub::KEY_STATE, value: pubsub::STATE_LISTENING },
                WorkModel::Accept,
            ],
            None => seq![WorkModel::Accept],
        } + s.agenda,
        s.dropped().cwd == s.cwd,
        s.dropped().cmds == s.cmds,
        s.dropped().clients == s.clients,
        s.dropped().channel == s.channel,
        s.dropped().listener_up == s.listener_up,
        s.dropped().accepting == s.accepting,
{
}

/// A second drop does nothing more: no socket is closed and no state published, nothing is noted,
/// and all that is planned is to call for a client.
pub proof fn law_a_second_drop_does_nothing_more(s: ShellModel)
    ensures
        ({
            let once = ShellModel { agenda: seq![], ..s.dropped() };
            once.dropped() == (ShellModel { agenda: seq![WorkModel::Accept], ..once })
        }),
{
    let once = ShellModel { agenda: seq![], ..s.dropped() };
    assert(once.dropped() =~= (ShellModel { agenda: seq![WorkModel::Accept], ..once }));
}

/// A link that breaks is noticed: an error or an empty read, an error on a send, the word that it
/// is closed, a read or a send that is not taken, and a frame that claims to be too large each
/// drop the client.
pub proof fn law_a_broken_link_drops_the_client(s: ShellModel, status: i32, len: int, rx: Seq<u8>)
    ensures
        status != 0 ==> s.received(status, len, rx) == s.dropped(),
        s.received(status, 0, rx) == s.dropped(),
        status != 0 ==> s.sent(status) == (ShellModel { inflight: None, ..s }).dropped(),
        s.routed(Event::Closed) == s.dropped(),
        s.awaiting is Receive || s.awaiting is Send ==> s.settled(Outcome::Called(false))
            == (ShellModel { awaiting: Await::Nothing, ..s }).dropped(),
        wire::front(s.inbuf) is Oversize ==> s.frame_taken() == s.dropped(),
{
}

/// The shell gets back on its feet by itself: with the listener up, a dropped client's socket is
/// closed, the state is published, and the next client is called for, with no event in between.
pub proof fn law_a_drop_leads_back_to_accepting(s: ShellModel, handle: i32)
    requires
        s.wf(),
        s.at_rest(),
        s.listener_up,
        s.client == Some(handle),
    ensures
        ({
            let s1 = s.dropped().stepped(Outcome::Done);
            let s2 = s1.0.stepped(Outcome::Done);
            let s3 = s2.0.stepped(Outcome::Done);
            &&& s1.1 == (ActionModel::Close { handle })
            &&& s2.1 == (ActionModel::Publish {
                key: pubsub::KEY_STATE,
                value: pubsub::STATE_LISTENING,
            })
            &&& s3.1 is Accept
        }),
{
    let list = s.dropped().agenda;
    assert(list.len() == 3);
    assert(list.skip(1).len() == 2 && list.skip(1)[0] == list[1]);
    assert(list.skip(1).skip(1)[0] == list[2]);
}

/// The heartbeat mends what was missed: with no client and no call under way, a timer event leads
/// to a call for one; a listener that is not up is brought up first.
pub proof fn law_a_tick_leads_back_to_accepting(s: ShellModel)
    requires
        s.at_rest(),
        s.started,
        s.client is None,
        !s.accepting,
    ensures
        ({
            let (after, action) = s.routed(Event::Timer).stepped(Outcome::Done);
            if s.listener_up {
                action is Accept
            } else {
                &&& action is Listen
                &&& after.awaiting == (Await::<JobModel>::Listen { first: false })
                &&& after.agenda == seq![WorkModel::Accept]
                &&& after.client is None
                &&& !after.accepting
            }
        }),
{
    let s0 = s.routed(Event::Timer);
    if s.listener_up {
        lemma_next(s0, Work::Accept, seq![]);
    } else {
        lemma_next(s0, Work::Listen { first: false }, seq![Work::Accept]);
    }
}

/// A listener that the heartbeat brought up is published, and a client is called for.
pub proof fn law_a_listener_brought_up_leads_to_accepting(s: ShellModel, channel: u8)
    requires
        s.awaiting == (Await::<JobModel>::Listen { first: false }),
        s.agenda == seq![WorkModel::Accept],
        s.client is None,
        !s.accepting,
    ensures
        ({
            let s1 = s.stepped(Outcome::Listened(Ok(channel)));
            let s2 = s1.0.stepped(Outcome::Done);
            let s3 = s2.0.stepped(Outcome::Done);
            &&& s1.1 == (ActionModel::Publish { key: pubsub::KEY_CHANNEL, value: channel as i32 })
            &&& s2.1 == (ActionModel::Publish {
                key: pubsub::KEY_STATE,
                value: pubsub::STATE_LISTENING,
            })
            &&& s3.1 is Accept
        }),
{
    let channel_work = WorkModel::Publish { key: pubsub::KEY_CHANNEL, value: channel as i32 };
    let state_work = WorkModel::Publish {
        key: pubsub::KEY_STATE,
        value: pubsub::STATE_LISTENING,
    };
    let up = Outcome::Listened(Ok(channel));
    let s1 = ShellModel {
        listener_up: true,
        channel,
        awaiting: Await::Nothing,
        agenda: seq![state_work, Work::Accept],
        ..s
    };
    assert(s.stepped(up).0 == s1 && s.stepped(up).1 == (ActionModel::Publish {
        key: pubsub::KEY_CHANNEL,
        value: channel as i32,
    })) by {
        lemma_first(s.settled(up), channel_work, seq![state_work, Work::Accept]);
    }
    let s2 = ShellModel { agenda: seq![Work::Accept], ..s1 };
    assert(s1.stepped(Outcome::Done).0 == s2 && s1.stepped(Outcome::Done).1
        == (ActionModel::Publish {
        key: pubsub::KEY_STATE,
        value: pubsub::STATE_LISTENING,
    })) by {
        lemma_next(s1, state_work, seq![Work::Accept]);
    }
    assert(s2.stepped(Outcome::Done).1 is Accept) by {
        lemma_next(s2, Work::Accept, seq![]);
    }
}

/// What comes of the first piece of work.
proof fn lemma_first(s: ShellModel, work: WorkModel, rest: Seq<WorkModel>)
    requires
        s.agenda =~= seq![work] + rest,
    ensures
        s.performed() == (ShellModel { agenda: rest, ..s }).done(work),
{
    assert(s.agenda.skip(1) =~= rest);
}

/// What comes of a step that has no outcome to take in.
proof fn lemma_next(s: ShellModel, work: WorkModel, rest: Seq<WorkModel>)
    requires
        s.awaiting is Nothing,
        s.agenda =~= seq![work] + rest,
    ensures
        s.stepped(Outcome::Done) == (ShellModel { agenda: rest, ..s }).done(work),
{
    assert(s.settled(Outcome::Done) == s);
    lemma_first(s, work, rest);
}

// ---------------------------------------------------------------------------------------------
// Files.

/// The shell with a list of payloads handled, one after the other.
pub open spec fn fed(s: ShellModel, payloads: Seq<Seq<u8>>) -> ShellModel
    decreases payloads.len(),
{
    if payloads.len() == 0 {
        s
    } else {
        fed(s, payloads.drop_last()).handled(payloads.last())
    }
}

/// A `put` keeps every byte it is sent, in order, until it has as many as it was promised; until
/// then it plans nothing and handles no line.
pub proof fn law_put_keeps_what_arrives(
    s: ShellModel,
    path: Seq<char>,
    len: int,
    payloads: Seq<Seq<u8>>,
)
    requires
        s.put == Some(PutModel { path, remaining: len, acc: seq![] }),
        reply::joined(payloads).len() < len,
    ensures
        fed(s, payloads) == (ShellModel {
            put: Some(
                PutModel {
                    path,
                    remaining: len - reply::joined(payloads).len(),
                    acc: reply::joined(payloads),
                },
            ),
            ..s
        }),
    decreases payloads.len(),
{
    if payloads.len() > 0 {
        let front = payloads.drop_last();
        let p = payloads.last();
        reply::lemma_joined_push(front, p);
        assert(front.push(p) =~= payloads);
        law_put_keeps_what_arrives(s, path, len, front);
        assert(p.take(p.len() as int) =~= p);
    } else {
        assert(reply::joined(payloads) =~= seq![]);
    }
}

/// With the payload that brings the last of its bytes, a `put` writes the file: exactly the bytes
/// it was promised, whatever the payloads they came in, and none of those beyond them.
pub proof fn law_put_writes_exactly_its_bytes(
    s: ShellModel,
    path: Seq<char>,
    len: int,
    payloads: Seq<Seq<u8>>,
    p: Seq<u8>,
)
    requires
        s.put == Some(PutModel { path, remaining: len, acc: seq![] }),
        reply::joined(payloads).len() < len <= reply::joined(payloads).len() + p.len(),
    ensures
        fed(s, payloads.push(p)) == (ShellModel { put: None, ..s }).planned(
            model::step_work(
                command::write_begun(path, (reply::joined(payloads) + p).take(len)),
            ),
        ),
{
    law_put_keeps_what_arrives(s, path, len, payloads);
    assert(payloads.push(p).drop_last() =~= payloads);
    let n = len - reply::joined(payloads).len();
    assert((reply::joined(payloads) + p).take(len) =~= reply::joined(payloads) + p.take(n));
}

/// A `put` keeps to the limit: what it writes is no larger than was allowed when it began.
pub proof fn law_put_keeps_to_the_limit(s: ShellModel, put: PutModel, payload: Seq<u8>)
    requires
        s.wf(),
        s.put == Some(put),
    ensures
        put.remaining <= payload.len() ==> {
            let data = put.acc + payload.take(put.remaining);
            &&& s.handled(payload) == (ShellModel { put: None, ..s }).planned(
                model::step_work(command::write_begun(put.path, data)),
            )
            &&& data.len() == put.acc.len() + put.remaining
            &&& data.len() <= MAX_FILE
        },
{
}

/// A write hands the platform the bytes it was given, under the path it was given, and reports
/// their number.
pub proof fn law_a_write_stores_what_it_was_given(path: Seq<char>, data: Seq<u8>)
    requires
        data.len() <= usize::MAX,
    ensures
        ({
            let job = Job::WriteCheck { path, data };
            let step = job::continued(job, Answer::Path(true));
            &&& command::write_begun(path, data) == StepModel::Ask(Query::CheckPath(path), job)
            &&& step == StepModel::Ask(
                Query::Write { path, data },
                Job::Write { path, len: data.len() as usize },
            )
            &&& job::continued(step->Ask_1, Answer::Done(Ok(()))) == StepModel::Finish(
                reply::success(
                    "wrote "@ + number::dec(data.len()) + " bytes to "@ + path,
                ),
            )
        }),
{
}

/// `cat` sends the file: the data frames, put together, are its bytes, in pieces of bounded size;
/// and the reply behind them gives their number.
pub proof fn law_cat_sends_the_file(bytes: Vec<u8>)
    requires
        bytes@.len() <= MAX_FILE,
    ensures
        ({
            let r = job::whole_file_reply(Ok(Some(bytes)));
            &&& reply::joined(r.data) == bytes@
            &&& forall|i: int|
                0 <= i < r.data.len() ==> 0 < (#[trigger] r.data[i]).len() <= reply::DATA_CHUNK
            &&& r.ok
            &&& r.text == number::dec(bytes@.len()) + " bytes"@
        }),
{
    reply::law_the_pieces_are_the_whole(bytes@, reply::DATA_CHUNK as int);
}

/// `cat` of a range sends the range: the data frames, put together, are the bytes that were read.
pub proof fn law_cat_sends_the_range(off: u64, bytes: Vec<u8>, total: Option<u64>)
    ensures
        ({
            let r = job::range_reply(off, crate::platform::RangeRead::Bytes { bytes, total });
            &&& reply::joined(r.data) == bytes@
            &&& forall|i: int|
                0 <= i < r.data.len() ==> 0 < (#[trigger] r.data[i]).len() <= reply::DATA_CHUNK
            &&& r.ok
        }),
{
    reply::law_the_pieces_are_the_whole(bytes@, reply::DATA_CHUNK as int);
}

/// A file over the limit is not sent: no data, and an error that gives its size.
pub proof fn law_cat_refuses_what_is_too_large(bytes: Vec<u8>)
    requires
        bytes@.len() > MAX_FILE,
    ensures
        job::whole_file_reply(Ok(Some(bytes))) == reply::failure(
            job::file_too_large_text(bytes@.len()),
        ),
{
}

/// No question asks the platform to read a range over the limit, and none follows a path it cannot
/// take.
pub proof fn law_ranges_keep_to_the_limit(path: Seq<char>, range: Option<(u64, usize)>, fine: bool)
    ensures
        ({
            let step = job::continued(Job::CatCheck { path, range }, Answer::Path(fine));
            match step {
                Progress::Ask(Query::ReadRange { len, .. }, _) => fine && len <= MAX_FILE,
                Progress::Ask(Query::Read(_), _) => fine && range is None,
                Progress::Ask(_, _) => false,
                Progress::Finish(r) => !r.ok,
            }
        }),
{
}

// ---------------------------------------------------------------------------------------------
// Frames from the client.

/// No payload over the limit is ever handled.
pub proof fn law_payloads_keep_to_the_limit(buf: Seq<u8>)
    ensures
        wire::front(buf) matches Cut::Whole(payload) ==> payload.len() <= MAX_FRAME,
{
}

/// Frames are handled in the order in which they arrived, each once: handling the first leaves the
/// others as they were.
pub proof fn law_frames_are_handled_in_order(s: ShellModel, payload: Seq<u8>)
    requires
        wire::front(s.inbuf) == Cut::Whole(payload),
    ensures
        s.frame_taken() == (ShellModel { inbuf: wire::behind(s.inbuf), ..s }).planned(
            seq![Work::MoreFrames],
        ).handled(payload),
        s.frame_taken().inbuf == wire::behind(s.inbuf),
        wire::payloads(s.inbuf) == seq![payload] + wire::payloads(s.frame_taken().inbuf),
        wire::leftover(s.inbuf) == wire::leftover(s.frame_taken().inbuf),
        s.frame_taken().client == s.client,
{
    let t = ShellModel { inbuf: wire::behind(s.inbuf), ..s }.planned(seq![Work::MoreFrames]);
    model::lemma_a_line_sends_nothing(
        ShellModel { cmds: t.cmds.wrapping_add(1), ..t },
        model::line_in(payload),
    );
}

/// While the client stays, frames are taken until no whole one is left: behind the first, the
/// shell goes on with the next.
pub proof fn law_no_whole_frame_is_left_behind(s: ShellModel)
    requires
        s.agenda.len() > 0,
        s.agenda[0] is Frames || (s.agenda[0] is MoreFrames && s.client is Some),
    ensures
        ({
            let after = s.performed().0;
            ||| !(wire::front(after.inbuf) is Whole)
            ||| exists|i: int| 0 <= i < after.agenda.len() && #[trigger] after.agenda[i] is MoreFrames
        }),
{
    let t = ShellModel { agenda: s.agenda.skip(1), ..s };
    match wire::front(t.inbuf) {
        Cut::Whole(payload) => {
            let u = ShellModel { inbuf: wire::behind(t.inbuf), ..t }.planned(
                seq![Work::MoreFrames],
            );
            let after = t.frame_taken();
            match u.put {
                Some(put) => {
                    let n = after.agenda.len() - u.agenda.len();
                    assert(after.agenda =~= after.agenda.take(n) + u.agenda);
                    assert(after.agenda[n] == u.agenda[0]);
                },
                None => {
                    let cmds = u.cmds.wrapping_add(1);
                    let v = ShellModel { cmds, ..u };
                    let line = model::line_in(payload);
                    replies::law_a_line_is_answered_or_asked_about(v, line);
                    let n = replies::added(v, v.dispatched(line)).len() as int;
                    assert(after.agenda[n + 1] == u.agenda[0]);
                },
            }
        },
        _ => {},
    }
}

/// Every payload that is no part of a file counts as a command, and the count is published before
/// anything else is done about it.
pub proof fn law_every_command_is_counted(s: ShellModel, payload: Seq<u8>)
    requires
        s.put is None,
    ensures
        s.handled(payload).cmds == s.cmds.wrapping_add(1),
        s.handled(payload).agenda[0] == (WorkModel::Publish {
            key: pubsub::KEY_CMDS,
            value: s.cmds.wrapping_add(1),
        }),
{
    let u = ShellModel { cmds: s.cmds.wrapping_add(1), ..s };
    model::lemma_a_line_sends_nothing(u, model::line_in(payload));
}

// ---------------------------------------------------------------------------------------------
// The screen.

/// The shell with a list of lines noted, one after the other.
pub open spec fn noted_all(s: ShellModel, list: Seq<Seq<char>>) -> ShellModel
    decreases list.len(),
{
    if list.len() == 0 {
        s
    } else {
        noted_all(s, list.drop_last()).noted(list.last())
    }
}

/// Of all the lines noted, the last few are kept, in order.
pub proof fn law_the_last_lines_are_kept(s: ShellModel, list: Seq<Seq<char>>)
    requires
        s.log_lines.len() <= lines::RECENT,
    ensures
        noted_all(s, list).log_lines == lines::last(s.log_lines + list, lines::RECENT as int),
    decreases list.len(),
{
    if list.len() == 0 {
        assert(s.log_lines + list =~= s.log_lines);
    } else {
        law_the_last_lines_are_kept(s, list.drop_last());
        let n = lines::RECENT as int;
        let before = s.log_lines + list.drop_last();
        let all = s.log_lines + list;
        assert(all =~= before.push(list.last()));
        assert(lines::last(lines::last(before, n).push(list.last()), n) =~= lines::last(all, n));
    }
}

// ---------------------------------------------------------------------------------------------
// Lines.

/// A line that the client sends in UTF-8 is read as it was written; a payload that is not UTF-8 is
/// read as a blank line.
pub proof fn law_a_line_is_read_as_written(line: Seq<char>, payload: Seq<u8>)
    ensures
        model::line_in(vstd::utf8::encode_utf8(line)) == line,
        !vstd::utf8::valid_utf8(payload) ==> command::line_verb(model::line_in(payload))
            == Verb::Blank,
{
    vstd::utf8::encode_utf8_valid_utf8(line);
    vstd::utf8::encode_utf8_decode_utf8(line);
    if !vstd::utf8::valid_utf8(payload) {
        assert(text::trimmed(model::line_in(payload)) =~= seq![]);
        assert(command::before_space(seq![]) =~= seq![]);
    }
}

proof fn lemma_first_space(word: Seq<char>, rest: Seq<char>)
    requires
        text::no_whitespace(word),
    ensures
        text::first_index(word + seq![' '] + rest, ' ') == Some(word.len() as int),
    decreases word.len(),
{
    let s = word + seq![' '] + rest;
    if word.len() > 0 {
        let tail = word.skip(1);
        assert forall|i: int| 0 <= i < tail.len() implies !text::whitespace(#[trigger] tail[i]) by {
            assert(tail[i] == word[i + 1]);
        }
        lemma_first_space(tail, rest);
        assert(s.skip(1) =~= tail + seq![' '] + rest);
        assert(!text::whitespace(word[0]));
        assert(s[0] == word[0]);
    }
}

/// Blanks around a line change nothing.
pub proof fn law_blanks_around_a_line_change_nothing(s: ShellModel, line: Seq<char>)
    ensures
        s.dispatched(line) == s.dispatched(text::trimmed(line)),
{
    reveal(ShellModel::dispatched);
    text::lemma_trimmed_twice(line);
}

/// A verb, a space and an argument, with or without blanks around the argument, are taken apart
/// into just these.
pub proof fn law_a_line_is_a_verb_and_an_argument(word: Seq<char>, arg: Seq<char>)
    requires
        word.len() > 0,
        text::no_whitespace(word),
    ensures
        command::line_verb(word + seq![' '] + arg) == command::verb_named(word),
        command::line_arg(word + seq![' '] + arg) == text::trimmed(arg),
        text::trimmed(word + seq![' '] + arg).len() > 0,
{
    let line = word + seq![' '] + arg;
    let body = text::trimmed_end(arg);
    text::lemma_trimmed_end(arg);
    let pad = arg.skip(body.len() as int);
    assert(arg =~= body + pad);
    assert(line[0] == word[0]);
    assert(!text::whitespace(word[0]));
    assert(!text::whitespace(word[word.len() - 1]));
    assert(text::trimmed_start(line) == line);
    lemma_trims_alike(arg);
    if body.len() == 0 {
        let blank = seq![' '] + arg;
        assert forall|i: int| 0 <= i < blank.len() implies text::whitespace(#[trigger] blank[i]) by {
            if i > 0 {
                assert(blank[i] == pad[i - 1]);
            }
        }
        assert(line =~= word + blank);
        text::lemma_trimmed_end_padded(word, blank);
        assert(text::trimmed(line) == word);
        text::lemma_first_index(word, ' ');
        assert(text::first_index(word, ' ') is None) by {
            if let Some(i) = text::first_index(word, ' ') {
                assert(text::whitespace(word[i]));
            }
        }
        assert(text::trimmed(seq![]) =~= seq![]);
        assert(text::trimmed(arg) =~= seq![]);
    } else {
        let kept = word + seq![' '] + body;
        assert(line =~= kept + pad);
        assert(kept.last() == body.last());
        text::lemma_trimmed_end_padded(kept, pad);
        assert(text::trimmed(line) == kept);
        lemma_first_space(word, body);
        assert(kept.take(word.len() as int) =~= word);
        assert(kept.skip(word.len() as int + 1) =~= body);
    }
}

/// Trimming the end first changes nothing in what trimming leaves.
proof fn lemma_trims_alike(s: Seq<char>)
    ensures
        text::trimmed(text::trimmed_end(s)) == text::trimmed(s),
    decreases s.len(),
{
    let body = text::trimmed_end(s);
    text::lemma_trimmed_end(s);
    let pad = s.skip(body.len() as int);
    assert(s =~= body + pad);
    text::lemma_trimmed_start(body);
    text::lemma_trimmed_start(s);
    if body.len() == 0 {
        let start = text::trimmed_start(s);
        if start.len() > 0 {
            assert(start[0] == pad[s.len() - start.len()]);
        }
        assert(start =~= seq![]);
        assert(text::trimmed(s) =~= seq![]);
        assert(text::trimmed(body) =~= seq![]);
    } else {
        lemma_start_of_padded(body, pad);
        let start = text::trimmed_start(body);
        assert(start.len() > 0) by {
            if start.len() == 0 {
                let front = body.take(body.len() - start.len());
                assert(front[body.len() - 1] == body.last());
            }
        }
        assert(start.last() == body.last());
        text::lemma_trimmed_end_padded(start, pad);
        text::lemma_trimmed_end_padded(start, seq![]);
        assert(start + seq![] =~= start);
    }
}

/// Blanks behind a text that is not blank do not change how its start is trimmed.
proof fn lemma_start_of_padded(body: Seq<char>, pad: Seq<char>)
    requires
        body.len() > 0,
        !text::whitespace(body.last()),
    ensures
        text::trimmed_start(body + pad) == text::trimmed_start(body) + pad,
    decreases body.len(),
{
    let all = body + pad;
    assert(all[0] == body[0]);
    if text::whitespace(body[0]) {
        let tail = body.skip(1);
        assert(tail.len() > 0) by {
            if tail.len() == 0 {
                assert(body.last() == body[0]);
            }
        }
        assert(tail.last() == body.last());
        assert(all.skip(1) =~= tail + pad);
        lemma_start_of_padded(tail, pad);
    }
}

/// `get` is another name for `cat`: with the same argument they do the same, but for the line that
/// is noted.
pub proof fn law_get_is_cat(s: ShellModel, arg: Seq<char>)
    ensures
        ({
            let cat = s.dispatched("cat "@ + arg);
            let get = s.dispatched("get "@ + arg);
            get == (ShellModel { log_lines: get.log_lines, ..cat })
        }),
{
    reveal_strlit("cat ");
    reveal_strlit("get ");
    reveal_strlit("cat");
    reveal_strlit("get");
    reveal(ShellModel::dispatched);
    law_a_line_is_a_verb_and_an_argument("cat"@, arg);
    law_a_line_is_a_verb_and_an_argument("get"@, arg);
    assert("cat "@ =~= "cat"@ + seq![' ']);
    assert("get "@ =~= "get"@ + seq![' ']);
    reveal_strlit("pwd");
    reveal_strlit("cd");
    reveal_strlit("ls");
    assert("pwd"@[0] == 'p' && "cat"@[0] == 'c' && "get"@[0] == 'g');
    assert(command::verb_named("cat"@) == Verb::Cat);
    assert(command::verb_named("get"@) == Verb::Cat);
}

/// The words that the shell knows, as they are spelled.
pub open spec fn known_words() -> Seq<Seq<char>> {
    seq![
        "pwd"@,
        "cd"@,
        "ls"@,
        "stat"@,
        "cat"@,
        "get"@,
        "put"@,
        "rm"@,
        "mkdir"@,
        "find"@,
        "grep"@,
        "exec"@,
        "reboot"@,
        "ps"@,
        "cenrep"@,
        "hal"@,
        "ping"@,
        "quit"@,
    ]
}

/// A line that starts with any other word, spelled in capitals or not, is answered with an error and
/// does nothing else.
pub proof fn law_an_unknown_word_is_an_error(s: ShellModel, line: Seq<char>)
    requires
        ({
            let word = command::before_space(text::trimmed(line));
            word.len() > 0 && !known_words().contains(word)
        }),
    ensures
        s.dispatched(line) == s.noted(text::trimmed(line)).planned(
            seq![
                Work::Enqueue {
                    tag: TAG_ERR,
                    data: vstd::utf8::encode_utf8(
                        "unknown verb (pwd cd ls stat cat get put rm mkdir find grep exec reboot ps cenrep hal ping quit)"@,
                    ),
                },
            ],
        ),
{
    reveal(ShellModel::dispatched);
    let word = command::before_space(text::trimmed(line));
    let known = known_words();
    assert(forall|i: int| 0 <= i < known.len() ==> word != #[trigger] known[i]);
    assert(word != known[0] && word != known[1] && word != known[2] && word != known[3]);
    assert(word != known[4] && word != known[5] && word != known[6] && word != known[7]);
    assert(word != known[8] && word != known[9] && word != known[10] && word != known[11]);
    assert(word != known[12] && word != known[13] && word != known[14] && word != known[15]);
    assert(word != known[16] && word != known[17]);
    assert(command::line_verb(line) == Verb::Unknown);
    if text::trimmed(line).len() == 0 {
        assert(word =~= seq![]);
    }
    let said = reply::failure(
        "unknown verb (pwd cd ls stat cat get put rm mkdir find grep exec reboot ps cenrep hal ping quit)"@,
    );
    lemma_a_reply_without_data(said);
}

/// A reply without data is one frame.
proof fn lemma_a_reply_without_data(r: reply::ReplyModel)
    requires
        r.data.len() == 0,
    ensures
        model::reply_work(r) == seq![
            WorkModel::Enqueue {
                tag: if r.ok {
                    TAG_OK
                } else {
                    TAG_ERR
                },
                data: vstd::utf8::encode_utf8(r.text),
            },
        ],
{
    assert(model::reply_work(r) =~= seq![model::reply_work(r).last()]);
}

/// Only `cd` moves the shell.
pub proof fn law_only_cd_moves(s: ShellModel, line: Seq<char>)
    ensures
        command::line_verb(line) != Verb::Cd ==> s.dispatched(line).cwd == s.cwd,
{
    reveal(ShellModel::dispatched);
}

/// `cd` goes where it is told: up, nowhere, or into the directory that its argument names. Where it
/// goes is a directory, and it answers with just that.
pub proof fn law_cd_goes_where_it_is_told(s: ShellModel, arg: Seq<char>)
    requires
        crate::path::ends_in_separator(s.cwd),
    ensures
        ({
            let a = text::trimmed(arg);
            let there = if a == ".."@ {
                crate::path::parent(s.cwd)
            } else if a.len() == 0 {
                s.cwd
            } else {
                crate::path::resolved_dir(s.cwd, a)
            };
            &&& crate::path::ends_in_separator(there)
            &&& s.cd_begun(arg) == (ShellModel { cwd: there, ..s }).planned(
                seq![
                    Work::Enqueue { tag: TAG_OK, data: vstd::utf8::encode_utf8(there) },
                ],
            )
        }),
{
    crate::path::law_the_parent_is_a_directory_above(s.cwd);
    lemma_a_reply_without_data(reply::success(s.cd_target(arg)));
}

/// A path and a length in decimal are what `put` takes them for, also where the path holds blanks.
pub proof fn law_put_takes_its_arguments(file: Seq<char>, len: usize)
    requires
        text::trimmed(file) == file,
    ensures
        model::put_args(file + seq![' '] + number::dec(len as nat)) == Some((file, len as int)),
{
    let digits = number::dec(len as nat);
    let arg = file + seq![' '] + digits;
    number::lemma_numeral(len as nat, 10);
    number::law_written_numbers_read_back(len as nat, 10, usize::MAX as nat);
    text::lemma_last_index(arg, ' ');
    assert(arg[file.len() as int] == ' ');
    let i = text::last_index(arg, ' ')->0;
    assert(i == file.len()) by {
        if i > file.len() {
            assert(arg[i] == digits[i - file.len() - 1]);
            assert(!text::whitespace(digits[i - file.len() - 1]));
        }
    }
    assert(arg.skip(i + 1) =~= digits);
    assert(arg.take(i) =~= file);
    text::lemma_trimmed_as_it_stands(digits);
}

/// Before the bytes of a `put` come, the client is told how many are expected, and the shell is
/// ready for just as many.
pub proof fn law_put_gets_ready(s: ShellModel, arg: Seq<char>, file: Seq<char>, len: int)
    requires
        model::put_args(arg) == Some((file, len)),
        0 < len <= MAX_FILE,
    ensures
        ({
            let path = crate::path::resolved(s.cwd, file);
            let ready = WorkModel::StartPut { path, len: len as usize };
            &&& s.put_begun(arg) == s.planned(
                model::reply_work(
                    reply::success("send "@ + number::dec(len as nat) + " bytes"@),
                ) + seq![ready],
            )
            &&& s.done(ready).0.put == Some(PutModel { path, remaining: len, acc: seq![] })
        }),
{
}

/// From its line to its file: a `put` that is accepted, followed by payloads that bring the last of
/// its bytes only with the last of them, writes one file, under the path that was meant when the
/// line came, of exactly the bytes that were promised. Until then nothing is planned and no payload
/// is taken for a line; what was counted and where the shell is stay as they were.
pub proof fn law_a_put_from_its_line_to_its_file(
    s: ShellModel,
    file: Seq<char>,
    len: usize,
    payloads: Seq<Seq<u8>>,
    p: Seq<u8>,
)
    requires
        text::trimmed(file) == file,
        0 < len <= MAX_FILE,
        reply::joined(payloads).len() < len <= reply::joined(payloads).len() + p.len(),
    ensures
        ({
            let path = crate::path::resolved(s.cwd, file);
            let ready = WorkModel::StartPut { path, len };
            let told = reply::success("send "@ + number::dec(len as nat) + " bytes"@);
            let started = s.done(ready).0;
            let waiting = fed(started, payloads);
            let all = reply::joined(payloads) + p;
            &&& s.put_begun(file + seq![' '] + number::dec(len as nat)) == s.planned(
                model::reply_work(told) + seq![ready],
            )
            &&& waiting == (ShellModel { put: waiting.put, ..s })
            &&& fed(started, payloads.push(p)) == (ShellModel { put: None, ..s }).planned(
                seq![
                    Work::Ask(
                        Query::CheckPath(path),
                        Job::WriteCheck { path, data: all.take(len as int) },
                    ),
                ],
            )
        }),
{
    let path = crate::path::resolved(s.cwd, file);
    let arg = file + seq![' '] + number::dec(len as nat);
    law_put_takes_its_arguments(file, len);
    law_put_gets_ready(s, arg, file, len as int);
    let started = s.done(WorkModel::StartPut { path, len }).0;
    law_put_keeps_what_arrives(started, path, len as int, payloads);
    law_put_writes_exactly_its_bytes(started, path, len as int, payloads, p);
}

/// `pwd` says where `cd` went: `cd` answers with the working directory it leaves, and that is what
/// `pwd` answers with then.
pub proof fn law_pwd_says_where_cd_went(s: ShellModel, cd: Seq<char>, pwd: Seq<char>)
    requires
        command::line_verb(cd) == Verb::Cd,
        command::line_verb(pwd) == Verb::Pwd,
    ensures
        ({
            let there = s.dispatched(cd);
            let said = model::reply_work(reply::success(there.cwd));
            &&& replies::added(s, there) == said
            &&& replies::added(there, there.dispatched(pwd)) == said
            &&& there.dispatched(pwd).cwd == there.cwd
        }),
{
    reveal(ShellModel::dispatched);
    let there = s.dispatched(cd);
    let said = model::reply_work(reply::success(there.cwd));
    replies::lemma_added(s, there, said);
    replies::lemma_added(there, there.dispatched(pwd), said);
}

/// Going down into a directory and up again leads back.
pub proof fn law_cd_up_undoes_cd_down(s: ShellModel, name: Seq<char>)
    requires
        s.wf(),
        name.len() > 0,
        !name.contains('\\'),
        !crate::path::has_drive(name),
        text::trimmed(name) == name,
        name != ".."@,
    ensures
        s.cd_begun(name).cd_begun(".."@).cwd == s.cwd,
{
    reveal_strlit("..");
    crate::path::law_up_undoes_down(s.cwd, name);
    text::lemma_trimmed_as_it_stands(".."@);
}

// ---------------------------------------------------------------------------------------------
// A new client.

/// What is still to be done for a new client once it is counted: to greet it, and to read from it.
pub open spec fn to_be_greeted(s: ShellModel, handle: i32) -> bool {
    &&& s.awaiting is Nothing
    &&& s.client == Some(handle)
    &&& outbound(s).len() == 0
    &&& s.agenda == seq![
        Work::Enqueue { tag: TAG_OK, data: vstd::utf8::encode_utf8("rshell ready"@) },
        WorkModel::Receive,
    ]
}

/// A new client is counted: the count and the state are published before anything else is done
/// for it.
pub proof fn law_a_new_client_is_counted(s: ShellModel, handle: i32)
    requires
        s.at_rest(),
        handle >= 0,
    ensures
        ({
            let s0 = s.routed(Event::Accepted { handle, status: 0 });
            let s1 = s0.stepped(Outcome::Done);
            let s2 = s1.0.stepped(Outcome::Done);
            &&& s0.clients == s.clients.wrapping_add(1)
            &&& s1.1 == (ActionModel::Publish { key: pubsub::KEY_CLIENTS, value: s0.clients })
            &&& s2.1 == (ActionModel::Publish {
                key: pubsub::KEY_STATE,
                value: pubsub::STATE_CONNECTED,
            })
            &&& to_be_greeted(s2.0, handle)
        }),
{
    let s0 = s.routed(Event::Accepted { handle, status: 0 });
    let data = vstd::utf8::encode_utf8("rshell ready"@);
    let w1 = WorkModel::Publish { key: pubsub::KEY_CLIENTS, value: s0.clients };
    let w2 = WorkModel::Publish { key: pubsub::KEY_STATE, value: pubsub::STATE_CONNECTED };
    let w3 = WorkModel::Enqueue { tag: TAG_OK, data };
    let s1 = ShellModel { agenda: seq![w2, w3, Work::Receive], ..s0 };
    assert(s0.stepped(Outcome::Done).0 == s1 && s0.stepped(Outcome::Done).1
        == (ActionModel::Publish { key: pubsub::KEY_CLIENTS, value: s0.clients })) by {
        lemma_next(s0, w1, seq![w2, w3, Work::Receive]);
    }
    lemma_next(s1, w2, seq![w3, Work::Receive]);
}

/// A new client is greeted and read from: the greeting is the first frame that leaves, and a read
/// follows it.
pub proof fn law_a_new_client_is_greeted(s: ShellModel, handle: i32)
    requires
        to_be_greeted(s, handle),
    ensures
        ({
            let s1 = s.stepped(Outcome::Done);
            let s2 = s1.0.stepped(Outcome::Called(true));
            &&& s1.1 == (ActionModel::Send { handle })
            &&& s1.0.inflight == Some(
                wire::tagged(TAG_OK, vstd::utf8::encode_utf8("rshell ready"@)),
            )
            &&& s2.1 == (ActionModel::Receive { handle })
        }),
{
    let data = vstd::utf8::encode_utf8("rshell ready"@);
    let w = WorkModel::Enqueue { tag: TAG_OK, data };
    let s1 = ShellModel {
        agenda: seq![Work::Receive],
        out: seq![],
        inflight: Some(wire::tagged(TAG_OK, data)),
        awaiting: Await::Send,
        ..s
    };
    assert(s.stepped(Outcome::Done).0 == s1 && s.stepped(Outcome::Done).1 == (ActionModel::Send {
        handle,
    })) by {
        lemma_next(s, w, seq![Work::Receive]);
        assert(s.out.push(wire::tagged(TAG_OK, data)).skip(1) =~= seq![]);
    }
    assert(s1.stepped(Outcome::Called(true)).1 == (ActionModel::Receive { handle })) by {
        lemma_first(s1.settled(Outcome::Called(true)), Work::Receive, seq![]);
    }
}

// ---------------------------------------------------------------------------------------------
// Actions and outcomes.

/// The outcome is of the kind that the action calls for.
pub open spec fn suits(action: ActionModel, outcome: Outcome) -> bool {
    match action {
        Action::Listen => outcome is Listened,
        Action::Accept | Action::Receive { .. } | Action::Send { .. } => outcome is Called,
        Action::Ask(query) => outcome matches Outcome::Answered(answer) && job::answers(
            query,
            answer,
        ),
        _ => outcome is Done,
    }
}

/// Whoever performs an action and hands back an outcome of the kind it calls for can go on with
/// the next step.
pub proof fn law_the_outcome_of_an_action_is_awaited(s: ShellModel, outcome: Outcome, next: Outcome)
    requires
        s.wf(),
        s.awaiting.fits(outcome),
    ensures
        s.stepped(outcome).0.wf(),
        s.stepped(outcome).0.awaiting.fits(next) <==> suits(s.stepped(outcome).1, next),
{
    model::lemma_settled_wf(s, outcome);
    let t = s.settled(outcome);
    model::lemma_performed_wf(t);
    if t.agenda.len() > 0 {
        let u = ShellModel { agenda: t.agenda.skip(1), ..t };
        assert(model::work_wf(t.agenda[0]));
        lemma_a_frame_awaits_nothing(u);
    }
}

proof fn lemma_a_frame_awaits_nothing(s: ShellModel)
    ensures
        s.frame_taken().awaiting == s.awaiting,
{
    match wire::front(s.inbuf) {
        Cut::Whole(payload) => {
            let t = ShellModel { inbuf: wire::behind(s.inbuf), ..s }.planned(
                seq![Work::MoreFrames],
            );
            model::lemma_a_line_sends_nothing(
                ShellModel { cmds: t.cmds.wrapping_add(1), ..t },
                model::line_in(payload),
            );
        },
        _ => {},
    }
}

/// How many times the listener is to be opened.
pub open spec fn listens(list: Seq<WorkModel>) -> nat
    decreases list.len(),
{
    if list.len() == 0 {
        0
    } else {
        listens(list.skip(1)) + if list[0] is Listen {
            1nat
        } else {
            0
        }
    }
}

/// How many times the listener is to be opened, or is being opened.
pub open spec fn listens_in_all(s: ShellModel) -> nat {
    listens(s.agenda) + if s.awaiting is Listen {
        1nat
    } else {
        0
    }
}

proof fn lemma_listens_behind(list: Seq<WorkModel>, rest: Seq<WorkModel>)
    requires
        forall|i: int| 0 <= i < list.len() ==> !(#[trigger] list[i] is Listen),
    ensures
        listens(list + rest) == listens(rest),
    decreases list.len(),
{
    if list.len() == 0 {
        assert(list + rest =~= rest);
    } else {
        let tail = list.skip(1);
        assert forall|i: int| 0 <= i < tail.len() implies !(#[trigger] tail[i] is Listen) by {
            assert(tail[i] == list[i + 1]);
        }
        lemma_listens_behind(tail, rest);
        assert((list + rest).skip(1) =~= tail + rest);
        assert((list + rest)[0] == list[0]);
    }
}

/// One state is nearer to rest than another: it has fewer inbound bytes; or as many, and has lost
/// its client; or it opens the listener fewer times; or it has less to do.
pub open spec fn nearer(after: ShellModel, before: ShellModel) -> bool {
    ||| after.inbuf.len() < before.inbuf.len()
    ||| {
        &&& after.inbuf.len() == before.inbuf.len()
        &&& after.client is None && before.client is Some
    }
    ||| {
        &&& after.inbuf.len() == before.inbuf.len()
        &&& after.client is Some == before.client is Some
        &&& listens_in_all(after) < listens_in_all(before)
    }
    ||| {
        &&& after.inbuf.len() == before.inbuf.len()
        &&& after.client is Some == before.client is Some
        &&& listens_in_all(after) == listens_in_all(before)
        &&& after.agenda.len() < before.agenda.len()
    }
}

/// Work runs out: apart from the answers to its questions, every step brings the shell nearer to
/// rest or finds it there.
pub proof fn law_work_runs_out(s: ShellModel, outcome: Outcome)
    requires
        s.wf(),
        s.awaiting.fits(outcome),
        !(s.awaiting is Answer),
    ensures
        s.stepped(outcome).1 is Rest || nearer(s.stepped(outcome).0, s),
{
    model::lemma_settled_wf(s, outcome);
    let t = s.settled(outcome);
    let r = ShellModel { awaiting: Await::Nothing, ..s };
    assert(s.awaiting is Listen ==> t.inbuf == s.inbuf && t.client == s.client && listens(t.agenda)
        == listens(s.agenda)) by {
        if let Await::Listen { first } = s.awaiting {
            let n = t.agenda.len() - s.agenda.len();
            let list = t.agenda.take(n);
            assert(t.agenda =~= list + s.agenda);
            lemma_listens_behind(list, s.agenda);
        }
    }
    assert(t.inbuf.len() <= s.inbuf.len());
    if t.agenda.len() > 0 {
        let u = ShellModel { agenda: t.agenda.skip(1), ..t };
        assert(listens(t.agenda) == listens(u.agenda) + if t.agenda[0] is Listen {
            1nat
        } else {
            0
        });
        let after = t.performed().0;
        match t.agenda[0] {
            Work::Frames => lemma_a_frame_brings_nearer(u),
            Work::MoreFrames => lemma_a_frame_brings_nearer(u),
            _ => {
                assert(after.inbuf == t.inbuf);
                assert(after.client == t.client);
                assert(after.agenda == u.agenda);
                assert(listens_in_all(after) == listens(t.agenda));
            },
        }
    }
}

proof fn lemma_a_frame_brings_nearer(s: ShellModel)
    ensures
        s.frame_taken() == s || s.frame_taken().inbuf.len() < s.inbuf.len(),
{
    match wire::front(s.inbuf) {
        Cut::Whole(payload) => law_frames_are_handled_in_order(s, payload),
        _ => {},
    }
}

} // verus!
