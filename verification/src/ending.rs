//! How the shell comes to an end: a reset waits for its answer to leave, and goes with the client
//! that asked for it; an exit waits until nothing is left to be sent.

use vstd::prelude::*;

use crate::command;
use crate::command::Verb;
use crate::laws;
use crate::model;
use crate::model::ShellModel;
use crate::pubsub;
use crate::replies;
use crate::reply;
use crate::text;
use crate::wire;
use crate::wire::{Cut, TAG_OK};
use crate::work::{Await, Event, Outcome, Work, WorkModel};

verus! {

/// Nothing but the line `reboot now` asks for a reboot, and nothing but `quit` for an exit; no
/// line gives either up.
pub proof fn law_only_reboot_now_reboots(s: ShellModel, line: Seq<char>)
    ensures
        s.dispatched(line).reboot_requested == (s.reboot_requested || (command::line_verb(line)
            == Verb::Reboot && text::trimmed(command::line_arg(line)) == "now"@)),
        s.dispatched(line).quit_requested == (s.quit_requested || command::line_verb(line)
            == Verb::Quit),
{
    reveal(ShellModel::dispatched);
}

/// A kill is among what is planned.
pub open spec fn kill_planned(s: ShellModel) -> bool {
    exists|i: int| 0 <= i < s.agenda.len() && #[trigger] s.agenda[i] is Kill
}

/// What answers `reboot now`.
pub open spec fn reboot_answer() -> Seq<u8> {
    vstd::utf8::encode_utf8(
        "rebooting: killing the file server once this reply is on the wire"@,
    )
}

/// The frame that answers `reboot now`.
pub open spec fn reboot_frame() -> Seq<u8> {
    wire::tagged(TAG_OK, reboot_answer())
}

/// The work of queueing that frame.
pub open spec fn reboot_work() -> WorkModel {
    Work::Enqueue { tag: TAG_OK, data: reboot_answer() }
}

/// The frames that have left since a reset was asked for, together with the one that an event
/// reports, if it reports one.
pub open spec fn left_with(left: Seq<Seq<u8>>, s: ShellModel, event: Event) -> Seq<Seq<u8>> {
    match (event, s.inflight) {
        (Event::Sent { status }, Some(frame)) if status == 0 => left.push(frame),
        _ => left,
    }
}

/// The frames that have left since a reset was asked for: none where none is asked for.
pub open spec fn left_since(left: Seq<Seq<u8>>, s: ShellModel) -> Seq<Seq<u8>> {
    if s.reboot_requested {
        left
    } else {
        seq![]
    }
}

/// Where a reset is asked for, its answer has left since, waits to leave, or is about to be queued.
pub open spec fn announced(left: Seq<Seq<u8>>, s: ShellModel) -> bool {
    &&& !s.reboot_requested || s.client is None ==> left.len() == 0
    &&& s.reboot_requested ==> {
        ||| left.contains(reboot_frame())
        ||| laws::outbound(s).contains(reboot_frame())
        ||| s.agenda.contains(reboot_work())
    }
}

/// The reset waits for its reply: a kill comes to be planned only with the word that a frame has
/// left, when nothing more is to be sent, with the client still there that asked for the reset, and
/// with the answer to that request among the frames that have left since.
pub proof fn law_the_reset_waits_for_the_reply(left: Seq<Seq<u8>>, s: ShellModel, event: Event)
    requires
        s.wf(),
        s.at_rest(),
        announced(left, s),
        kill_planned(s.routed(event)),
    ensures
        event matches Event::Sent { status } && status == 0,
        s.reboot_requested,
        left_with(left, s, event).contains(reboot_frame()),
        laws::outbound(s.routed(event)).len() == 0,
        s.client is Some,
        s.routed(event).client == s.client,
        !s.routed(event).reboot_requested,
{
    let t = s.routed(event);
    let i = choose|i: int| 0 <= i < t.agenda.len() && #[trigger] t.agenda[i] is Kill;
    assert(t.agenda[i] is Kill);
    lemma_sent_frames_are_kept(left, s);
}

/// What has left stays among what has left, and the frame on its way joins it.
proof fn lemma_sent_frames_are_kept(left: Seq<Seq<u8>>, s: ShellModel)
    ensures
        s.inflight matches Some(frame) ==> {
            &&& left.push(frame).contains(frame)
            &&& left.contains(reboot_frame()) ==> left.push(frame).contains(reboot_frame())
            &&& laws::outbound(s).contains(reboot_frame()) ==> frame == reboot_frame()
                || s.out.contains(reboot_frame())
        },
{
    if let Some(frame) = s.inflight {
        assert(left.push(frame)[left.len() as int] == frame);
        if left.contains(reboot_frame()) {
            let k = choose|k: int| 0 <= k < left.len() && left[k] == reboot_frame();
            assert(left.push(frame)[k] == reboot_frame());
        }
        let all = laws::outbound(s);
        if all.contains(reboot_frame()) {
            let k = choose|k: int| 0 <= k < all.len() && all[k] == reboot_frame();
            if k > 0 {
                assert(s.out[k - 1] == reboot_frame());
            }
        }
    }
}

/// A new shell has announced what it must: nothing is asked for.
pub proof fn law_a_new_shell_asks_for_no_reset()
    ensures
        announced(seq![], ShellModel::made()),
{
}

/// An event keeps it so that a reset that is asked for has its answer on the way or behind it.
pub proof fn law_an_event_keeps_a_reset_announced(left: Seq<Seq<u8>>, s: ShellModel, event: Event)
    requires
        s.wf(),
        s.at_rest(),
        announced(left, s),
    ensures
        announced(left_since(left_with(left, s, event), s.routed(event)), s.routed(event)),
{
    lemma_sent_frames_are_kept(left, s);
}

proof fn lemma_contained_behind(list: Seq<WorkModel>, rest: Seq<WorkModel>, w: WorkModel)
    ensures
        rest.contains(w) ==> (list + rest).contains(w),
        list.contains(w) ==> (list + rest).contains(w),
{
    if rest.contains(w) {
        let k = choose|k: int| 0 <= k < rest.len() && rest[k] == w;
        assert((list + rest)[list.len() + k] == w);
    }
    if list.contains(w) {
        let k = choose|k: int| 0 <= k < list.len() && list[k] == w;
        assert((list + rest)[k] == w);
    }
}

proof fn lemma_a_line_announces(left: Seq<Seq<u8>>, s: ShellModel, line: Seq<char>)
    requires
        announced(left, s),
    ensures
        announced(left, s.dispatched(line)),
{
    let after = s.dispatched(line);
    model::lemma_a_line_sends_nothing(s, line);
    law_only_reboot_now_reboots(s, line);
    replies::law_a_line_is_answered_or_asked_about(s, line);
    let list = replies::added(s, after);
    lemma_contained_behind(list, s.agenda, reboot_work());
    if after.reboot_requested && !s.reboot_requested {
        reveal(ShellModel::dispatched);
        let said = reply::success(
            "rebooting: killing the file server once this reply is on the wire"@,
        );
        replies::lemma_added(s, after, model::reply_work(said));
        assert(list[0] == reboot_work());
        assert(list.contains(reboot_work()));
    }
}

proof fn lemma_a_frame_announces(left: Seq<Seq<u8>>, s: ShellModel)
    requires
        announced(left, s),
    ensures
        announced(left_since(left, s.frame_taken()), s.frame_taken()),
{
    let after = s.frame_taken();
    match wire::front(s.inbuf) {
        Cut::Whole(payload) => {
            let more = seq![WorkModel::MoreFrames];
            let t = ShellModel { inbuf: wire::behind(s.inbuf), ..s }.planned(more);
            lemma_contained_behind(more, s.agenda, reboot_work());
            assert(announced(left, t));
            match t.put {
                Some(put) => {
                    let n = model::least(payload.len() as int, put.remaining);
                    let acc = put.acc + payload.take(n);
                    lemma_contained_behind(
                        model::step_work(command::write_begun(put.path, acc)),
                        t.agenda,
                        reboot_work(),
                    );
                },
                None => {
                    let cmds = t.cmds.wrapping_add(1);
                    let u = ShellModel { cmds, ..t };
                    let line = model::line_in(payload);
                    assert(announced(left, u));
                    lemma_a_line_announces(left, u, line);
                    lemma_contained_behind(
                        seq![WorkModel::Publish { key: pubsub::KEY_CMDS, value: cmds }],
                        u.dispatched(line).agenda,
                        reboot_work(),
                    );
                },
            }
        },
        _ => {},
    }
}

proof fn lemma_an_outcome_keeps_announced(left: Seq<Seq<u8>>, s: ShellModel, outcome: Outcome)
    requires
        announced(left, s),
    ensures
        announced(left_since(left, s.settled(outcome)), s.settled(outcome)),
{
    let t = s.settled(outcome);
    if t.reboot_requested {
        let n = t.agenda.len() - s.agenda.len();
        let list = t.agenda.take(n);
        assert(t.agenda =~= list + s.agenda);
        lemma_contained_behind(list, s.agenda, reboot_work());
    }
}

/// A step keeps it so that a reset that is asked for has its answer on the way or behind it.
pub proof fn law_a_step_keeps_a_reset_announced(left: Seq<Seq<u8>>, s: ShellModel, outcome: Outcome)
    requires
        announced(left, s),
    ensures
        announced(left_since(left, s.stepped(outcome).0), s.stepped(outcome).0),
{
    lemma_an_outcome_keeps_announced(left, s, outcome);
    let t = s.settled(outcome);
    let now = left_since(left, t);
    if t.agenda.len() > 0 {
        let w = t.agenda[0];
        let u = ShellModel { agenda: t.agenda.skip(1), ..t };
        if t.agenda.contains(reboot_work()) && w != reboot_work() {
            let k = choose|k: int| 0 <= k < t.agenda.len() && t.agenda[k] == reboot_work();
            assert(u.agenda[k - 1] == reboot_work());
        }
        match w {
            Work::Enqueue { tag, data } => {
                laws::law_frames_leave_in_order(u, tag, data);
                let before = laws::outbound(u);
                let frame = wire::tagged(tag, data);
                assert(before.push(frame)[before.len() as int] == frame);
                if before.contains(reboot_frame()) {
                    let k = choose|k: int| 0 <= k < before.len() && before[k] == reboot_frame();
                    assert(before.push(frame)[k] == reboot_frame());
                }
            },
            Work::Transmit => laws::law_frames_leave_in_order(u, 0, seq![]),
            Work::Frames | Work::MoreFrames => {
                assert(announced(now, u));
                lemma_a_frame_announces(now, u);
            },
            _ => {},
        }
    }
}

/// A reset that is asked for goes with the client that asked for it: a client that is dropped takes
/// it along, a client that is accepted finds none, and whenever the client changes none is left.
pub proof fn law_a_reset_goes_with_its_client(
    s: ShellModel,
    handle: i32,
    event: Event,
    outcome: Outcome,
)
    requires
        s.wf(),
    ensures
        !s.dropped().reboot_requested,
        handle >= 0 ==> !s.accepted(handle, 0).reboot_requested,
        s.routed(event).client != s.client ==> !s.routed(event).reboot_requested,
        s.stepped(outcome).0.client != s.client ==> !s.stepped(outcome).0.reboot_requested,
{
    let t = s.settled(outcome);
    if t.agenda.len() > 0 {
        let u = ShellModel { agenda: t.agenda.skip(1), ..t };
        laws::lemma_a_frame_sends_nothing(u);
    }
}

proof fn lemma_no_kill_among(list: Seq<WorkModel>, s: ShellModel, after: ShellModel)
    requires
        after.agenda == list + s.agenda,
        forall|i: int| 0 <= i < list.len() ==> !(#[trigger] list[i] is Kill),
        kill_planned(after),
    ensures
        kill_planned(s),
{
    let i = choose|i: int| 0 <= i < after.agenda.len() && #[trigger] after.agenda[i] is Kill;
    assert(after.agenda[i] is Kill);
    if i < list.len() {
        assert(after.agenda[i] == list[i]);
    } else {
        assert(after.agenda[i] == s.agenda[i - list.len()]);
    }
}

proof fn lemma_a_drop_kills_nothing(s: ShellModel)
    ensures
        kill_planned(s.dropped()) ==> kill_planned(s),
{
    if kill_planned(s.dropped()) {
        let n = s.dropped().agenda.len() - s.agenda.len();
        let list = s.dropped().agenda.take(n);
        assert(s.dropped().agenda =~= list + s.agenda);
        lemma_no_kill_among(list, s, s.dropped());
    }
}

proof fn lemma_no_kill_in_added(list: Seq<WorkModel>)
    requires
        replies::is_question(list) || replies::is_reply(list) || replies::is_reply_then_put(list) || list.len() == 0,
    ensures
        forall|i: int| 0 <= i < list.len() ==> !(#[trigger] list[i] is Kill),
{
    assert forall|i: int| 0 <= i < list.len() implies !(#[trigger] list[i] is Kill) by {
        if replies::is_reply_then_put(list) && i < list.len() - 1 {
            assert(list[i] == list.drop_last()[i]);
        }
    }
}

/// No step plans a kill: it is handed out only where it was planned by an event.
pub proof fn law_no_step_plans_a_kill(s: ShellModel, outcome: Outcome)
    requires
        s.wf(),
        s.awaiting.fits(outcome),
    ensures
        kill_planned(s.stepped(outcome).0) ==> kill_planned(s),
        s.stepped(outcome).1 is Kill ==> kill_planned(s),
{
    let t = s.settled(outcome);
    model::lemma_settled_wf(s, outcome);
    assert(kill_planned(t) ==> kill_planned(s)) by {
        if kill_planned(t) {
            lemma_an_outcome_kills_nothing(s, outcome);
        }
    }
    if t.agenda.len() > 0 {
        let u = ShellModel { agenda: t.agenda.skip(1), ..t };
        assert(kill_planned(u) ==> kill_planned(t)) by {
            if kill_planned(u) {
                let i = choose|i: int| 0 <= i < u.agenda.len() && #[trigger] u.agenda[i] is Kill;
                assert(u.agenda[i] is Kill);
                assert(t.agenda[i + 1] == u.agenda[i]);
            }
        }
        lemma_a_frame_kills_nothing(u);
    }
}

proof fn lemma_an_outcome_kills_nothing(s: ShellModel, outcome: Outcome)
    requires
        kill_planned(s.settled(outcome)),
    ensures
        kill_planned(s),
{
    let r = ShellModel { awaiting: Await::Nothing, ..s };
    let t = s.settled(outcome);
    assert(kill_planned(r) ==> kill_planned(s)) by {
        if kill_planned(r) {
            let i = choose|i: int| 0 <= i < r.agenda.len() && #[trigger] r.agenda[i] is Kill;
            assert(s.agenda[i] is Kill);
        }
    }
    match s.awaiting {
        Await::Answer(_) => {
            replies::law_an_answer_is_answered_or_asked_on(s, outcome);
            lemma_no_kill_in_added(replies::added(s, t));
            lemma_no_kill_among(replies::added(s, t), s, t);
        },
        Await::Listen { first } => {
            let n = t.agenda.len() - r.agenda.len();
            let list = t.agenda.take(n);
            assert(t.agenda =~= list + r.agenda);
            lemma_no_kill_among(list, r, t);
        },
        Await::Receive | Await::Send => {
            lemma_a_drop_kills_nothing(r);
        },
        _ => {},
    }
}

proof fn lemma_a_frame_kills_nothing(s: ShellModel)
    ensures
        kill_planned(s.frame_taken()) ==> kill_planned(s),
{
    lemma_a_drop_kills_nothing(s);
    match wire::front(s.inbuf) {
        Cut::Whole(payload) => {
            let t = ShellModel { inbuf: wire::behind(s.inbuf), ..s }.planned(
                seq![Work::MoreFrames],
            );
            let after = s.frame_taken();
            if kill_planned(after) {
                match s.put {
                    Some(put) => {
                        let n = after.agenda.len() - t.agenda.len();
                        let list = after.agenda.take(n);
                        assert(after.agenda =~= list + t.agenda);
                        lemma_no_kill_among(list, t, after);
                    },
                    None => {
                        let cmds = t.cmds.wrapping_add(1);
                        let u = ShellModel { cmds, ..t };
                        let line = model::line_in(payload);
                        lemma_no_kill_among(
                            seq![Work::Publish { key: pubsub::KEY_CMDS, value: cmds }],
                            u.dispatched(line),
                            after,
                        );
                        replies::law_a_line_is_answered_or_asked_about(u, line);
                        lemma_no_kill_in_added(replies::added(u, u.dispatched(line)));
                        lemma_no_kill_among(
                            replies::added(u, u.dispatched(line)),
                            u,
                            u.dispatched(line),
                        );
                        assert(kill_planned(t)) by {
                            let i = choose|i: int|
                                0 <= i < u.agenda.len() && #[trigger] u.agenda[i] is Kill;
                            assert(t.agenda[i] is Kill);
                        }
                    },
                }
                lemma_no_kill_among(seq![Work::MoreFrames], s, t);
            }
        },
        _ => {},
    }
}

/// The shell ends only when it was asked to, or by a key: an event ends it only with the word that
/// a frame has left, after a `quit`, with nothing more to send; and no step ends it. Unlike a reset,
/// an exit that was asked for stays asked for when the client is gone: it is then due once the
/// next client has its greeting.
pub proof fn law_the_shell_ends_only_when_asked(s: ShellModel, event: Event, outcome: Outcome)
    ensures
        s.routed(event).exit && !s.exit ==> {
            &&& event matches Event::Sent { status } && status == 0
            &&& s.quit_requested
            &&& s.out.len() == 0
            &&& laws::outbound(s.routed(event)).len() == 0
        },
        s.stepped(outcome).0.exit == s.exit,
        s.dropped().quit_requested == s.quit_requested,
{
    let t = s.settled(outcome);
    if t.agenda.len() > 0 {
        laws::lemma_a_frame_sends_nothing(ShellModel { agenda: t.agenda.skip(1), ..t });
    }
}

} // verus!
