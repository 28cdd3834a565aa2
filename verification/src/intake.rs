//! How the bytes from a client become payloads: however they are cut on their way, the payloads
//! are handled once each and in order, and what is less than a whole frame waits for the rest.

use vstd::prelude::*;

use crate::command;
use crate::laws;
use crate::model;
use crate::model::ShellModel;
use crate::pubsub;
use crate::replies;
use crate::wire;
use crate::wire::{Cut, MAX_FRAME};
use crate::work::{Event, Outcome, Work, WorkModel};

verus! {

/// The work takes in frames, as far as the client is there.
pub open spec fn takes_frames(work: WorkModel) -> bool {
    work is Frames || work is MoreFrames
}

/// Frames are among what is to be taken in.
pub open spec fn frames_due(list: Seq<WorkModel>) -> bool {
    exists|i: int| 0 <= i < list.len() && takes_frames(#[trigger] list[i])
}

/// The payload that the next piece of work handles, if it handles one.
pub open spec fn handles(s: ShellModel) -> Seq<Seq<u8>> {
    if s.agenda.len() > 0 && (s.agenda[0] is Frames || (s.agenda[0] is MoreFrames && s.client
        is Some)) {
        match wire::front(s.inbuf) {
            Cut::Whole(payload) => seq![payload],
            _ => seq![],
        }
    } else {
        seq![]
    }
}

/// Of the bytes that have arrived from the client so far, these payloads are handled, and the
/// others, and what is left over, are still to be taken in.
pub open spec fn taken_in(arrived: Seq<u8>, seen: Seq<Seq<u8>>, s: ShellModel) -> bool {
    &&& wire::payloads(arrived) == seen + wire::payloads(s.inbuf)
    &&& wire::leftover(arrived) == wire::leftover(s.inbuf)
    &&& wire::front(s.inbuf) is Whole ==> frames_due(s.agenda)
}

/// From a new client nothing has arrived yet.
pub proof fn law_a_new_client_has_sent_nothing(s: ShellModel, handle: i32)
    requires
        handle >= 0,
    ensures
        taken_in(seq![], seq![], s.routed(Event::Accepted { handle, status: 0 })),
{
    let after = s.routed(Event::Accepted { handle, status: 0 });
    assert(Seq::<Seq<u8>>::empty() + wire::payloads(after.inbuf) =~= wire::payloads(seq![]));
}

/// A read adds the bytes that it landed to those that have arrived.
pub proof fn law_a_read_adds_what_it_landed(
    arrived: Seq<u8>,
    seen: Seq<Seq<u8>>,
    s: ShellModel,
    len: int,
    rx: Seq<u8>,
)
    requires
        taken_in(arrived, seen, s),
        len > 0,
    ensures
        taken_in(arrived + model::landed(rx, len), seen, s.received(0, len, rx)),
{
    let more = model::landed(rx, len);
    let after = s.received(0, len, rx);
    wire::law_pieces_are_stitched_together(arrived, more);
    wire::law_pieces_are_stitched_together(s.inbuf, more);
    let behind = wire::payloads(wire::leftover(s.inbuf) + more);
    assert((seen + wire::payloads(s.inbuf)) + behind =~= seen + (wire::payloads(s.inbuf) + behind));
    assert(takes_frames(after.agenda[0]));
}

/// The other events that leave the client where it is leave its bytes alone.
pub proof fn law_other_events_leave_the_bytes_alone(
    arrived: Seq<u8>,
    seen: Seq<Seq<u8>>,
    s: ShellModel,
    event: Event,
)
    requires
        taken_in(arrived, seen, s),
        s.at_rest(),
        s.client is Some,
        s.routed(event).client == s.client,
        !(event is Received),
        !(event matches Event::Accepted { handle, status } && status == 0 && handle >= 0),
    ensures
        taken_in(arrived, seen, s.routed(event)),
{
}

proof fn lemma_due_behind(list: Seq<WorkModel>, rest: Seq<WorkModel>)
    ensures
        frames_due(rest) ==> frames_due(list + rest),
{
    if frames_due(rest) {
        let i = choose|i: int| 0 <= i < rest.len() && takes_frames(#[trigger] rest[i]);
        assert((list + rest)[list.len() + i] == rest[i]);
    }
}

/// A frame that is taken in is the first of those that arrived, and the shell goes on with the
/// next.
proof fn lemma_a_frame_is_taken_in(arrived: Seq<u8>, seen: Seq<Seq<u8>>, s: ShellModel)
    requires
        wire::payloads(arrived) == seen + wire::payloads(s.inbuf),
        wire::leftover(arrived) == wire::leftover(s.inbuf),
        s.client is Some,
        s.frame_taken().client is Some,
    ensures
        match wire::front(s.inbuf) {
            Cut::Whole(payload) => taken_in(arrived, seen.push(payload), s.frame_taken()),
            _ => taken_in(arrived, seen, s.frame_taken()),
        },
{
    let after = s.frame_taken();
    match wire::front(s.inbuf) {
        Cut::Whole(payload) => {
            laws::law_frames_are_handled_in_order(s, payload);
            let rest = wire::payloads(after.inbuf);
            assert(seen + (seq![payload] + rest) =~= seen.push(payload) + rest);
            let t = ShellModel { inbuf: wire::behind(s.inbuf), ..s }.planned(
                seq![WorkModel::MoreFrames],
            );
            assert(takes_frames(t.agenda[0]));
            assert(frames_due(t.agenda));
            match t.put {
                Some(put) => {
                    let n = model::least(payload.len() as int, put.remaining);
                    let acc = put.acc + payload.take(n);
                    lemma_due_behind(
                        model::step_work(command::write_begun(put.path, acc)),
                        t.agenda,
                    );
                },
                None => {
                    let cmds = t.cmds.wrapping_add(1);
                    let u = ShellModel { cmds, ..t };
                    let line = model::line_in(payload);
                    replies::law_a_line_is_answered_or_asked_about(u, line);
                    lemma_due_behind(replies::added(u, u.dispatched(line)), u.agenda);
                    lemma_due_behind(
                        seq![WorkModel::Publish { key: pubsub::KEY_CMDS, value: cmds }],
                        u.dispatched(line).agenda,
                    );
                },
            }
        },
        _ => {},
    }
}

/// A step handles the first payload that is not handled yet, or none, and leaves the others to be
/// taken in, as long as the client stays.
pub proof fn law_a_step_handles_the_next_payload(
    arrived: Seq<u8>,
    seen: Seq<Seq<u8>>,
    s: ShellModel,
    outcome: Outcome,
)
    requires
        s.wf(),
        s.awaiting.fits(outcome),
        taken_in(arrived, seen, s),
        s.client is Some,
        s.stepped(outcome).0.client is Some,
    ensures
        taken_in(arrived, seen + handles(s.settled(outcome)), s.stepped(outcome).0),
{
    let t = s.settled(outcome);
    assert(t.client is Some) by {
        if t.client is None {
            laws::law_one_client_at_a_time(s, outcome);
            lemma_no_client_comes_in(t);
        }
    }
    assert(t.inbuf == s.inbuf);
    assert(frames_due(s.agenda) ==> frames_due(t.agenda)) by {
        let n = t.agenda.len() - s.agenda.len();
        let list = t.agenda.take(n);
        assert(t.agenda =~= list + s.agenda);
        lemma_due_behind(list, s.agenda);
    }
    assert(seen + Seq::<Seq<u8>>::empty() =~= seen);
    if t.agenda.len() > 0 {
        let u = ShellModel { agenda: t.agenda.skip(1), ..t };
        if takes_frames(t.agenda[0]) {
            lemma_a_frame_is_taken_in(arrived, seen, u);
            if let Cut::Whole(payload) = wire::front(u.inbuf) {
                assert(seen + seq![payload] =~= seen.push(payload));
            }
        } else if frames_due(t.agenda) {
            let i = choose|i: int| 0 <= i < t.agenda.len() && takes_frames(#[trigger] t.agenda[i]);
            assert(u.agenda[i - 1] == t.agenda[i]);
            assert(frames_due(u.agenda));
        }
    }
}

proof fn lemma_no_client_comes_in(s: ShellModel)
    requires
        s.client is None,
    ensures
        s.performed().0.client is None,
{
    if s.agenda.len() > 0 {
        laws::lemma_a_frame_sends_nothing(ShellModel { agenda: s.agenda.skip(1), ..s });
    }
}

/// What a step does with a payload is to handle it: the shell is then as it is with that payload
/// handled, with the others left in the inbound bytes.
pub proof fn law_a_payload_is_handled_as_it_is_taken(s: ShellModel, outcome: Outcome, payload: Seq<u8>)
    requires
        handles(s.settled(outcome)) == seq![payload],
    ensures
        ({
            let t = s.settled(outcome);
            s.stepped(outcome).0 == (ShellModel {
                agenda: seq![Work::MoreFrames] + t.agenda.skip(1),
                inbuf: wire::behind(t.inbuf),
                ..t
            }).handled(payload)
        }),
{
    let t = s.settled(outcome);
    assert(handles(t).len() == 1);
    assert(handles(t)[0] == payload);
    assert(wire::front(t.inbuf) == Cut::Whole(payload));
    let u = ShellModel { agenda: t.agenda.skip(1), ..t };
    let v = ShellModel {
        agenda: seq![Work::MoreFrames] + t.agenda.skip(1),
        inbuf: wire::behind(t.inbuf),
        ..t
    };
    assert((ShellModel { inbuf: wire::behind(u.inbuf), ..u }).planned(seq![Work::MoreFrames]) == v);
    assert(u.frame_taken() == v.handled(payload));
    assert(t.performed().0 == u.frame_taken());
}

/// At rest everything is taken in: the payloads handled are those of all the bytes that arrived,
/// each once and in order, and what is kept is what is left over of them.
pub proof fn law_at_rest_every_payload_is_handled(
    arrived: Seq<u8>,
    seen: Seq<Seq<u8>>,
    s: ShellModel,
)
    requires
        taken_in(arrived, seen, s),
        s.at_rest(),
    ensures
        seen == wire::payloads(arrived),
        s.inbuf == wire::leftover(arrived),
{
    assert(!frames_due(s.agenda));
    assert(wire::payloads(s.inbuf) =~= seq![]);
    assert(seen + wire::payloads(s.inbuf) =~= seen);
}

/// So where the bytes are those of a stream of frames and of a part of one more, just the payloads
/// of the stream are handled and the part is kept, however the bytes were cut.
pub proof fn law_a_stream_is_handled_however_it_is_cut(
    list: Seq<Seq<u8>>,
    rest: Seq<u8>,
    seen: Seq<Seq<u8>>,
    s: ShellModel,
)
    requires
        forall|i: int| 0 <= i < list.len() ==> (#[trigger] list[i]).len() <= MAX_FRAME,
        wire::front(rest) is Partial,
        taken_in(wire::stream(list) + rest, seen, s),
        s.at_rest(),
    ensures
        seen == list,
        s.inbuf == rest,
{
    wire::law_a_stream_and_a_rest_are_read_back(list, rest);
    law_at_rest_every_payload_is_handled(wire::stream(list) + rest, seen, s);
}

} // verus!
