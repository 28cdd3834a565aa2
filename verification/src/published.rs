//! What the shell publishes of itself, held against what it is.

use vstd::prelude::*;

use crate::job::JobModel;
use crate::model;
use crate::model::ShellModel;
use crate::pubsub;
use crate::replies;
use crate::wire;
use crate::wire::Cut;
use crate::work::{Action, ActionModel, Await, Event, Outcome, Work, WorkModel};

verus! {

/// The state that a shell is in, as it is published.
pub open spec fn state_of(s: ShellModel) -> i32 {
    if s.client is Some {
        pubsub::STATE_CONNECTED
    } else if s.listener_up {
        pubsub::STATE_LISTENING
    } else {
        pubsub::STATE_DOWN
    }
}

/// The state that a piece of work publishes, if it publishes one.
pub open spec fn told_by(work: WorkModel) -> Option<i32> {
    match work {
        Work::Publish { key, value } => if key == pubsub::KEY_STATE {
            Some(value)
        } else {
            None
        },
        _ => None,
    }
}

/// The last state that a list of work publishes, if it publishes one.
pub open spec fn told_last(list: Seq<WorkModel>) -> Option<i32>
    decreases list.len(),
{
    if list.len() == 0 {
        None
    } else {
        match told_last(list.skip(1)) {
            Some(v) => Some(v),
            None => told_by(list[0]),
        }
    }
}

/// Nothing in the list publishes a state.
pub open spec fn silent(list: Seq<WorkModel>) -> bool {
    forall|i: int| 0 <= i < list.len() ==> told_by(#[trigger] list[i]) is None
}

/// Work that changes nothing in the shell.
pub open spec fn quiet(work: WorkModel) -> bool {
    work is Publish || work is Close
}

/// Nothing that could change the state comes before a piece of work that publishes it.
pub open spec fn tidy(list: Seq<WorkModel>) -> bool {
    forall|i: int, j: int|
        0 <= i < j < list.len() && told_by(#[trigger] list[j]) is Some ==> quiet(
            #[trigger] list[i],
        )
}

/// What the first timer event leaves to be done.
pub open spec fn start_list() -> Seq<WorkModel> {
    seq![
        Work::Define { key: pubsub::KEY_STATE },
        Work::Define { key: pubsub::KEY_CHANNEL },
        Work::Define { key: pubsub::KEY_CMDS },
        Work::Define { key: pubsub::KEY_CLIENTS },
        Work::Listen { first: true },
        Work::WakeEvery(model::SUPERVISION_MS),
    ]
}

/// The first attempt at the listener is being made.
pub open spec fn starting(s: ShellModel) -> bool {
    ||| s.awaiting is Nothing && exists|k: int|
        0 <= k <= 4 && s.agenda == #[trigger] start_list().skip(k)
    ||| s.awaiting == (Await::<JobModel>::Listen { first: true }) && s.agenda
        == start_list().skip(5)
}

/// A later attempt at the listener is being made.
pub open spec fn retrying(s: ShellModel) -> bool {
    ||| s.awaiting is Nothing && s.agenda == seq![
        WorkModel::Listen { first: false },
        WorkModel::Accept,
    ]
    ||| s.awaiting == (Await::<JobModel>::Listen { first: false }) && s.agenda == seq![
        WorkModel::Accept,
    ]
}

/// The list holds no attempt at the listener.
pub open spec fn plain(list: Seq<WorkModel>) -> bool {
    forall|i: int| 0 <= i < list.len() ==> !(#[trigger] list[i] is Listen)
}

/// What was published last once a list of work is done, if anything was published at all.
pub open spec fn told_then(told: Option<i32>, list: Seq<WorkModel>) -> Option<i32> {
    match told_last(list) {
        Some(v) => Some(v),
        None => told,
    }
}

/// What was published last, together with what is planned to be, is the state that the shell is
/// in, once the first attempt at the listener is made.
pub open spec fn honest(told: Option<i32>, s: ShellModel) -> bool {
    &&& tidy(s.agenda)
    &&& !(s.awaiting is Nothing) ==> silent(s.agenda)
    &&& s.client is Some ==> s.listener_up
    &&& if starting(s) || retrying(s) {
        &&& s.started
        &&& silent(s.agenda)
        &&& s.client is None
        &&& !s.listener_up
        &&& retrying(s) ==> told == Some(state_of(s))
    } else {
        &&& plain(s.agenda)
        &&& !(s.awaiting is Listen)
        &&& if s.started {
            told_then(told, s.agenda) == Some(state_of(s))
        } else {
            silent(s.agenda) && s.client is None && !s.listener_up
        }
    }
}

/// What was published last, after an action.
pub open spec fn told_after(told: Option<i32>, action: ActionModel) -> Option<i32> {
    match action {
        Action::Publish { key, value } => if key == pubsub::KEY_STATE {
            Some(value)
        } else {
            told
        },
        _ => told,
    }
}

proof fn lemma_silent(list: Seq<WorkModel>)
    requires
        silent(list),
    ensures
        told_last(list) is None,
    decreases list.len(),
{
    if list.len() > 0 {
        let rest = list.skip(1);
        assert forall|i: int| 0 <= i < rest.len() implies told_by(#[trigger] rest[i]) is None by {
            assert(rest[i] == list[i + 1]);
        }
        lemma_silent(rest);
        assert(told_by(list[0]) is None);
    }
}

proof fn lemma_told_before_silence(list: Seq<WorkModel>, rest: Seq<WorkModel>)
    requires
        silent(rest),
    ensures
        told_last(list + rest) == told_last(list),
    decreases list.len(),
{
    if list.len() == 0 {
        assert(list + rest =~= rest);
        lemma_silent(rest);
    } else {
        lemma_told_before_silence(list.skip(1), rest);
        assert((list + rest).skip(1) =~= list.skip(1) + rest);
        assert((list + rest)[0] == list[0]);
    }
}

proof fn lemma_tidy_before_silence(list: Seq<WorkModel>, rest: Seq<WorkModel>)
    requires
        tidy(list),
        silent(rest),
    ensures
        tidy(list + rest),
        silent(list) ==> silent(list + rest),
{
    let all = list + rest;
    assert forall|i: int, j: int|
        0 <= i < j < all.len() && told_by(#[trigger] all[j]) is Some implies quiet(
        #[trigger] all[i],
    ) by {
        if j >= list.len() {
            assert(all[j] == rest[j - list.len()]);
        } else {
            assert(all[j] == list[j] && all[i] == list[i]);
        }
    }
    if silent(list) {
        assert forall|i: int| 0 <= i < all.len() implies told_by(#[trigger] all[i]) is None by {
            if i < list.len() {
                assert(all[i] == list[i]);
            } else {
                assert(all[i] == rest[i - list.len()]);
            }
        }
    }
}

/// What stays true of a list when its first piece of work is taken off.
proof fn lemma_first_off(list: Seq<WorkModel>)
    requires
        tidy(list),
        list.len() > 0,
    ensures
        tidy(list.skip(1)),
        silent(list) ==> silent(list.skip(1)),
        !quiet(list[0]) ==> silent(list.skip(1)),
        told_last(list) == match told_last(list.skip(1)) {
            Some(v) => Some(v),
            None => told_by(list[0]),
        },
{
    let rest = list.skip(1);
    assert forall|i: int, j: int|
        0 <= i < j < rest.len() && told_by(#[trigger] rest[j]) is Some implies quiet(
        #[trigger] rest[i],
    ) by {
        assert(rest[j] == list[j + 1] && rest[i] == list[i + 1]);
    }
    if !quiet(list[0]) || silent(list) {
        assert forall|i: int| 0 <= i < rest.len() implies told_by(#[trigger] rest[i]) is None by {
            assert(rest[i] == list[i + 1]);
        }
    }
}

/// A shell with no attempt at the listener planned or under way makes none.
proof fn lemma_makes_no_attempt(s: ShellModel)
    requires
        plain(s.agenda),
        !(s.awaiting is Listen),
    ensures
        !starting(s),
        !retrying(s),
{
    assert forall|k: int| 0 <= k <= 4 && s.awaiting is Nothing implies s.agenda
        != #[trigger] start_list().skip(k) by {
        assert(start_list().skip(k)[4 - k] is Listen);
    }
    if s.agenda == seq![WorkModel::Listen { first: false }, Work::Accept] {
        assert(s.agenda[0] is Listen);
    }
}

/// The shell is honest, and makes no attempt at the listener.
spec fn calm(told: Option<i32>, s: ShellModel) -> bool {
    honest(told, s) && !starting(s) && !retrying(s)
}

/// Planning silent work before silent work changes nothing that matters.
proof fn lemma_silent_work_is_harmless(
    told: Option<i32>,
    s: ShellModel,
    after: ShellModel,
    list: Seq<WorkModel>,
)
    requires
        calm(told, s),
        silent(s.agenda),
        silent(list),
        plain(list),
        after.agenda == list + s.agenda,
        after.started == s.started,
        after.client == s.client,
        after.listener_up == s.listener_up,
        !(after.awaiting is Listen),
    ensures
        calm(told, after),
        silent(after.agenda),
{
    lemma_silent(s.agenda);
    lemma_silent(list);
    lemma_tidy_before_silence(list, s.agenda);
    lemma_told_before_silence(list, s.agenda);
    lemma_plain_together(list, s.agenda);
    lemma_makes_no_attempt(after);
}

proof fn lemma_plain_together(list: Seq<WorkModel>, rest: Seq<WorkModel>)
    requires
        plain(list),
        plain(rest),
    ensures
        plain(list + rest),
{
    let all = list + rest;
    assert forall|i: int| 0 <= i < all.len() implies !(#[trigger] all[i] is Listen) by {
        if i < list.len() {
            assert(all[i] == list[i]);
        } else {
            assert(all[i] == rest[i - list.len()]);
        }
    }
}

proof fn lemma_told_last_of_one(w: WorkModel)
    ensures
        told_last(seq![w]) == told_by(w),
{
    assert(told_last(seq![w].skip(1)) is None);
}

proof fn lemma_told_last_of_two(a: WorkModel, b: WorkModel)
    ensures
        told_last(seq![a, b]) == match told_by(b) {
            Some(v) => Some(v),
            None => told_by(a),
        },
{
    assert(seq![a, b].skip(1) =~= seq![b]);
    lemma_told_last_of_one(b);
}

proof fn lemma_told_last_of_three(a: WorkModel, b: WorkModel, c: WorkModel)
    ensures
        told_last(seq![a, b, c]) == match told_last(seq![b, c]) {
            Some(v) => Some(v),
            None => told_by(a),
        },
{
    assert(seq![a, b, c].skip(1) =~= seq![b, c]);
}

/// Letting the client go publishes what is left: a listener without a client.
proof fn lemma_a_drop_is_honest(told: Option<i32>, s: ShellModel)
    requires
        calm(told, s),
        silent(s.agenda),
        s.awaiting is Nothing,
    ensures
        calm(told, s.dropped()),
{
    let after = s.dropped();
    match s.client {
        Some(handle) => {
            let close = WorkModel::Close { handle };
            let publish = WorkModel::Publish {
                key: pubsub::KEY_STATE,
                value: pubsub::STATE_LISTENING,
            };
            let list = seq![close, publish, WorkModel::Accept];
            lemma_told_last_of_two(publish, WorkModel::Accept);
            lemma_told_last_of_three(close, publish, WorkModel::Accept);
            lemma_tidy_before_silence(list, s.agenda);
            lemma_told_before_silence(list, s.agenda);
            lemma_plain_together(list, s.agenda);
            lemma_makes_no_attempt(after);
        },
        None => {
            lemma_silent_work_is_harmless(told, s, after, seq![WorkModel::Accept]);
        },
    }
}

proof fn lemma_replies_are_silent(list: Seq<WorkModel>)
    requires
        replies::is_question(list) || replies::is_reply(list) || replies::is_reply_then_put(list)
            || list.len() == 0,
    ensures
        silent(list),
        plain(list),
{
    assert forall|i: int| 0 <= i < list.len() implies !(#[trigger] list[i] is Listen) && told_by(
        list[i],
    ) is None by {
        if replies::is_reply_then_put(list) && i < list.len() - 1 {
            assert(list[i] == list.drop_last()[i]);
        }
    }
}

/// What comes of an attempt at the listener is published.
proof fn lemma_an_attempt_is_honest(
    told: Option<i32>,
    s: ShellModel,
    first: bool,
    result: Result<u8, String>,
)
    requires
        honest(told, s),
        s.awaiting == (Await::<JobModel>::Listen { first }),
    ensures
        calm(told, (ShellModel { awaiting: Await::Nothing, ..s }).listened(first, result)),
{
    let t = ShellModel { awaiting: Await::Nothing, ..s };
    let after = t.listened(first, result);
    let rest = s.agenda;
    assert(starting(s) || retrying(s));
    assert(rest.len() == 1 && !(rest[0] is Listen)) by {
        if first {
            assert(rest =~= seq![WorkModel::WakeEvery(model::SUPERVISION_MS)]);
        }
    }
    lemma_silent(rest);
    match result {
        Ok(channel) => {
            let a = WorkModel::Publish { key: pubsub::KEY_CHANNEL, value: channel as i32 };
            let b = WorkModel::Publish {
                key: pubsub::KEY_STATE,
                value: pubsub::STATE_LISTENING,
            };
            let list = if first {
                seq![a, b, WorkModel::Accept]
            } else {
                seq![a, b]
            };
            assert(seq![a, b] + seq![WorkModel::Accept] =~= seq![a, b, WorkModel::Accept]);
            lemma_told_last_of_two(a, b);
            lemma_told_last_of_two(b, WorkModel::Accept);
            lemma_told_last_of_three(a, b, WorkModel::Accept);
            lemma_tidy_before_silence(list, rest);
            lemma_told_before_silence(list, rest);
            lemma_plain_together(list, rest);
            lemma_makes_no_attempt(after);
        },
        Err(_) => {
            if first {
                let b = WorkModel::Publish { key: pubsub::KEY_STATE, value: pubsub::STATE_DOWN };
                lemma_told_last_of_one(b);
                lemma_tidy_before_silence(seq![b], rest);
                lemma_told_before_silence(seq![b], rest);
                lemma_plain_together(seq![b], rest);
            }
            lemma_makes_no_attempt(after);
        },
    }
}

proof fn lemma_an_outcome_is_honest(told: Option<i32>, s: ShellModel, outcome: Outcome)
    requires
        honest(told, s),
        s.awaiting.fits(outcome),
    ensures
        honest(told, s.settled(outcome)),
        s.settled(outcome).awaiting is Nothing,
{
    let t = ShellModel { awaiting: Await::Nothing, ..s };
    let after = s.settled(outcome);
    let none = Seq::<WorkModel>::empty();
    assert(none + s.agenda =~= s.agenda);
    match s.awaiting {
        Await::Nothing => {
            assert(after == s);
        },
        Await::Listen { first } => {
            lemma_an_attempt_is_honest(told, s, first, outcome->Listened_0);
        },
        Await::Accept => {
            lemma_silent_work_is_harmless(told, s, after, none);
        },
        Await::Receive | Await::Send => {
            lemma_silent_work_is_harmless(told, s, t, none);
            lemma_a_drop_is_honest(told, t);
        },
        Await::Answer(_) => {
            replies::law_an_answer_is_answered_or_asked_on(s, outcome);
            let list = replies::added(s, after);
            lemma_replies_are_silent(list);
            lemma_silent_work_is_harmless(told, s, after, list);
        },
    }
}

proof fn lemma_a_frame_is_honest(told: Option<i32>, s: ShellModel)
    requires
        calm(told, s),
        silent(s.agenda),
        s.awaiting is Nothing,
    ensures
        honest(told, s.frame_taken()),
{
    let after = s.frame_taken();
    match wire::front(s.inbuf) {
        Cut::Partial => {},
        Cut::Oversize => lemma_a_drop_is_honest(told, s),
        Cut::Whole(payload) => {
            let more = seq![WorkModel::MoreFrames];
            let t = ShellModel { inbuf: wire::behind(s.inbuf), ..s }.planned(more);
            lemma_silent_work_is_harmless(told, s, t, more);
            match t.put {
                Some(put) => {
                    let n = model::least(payload.len() as int, put.remaining);
                    let acc = put.acc + payload.take(n);
                    let list = if put.remaining == n {
                        model::step_work(crate::command::write_begun(put.path, acc))
                    } else {
                        Seq::<WorkModel>::empty()
                    };
                    assert(after.agenda =~= list + t.agenda);
                    lemma_replies_are_silent(list);
                    lemma_silent_work_is_harmless(told, t, after, list);
                },
                None => {
                    let cmds = t.cmds.wrapping_add(1);
                    let u = ShellModel { cmds, ..t };
                    let line = model::line_in(payload);
                    replies::law_a_line_is_answered_or_asked_about(u, line);
                    model::lemma_a_line_sends_nothing(u, line);
                    let list = replies::added(u, u.dispatched(line));
                    lemma_replies_are_silent(list);
                    lemma_silent_work_is_harmless(told, t, u.dispatched(line), list);
                    let count = WorkModel::Publish { key: pubsub::KEY_CMDS, value: cmds };
                    lemma_silent_work_is_harmless(told, u.dispatched(line), after, seq![count]);
                },
            }
        },
    }
}

/// What is published is true: a step keeps to it that what was published last, together with what
/// is planned to be, is the state that the shell is in.
pub proof fn law_a_step_keeps_what_is_published_true(
    told: Option<i32>,
    s: ShellModel,
    outcome: Outcome,
)
    requires
        honest(told, s),
        s.awaiting.fits(outcome),
    ensures
        honest(told_after(told, s.stepped(outcome).1), s.stepped(outcome).0),
{
    lemma_an_outcome_is_honest(told, s, outcome);
    let t = s.settled(outcome);
    if t.agenda.len() > 0 {
        let u = ShellModel { agenda: t.agenda.skip(1), ..t };
        let after = t.performed().0;
        let none = Seq::<WorkModel>::empty();
        assert(none + u.agenda =~= u.agenda);
        lemma_first_off(t.agenda);
        if starting(t) {
            let k = choose|k: int| 0 <= k <= 4 && t.agenda == #[trigger] start_list().skip(k);
            assert(t.agenda[0] == start_list()[k]);
            assert(u.agenda =~= start_list().skip(k + 1));
            assert(starting(after));
            assert(!retrying(after)) by {
                assert(k < 4 ==> after.agenda[3 - k] == (WorkModel::Listen { first: true }));
                assert(k == 4 ==> after.agenda[0] is WakeEvery);
            }
        } else if retrying(t) {
            assert(t.agenda[0] == (WorkModel::Listen { first: false }));
            assert(u.agenda =~= seq![WorkModel::Accept]);
            assert(retrying(after));
            assert(!starting(after));
            assert(told_last(t.agenda) is None) by {
                lemma_silent(t.agenda);
            }
        } else if quiet(t.agenda[0]) {
            assert forall|i: int| 0 <= i < u.agenda.len() implies !(#[trigger] u.agenda[i] is Listen)
                by {
                assert(u.agenda[i] == t.agenda[i + 1]);
            }
            lemma_makes_no_attempt(after);
        } else {
            assert(!(t.agenda[0] is Listen));
            assert forall|i: int| 0 <= i < u.agenda.len() implies !(#[trigger] u.agenda[i] is Listen)
                by {
                assert(u.agenda[i] == t.agenda[i + 1]);
            }
            lemma_silent(u.agenda);
            lemma_makes_no_attempt(u);
            assert(calm(told, u));
            match t.agenda[0] {
                Work::Frames => lemma_a_frame_is_honest(told, u),
                Work::MoreFrames => lemma_a_frame_is_honest(told, u),
                _ => lemma_silent_work_is_harmless(told, u, after, none),
            }
        }
    }
}

/// The same holds of an event, where the platform reports a client only when one was called for.
pub proof fn law_an_event_keeps_what_is_published_true(
    told: Option<i32>,
    s: ShellModel,
    event: Event,
)
    requires
        s.wf(),
        s.at_rest(),
        honest(told, s),
        event is Accepted ==> s.accepting,
    ensures
        honest(told, s.routed(event)),
{
    let after = s.routed(event);
    let none = Seq::<WorkModel>::empty();
    assert(s.agenda =~= none);
    assert(calm(told, s)) by {
        lemma_makes_no_attempt(s);
    }
    match event {
        Event::Timer => {
            if !s.started {
                assert(after.agenda =~= start_list());
                assert(start_list().skip(0) =~= start_list());
                assert(starting(after));
                assert(after.agenda.len() == 6);
            } else if s.listener_up {
                lemma_silent_work_is_harmless(told, s, after, seq![WorkModel::Accept]);
            } else {
                assert(after.agenda =~= seq![
                    WorkModel::Listen { first: false },
                    WorkModel::Accept,
                ]);
                assert(retrying(after));
                assert(!starting(after)) by {
                    assert forall|k: int| 0 <= k <= 4 implies after.agenda
                        != #[trigger] start_list().skip(k) by {
                        assert(start_list().skip(k)[4 - k] == (WorkModel::Listen { first: true }));
                    }
                }
                lemma_silent(s.agenda);
            }
        },
        Event::Accepted { handle, status } => {
            if status == 0 && handle >= 0 {
                let a = WorkModel::Publish { key: pubsub::KEY_CLIENTS, value: after.clients };
                let b = WorkModel::Publish {
                    key: pubsub::KEY_STATE,
                    value: pubsub::STATE_CONNECTED,
                };
                let c = WorkModel::Enqueue {
                    tag: wire::TAG_OK,
                    data: vstd::utf8::encode_utf8("rshell ready"@),
                };
                let rest = seq![c, WorkModel::Receive];
                assert(after.agenda =~= seq![a, b] + rest);
                lemma_told_last_of_two(a, b);
                lemma_tidy_before_silence(seq![a, b], rest);
                lemma_told_before_silence(seq![a, b], rest);
                lemma_plain_together(seq![a, b], rest);
                lemma_makes_no_attempt(after);
            } else {
                lemma_silent_work_is_harmless(told, s, after, seq![WorkModel::Accept]);
            }
        },
        Event::Received { status, len, rx } => {
            if status != 0 || len <= 0 {
                lemma_a_drop_is_honest(told, s);
            } else {
                lemma_silent_work_is_harmless(
                    told,
                    s,
                    after,
                    seq![WorkModel::Frames, WorkModel::Receive],
                );
            }
        },
        Event::Sent { status } => {
            let t = ShellModel { inflight: None, ..s };
            lemma_silent_work_is_harmless(told, s, t, none);
            if status != 0 {
                lemma_a_drop_is_honest(told, t);
            } else {
                lemma_silent_work_is_harmless(told, s, after, after.agenda);
            }
        },
        Event::Closed => lemma_a_drop_is_honest(told, s),
        Event::Other => {},
    }
}

/// A shell that has just been made has published nothing, and need not have.
pub proof fn law_a_new_shell_has_nothing_to_publish()
    ensures
        honest(None, ShellModel::made()),
{
    lemma_makes_no_attempt(ShellModel::made());
}

/// So, at rest, whoever reads the published state reads the state that the shell is in.
pub proof fn law_at_rest_what_is_published_is_true(told: Option<i32>, s: ShellModel)
    requires
        honest(told, s),
        s.at_rest(),
        s.started,
    ensures
        told == Some(state_of(s)),
{
    assert(plain(s.agenda));
    lemma_makes_no_attempt(s);
}

} // verus!
