//! Replies: every line is met with exactly one, and it is not interrupted.

use vstd::prelude::*;

use crate::command;
use crate::command::Verb;
use crate::job;
use crate::job::{Progress, StepModel, MAX_FILE};
use crate::model;
use crate::model::ShellModel;
use crate::number;
use crate::pubsub;
use crate::reply;
use crate::reply::ReplyModel;
use crate::text;
use crate::wire;
use crate::wire::{Cut, TAG_DATA, TAG_ERR, TAG_OK};
use crate::work::{Await, Outcome, Work, WorkModel};

verus! {

/// A frame that ends a reply.
pub open spec fn closes(tag: u8) -> bool {
    tag == TAG_OK || tag == TAG_ERR
}

/// The work is to queue a whole reply: any number of data frames, then one frame that ends it.
pub open spec fn is_reply(list: Seq<WorkModel>) -> bool {
    &&& list.len() > 0
    &&& list.last() matches Work::Enqueue { tag, .. } && closes(tag)
    &&& forall|i: int|
        0 <= i < list.len() - 1 ==> (#[trigger] list[i] matches Work::Enqueue { tag, .. } && tag
            == TAG_DATA)
}

/// The work is to ask the platform one question.
pub open spec fn is_question(list: Seq<WorkModel>) -> bool {
    list.len() == 1 && list[0] is Ask
}

/// The work is to queue a whole reply and then to get ready for the bytes of a file.
pub open spec fn is_reply_then_put(list: Seq<WorkModel>) -> bool {
    list.len() > 0 && list.last() is StartPut && is_reply(list.drop_last())
}

/// The work that one state has before that of another.
pub open spec fn added(before: ShellModel, after: ShellModel) -> Seq<WorkModel> {
    after.agenda.take(after.agenda.len() - before.agenda.len())
}

/// What was put before a list of work is what was added to it.
pub proof fn lemma_added(before: ShellModel, after: ShellModel, list: Seq<WorkModel>)
    requires
        after.agenda == list + before.agenda,
    ensures
        added(before, after) == list,
{
    assert(after.agenda.take(after.agenda.len() - before.agenda.len()) =~= list);
}

proof fn lemma_reply_work(r: ReplyModel)
    ensures
        is_reply(model::reply_work(r)),
{
}

proof fn lemma_step_work(step: StepModel)
    ensures
        is_reply(model::step_work(step)) || is_question(model::step_work(step)),
{
    match step {
        Progress::Ask(_, _) => {},
        Progress::Finish(r) => lemma_reply_work(r),
    }
}

/// Every line with something on it is met with one question to the platform, or with one whole
/// reply; a `put` gets ready for its bytes behind the reply. A blank line is met with nothing.
/// What was planned before stays as it was.
pub proof fn law_a_line_is_answered_or_asked_about(s: ShellModel, line: Seq<char>)
    ensures
        ({
            let list = added(s, s.dispatched(line));
            &&& s.dispatched(line).agenda == list + s.agenda
            &&& command::line_verb(line) == Verb::Blank ==> list.len() == 0
            &&& command::line_verb(line) != Verb::Blank ==> is_question(list) || is_reply(list)
                || is_reply_then_put(list)
            &&& is_reply_then_put(list) ==> command::line_verb(line) == Verb::Put
        }),
{
    reveal(ShellModel::dispatched);
    let arg = command::line_arg(line);
    let t = if text::trimmed(line).len() == 0 {
        s
    } else {
        s.noted(text::trimmed(line))
    };
    let after = s.dispatched(line);
    match command::line_verb(line) {
        Verb::Blank => {
            lemma_added(s, after, seq![]);
        },
        Verb::Pwd => lemma_answered(s, after, reply::success(t.cwd)),
        Verb::Cd => lemma_answered(s, after, reply::success(t.cd_target(arg))),
        Verb::Put => lemma_put_is_answered(s, t, arg),
        Verb::Reboot => {
            if text::trimmed(arg) == "now"@ {
                lemma_answered(
                    s,
                    after,
                    reply::success(
                        "rebooting: killing the file server once this reply is on the wire"@,
                    ),
                );
            } else {
                lemma_answered(
                    s,
                    after,
                    reply::failure(
                        "usage: reboot now  (hard reset via the file server; nothing is flushed first)"@,
                    ),
                );
            }
        },
        Verb::Ping => lemma_answered(s, after, reply::success("pong"@)),
        Verb::Quit => lemma_answered(s, after, reply::success("bye"@)),
        Verb::Ls => lemma_begun(s, after, command::ls_begun(t.cwd, arg)),
        Verb::Cat => lemma_begun(s, after, command::cat_begun(t.cwd, arg)),
        Verb::Rm => lemma_begun(s, after, command::rm_begun(t.cwd, arg)),
        Verb::Mkdir => lemma_begun(s, after, command::mkdir_begun(t.cwd, arg)),
        Verb::Stat => lemma_begun(s, after, command::stat_begun(t.cwd, arg)),
        Verb::Find => lemma_begun(s, after, command::find_begun(t.cwd, arg)),
        Verb::Grep => lemma_begun(s, after, command::grep_begun(t.cwd, arg)),
        Verb::Exec => lemma_begun(s, after, command::exec_begun(t.cwd, arg)),
        Verb::Ps => lemma_begun(s, after, command::ps_begun(arg)),
        Verb::Cenrep => lemma_begun(s, after, command::cenrep_begun(arg)),
        Verb::Hal => lemma_begun(s, after, command::hal_begun(arg)),
        Verb::Unknown => lemma_answered(
            s,
            after,
            reply::failure(
                "unknown verb (pwd cd ls stat cat get put rm mkdir find grep exec reboot ps cenrep hal ping quit)"@,
            ),
        ),
    }
}

proof fn lemma_answered(s: ShellModel, after: ShellModel, r: ReplyModel)
    requires
        after.agenda == model::reply_work(r) + s.agenda,
    ensures
        added(s, after) == model::reply_work(r),
        is_reply(added(s, after)),
        !is_reply_then_put(added(s, after)),
{
    lemma_added(s, after, model::reply_work(r));
    lemma_reply_work(r);
}

proof fn lemma_begun(s: ShellModel, after: ShellModel, step: StepModel)
    requires
        after.agenda == model::step_work(step) + s.agenda,
    ensures
        added(s, after) == model::step_work(step),
        is_question(added(s, after)) || is_reply(added(s, after)),
        !is_reply_then_put(added(s, after)),
{
    lemma_added(s, after, model::step_work(step));
    lemma_step_work(step);
}

proof fn lemma_put_is_answered(s: ShellModel, t: ShellModel, arg: Seq<char>)
    requires
        t.agenda == s.agenda,
    ensures
        ({
            let list = added(s, t.put_begun(arg));
            &&& t.put_begun(arg).agenda == list + s.agenda
            &&& is_question(list) || is_reply(list) || is_reply_then_put(list)
        }),
{
    let after = t.put_begun(arg);
    match model::put_args(arg) {
        None => lemma_answered(s, after, reply::failure("usage: put <path> <len>"@)),
        Some((file, len)) => {
            let path = crate::path::resolved(t.cwd, file);
            if len > MAX_FILE {
                lemma_answered(
                    s,
                    after,
                    reply::failure(number::dec(len as nat) + " bytes is too large for put"@),
                );
            } else if len == 0 {
                lemma_begun(s, after, command::write_begun(path, seq![]));
            } else {
                let first = model::reply_work(reply::success(model::send_text(len)));
                let list = first + seq![Work::StartPut { path, len: len as usize }];
                lemma_added(s, after, list);
                lemma_reply_work(reply::success(model::send_text(len)));
                assert(list.drop_last() =~= first);
            }
        },
    }
}

/// Every answer is met with one more question, or with one whole reply. So a command ends in
/// exactly one reply, however many questions it takes.
pub proof fn law_an_answer_is_answered_or_asked_on(s: ShellModel, outcome: Outcome)
    requires
        s.awaiting is Answer,
    ensures
        ({
            let list = added(s, s.settled(outcome));
            &&& s.settled(outcome).agenda == list + s.agenda
            &&& is_question(list) || is_reply(list)
        }),
{
    reveal(model::answer_work);
    let step = job::continued(s.awaiting->Answer_0, outcome->Answered_0);
    lemma_begun(s, s.settled(outcome), step);
}

/// What a piece of work owes the client: a frame that ends a reply, at once or when the platform
/// has answered.
pub open spec fn owes(work: WorkModel) -> bool {
    match work {
        Work::Enqueue { tag, .. } => closes(tag),
        Work::Ask(_, _) => true,
        _ => false,
    }
}

/// How many frames that end a reply are owed by what is planned.
pub open spec fn owed(list: Seq<WorkModel>) -> int
    decreases list.len(),
{
    if list.len() == 0 {
        0
    } else {
        owed(list.skip(1)) + if owes(list[0]) {
            1int
        } else {
            0
        }
    }
}

proof fn lemma_owed_together(a: Seq<WorkModel>, b: Seq<WorkModel>)
    ensures
        owed(a + b) == owed(a) + owed(b),
    decreases a.len(),
{
    if a.len() == 0 {
        assert(a + b =~= b);
    } else {
        lemma_owed_together(a.skip(1), b);
        assert((a + b).skip(1) =~= a.skip(1) + b);
        assert((a + b)[0] == a[0]);
    }
}

proof fn lemma_data_owes_nothing(list: Seq<WorkModel>)
    requires
        forall|i: int|
            0 <= i < list.len() ==> (#[trigger] list[i] matches Work::Enqueue { tag, .. } && tag
                == TAG_DATA),
    ensures
        owed(list) == 0,
    decreases list.len(),
{
    if list.len() > 0 {
        let rest = list.skip(1);
        assert forall|i: int| 0 <= i < rest.len() implies (#[trigger] rest[i] matches Work::Enqueue {
            tag,
            ..
        } && tag == TAG_DATA) by {
            assert(rest[i] == list[i + 1]);
        }
        lemma_data_owes_nothing(rest);
        assert(list[0] matches Work::Enqueue { tag, .. } && tag == TAG_DATA);
    }
}

proof fn lemma_owed_by_one(w: WorkModel)
    ensures
        owed(seq![w]) == if owes(w) {
            1int
        } else {
            0
        },
{
    assert(seq![w].skip(1) =~= seq![]);
    assert(owed(seq![w].skip(1)) == 0);
}

proof fn lemma_a_reply_is_one(list: Seq<WorkModel>)
    requires
        is_reply(list),
    ensures
        owed(list) == 1,
{
    let data = list.drop_last();
    assert forall|i: int| 0 <= i < data.len() implies (#[trigger] data[i] matches Work::Enqueue {
        tag,
        ..
    } && tag == TAG_DATA) by {
        assert(data[i] == list[i]);
    }
    lemma_data_owes_nothing(data);
    lemma_owed_by_one(list.last());
    lemma_owed_together(data, seq![list.last()]);
    assert(data + seq![list.last()] =~= list);
}

proof fn lemma_owed_by_added(list: Seq<WorkModel>)
    requires
        is_question(list) || is_reply(list) || is_reply_then_put(list),
    ensures
        owed(list) == 1,
{
    if is_reply(list) {
        lemma_a_reply_is_one(list);
    } else if is_question(list) {
        assert(list =~= seq![list[0]]);
        lemma_owed_by_one(list[0]);
    } else {
        lemma_a_reply_is_one(list.drop_last());
        lemma_owed_by_one(list.last());
        lemma_owed_together(list.drop_last(), seq![list.last()]);
        assert(list.drop_last() + seq![list.last()] =~= list);
    }
}

/// A line with something on it makes the shell owe one more reply; a blank one none.
pub proof fn law_a_line_owes_one_reply(s: ShellModel, line: Seq<char>)
    ensures
        owed(s.dispatched(line).agenda) == owed(s.agenda) + if command::line_verb(line)
            == Verb::Blank {
            0int
        } else {
            1
        },
{
    law_a_line_is_answered_or_asked_about(s, line);
    let list = added(s, s.dispatched(line));
    lemma_owed_together(list, s.agenda);
    if command::line_verb(line) != Verb::Blank {
        lemma_owed_by_added(list);
    }
}

/// A question that was asked still owes its reply when the answer comes.
pub proof fn law_an_answer_owes_the_reply(s: ShellModel, outcome: Outcome)
    requires
        s.awaiting is Answer,
    ensures
        owed(s.settled(outcome).agenda) == owed(s.agenda) + 1,
{
    law_an_answer_is_answered_or_asked_on(s, outcome);
    let list = added(s, s.settled(outcome));
    lemma_owed_together(list, s.agenda);
    lemma_owed_by_added(list);
}

/// How many replies the shell owes: those planned for, and the one it has asked a question for.
pub open spec fn owed_in_all(s: ShellModel) -> int {
    owed(s.agenda) + if s.awaiting is Answer {
        1int
    } else {
        0
    }
}

/// How many replies the frame at the front of the inbound bytes asks for: one for a line with
/// something on it, one for the frame with which a `put` has its bytes, none for any other.
pub open spec fn asked_by_frame(s: ShellModel) -> int {
    match wire::front(s.inbuf) {
        Cut::Whole(payload) => match s.put {
            Some(put) => if put.remaining <= payload.len() {
                1
            } else {
                0
            },
            None => if command::line_verb(model::line_in(payload)) == Verb::Blank {
                0
            } else {
                1
            },
        },
        _ => 0,
    }
}

/// How many replies the next piece of work makes the shell owe.
pub open spec fn newly_owed(s: ShellModel) -> int {
    if s.agenda.len() == 0 {
        0
    } else {
        match s.agenda[0] {
            Work::Frames => asked_by_frame(s),
            Work::MoreFrames => if s.client is Some {
                asked_by_frame(s)
            } else {
                0
            },
            _ => 0,
        }
    }
}

/// How many replies the next piece of work ends.
pub open spec fn newly_paid(s: ShellModel) -> int {
    if s.agenda.len() > 0 && (s.agenda[0] matches Work::Enqueue { tag, .. } && closes(tag)) {
        1
    } else {
        0
    }
}

proof fn lemma_nothing_owed(list: Seq<WorkModel>)
    requires
        forall|i: int| 0 <= i < list.len() ==> !owes(#[trigger] list[i]),
    ensures
        owed(list) == 0,
    decreases list.len(),
{
    if list.len() > 0 {
        let rest = list.skip(1);
        assert forall|i: int| 0 <= i < rest.len() implies !owes(#[trigger] rest[i]) by {
            assert(rest[i] == list[i + 1]);
        }
        lemma_nothing_owed(rest);
        assert(!owes(list[0]));
    }
}

proof fn lemma_planned_for_free(s: ShellModel, list: Seq<WorkModel>)
    requires
        forall|i: int| 0 <= i < list.len() ==> !owes(#[trigger] list[i]),
    ensures
        owed(list + s.agenda) == owed(s.agenda),
{
    lemma_nothing_owed(list);
    lemma_owed_together(list, s.agenda);
}

proof fn lemma_a_drop_owes_nothing(s: ShellModel)
    ensures
        owed(s.dropped().agenda) == owed(s.agenda),
        s.dropped().awaiting == s.awaiting,
{
    match s.client {
        Some(handle) => lemma_planned_for_free(
            s,
            seq![
                Work::Close { handle },
                Work::Publish { key: pubsub::KEY_STATE, value: pubsub::STATE_LISTENING },
                Work::Accept,
            ],
        ),
        None => lemma_planned_for_free(s, seq![Work::Accept]),
    }
}

proof fn lemma_an_outcome_owes_nothing(s: ShellModel, outcome: Outcome)
    requires
        s.awaiting.fits(outcome),
    ensures
        owed_in_all(s.settled(outcome)) == owed_in_all(s),
        s.settled(outcome).awaiting is Nothing,
{
    let t = ShellModel { awaiting: Await::Nothing, ..s };
    lemma_a_drop_owes_nothing(t);
    match s.awaiting {
        Await::Answer(_) => law_an_answer_owes_the_reply(s, outcome),
        Await::Listen { first } => {
            let after = t.listened(first, outcome->Listened_0);
            match outcome->Listened_0 {
                Ok(channel) => {
                    let told = seq![
                        Work::Publish { key: pubsub::KEY_CHANNEL, value: channel as i32 },
                        Work::Publish { key: pubsub::KEY_STATE, value: pubsub::STATE_LISTENING },
                    ];
                    lemma_planned_for_free(t, told);
                    lemma_planned_for_free(t, told + seq![Work::Accept]);
                },
                Err(_) => lemma_planned_for_free(
                    t,
                    seq![Work::Publish { key: pubsub::KEY_STATE, value: pubsub::STATE_DOWN }],
                ),
            }
        },
        _ => {},
    }
}

proof fn lemma_a_frame_owes_what_it_asks(s: ShellModel)
    requires
        s.put matches Some(put) ==> 0 < put.remaining,
    ensures
        owed(s.frame_taken().agenda) == owed(s.agenda) + asked_by_frame(s),
        s.frame_taken().awaiting == s.awaiting,
{
    lemma_a_drop_owes_nothing(s);
    match wire::front(s.inbuf) {
        Cut::Whole(payload) => {
            let t = ShellModel { inbuf: wire::behind(s.inbuf), ..s }.planned(
                seq![Work::MoreFrames],
            );
            lemma_planned_for_free(s, seq![Work::MoreFrames]);
            match s.put {
                Some(put) => {
                    let n = model::least(payload.len() as int, put.remaining);
                    let acc = put.acc + payload.take(n);
                    let list = model::step_work(command::write_begun(put.path, acc));
                    lemma_owed_by_added(list);
                    lemma_owed_together(list, t.agenda);
                },
                None => {
                    let cmds = t.cmds.wrapping_add(1);
                    let u = ShellModel { cmds, ..t };
                    let line = model::line_in(payload);
                    law_a_line_owes_one_reply(u, line);
                    model::lemma_a_line_sends_nothing(u, line);
                    lemma_planned_for_free(
                        u.dispatched(line),
                        seq![Work::Publish { key: pubsub::KEY_CMDS, value: cmds }],
                    );
                },
            }
        },
        _ => {},
    }
}

/// The books balance at every step: what the shell owes grows by one for each line with something
/// on it and for each `put` that has its bytes, falls by one for each frame it queues that ends a
/// reply, and changes in no other way. So each of them is met with exactly one such frame.
pub proof fn law_the_books_balance(s: ShellModel, outcome: Outcome)
    requires
        s.wf(),
        s.awaiting.fits(outcome),
    ensures
        owed_in_all(s.stepped(outcome).0) == owed_in_all(s) + newly_owed(s.settled(outcome))
            - newly_paid(s.settled(outcome)),
{
    lemma_an_outcome_owes_nothing(s, outcome);
    model::lemma_settled_wf(s, outcome);
    let t = s.settled(outcome);
    if t.agenda.len() > 0 {
        let u = ShellModel { agenda: t.agenda.skip(1), ..t };
        lemma_a_frame_owes_what_it_asks(u);
    }
}

/// At rest no reply is owed: every line was met before the next event is taken in.
pub proof fn law_at_rest_nothing_is_owed(s: ShellModel)
    requires
        s.at_rest(),
    ensures
        owed_in_all(s) == 0,
{
}

/// The next frames to be queued are the rest of a reply: data frames, then the one that ends it.
/// Nothing comes between them but what lets a client go.
pub open spec fn finishing(list: Seq<WorkModel>) -> bool
    decreases list.len(),
{
    if list.len() == 0 {
        false
    } else {
        match list[0] {
            Work::Enqueue { tag, .. } => closes(tag) || (tag == TAG_DATA && finishing(
                list.skip(1),
            )),
            Work::Close { .. } | Work::Publish { .. } | Work::Accept => finishing(list.skip(1)),
            _ => false,
        }
    }
}

/// A reply that is planned is what is queued next.
pub proof fn law_a_planned_reply_is_next(list: Seq<WorkModel>, rest: Seq<WorkModel>)
    requires
        is_reply(list),
    ensures
        finishing(list + rest),
    decreases list.len(),
{
    let all = list + rest;
    assert(all[0] == list[0]);
    if list.len() > 1 {
        assert(list[0] matches Work::Enqueue { tag, .. } && tag == TAG_DATA);
        let tail = list.skip(1);
        assert(tail.last() == list.last());
        assert forall|i: int| 0 <= i < tail.len() - 1 implies (#[trigger] tail[i] matches Work::Enqueue {
            tag,
            ..
        } && tag == TAG_DATA) by {
            assert(tail[i] == list[i + 1]);
        }
        law_a_planned_reply_is_next(tail, rest);
        assert(all.skip(1) =~= tail + rest);
    } else {
        assert(list[0] == list.last());
    }
}

/// A reply that is begun is not interrupted: until the frame that ends it is queued, no other
/// frame is but its data, no question is asked, and no rest is taken.
pub proof fn law_a_reply_is_not_interrupted(s: ShellModel, outcome: Outcome)
    requires
        s.awaiting.fits(outcome),
        !(s.awaiting is Answer),
        finishing(s.agenda),
    ensures
        ({
            let next = s.settled(outcome).agenda[0];
            let (after, action) = s.stepped(outcome);
            &&& s.settled(outcome).agenda.len() > 0
            &&& next matches Work::Enqueue { tag, .. } ==> closes(tag) || tag == TAG_DATA
            &&& !(action is Rest || action is Ask || action is Receive)
            &&& {
                ||| next matches Work::Enqueue { tag, .. } && closes(tag)
                ||| finishing(after.agenda) && !(after.awaiting is Answer)
            }
        }),
{
    let t = ShellModel { awaiting: Await::Nothing, ..s };
    let u = s.settled(outcome);
    assert(finishing(u.agenda)) by {
        match s.awaiting {
            Await::Listen { first } => {
                let n = u.agenda.len() - s.agenda.len();
                let list = u.agenda.take(n);
                assert(u.agenda =~= list + s.agenda);
                lemma_finishing_behind(list, s.agenda);
            },
            Await::Receive | Await::Send => {
                let n = u.agenda.len() - s.agenda.len();
                let list = u.agenda.take(n);
                assert(u.agenda =~= list + s.agenda);
                lemma_finishing_behind(list, s.agenda);
            },
            _ => {},
        }
    }
}

proof fn lemma_finishing_behind(list: Seq<WorkModel>, rest: Seq<WorkModel>)
    requires
        forall|i: int|
            0 <= i < list.len() ==> (#[trigger] list[i] is Close || list[i] is Publish || list[i]
                is Accept),
        finishing(rest),
    ensures
        finishing(list + rest),
    decreases list.len(),
{
    if list.len() == 0 {
        assert(list + rest =~= rest);
    } else {
        let tail = list.skip(1);
        assert forall|i: int| 0 <= i < tail.len() implies (#[trigger] tail[i] is Close || tail[i]
            is Publish || tail[i] is Accept) by {
            assert(tail[i] == list[i + 1]);
        }
        lemma_finishing_behind(tail, rest);
        assert((list + rest).skip(1) =~= tail + rest);
        assert((list + rest)[0] == list[0]);
    }
}

} // verus!
