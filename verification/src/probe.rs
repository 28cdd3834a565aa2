//! The probe: can this handset be an RFCOMM server? One attempt at bringing a server up, step by
//! step, and what each step returned.

use vstd::prelude::*;

use crate::number;
use crate::number::push_int;
use crate::screen;
use crate::screen::{Area, Handled, Key, Row, RowModel, Screen, ScreenModel, Tint};

verus! {

/// Where the findings are written.
pub const OUT_PATH: &'static str = "C:\\Data\\dump-71-btsock.txt";

/// What the platform's code for a step means.
#[derive(Clone, Copy, PartialEq, Eq, Structural)]
pub enum StepState {
    Passed,
    /// The step was not tried, because one before it failed.
    Skipped,
    Failed,
}

/// The two codes that have a meaning of their own. Any other code is an error.
#[derive(Clone, Copy)]
pub struct StepCodes {
    pub ok: i32,
    pub skipped: i32,
}

impl StepCodes {
    /// What a code means.
    pub open spec fn meaning(self, code: i32) -> StepState {
        if code == self.ok {
            StepState::Passed
        } else if code == self.skipped {
            StepState::Skipped
        } else {
            StepState::Failed
        }
    }

    /// Finds out what a code means.
    fn classify(&self, code: i32) -> (r: StepState)
        ensures
            r == self.meaning(code),
    {
        if code == self.ok {
            StepState::Passed
        } else if code == self.skipped {
            StepState::Skipped
        } else {
            StepState::Failed
        }
    }
}

/// What the steps of one attempt returned, and the channel that was claimed.
#[derive(Clone, Copy)]
pub struct Findings {
    pub serv_err: i32,
    pub open_err: i32,
    pub channel_err: i32,
    pub bind_err: i32,
    pub sdp_open_err: i32,
    pub sdp_reg_err: i32,
    pub listen_err: i32,
    pub channel: i32,
}

/// One step of the bring-up and the code it returned.
pub struct Step {
    label: &'static str,
    code: i32,
    state: StepState,
}

/// The model of a step.
#[verifier::ext_equal]
pub struct StepModel {
    pub label: Seq<char>,
    pub code: i32,
    pub state: StepState,
}

impl View for Step {
    type V = StepModel;

    closed spec fn view(&self) -> StepModel {
        StepModel { label: self.label@, code: self.code, state: self.state }
    }
}

/// The models of a list of steps.
pub open spec fn models(list: Seq<Step>) -> Seq<StepModel> {
    list.map_values(|s: Step| s@)
}

/// The steps in the order in which they are taken, so that an early failure explains what was
/// skipped after it.
pub open spec fn steps_of(p: Findings, codes: StepCodes) -> Seq<StepModel> {
    seq![
        StepModel {
            label: "socket server (Connect)"@,
            code: p.serv_err,
            state: codes.meaning(p.serv_err),
        },
        StepModel {
            label: "open RFCOMM socket"@,
            code: p.open_err,
            state: codes.meaning(p.open_err),
        },
        StepModel {
            label: "claim server channel"@,
            code: p.channel_err,
            state: codes.meaning(p.channel_err),
        },
        StepModel {
            label: "bind to the channel"@,
            code: p.bind_err,
            state: codes.meaning(p.bind_err),
        },
        StepModel {
            label: "open SDP database"@,
            code: p.sdp_open_err,
            state: codes.meaning(p.sdp_open_err),
        },
        StepModel {
            label: "register SPP record"@,
            code: p.sdp_reg_err,
            state: codes.meaning(p.sdp_reg_err),
        },
        StepModel {
            label: "listen (LocalServices)"@,
            code: p.listen_err,
            state: codes.meaning(p.listen_err),
        },
    ]
}

/// Every step succeeded.
pub open spec fn all_ok(steps: Seq<StepModel>) -> bool {
    forall|i: int| 0 <= i < steps.len() ==> (#[trigger] steps[i]).state == StepState::Passed
}

/// The verdict on an attempt.
pub open spec fn verdict(steps: Seq<StepModel>, channel: i32) -> Seq<char> {
    if all_ok(steps) {
        "ALL OK - RFCOMM server works (channel "@ + number::dec_int(channel as int) + ")"@
    } else {
        "blocked - a step failed (see above)"@
    }
}

impl StepModel {
    /// The step's line in the report.
    pub open spec fn report_line(self) -> Seq<char> {
        self.label + ": "@ + match self.state {
            StepState::Passed => "OK"@,
            StepState::Skipped => "skipped"@,
            StepState::Failed => "err "@ + number::dec_int(self.code as int),
        } + "\n"@
    }

    /// The step's line on the screen.
    pub open spec fn screen_line(self) -> Seq<char> {
        match self.state {
            StepState::Passed => "[ok ] "@ + self.label,
            StepState::Skipped => "[-- ] "@ + self.label,
            StepState::Failed => "[ERR] "@ + self.label + " ("@ + number::dec_int(self.code as int)
                + ")"@,
        }
    }

    /// The colour of the step's line on the screen.
    pub open spec fn tint(self) -> Tint {
        match self.state {
            StepState::Passed => Tint::Accent,
            StepState::Skipped => Tint::Dim,
            StepState::Failed => Tint::Unread,
        }
    }

    /// The step's place on the screen.
    pub open spec fn row(self, top: int, line_h: int) -> RowModel {
        RowModel { top, bottom: top + line_h, text: self.screen_line(), tint: self.tint() }
    }
}

/// The lines of a report, one to a step.
pub open spec fn report_lines(steps: Seq<StepModel>) -> Seq<char>
    decreases steps.len(),
{
    if steps.len() == 0 {
        seq![]
    } else {
        report_lines(steps.drop_last()) + steps.last().report_line()
    }
}

impl Step {
    /// Whether the step succeeded.
    pub fn ok(&self) -> (r: bool)
        ensures
            r == (self@.state == StepState::Passed),
    {
        match self.state {
            StepState::Passed => true,
            _ => false,
        }
    }

    /// Whether the step was not tried.
    pub fn skipped(&self) -> (r: bool)
        ensures
            r == (self@.state == StepState::Skipped),
    {
        match self.state {
            StepState::Skipped => true,
            _ => false,
        }
    }

    /// Appends the step's line of the report.
    fn push_report_line(&self, out: &mut String)
        ensures
            final(out)@ == old(out)@ + self@.report_line(),
    {
        let ghost start = out@;
        out.append(self.label);
        out.append(": ");
        if self.ok() {
            out.append("OK");
        } else if self.skipped() {
            out.append("skipped");
        } else {
            out.append("err ");
            push_int(out, self.code);
        }
        out.append("\n");
        assert(out@ =~= start + self@.report_line());
    }

    /// The step's line on the screen.
    fn screen_line(&self) -> (r: String)
        ensures
            r@ == self@.screen_line(),
    {
        if self.ok() {
            let mut s = "[ok ] ".to_owned();
            s.append(self.label);
            s
        } else if self.skipped() {
            let mut s = "[-- ] ".to_owned();
            s.append(self.label);
            s
        } else {
            let mut s = "[ERR] ".to_owned();
            s.append(self.label);
            s.append(" (");
            push_int(&mut s, self.code);
            s.append(")");
            s
        }
    }

    /// The colour of the step's line on the screen.
    fn tint(&self) -> (r: Tint)
        ensures
            r == self@.tint(),
    {
        match self.state {
            StepState::Passed => Tint::Accent,
            StepState::Skipped => Tint::Dim,
            StepState::Failed => Tint::Unread,
        }
    }
}

/// The outcome of the one attempt, ready to be shown and written down.
pub struct RfProbe {
    steps: Vec<Step>,
    summary: String,
    exit: bool,
}

/// The model of a probe.
#[verifier::ext_equal]
pub struct ProbeModel {
    pub steps: Seq<StepModel>,
    pub summary: Seq<char>,
    pub exit: bool,
}

impl View for RfProbe {
    type V = ProbeModel;

    closed spec fn view(&self) -> ProbeModel {
        ProbeModel { steps: models(self.steps@), summary: self.summary@, exit: self.exit }
    }
}

impl ProbeModel {
    /// What an attempt comes to. One that could not run at all has no steps.
    pub open spec fn of(attempt: Result<Findings, String>, codes: StepCodes) -> ProbeModel {
        match attempt {
            Ok(p) => ProbeModel {
                steps: steps_of(p, codes),
                summary: verdict(steps_of(p, codes), p.channel),
                exit: false,
            },
            Err(e) => ProbeModel {
                steps: seq![],
                summary: "probe could not run: "@ + e@,
                exit: false,
            },
        }
    }

    /// The report: a beginning, one line to a step, the summary, and an end that shows that it is
    /// complete.
    pub open spec fn report(self) -> Seq<char> {
        "BEGIN btsock\n"@ + report_lines(self.steps) + self.summary + "\nEND btsock\n"@
    }

    /// The lines on the screen: the steps from the top, and the summary at the bottom.
    pub open spec fn lines(self, top: int, bottom: int, line_h: int) -> Seq<RowModel> {
        Seq::new(self.steps.len(), |i: int| self.steps[i].row(top + i * line_h, line_h)).push(
            RowModel {
                top: bottom - (line_h + 2),
                bottom,
                text: self.summary,
                tint: Tint::Text,
            },
        )
    }

    /// The steps and the summary can be laid out without leaving the range of the coordinates.
    pub open spec fn fits(self, area: Area, line_h: i32) -> bool {
        &&& 1 <= line_h <= i32::MAX - 2
        &&& area.top + self.steps.len() * line_h <= i32::MAX
        &&& area.bottom - line_h - 2 >= i32::MIN
    }

    /// All that the probe shows.
    pub open spec fn shown(self, area: Area, line_h: i32) -> ScreenModel {
        ScreenModel {
            title: "RFCOMM probe"@,
            left: None,
            right: Some("Exit"@),
            rows: self.lines(area.top as int, area.bottom as int, line_h as int),
        }
    }
}

impl RfProbe {
    /// What an attempt at bringing a server up comes to, from what the platform returned.
    pub fn new(attempt: Result<Findings, String>, codes: StepCodes) -> (r: RfProbe)
        ensures
            r@ == ProbeModel::of(attempt, codes),
    {
        let mut me = RfProbe { steps: Vec::new(), summary: String::new(), exit: false };
        assert(me@.steps =~= seq![]);
        me.run(attempt, codes);
        me
    }

    /// Takes in what the platform returned.
    fn run(&mut self, attempt: Result<Findings, String>, codes: StepCodes)
        requires
            old(self)@.steps.len() == 0,
        ensures
            final(self)@ == (ProbeModel {
                exit: old(self)@.exit,
                ..ProbeModel::of(attempt, codes)
            }),
    {
        match attempt {
            Ok(p) => {
                self.push_steps(&p, codes);
                let mut fine = true;
                for i in 0..self.steps.len()
                    invariant
                        fine <==> forall|j: int|
                            0 <= j < i ==> (#[trigger] models(self.steps@)[j]).state
                                == StepState::Passed,
                {
                    assert(models(self.steps@)[i as int] == self.steps@[i as int]@);
                    fine = fine && self.steps[i].ok();
                }
                assert(fine == all_ok(models(self.steps@)));
                self.summary = if fine {
                    let mut s = "ALL OK - RFCOMM server works (channel ".to_owned();
                    push_int(&mut s, p.channel);
                    s.append(")");
                    s
                } else {
                    "blocked - a step failed (see above)".to_owned()
                };
            },
            Err(e) => {
                let mut s = "probe could not run: ".to_owned();
                s.append(&e);
                self.summary = s;
                assert(models(self.steps@) =~= seq![]);
            },
        }
    }

    /// Adds a step.
    fn push_step(&mut self, label: &'static str, code: i32, codes: StepCodes)
        ensures
            final(self)@ == (ProbeModel {
                steps: old(self)@.steps.push(
                    StepModel { label: label@, code, state: codes.meaning(code) },
                ),
                ..old(self)@
            }),
    {
        self.steps.push(Step { label, code, state: codes.classify(code) });
        assert(models(self.steps@) =~= old(self)@.steps.push(
            StepModel { label: label@, code, state: codes.meaning(code) },
        ));
    }

    /// Adds the steps, in order.
    fn push_steps(&mut self, p: &Findings, codes: StepCodes)
        ensures
            final(self)@ == (ProbeModel {
                steps: old(self)@.steps + steps_of(*p, codes),
                ..old(self)@
            }),
    {
        self.push_step("socket server (Connect)", p.serv_err, codes);
        self.push_step("open RFCOMM socket", p.open_err, codes);
        self.push_step("claim server channel", p.channel_err, codes);
        self.push_step("bind to the channel", p.bind_err, codes);
        self.push_step("open SDP database", p.sdp_open_err, codes);
        self.push_step("register SPP record", p.sdp_reg_err, codes);
        self.push_step("listen (LocalServices)", p.listen_err, codes);
        assert(self@.steps =~= old(self)@.steps + steps_of(*p, codes));
    }

    /// The report that is written down.
    pub fn report(&self) -> (r: String)
        ensures
            r@ == self@.report(),
    {
        let mut out = "BEGIN btsock\n".to_owned();
        let ghost start = out@;
        let ghost steps = models(self.steps@);
        assert(out@ =~= start + report_lines(steps.take(0)));
        for i in 0..self.steps.len()
            invariant
                steps == models(self.steps@),
                out@ == start + report_lines(steps.take(i as int)),
        {
            self.steps[i].push_report_line(&mut out);
            assert(steps.take(i + 1).drop_last() =~= steps.take(i as int));
            assert(steps.take(i + 1).last() == self.steps@[i as int]@);
            assert(out@ =~= start + report_lines(steps.take(i + 1)));
        }
        assert(steps.take(steps.len() as int) =~= steps);
        out.append(&self.summary);
        out.append("\nEND btsock\n");
        out
    }

    /// Takes in a key: the right softkey and the red key leave.
    pub fn handle_key(&mut self, key: Key) -> (r: Handled)
        ensures
            final(self)@ == (ProbeModel {
                exit: old(self)@.exit || key == Key::Right || key == Key::End,
                ..old(self)@
            }),
            r == if key == Key::Right || key == Key::End {
                Handled::Consumed
            } else {
                Handled::Ignored
            },
    {
        match key {
            Key::Right | Key::End => {
                self.exit = true;
                Handled::Consumed
            },
            _ => Handled::Ignored,
        }
    }

    /// Whether the steps and the summary can be laid out.
    pub fn can_draw(&self, area: Area, line_h: i32) -> (r: bool)
        ensures
            r == self@.fits(area, line_h),
    {
        if line_h < 1 || line_h > i32::MAX - 2 {
            return false;
        }
        let count: usize = self.steps.len();
        assert(0 <= count * line_h <= 0x1_0000_0000_0000_0000 * 0x8000_0000) by (nonlinear_arith)
            requires
                0 <= count <= 0x1_0000_0000_0000_0000,
                1 <= line_h <= 0x8000_0000,
        ;
        area.top as i128 + count as i128 * line_h as i128 <= i32::MAX as i128 && area.bottom as i64
            - line_h as i64 - 2 >= i32::MIN as i64
    }

    /// All that the probe shows. The steps take as much room as they need.
    pub fn draw(&self, area: Area, line_h: i32) -> (r: Screen)
        requires
            self@.fits(area, line_h),
        ensures
            r@ == self@.shown(area, line_h),
    {
        let mut list: Vec<Row> = Vec::new();
        let mut y: i32 = area.top;
        let ghost goal = self@.lines(area.top as int, area.bottom as int, line_h as int);
        let ghost count = self@.steps.len() as int;
        assert(0 * line_h == 0) by (nonlinear_arith);
        for i in 0..self.steps.len()
            invariant
                count == self.steps@.len(),
                count == self@.steps.len(),
                line_h >= 1,
                area.top + count * line_h <= i32::MAX,
                y == area.top + i * line_h,
                goal == self@.lines(area.top as int, area.bottom as int, line_h as int),
                screen::rows(list@) == goal.take(i as int),
        {
            assert(i * line_h + line_h == (i + 1) * line_h) by (nonlinear_arith);
            assert((i + 1) * line_h <= count * line_h) by (nonlinear_arith)
                requires
                    i + 1 <= count,
                    line_h >= 1,
            ;
            let next: i32 = y + line_h;
            let ghost before = list@;
            list.push(
                Row {
                    top: y,
                    bottom: next,
                    text: self.steps[i].screen_line(),
                    tint: self.steps[i].tint(),
                },
            );
            assert(self@.steps[i as int] == self.steps@[i as int]@);
            assert(goal[i as int] == self@.steps[i as int].row(y as int, line_h as int));
            assert(list@.last()@ == goal[i as int]);
            assert(screen::rows(list@) =~= screen::rows(before).push(goal[i as int]));
            assert(goal.take(i + 1) =~= goal.take(i as int).push(goal[i as int]));
            y = next;
        }
        let ghost above = list@;
        list.push(
            Row {
                top: area.bottom - (line_h + 2),
                bottom: area.bottom,
                text: self.summary.clone(),
                tint: Tint::Text,
            },
        );
        let r = Screen {
            title: "RFCOMM probe".to_owned(),
            left: None,
            right: Some("Exit".to_owned()),
            rows: list,
        };
        assert(list@.last()@ == goal[count]);
        assert(screen::rows(list@) =~= screen::rows(above).push(goal[count]));
        assert(screen::rows(list@) =~= goal);
        assert(r@ =~= self@.shown(area, line_h));
        r
    }

    /// Whether the probe is to be closed.
    pub fn should_exit(&self) -> (r: bool)
        ensures
            r == self@.exit,
    {
        self.exit
    }

    /// The probe's name.
    pub fn title(&self) -> (r: &str)
        ensures
            r@ == "RFCOMM probe"@,
    {
        "RFCOMM probe"
    }
}

/// A report that is all there says so: it opens with its first line and closes with its last, and
/// the summary stands right before that.
pub proof fn law_a_report_is_closed(p: ProbeModel)
    ensures
        ({
            let head = "BEGIN btsock\n"@;
            let tail = p.summary + "\nEND btsock\n"@;
            let r = p.report();
            &&& r.len() >= head.len() + tail.len()
            &&& r.take(head.len() as int) == head
            &&& r.skip(r.len() - tail.len()) == tail
        }),
{
    let head = "BEGIN btsock\n"@;
    let tail = p.summary + "\nEND btsock\n"@;
    let r = p.report();
    assert(r =~= head + report_lines(p.steps) + tail);
    assert(r.take(head.len() as int) =~= head);
    assert(r.skip(r.len() - tail.len()) =~= tail);
}

/// The verdict is good exactly when every one of the steps returned the code for success.
pub proof fn law_one_failure_blocks(p: Findings, codes: StepCodes)
    ensures
        all_ok(steps_of(p, codes)) <==> {
            &&& p.serv_err == codes.ok
            &&& p.open_err == codes.ok
            &&& p.channel_err == codes.ok
            &&& p.bind_err == codes.ok
            &&& p.sdp_open_err == codes.ok
            &&& p.sdp_reg_err == codes.ok
            &&& p.listen_err == codes.ok
        },
{
    let steps = steps_of(p, codes);
    if all_ok(steps) {
        assert(steps[0].state == StepState::Passed);
        assert(steps[1].state == StepState::Passed);
        assert(steps[2].state == StepState::Passed);
        assert(steps[3].state == StepState::Passed);
        assert(steps[4].state == StepState::Passed);
        assert(steps[5].state == StepState::Passed);
        assert(steps[6].state == StepState::Passed);
    }
}

/// Seven steps were tried, in this order, each with the code that it returned.
pub proof fn law_every_step_is_named_in_order(p: Findings, codes: StepCodes)
    ensures
        ({
            let steps = ProbeModel::of(Ok(p), codes).steps;
            &&& steps.len() == 7
            &&& steps[0].label == "socket server (Connect)"@ && steps[0].code == p.serv_err
            &&& steps[1].label == "open RFCOMM socket"@ && steps[1].code == p.open_err
            &&& steps[2].label == "claim server channel"@ && steps[2].code == p.channel_err
            &&& steps[3].label == "bind to the channel"@ && steps[3].code == p.bind_err
            &&& steps[4].label == "open SDP database"@ && steps[4].code == p.sdp_open_err
            &&& steps[5].label == "register SPP record"@ && steps[5].code == p.sdp_reg_err
            &&& steps[6].label == "listen (LocalServices)"@ && steps[6].code == p.listen_err
            &&& forall|i: int|
                0 <= i < 7 ==> {
                    let step = #[trigger] steps[i];
                    &&& step.state is Passed <==> step.code == codes.ok
                    &&& step.state is Skipped <==> step.code == codes.skipped && step.code
                        != codes.ok
                }
        }),
{
}

/// The probe says that all is well, with the channel, just where every step returned the code for
/// that; and otherwise that a step failed, or why none was tried.
pub proof fn law_all_is_well_only_where_every_step_passed(p: Findings, codes: StepCodes, e: String)
    ensures
        ({
            let fine = p.serv_err == codes.ok && p.open_err == codes.ok && p.channel_err
                == codes.ok && p.bind_err == codes.ok && p.sdp_open_err == codes.ok
                && p.sdp_reg_err == codes.ok && p.listen_err == codes.ok;
            ProbeModel::of(Ok(p), codes).summary == if fine {
                "ALL OK - RFCOMM server works (channel "@ + number::dec_int(p.channel as int)
                    + ")"@
            } else {
                "blocked - a step failed (see above)"@
            }
        }),
        ProbeModel::of(Err(e), codes).summary == "probe could not run: "@ + e@,
        ProbeModel::of(Err(e), codes).steps.len() == 0,
        !ProbeModel::of(Ok(p), codes).exit && !ProbeModel::of(Err(e), codes).exit,
{
    let steps = steps_of(p, codes);
    if all_ok(steps) {
        assert(steps[0].state == StepState::Passed);
        assert(steps[1].state == StepState::Passed);
        assert(steps[2].state == StepState::Passed);
        assert(steps[3].state == StepState::Passed);
        assert(steps[4].state == StepState::Passed);
        assert(steps[5].state == StepState::Passed);
        assert(steps[6].state == StepState::Passed);
    }
}

/// How a step is written, in the report and on the screen: what it was, how it went, and the code
/// where it failed.
pub proof fn law_a_step_is_written_by_how_it_went(s: StepModel)
    ensures
        s.state is Passed ==> s.report_line() == s.label + ": "@ + "OK"@ + "\n"@,
        s.state is Skipped ==> s.report_line() == s.label + ": "@ + "skipped"@ + "\n"@,
        s.state is Failed ==> s.report_line() == s.label + ": "@ + ("err "@ + number::dec_int(
            s.code as int,
        )) + "\n"@,
        s.state is Passed ==> s.screen_line() == "[ok ] "@ + s.label && s.tint() is Accent,
        s.state is Skipped ==> s.screen_line() == "[-- ] "@ + s.label && s.tint() is Dim,
        s.state is Failed ==> s.screen_line() == "[ERR] "@ + s.label + " ("@ + number::dec_int(
            s.code as int,
        ) + ")"@ && s.tint() is Unread,
{
}

/// The report has a line for every step, however many there are, between its beginning and its
/// summary, and then its end.
pub proof fn law_the_report_has_every_step(m: ProbeModel, step: StepModel)
    ensures
        m.report() == "BEGIN btsock\n"@ + report_lines(m.steps) + m.summary + "\nEND btsock\n"@,
        report_lines(seq![]) == Seq::<char>::empty(),
        report_lines(m.steps.push(step)) == report_lines(m.steps) + step.report_line(),
{
    assert(m.steps.push(step).drop_last() =~= m.steps);
}

/// The screen has a row for every step, one below the other from the top, and the summary at the
/// bottom.
pub proof fn law_the_probe_is_laid_out_from_the_top(m: ProbeModel, area: Area, line_h: i32)
    ensures
        ({
            let shown = m.shown(area, line_h);
            let n = m.steps.len() as int;
            &&& shown.title == "RFCOMM probe"@
            &&& shown.left is None
            &&& shown.right == Some("Exit"@)
            &&& shown.rows.len() == n + 1
            &&& forall|i: int|
                0 <= i < n ==> {
                    let row = #[trigger] shown.rows[i];
                    &&& row.top == area.top + i * line_h
                    &&& row.bottom == row.top + line_h
                    &&& row.text == m.steps[i].screen_line()
                    &&& row.tint == m.steps[i].tint()
                }
            &&& shown.rows[n] == (RowModel {
                top: area.bottom - line_h - 2,
                bottom: area.bottom as int,
                text: m.summary,
                tint: Tint::Text,
            })
        }),
{
}

} // verus!
