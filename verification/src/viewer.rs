//! The panel: a read-only dashboard over the daemon. It opens no listener of its own, so it can be
//! open while the daemon runs; it reads what the daemon publishes and the tail of its log.

use vstd::prelude::*;

use crate::lines;
use crate::lines::{tail_log, RECENT};
use crate::listing;
use crate::number;
use crate::number::push_int;
use crate::pubsub;
use crate::screen;
use crate::screen::{push_row, push_rows, Area, Handled, Key, Row, Screen, ScreenModel, Tint};
use crate::utf8;
use crate::work::Event;

verus! {

/// How often the panel is refreshed, in milliseconds.
pub const REFRESH_MS: i32 = 700;

/// Where the daemon keeps its log.
pub const LOG_PATH: &'static str = "C:\\Data\\_logs\\rshelld.txt";

/// The executable that the daemon is started from.
pub const DAEMON: &'static str = "rshelld.exe";

/// What stands for a state or a channel that could not be read.
pub const UNKNOWN: i32 = -1;

/// What the platform says of the daemon.
pub struct Readings {
    /// A process with the daemon's UID is running. What is published outlives the daemon, so it
    /// does not show whether there is one.
    pub running: bool,
    /// The published state, if it could be read.
    pub state: Option<i32>,
    pub channel: Option<i32>,
    pub cmds: Option<i32>,
    pub clients: Option<i32>,
    /// What reading the log gave.
    pub log: Result<Option<Vec<u8>>, String>,
}

/// What a panel wants done about a key.
#[derive(Clone, Copy, PartialEq, Eq, Structural)]
pub enum KeyAction {
    Consumed,
    Ignored,
    /// The key is used up, and the daemon is to be started, without waiting for it.
    StartDaemon,
}

/// The dashboard.
pub struct Viewer {
    alive: bool,
    state: i32,
    channel: i32,
    cmds: i32,
    clients: i32,
    log: Vec<String>,
    exit: bool,
}

/// The model of the dashboard.
#[verifier::ext_equal]
pub struct ViewerModel {
    /// The daemon is running.
    pub alive: bool,
    pub state: i32,
    pub channel: i32,
    pub cmds: i32,
    pub clients: i32,
    /// The last lines of the daemon's log.
    pub log: Seq<Seq<char>>,
    pub exit: bool,
}

impl View for Viewer {
    type V = ViewerModel;

    closed spec fn view(&self) -> ViewerModel {
        ViewerModel {
            alive: self.alive,
            state: self.state,
            channel: self.channel,
            cmds: self.cmds,
            clients: self.clients,
            log: listing::texts(self.log@),
            exit: self.exit,
        }
    }
}

/// A value that was read, or what stands for one that could not be.
pub open spec fn reading(value: Option<i32>, otherwise: i32) -> i32 {
    match value {
        Some(v) => v,
        None => otherwise,
    }
}

/// A value that was read, or what stands for one that could not be.
fn read_or(value: Option<i32>, otherwise: i32) -> (r: i32)
    ensures
        r == reading(value, otherwise),
{
    match value {
        Some(v) => v,
        None => otherwise,
    }
}

impl ViewerModel {
    /// What the readings show.
    pub open spec fn refreshed(self, readings: Readings) -> ViewerModel {
        ViewerModel {
            alive: readings.running,
            state: reading(readings.state, UNKNOWN),
            channel: reading(readings.channel, UNKNOWN),
            cmds: reading(readings.cmds, 0),
            clients: reading(readings.clients, 0),
            log: match readings.log {
                Ok(Some(bytes)) => lines::last(
                    lines::lines_of(utf8::utf8_lossy(bytes@)),
                    RECENT as int,
                ),
                _ => seq![],
            },
            exit: self.exit,
        }
    }

    /// The headline: what the daemon is doing.
    pub open spec fn head(self) -> Seq<char> {
        if !self.alive {
            "Daemon: stopped"@
        } else if self.state == pubsub::STATE_CONNECTED {
            "Daemon: client connected (ch "@ + number::dec_int(self.channel as int) + ")"@
        } else if self.state == pubsub::STATE_LISTENING {
            "Daemon: listening (ch "@ + number::dec_int(self.channel as int) + ")"@
        } else {
            "Daemon: starting..."@
        }
    }

    /// The counters.
    pub open spec fn counters(self) -> Seq<char> {
        "commands: "@ + number::dec_int(self.cmds as int) + "   clients: "@ + number::dec_int(
            self.clients as int,
        )
    }

    /// The lines on the screen: the headline, the counters, half a line of space, and the log, as
    /// far as they fit.
    pub open spec fn lines(self, top: int, bottom: int, line_h: int) -> Seq<screen::RowModel> {
        let tint = if self.alive {
            Tint::Accent
        } else {
            Tint::Dim
        };
        let first = screen::stacked(seq![self.head()], tint, top, bottom, line_h);
        let y1 = top + first.len() * line_h;
        let second = screen::stacked(seq![self.counters()], Tint::Dim, y1, bottom, line_h);
        let y2 = y1 + second.len() * line_h + line_h / 2;
        first + second + screen::stacked(self.log, Tint::Text, y2, bottom, line_h)
    }

    /// All that the dashboard shows. It offers to start the daemon only when that is down.
    pub open spec fn shown(self, area: Area, line_h: i32) -> ScreenModel {
        ScreenModel {
            title: "ADBian"@,
            left: if self.alive {
                None
            } else {
                Some("Start"@)
            },
            right: Some("Exit"@),
            rows: self.lines(area.top as int, area.bottom as int, line_h as int),
        }
    }
}

impl Viewer {
    /// A dashboard that shows what the readings say.
    pub fn new(readings: Readings) -> (r: Viewer)
        ensures
            r@ == (ViewerModel {
                alive: false,
                state: UNKNOWN,
                channel: UNKNOWN,
                cmds: 0,
                clients: 0,
                log: seq![],
                exit: false,
            }).refreshed(readings),
    {
        let mut v = Viewer {
            alive: false,
            state: UNKNOWN,
            channel: UNKNOWN,
            cmds: 0,
            clients: 0,
            log: Vec::new(),
            exit: false,
        };
        v.refresh(readings);
        v
    }

    /// Whether an event calls for new readings.
    pub fn handle_raw(event: &Event) -> (r: Handled)
        ensures
            r == if event is Timer {
                Handled::Consumed
            } else {
                Handled::Ignored
            },
    {
        match event {
            Event::Timer => Handled::Consumed,
            _ => Handled::Ignored,
        }
    }

    /// Takes in new readings.
    pub fn refresh(&mut self, readings: Readings)
        ensures
            final(self)@ == old(self)@.refreshed(readings),
    {
        self.alive = readings.running;
        self.state = read_or(readings.state, UNKNOWN);
        self.channel = read_or(readings.channel, UNKNOWN);
        self.cmds = read_or(readings.cmds, 0);
        self.clients = read_or(readings.clients, 0);
        self.log = tail_log(readings.log, RECENT);
    }

    /// Takes in a key: the right softkey and the red key leave, and the left softkey starts the
    /// daemon when it is down.
    pub fn handle_key(&mut self, key: Key) -> (r: KeyAction)
        ensures
            final(self)@ == (ViewerModel {
                exit: old(self)@.exit || key == Key::Right || key == Key::End,
                ..old(self)@
            }),
            r == if key == Key::Right || key == Key::End {
                KeyAction::Consumed
            } else if key == Key::Left && !old(self)@.alive {
                KeyAction::StartDaemon
            } else {
                KeyAction::Ignored
            },
    {
        match key {
            Key::Right | Key::End => {
                self.exit = true;
                KeyAction::Consumed
            },
            Key::Left => {
                if self.alive {
                    KeyAction::Ignored
                } else {
                    KeyAction::StartDaemon
                }
            },
            Key::Other => KeyAction::Ignored,
        }
    }

    /// The headline.
    fn head(&self) -> (r: String)
        ensures
            r@ == self@.head(),
    {
        if !self.alive {
            return "Daemon: stopped".to_owned();
        }
        let mut s = if self.state == pubsub::STATE_CONNECTED {
            "Daemon: client connected (ch ".to_owned()
        } else if self.state == pubsub::STATE_LISTENING {
            "Daemon: listening (ch ".to_owned()
        } else {
            return "Daemon: starting...".to_owned();
        };
        push_int(&mut s, self.channel);
        s.append(")");
        s
    }

    /// The counters.
    fn counters(&self) -> (r: String)
        ensures
            r@ == self@.counters(),
    {
        let mut s = "commands: ".to_owned();
        push_int(&mut s, self.cmds);
        s.append("   clients: ");
        push_int(&mut s, self.clients);
        s
    }

    /// All that the dashboard shows.
    pub fn draw(&self, area: Area, line_h: i32) -> (r: Screen)
        requires
            area.holds(line_h),
        ensures
            r@ == self@.shown(area, line_h),
    {
        let mut list: Vec<Row> = Vec::new();
        let tint = if self.alive {
            Tint::Accent
        } else {
            Tint::Dim
        };
        let ghost none = screen::rows(list@);
        assert(none =~= seq![]);
        let y: i32 = push_row(&mut list, &self.head(), tint, area.top, area.bottom, line_h);
        let ghost first = screen::rows(list@);
        assert(first =~= screen::stacked(
            seq![self@.head()],
            tint,
            area.top as int,
            area.bottom as int,
            line_h as int,
        ));
        proof {
            screen::law_lines_keep_to_their_area(
                seq![self@.head()],
                tint,
                area.top as int,
                area.bottom as int,
                line_h as int,
            );
            screen::law_lines_keep_to_their_area(
                seq![self@.counters()],
                Tint::Dim,
                y as int,
                area.bottom as int,
                line_h as int,
            );
            assert(1 * line_h == line_h && 0 * line_h == 0) by (nonlinear_arith);
        }
        assert(y == area.top + first.len() * line_h);
        let ghost second = screen::stacked(
            seq![self@.counters()],
            Tint::Dim,
            y as int,
            area.bottom as int,
            line_h as int,
        );
        let y: i32 = push_row(
            &mut list,
            &self.counters(),
            Tint::Dim,
            y,
            area.bottom,
            line_h,
        );
        assert(y == area.top + first.len() * line_h + second.len() * line_h);
        push_rows(&mut list, &self.log, Tint::Text, y + line_h / 2, area.bottom, line_h);
        let left = if self.alive {
            None
        } else {
            Some("Start".to_owned())
        };
        let r = Screen {
            title: "ADBian".to_owned(),
            left,
            right: Some("Exit".to_owned()),
            rows: list,
        };
        assert(r@ =~= self@.shown(area, line_h));
        r
    }

    /// Whether the panel is to be closed.
    pub fn should_exit(&self) -> (r: bool)
        ensures
            r == self@.exit,
    {
        self.exit
    }

    /// The panel's name.
    pub fn title(&self) -> (r: &str)
        ensures
            r@ == "ADBian"@,
    {
        "ADBian"
    }
}

/// What the daemon published before it died is not mistaken for a daemon that runs: whatever the
/// other readings say, one that is not running is shown as stopped, with the offer to start it.
pub proof fn law_a_dead_daemon_is_shown_as_stopped(
    v: ViewerModel,
    readings: Readings,
    area: Area,
    line_h: i32,
)
    ensures
        !readings.running ==> v.refreshed(readings).head() == "Daemon: stopped"@,
        v.refreshed(readings).shown(area, line_h).left is Some <==> !readings.running,
{
}

/// What is read is what is kept: each number as it was published, -1 for a state or a channel that
/// is not there and 0 for a count that is not there, and the last eight lines of the log.
pub proof fn law_readings_are_kept_as_they_were_read(v: ViewerModel, readings: Readings)
    ensures
        ({
            let after = v.refreshed(readings);
            &&& after.alive == readings.running
            &&& readings.state is None ==> after.state == -1
            &&& readings.state matches Some(n) ==> after.state == n
            &&& readings.channel is None ==> after.channel == -1
            &&& readings.channel matches Some(n) ==> after.channel == n
            &&& readings.cmds is None ==> after.cmds == 0
            &&& readings.cmds matches Some(n) ==> after.cmds == n
            &&& readings.clients is None ==> after.clients == 0
            &&& readings.clients matches Some(n) ==> after.clients == n
            &&& readings.log is Err ==> after.log.len() == 0
            &&& readings.log matches Ok(None) ==> after.log.len() == 0
            &&& readings.log matches Ok(Some(bytes)) ==> after.log == lines::last(
                lines::lines_of(utf8::utf8_lossy(bytes@)),
                8,
            )
            &&& after.exit == v.exit
        }),
{
}

/// The head tells the daemon's state, with its channel where it has one, and the line below it how
/// many commands and clients there were.
pub proof fn law_the_head_tells_the_state(v: ViewerModel)
    ensures
        v.alive && v.state == 2 ==> v.head() == "Daemon: client connected (ch "@ + number::dec_int(
            v.channel as int,
        ) + ")"@,
        v.alive && v.state == 1 ==> v.head() == "Daemon: listening (ch "@ + number::dec_int(
            v.channel as int,
        ) + ")"@,
        v.alive && v.state != 1 && v.state != 2 ==> v.head() == "Daemon: starting..."@,
        !v.alive ==> v.head() == "Daemon: stopped"@,
        v.counters() == "commands: "@ + number::dec_int(v.cmds as int) + "   clients: "@
            + number::dec_int(v.clients as int),
{
}

/// On the screen the head stands first, the counts below it, and after half a line the log, as far
/// as there is room.
pub proof fn law_the_panel_is_laid_out_from_the_top(v: ViewerModel, area: Area, line_h: i32)
    requires
        line_h >= 1,
    ensures
        ({
            let shown = v.shown(area, line_h);
            let tint = if v.alive {
                Tint::Accent
            } else {
                Tint::Dim
            };
            let first = screen::RowModel {
                top: area.top as int,
                bottom: area.top + line_h,
                text: v.head(),
                tint,
            };
            let second = screen::RowModel {
                top: area.top + line_h,
                bottom: area.top + 2 * line_h,
                text: v.counters(),
                tint: Tint::Dim,
            };
            &&& shown.title == "ADBian"@
            &&& shown.left == if v.alive {
                None
            } else {
                Some("Start"@)
            }
            &&& shown.right == Some("Exit"@)
            &&& area.top + line_h > area.bottom ==> shown.rows.len() == 0
            &&& area.top + line_h <= area.bottom < area.top + 2 * line_h ==> shown.rows == seq![
                first,
            ]
            &&& area.top + 2 * line_h <= area.bottom ==> shown.rows == seq![first, second]
                + screen::stacked(
                v.log,
                Tint::Text,
                area.top + 2 * line_h + line_h / 2,
                area.bottom as int,
                line_h as int,
            )
        }),
{
    let tint = if v.alive {
        Tint::Accent
    } else {
        Tint::Dim
    };
    let top = area.top as int;
    let bottom = area.bottom as int;
    let h = line_h as int;
    assert(1 * h == h && 0 * h == 0) by (nonlinear_arith);
    reveal_with_fuel(screen::stacked, 2);
    let none = Seq::<Seq<char>>::empty();
    assert(seq![v.head()].skip(1) =~= none);
    assert(seq![v.counters()].skip(1) =~= none);
    let rows = v.lines(top, bottom, h);
    if top + h > bottom {
        assert(rows =~= seq![]);
    } else if top + 2 * h > bottom {
        assert(rows =~= seq![
            screen::RowModel { top, bottom: top + h, text: v.head(), tint },
        ]);
    } else {
        let below = screen::stacked(v.log, Tint::Text, top + 2 * h + h / 2, bottom, h);
        assert(rows =~= seq![
            screen::RowModel { top, bottom: top + h, text: v.head(), tint },
            screen::RowModel {
                top: top + h,
                bottom: top + 2 * h,
                text: v.counters(),
                tint: Tint::Dim,
            },
        ] + below);
    }
}

} // verus!
