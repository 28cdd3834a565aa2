//! Whole sessions: a phone with a few files, and a client that talks to it.

use std::collections::BTreeMap;

use adbian::job::MAX_FILE;
use adbian::model::{EFILE_UID3, SUPERVISION_MS};
use adbian::platform::{Answer, FileStat, Listing, PlatformQuery, Query, RangeRead};
use adbian::pubsub;
use adbian::screen::{Handled, Key};
use adbian::shell::Shell;
use adbian::wire::{frame, MAX_FRAME};
use adbian::work::{Action, Event, Outcome, RX_CAP};

/// A phone that answers the shell's questions, and keeps a record of what it was asked to do.
struct Phone {
    shell: Shell,
    files: BTreeMap<String, Vec<u8>>,
    dirs: BTreeMap<String, Vec<String>>,
    published: BTreeMap<u32, i32>,
    /// The frames that were sent, without their lengths.
    sent: Vec<Vec<u8>>,
    acts: Vec<String>,
    /// The clock, and how far it moves each time it is read.
    now: u64,
    tick: u64,
    listener: Result<u8, String>,
    take_calls: bool,
    bad_paths: bool,
}

impl Phone {
    fn new() -> Phone {
        let mut p = Phone {
            shell: Shell::new(),
            files: BTreeMap::new(),
            dirs: BTreeMap::new(),
            published: BTreeMap::new(),
            sent: Vec::new(),
            acts: Vec::new(),
            now: 1_000,
            tick: 1,
            listener: Ok(13),
            take_calls: true,
            bad_paths: false,
        };
        p.pump();
        p
    }

    /// A phone with a client on socket 7, which has heard the greeting.
    fn connected() -> Phone {
        let mut p = Phone::new();
        p.event(Event::Timer);
        p.event(Event::Accepted { handle: 7, status: 0 });
        p.drain();
        p.sent.clear();
        p.acts.clear();
        p
    }

    fn answer(&mut self, query: PlatformQuery) -> Answer {
        match query {
            Query::CheckPath(_) => Answer::Path(!self.bad_paths),
            Query::List(dir) => Answer::Listing(match self.dirs.get(&dir) {
                Some(names) => {
                    let mut units: Vec<u16> = Vec::new();
                    for name in names {
                        units.extend(name.encode_utf16());
                        units.push(0);
                    }
                    let count = names.len();
                    units.resize(units.len() + 16, 0);
                    Ok(Listing { units, count })
                }
                None => Err(String::from("PathNotFound")),
            }),
            Query::Read(path) => Answer::Contents(if path.ends_with("locked") {
                Err(String::from("AccessDenied"))
            } else {
                Ok(self.files.get(&path).cloned())
            }),
            Query::ReadRange { path, off, len } => Answer::Range(match self.files.get(&path) {
                None => RangeRead::OpenFailed(String::from("NotFound")),
                Some(bytes) => {
                    if off == 666 {
                        RangeRead::SeekFailed(String::from("Argument"))
                    } else if off == 667 {
                        RangeRead::ReadFailed(String::from("Corrupt"))
                    } else {
                        let from = bytes.len().min(off as usize);
                        let to = bytes.len().min(from + len);
                        RangeRead::Bytes {
                            bytes: bytes[from..to].to_vec(),
                            total: if off == 3 { None } else { Some(bytes.len() as u64) },
                        }
                    }
                }
            }),
            Query::Write { path, data } => Answer::Done(if path.starts_with("Z:") {
                Err(String::from("AccessDenied"))
            } else {
                self.files.insert(path, data);
                Ok(())
            }),
            Query::Stat(path) => Answer::Facts(match self.files.get(&path) {
                Some(bytes) => Ok(FileStat {
                    size: bytes.len() as u64,
                    year: 2009,
                    month: 6,
                    day: 5,
                    hour: 4,
                    minute: 3,
                    second: 12,
                    attributes: 0x21,
                    is_dir: path.ends_with("sub"),
                }),
                None => Err(String::from("NotFound")),
            }),
            Query::Spawn(path) => Answer::Done(if path.ends_with(".exe") {
                Ok(())
            } else {
                Err(String::from("NotSupported"))
            }),
            Query::Delete(path) => Answer::Done(match self.files.remove(&path) {
                Some(_) => Ok(()),
                None => Err(String::from("NotFound")),
            }),
            Query::MakeDir(dir) => Answer::Done(if dir.starts_with("Z:") {
                Err(String::from("WriteProtected"))
            } else {
                self.dirs.insert(dir, Vec::new());
                Ok(())
            }),
            Query::Property { category, key } => Answer::Int(if category == pubsub::CAT {
                self.published.get(&key).copied().ok_or_else(|| String::from("NotFound"))
            } else {
                Ok(-2)
            }),
            Query::RepositoryInt { key, .. } => Answer::Int(if key == 1 {
                Ok(255)
            } else {
                Err(String::from("Argument"))
            }),
            Query::RepositoryText { key, .. } => Answer::Text(if key == 2 {
                Ok(String::from("hello"))
            } else {
                Err(String::from("NotFound"))
            }),
            Query::Hal(attribute) => Answer::Int(match attribute {
                5 => Ok(0x2001_4dd3),
                -1 => Err(String::from("Argument")),
                n => Ok(-n),
            }),
            Query::Clock => {
                self.now += self.tick;
                Answer::Time(self.now)
            }
        }
    }

    fn pump(&mut self) {
        let mut outcome = Outcome::Done;
        loop {
            assert!(self.shell.expects(&outcome));
            let action = self.shell.step(outcome);
            outcome = match action {
                Action::Rest => break,
                Action::Proceed => Outcome::Done,
                Action::Define { key } => {
                    self.acts.push(format!("define {}", key));
                    Outcome::Done
                }
                Action::Publish { key, value } => {
                    self.acts.push(format!("publish {}={}", key, value));
                    self.published.insert(key, value);
                    Outcome::Done
                }
                Action::WakeAfter(ms) => {
                    self.acts.push(format!("after {}", ms));
                    Outcome::Done
                }
                Action::WakeEvery(ms) => {
                    self.acts.push(format!("every {}", ms));
                    Outcome::Done
                }
                Action::Listen => {
                    self.acts.push(String::from("listen"));
                    Outcome::Listened(self.listener.clone())
                }
                Action::Accept => {
                    self.acts.push(String::from("accept"));
                    Outcome::Called(self.take_calls)
                }
                Action::Receive { handle } => {
                    self.acts.push(format!("receive {}", handle));
                    Outcome::Called(self.take_calls)
                }
                Action::Send { handle } => {
                    self.acts.push(format!("send {}", handle));
                    if self.take_calls {
                        let f = self.shell.inflight().expect("a frame").to_vec();
                        let len = u32::from_be_bytes([f[0], f[1], f[2], f[3]]) as usize;
                        assert_eq!(len, f.len() - 4);
                        self.sent.push(f[4..].to_vec());
                    }
                    Outcome::Called(self.take_calls)
                }
                Action::Close { handle } => {
                    self.acts.push(format!("close {}", handle));
                    Outcome::Done
                }
                Action::Kill { uid } => {
                    self.acts.push(format!("kill {:x}", uid));
                    Outcome::Done
                }
                Action::Ask(query) => Outcome::Answered(self.answer(query)),
            };
        }
        assert!(self.shell.at_rest());
    }

    fn event(&mut self, event: Event) -> bool {
        assert!(self.shell.at_rest());
        let ours = self.shell.route(&event);
        self.pump();
        ours
    }

    /// Lets every frame leave.
    fn drain(&mut self) {
        while self.shell.inflight().is_some() {
            self.event(Event::Sent { status: 0 });
        }
    }

    /// Hands bytes over as they come off the link.
    fn bytes(&mut self, bytes: &[u8]) {
        for piece in bytes.chunks(RX_CAP) {
            let mut rx = [0u8; RX_CAP];
            rx[..piece.len()].copy_from_slice(piece);
            self.event(Event::Received { status: 0, len: piece.len() as i32, rx });
        }
    }

    /// Sends a payload and gives the frames that came back.
    fn payload(&mut self, payload: &[u8]) -> Vec<Vec<u8>> {
        self.sent.clear();
        self.bytes(&frame(payload));
        self.drain();
        self.sent.clone()
    }

    /// Sends a line and gives the data, put together, and the text that ended the reply, with its
    /// tag in front. There is exactly one such text, and it comes last.
    fn line(&mut self, line: &str) -> (Vec<u8>, String) {
        let frames = self.payload(line.as_bytes());
        let (last, data) = frames.split_last().expect("a reply");
        assert!(last[0] == b'+' || last[0] == b'-');
        assert!(data.iter().all(|f| f[0] == b'.' && f.len() > 1 && f.len() <= 4097));
        let joined: Vec<u8> = data.iter().flat_map(|f| f[1..].to_vec()).collect();
        (joined, String::from_utf8(last.clone()).unwrap())
    }

    fn text(&mut self, line: &str) -> String {
        let (data, text) = self.line(line);
        assert!(data.is_empty());
        text
    }
}

fn rows(shell: &Shell) -> Vec<String> {
    let area = adbian::screen::Area { top: 0, bottom: 1_000 };
    shell.draw(area, 10).rows.iter().map(|r| r.text.clone()).collect()
}

#[test]
fn a_new_shell_asks_to_be_woken_and_nothing_else() {
    let p = Phone::new();
    assert_eq!(p.acts, vec!["after 1"]);
    assert!(!p.shell.should_exit());
    assert_eq!(p.shell.title(), "RFCOMM shell");
    let d = Shell::default();
    assert!(!d.at_rest());
}

#[test]
fn the_first_timer_event_brings_the_listener_up() {
    let mut p = Phone::new();
    p.acts.clear();
    assert!(p.event(Event::Timer));
    assert_eq!(
        p.acts,
        vec![
            "define 1", "define 2", "define 3", "define 4", "listen", "publish 2=13",
            "publish 1=1", "accept", "every 5000"
        ]
    );
    assert_eq!(SUPERVISION_MS, 5_000);
    assert_eq!(rows(&p.shell), vec!["waiting for a client", "listening on channel 13"]);
    // A call is under way, so the heartbeat has nothing to mend.
    p.acts.clear();
    assert!(p.event(Event::Timer));
    assert!(p.acts.is_empty());
}

#[test]
fn a_listener_that_fails_is_tried_again_by_the_heartbeat() {
    let mut p = Phone::new();
    p.listener = Err(String::from("InUse"));
    p.acts.clear();
    p.event(Event::Timer);
    assert_eq!(
        p.acts,
        vec!["define 1", "define 2", "define 3", "define 4", "listen", "publish 1=0", "every 5000"]
    );
    assert_eq!(rows(&p.shell), vec!["starting...", "listen failed: InUse"]);
    p.acts.clear();
    p.event(Event::Timer);
    assert_eq!(p.acts, vec!["listen"]);
    p.listener = Ok(4);
    p.acts.clear();
    p.event(Event::Timer);
    assert_eq!(p.acts, vec!["listen", "publish 2=4", "publish 1=1", "accept"]);
    assert_eq!(rows(&p.shell), vec!["waiting for a client", "listen failed: InUse"]);
}

#[test]
fn a_call_that_is_not_taken_is_made_again_by_the_heartbeat() {
    let mut p = Phone::new();
    p.take_calls = false;
    p.event(Event::Timer);
    p.take_calls = true;
    p.acts.clear();
    p.event(Event::Timer);
    assert_eq!(p.acts, vec!["accept"]);
}

#[test]
fn a_client_is_counted_greeted_and_read_from() {
    let mut p = Phone::new();
    p.event(Event::Timer);
    p.acts.clear();
    assert!(p.event(Event::Accepted { handle: 7, status: 0 }));
    assert_eq!(p.acts, vec!["publish 4=1", "publish 1=2", "send 7", "receive 7"]);
    assert_eq!(p.sent, vec![b"+rshell ready".to_vec()]);
    assert_eq!(
        rows(&p.shell),
        vec!["client: connected", "listening on channel 13", "client connected"]
    );
    // With a client there is no second call.
    p.drain();
    p.acts.clear();
    p.event(Event::Timer);
    assert!(p.acts.is_empty());
}

#[test]
fn a_call_that_brings_no_client_is_made_again() {
    let mut p = Phone::new();
    p.event(Event::Timer);
    p.acts.clear();
    p.event(Event::Accepted { handle: 7, status: -3 });
    assert_eq!(p.acts, vec!["accept"]);
    p.acts.clear();
    p.event(Event::Accepted { handle: -1, status: 0 });
    assert_eq!(p.acts, vec!["accept"]);
    assert!(p.sent.is_empty());
}

#[test]
fn foreign_events_are_left_alone() {
    let mut p = Phone::connected();
    assert!(!p.event(Event::Other));
    assert!(p.acts.is_empty());
}

#[test]
fn a_broken_link_is_closed_and_the_next_client_called_for() {
    let back = vec!["close 7", "publish 1=1", "accept"];
    let mut p = Phone::connected();
    p.event(Event::Closed);
    assert_eq!(p.acts, back);
    let mut p = Phone::connected();
    p.event(Event::Received { status: -34, len: 5, rx: [0; RX_CAP] });
    assert_eq!(p.acts, back);
    let mut p = Phone::connected();
    p.event(Event::Received { status: 0, len: 0, rx: [0; RX_CAP] });
    assert_eq!(p.acts, back);
    let mut p = Phone::connected();
    p.event(Event::Received { status: 0, len: -1, rx: [0; RX_CAP] });
    assert_eq!(p.acts, back);
    let mut p = Phone::connected();
    p.bytes(&frame(b"ping"));
    p.acts.clear();
    p.event(Event::Sent { status: -34 });
    assert_eq!(p.acts, back);
    assert!(p.shell.inflight().is_none());
    assert_eq!(
        rows(&p.shell),
        vec![
            "waiting for a client",
            "listening on channel 13",
            "client connected",
            "ping",
            "client disconnected"
        ]
    );
    // The next client finds nothing of the last one.
    p.acts.clear();
    p.sent.clear();
    p.event(Event::Accepted { handle: 9, status: 0 });
    p.drain();
    assert_eq!(p.sent, vec![b"+rshell ready".to_vec()]);
    assert_eq!(p.published[&pubsub::KEY_CLIENTS], 2);
}

#[test]
fn a_send_or_a_read_that_is_not_taken_drops_the_client() {
    let mut p = Phone::connected();
    p.take_calls = false;
    p.bytes(&frame(b"ping"));
    assert_eq!(p.acts, vec!["publish 3=1", "send 7", "close 7", "publish 1=1", "accept"]);
    let mut p = Phone::connected();
    p.take_calls = false;
    p.bytes(&[0, 0]);
    assert_eq!(p.acts, vec!["receive 7", "close 7", "publish 1=1", "accept"]);
}

#[test]
fn a_frame_that_claims_too_much_drops_the_client() {
    let mut p = Phone::connected();
    let claim = (MAX_FRAME as u32 + 1).to_be_bytes();
    p.bytes(&claim);
    assert_eq!(p.acts, vec!["close 7", "publish 1=1", "accept"]);
    assert!(p.sent.is_empty());
    // The largest frame there may be is waited for.
    let mut p = Phone::connected();
    p.bytes(&(MAX_FRAME as u32).to_be_bytes());
    assert_eq!(p.acts, vec!["receive 7"]);
}

#[test]
fn frames_are_stitched_together_and_taken_apart() {
    let mut p = Phone::connected();
    let mut all = frame(b"ping");
    all.extend(frame(b"pwd"));
    for b in &all[..all.len() - 1] {
        p.bytes(&[*b]);
    }
    p.drain();
    assert_eq!(p.sent, vec![b"+pong".to_vec()]);
    p.bytes(&all[all.len() - 1..]);
    p.drain();
    assert_eq!(p.sent, vec![b"+pong".to_vec(), b"+Z:\\".to_vec()]);
    // Both at once.
    p.sent.clear();
    p.bytes(&all);
    p.drain();
    assert_eq!(p.sent, vec![b"+pong".to_vec(), b"+Z:\\".to_vec()]);
    assert_eq!(p.published[&pubsub::KEY_CMDS], 4);
}

#[test]
fn what_lies_behind_the_length_in_the_buffer_is_not_read() {
    let mut p = Phone::connected();
    let f = frame(b"ping");
    let mut rx = [b'x'; RX_CAP];
    rx[..f.len()].copy_from_slice(&f);
    p.event(Event::Received { status: 0, len: f.len() as i32, rx });
    p.drain();
    assert_eq!(p.sent, vec![b"+pong".to_vec()]);
    assert_eq!(p.text("ping"), "+pong");
}

#[test]
fn a_read_that_claims_more_than_the_buffer_gives_the_buffer() {
    let mut p = Phone::connected();
    let mut long = vec![b' '; RX_CAP - 4];
    long[..4].copy_from_slice(b"ping");
    let f = frame(&long);
    assert_eq!(f.len(), RX_CAP);
    let mut rx = [0u8; RX_CAP];
    rx.copy_from_slice(&f);
    p.event(Event::Received { status: 0, len: RX_CAP as i32 + 50, rx });
    p.drain();
    assert_eq!(p.sent, vec![b"+pong".to_vec()]);
}

#[test]
fn blank_lines_are_counted_and_not_answered() {
    let mut p = Phone::connected();
    assert!(p.payload(b"   ").is_empty());
    assert!(p.payload(b"").is_empty());
    // So are bytes that are not UTF-8.
    assert!(p.payload(&[b'p', b'w', b'd', 0xff]).is_empty());
    assert_eq!(p.published[&pubsub::KEY_CMDS], 3);
    assert_eq!(p.text("ping"), "+pong");
}

#[test]
fn verbs_are_known_and_others_are_named() {
    let mut p = Phone::connected();
    assert_eq!(p.text("  ping  "), "+pong");
    assert_eq!(p.text("ping pong"), "+pong");
    assert_eq!(
        p.text("Ping"),
        "-unknown verb (pwd cd ls stat cat get put rm mkdir find grep exec reboot ps cenrep hal ping quit)"
    );
    // Only a space ends the verb.
    assert!(p.text("cd\tZ:\\").starts_with("-unknown verb"));
}

#[test]
fn cd_moves_and_pwd_says_where() {
    let mut p = Phone::connected();
    assert_eq!(p.text("pwd"), "+Z:\\");
    assert_eq!(p.text("cd sys"), "+Z:\\sys\\");
    assert_eq!(p.text("cd  bin "), "+Z:\\sys\\bin\\");
    assert_eq!(p.text("pwd"), "+Z:\\sys\\bin\\");
    assert_eq!(p.text("cd .."), "+Z:\\sys\\");
    assert_eq!(p.text("cd"), "+Z:\\sys\\");
    assert_eq!(p.text("cd .."), "+Z:\\");
    assert_eq!(p.text("cd .."), "+Z:\\");
    assert_eq!(p.text("cd C:\\Data"), "+C:\\Data\\");
    assert_eq!(p.text("pwd"), "+C:\\Data\\");
}

#[test]
fn the_working_directory_outlives_a_client() {
    let mut p = Phone::connected();
    p.text("cd C:\\Data");
    p.event(Event::Closed);
    p.event(Event::Accepted { handle: 8, status: 0 });
    p.drain();
    assert_eq!(p.text("pwd"), "+C:\\Data\\");
}

#[test]
fn ls_lists_and_counts() {
    let mut p = Phone::connected();
    p.dirs.insert(String::from("Z:\\"), vec![String::from("sys\\"), String::from("héllo.txt")]);
    p.dirs.insert(String::from("C:\\Empty\\"), Vec::new());
    assert_eq!(
        p.line("ls"),
        ("sys\\\nhéllo.txt\n".as_bytes().to_vec(), String::from("+2 entries in Z:\\"))
    );
    assert_eq!(p.line("ls C:\\Empty"), (Vec::new(), String::from("+0 entries in C:\\Empty\\")));
    assert_eq!(p.text("ls nowhere"), "-ls failed PathNotFound");
}

#[test]
fn cat_sends_the_whole_file() {
    let mut p = Phone::connected();
    let big: Vec<u8> = (0..10_000u32).map(|i| (i % 251) as u8).collect();
    p.files.insert(String::from("Z:\\big"), big.clone());
    p.files.insert(String::from("Z:\\none"), Vec::new());
    p.files.insert(String::from("Z:\\limit"), vec![7; MAX_FILE]);
    p.files.insert(String::from("Z:\\over"), vec![7; MAX_FILE + 1]);
    assert_eq!(p.line("cat big"), (big.clone(), String::from("+10000 bytes")));
    assert_eq!(p.sent.len(), 4);
    assert_eq!(p.line("get big"), (big, String::from("+10000 bytes")));
    assert_eq!(p.line("cat none"), (Vec::new(), String::from("+0 bytes")));
    assert_eq!(p.line("cat limit"), (vec![7; MAX_FILE], String::from("+1048576 bytes")));
    assert_eq!(
        p.text("cat over"),
        "-file is 1048577 bytes; too large for cat - use: cat <path> <off> <len>"
    );
    assert_eq!(p.text("cat missing"), "-not found");
    assert_eq!(p.text("cat locked"), "-read failed AccessDenied");
    p.bad_paths = true;
    assert_eq!(p.text("cat big"), "-bad path");
}

#[test]
fn cat_sends_a_range() {
    let mut p = Phone::connected();
    let big: Vec<u8> = (0..70_000u32).map(|i| (i % 251) as u8).collect();
    p.files.insert(String::from("C:\\my file"), big.clone());
    assert_eq!(
        p.line("cat C:\\my file 65536 65536"),
        (big[65_536..].to_vec(), String::from("+4464 bytes at 65536 (file is 70000)"))
    );
    assert_eq!(
        p.line("cat C:\\my file 0x10 2"),
        (big[16..18].to_vec(), String::from("+2 bytes at 16 (file is 70000)"))
    );
    // A size that is not known is given as none.
    assert_eq!(
        p.line("cat C:\\my file 3 1"),
        (big[3..4].to_vec(), String::from("+1 bytes at 3 (file is 0)"))
    );
    assert_eq!(p.text("cat C:\\my file 666 1"), "-seek failed Argument");
    assert_eq!(p.text("cat C:\\my file 667 1"), "-read failed Corrupt");
    assert_eq!(p.text("cat C:\\no 0 1"), "-open failed NotFound");
    assert_eq!(p.text("cat C:\\no 0 1048577"), "-1048577 bytes is too large for one range");
    assert_eq!(p.text("cat C:\\no 0 1048576"), "-open failed NotFound");
}

#[test]
fn stat_gives_the_facts() {
    let mut p = Phone::connected();
    p.files.insert(String::from("Z:\\a.txt"), vec![1; 300]);
    p.files.insert(String::from("Z:\\sub"), Vec::new());
    assert_eq!(p.text("stat a.txt"), "+Z:\\a.txt  300 bytes  2009-06-05 04:03:12  att 0x21");
    assert_eq!(p.text("stat sub"), "+Z:\\sub  0 bytes  2009-06-05 04:03:12  att 0x21  <dir>");
    assert_eq!(p.text("stat b.txt"), "-stat failed NotFound");
    assert_eq!(p.text("stat"), "-usage: stat <path>");
}

fn tree(p: &mut Phone) {
    p.dirs.insert(
        String::from("C:\\"),
        vec![String::from("Data\\"), String::from("LOGS\\"), String::from("catalog.txt")],
    );
    p.dirs.insert(
        String::from("C:\\Data\\"),
        vec![String::from("log1"), String::from("x"), String::from("deep\\")],
    );
    p.dirs.insert(String::from("C:\\LOGS\\"), vec![String::from("y.log")]);
    p.dirs.insert(String::from("C:\\Data\\deep\\"), vec![String::from("aLoG")]);
}

#[test]
fn find_walks_the_tree() {
    let mut p = Phone::connected();
    tree(&mut p);
    let (data, text) = p.line("find C:\\ Log");
    assert_eq!(
        String::from_utf8(data).unwrap(),
        "C:\\LOGS\\\nC:\\catalog.txt\nC:\\Data\\log1\nC:\\LOGS\\y.log\nC:\\Data\\deep\\aLoG\n"
    );
    assert_eq!(text, "+5 hits, 8 entries scanned");
    assert_eq!(p.line("find C:\\ nothing"), (Vec::new(), String::from("+0 hits, 8 entries scanned")));
    // A directory that cannot be listed has no entries.
    assert_eq!(p.text("find E:\\ log"), "+0 hits, 0 entries scanned");
    assert_eq!(p.text("find C:\\"), "-usage: find <dir> <substring>");
    assert_eq!(p.text("find"), "-usage: find <dir> <substring>");
}

#[test]
fn find_says_when_it_ran_out_of_time() {
    let mut p = Phone::connected();
    tree(&mut p);
    // The first reading sets the deadline; the third directory comes up after it.
    p.tick = 800_000;
    let (data, text) = p.line("find C:\\ log");
    assert_eq!(
        String::from_utf8(data).unwrap(),
        "C:\\LOGS\\\nC:\\catalog.txt\nC:\\Data\\log1\n"
    );
    assert_eq!(
        text,
        "+3 hits, 6 entries scanned, reached C:\\LOGS\\ - BUDGET EXPIRED — narrow the path"
    );
    // On the deadline itself there is still time.
    p.tick = 2_000_000;
    let (_, text) = p.line("find C:\\ log");
    assert_eq!(
        text,
        "+2 hits, 3 entries scanned, reached C:\\Data\\ - BUDGET EXPIRED — narrow the path"
    );
}

fn haystack(p: &mut Phone) {
    p.dirs.insert(
        String::from("Z:\\sys\\"),
        vec![
            String::from("a"),
            String::from("b"),
            String::from("dir\\"),
            String::from("locked"),
            String::from("gone"),
            String::from("c"),
        ],
    );
    p.files.insert(String::from("Z:\\sys\\a"), b"xxhello hello".to_vec());
    p.files.insert(String::from("Z:\\sys\\b"), vec![0, 0x66, 0x87, 0x1f, 0x10]);
    p.files.insert(String::from("Z:\\sys\\c"), b"hello".to_vec());
}

#[test]
fn grep_searches_the_files_of_a_directory() {
    let mut p = Phone::connected();
    haystack(&mut p);
    assert_eq!(
        p.line("grep sys hello"),
        (
            b"Z:\\sys\\a  @2\nZ:\\sys\\c  @0\n".to_vec(),
            String::from("+2 hits in 3 files (2 unreadable)")
        )
    );
    assert_eq!(
        p.line("grep sys hex:66 87 1f 10"),
        (b"Z:\\sys\\b  @1\n".to_vec(), String::from("+1 hits in 3 files (2 unreadable)"))
    );
    assert_eq!(p.text("grep sys HELLO"), "+0 hits in 3 files (2 unreadable)");
    assert_eq!(p.text("grep nowhere hello"), "+0 hits in 0 files (0 unreadable)");
    assert_eq!(p.text("grep sys"), "-usage: grep <dir> <text|hex:bytes>");
    assert_eq!(p.text("grep"), "-usage: grep <dir> <text|hex:bytes>");
    assert_eq!(p.text("grep sys hex:abc"), "-bad hex pattern (use hex:66871f10)");
    assert_eq!(p.text("grep sys hex:zz"), "-bad hex pattern (use hex:66871f10)");
    assert_eq!(p.text("grep sys hex:"), "-bad hex pattern (use hex:66871f10)");
    p.bad_paths = true;
    assert_eq!(p.text("grep sys hello"), "+0 hits in 0 files (5 unreadable)");
}

#[test]
fn grep_says_when_it_ran_out_of_time() {
    let mut p = Phone::connected();
    haystack(&mut p);
    p.tick = 1_000_000;
    assert_eq!(
        p.line("grep sys hello"),
        (
            b"Z:\\sys\\a  @2\n".to_vec(),
            String::from("+1 hits in 2 files (0 unreadable) - BUDGET EXPIRED")
        )
    );
}

#[test]
fn exec_starts_and_returns() {
    let mut p = Phone::connected();
    assert_eq!(p.text("exec C:\\sys\\bin\\foo.exe"), "+spawned C:\\sys\\bin\\foo.exe");
    assert_eq!(p.text("exec foo"), "-spawn failed NotSupported");
    assert_eq!(p.text("exec"), "-usage: exec <path>  (e.g. exec C:\\sys\\bin\\foo.exe)");
    p.bad_paths = true;
    assert_eq!(p.text("exec foo.exe"), "-bad path");
}

#[test]
fn values_are_read_and_shown() {
    let mut p = Phone::connected();
    assert_eq!(p.text("ps 0xE0AA00F2 1"), "+0xe0aa00f2/0x00000001 = 2 (0x2)");
    assert_eq!(p.text("ps 1 2"), "+0x00000001/0x00000002 = -2 (0xfffffffe)");
    assert_eq!(p.text("ps 0xE0AA00F2 9"), "-ps failed NotFound");
    assert_eq!(
        p.text("ps 1"),
        "-usage: ps <category> <key>  (hex ok: ps 0x101f75b6 0x10203642)"
    );
    assert_eq!(p.text("cenrep 0x101f8766 1"), "+0x101f8766/0x1 = 255 (0xff)");
    assert_eq!(p.text("cenrep 0x101f8766 2"), "+0x101f8766/0x2 = \"hello\"");
    assert_eq!(p.text("cenrep 0x101f8766 3"), "-cenrep int Argument, string NotFound");
    assert_eq!(
        p.text("cenrep x y"),
        "-usage: cenrep <repo> <key>  (hex ok: cenrep 0x101f8766 0x1)"
    );
    assert_eq!(p.text("hal"), "+machine uid = 0x20014dd3 (536956371)");
    assert_eq!(p.text("hal 16"), "+hal[16] = -16 (0xfffffff0)");
    assert_eq!(p.text("hal 0xffffffff"), "-hal[4294967295] failed Argument");
    assert_eq!(
        p.text("hal x"),
        "-usage: hal [attribute-number]   (no argument = machine uid)"
    );
}

#[test]
fn files_and_directories_come_and_go() {
    let mut p = Phone::connected();
    p.files.insert(String::from("Z:\\a"), Vec::new());
    assert_eq!(p.text("rm a"), "+removed Z:\\a");
    assert_eq!(p.text("rm a"), "-rm failed NotFound");
    assert_eq!(p.text("rm"), "-usage: rm <path>");
    assert_eq!(p.text("mkdir C:\\new"), "+created C:\\new\\");
    assert!(p.dirs.contains_key("C:\\new\\"));
    assert_eq!(p.text("mkdir new"), "-mkdir failed WriteProtected");
    assert_eq!(p.text("mkdir"), "-usage: mkdir <path>");
}

#[test]
fn put_stores_exactly_its_bytes() {
    let mut p = Phone::connected();
    assert_eq!(p.text("put C:\\my file 10"), "+send 10 bytes");
    assert!(p.payload(b"abcd").is_empty());
    // While the bytes come, no payload is a line.
    assert!(p.payload(b"ping").is_empty());
    assert_eq!(p.payload(b"xyz"), vec![b"+wrote 10 bytes to C:\\my file".to_vec()]);
    assert_eq!(p.files["C:\\my file"], b"abcdpingxy".to_vec());
    assert_eq!(p.published[&pubsub::KEY_CMDS], 1);
    assert_eq!(
        p.line("cat C:\\my file"),
        (b"abcdpingxy".to_vec(), String::from("+10 bytes"))
    );
}

#[test]
fn put_of_nothing_writes_at_once() {
    let mut p = Phone::connected();
    assert_eq!(p.text("put C:\\empty 0"), "+wrote 0 bytes to C:\\empty");
    assert!(p.files["C:\\empty"].is_empty());
}

#[test]
fn put_refuses_what_it_cannot_take() {
    let mut p = Phone::connected();
    assert_eq!(p.text("put C:\\x 1048577"), "-1048577 bytes is too large for put");
    assert_eq!(p.text("put C:\\x"), "-usage: put <path> <len>");
    assert_eq!(p.text("put C:\\x ten"), "-usage: put <path> <len>");
    // Unlike the other numbers, this one is decimal.
    assert_eq!(p.text("put C:\\x 0x10"), "-usage: put <path> <len>");
    assert_eq!(p.text("put"), "-usage: put <path> <len>");
    assert_eq!(p.text("put x 1"), "+send 1 bytes");
    assert_eq!(p.payload(b"!"), vec![b"-write failed AccessDenied".to_vec()]);
    p.bad_paths = true;
    assert_eq!(p.text("put C:\\x 1"), "+send 1 bytes");
    assert_eq!(p.payload(b"!"), vec![b"-bad path".to_vec()]);
    assert_eq!(p.text("ping"), "+pong");
}

#[test]
fn put_takes_a_file_of_the_largest_size() {
    let mut p = Phone::connected();
    let half = vec![5u8; MAX_FRAME];
    assert_eq!(p.text("put C:\\big 1048576"), "+send 1048576 bytes");
    assert!(p.payload(&half).is_empty());
    assert_eq!(p.payload(&half), vec![b"+wrote 1048576 bytes to C:\\big".to_vec()]);
    assert_eq!(p.files["C:\\big"].len(), MAX_FILE);
}

#[test]
fn a_put_that_is_cut_off_is_forgotten() {
    let mut p = Phone::connected();
    assert_eq!(p.text("put C:\\x 10"), "+send 10 bytes");
    p.payload(b"abc");
    p.event(Event::Closed);
    p.event(Event::Accepted { handle: 8, status: 0 });
    p.drain();
    assert_eq!(p.text("ping"), "+pong");
    assert!(p.files.is_empty());
}

#[test]
fn frames_leave_one_at_a_time_and_in_order() {
    let mut p = Phone::connected();
    p.files.insert(String::from("Z:\\f"), vec![9; 5_000]);
    p.bytes(&frame(b"cat f"));
    assert_eq!(p.sent.len(), 1);
    p.bytes(&frame(b"ping"));
    assert_eq!(p.sent.len(), 1);
    p.event(Event::Sent { status: 0 });
    assert_eq!(p.sent.len(), 2);
    p.drain();
    assert_eq!(p.sent[0].len(), 4097);
    assert_eq!(p.sent[1].len(), 905);
    assert_eq!(p.sent[2], b"+5000 bytes".to_vec());
    assert_eq!(p.sent[3], b"+pong".to_vec());
}

#[test]
fn reboot_waits_for_its_reply_to_leave() {
    let mut p = Phone::connected();
    assert_eq!(
        p.text("reboot"),
        "-usage: reboot now  (hard reset via the file server; nothing is flushed first)"
    );
    assert_eq!(
        p.text("reboot NOW"),
        "-usage: reboot now  (hard reset via the file server; nothing is flushed first)"
    );
    assert!(p.acts.iter().all(|a| !a.starts_with("kill")));
    p.sent.clear();
    p.acts.clear();
    p.bytes(&frame(b"reboot now"));
    assert_eq!(
        p.sent,
        vec![b"+rebooting: killing the file server once this reply is on the wire".to_vec()]
    );
    assert!(p.acts.iter().all(|a| !a.starts_with("kill")));
    p.acts.clear();
    p.event(Event::Sent { status: 0 });
    assert_eq!(p.acts, vec![format!("kill {:x}", EFILE_UID3), String::from("send 7")]);
    assert_eq!(p.acts[0], "kill 100039e3");
    assert_eq!(
        p.sent[1],
        b"-file-server kill returned but the phone is still up".to_vec()
    );
    // It is done once.
    p.acts.clear();
    p.drain();
    assert!(p.acts.is_empty());
}

#[test]
fn a_reset_goes_with_the_client_that_asked_for_it() {
    let ends: [fn() -> Event; 3] = [
        || Event::Sent { status: -34 },
        || Event::Closed,
        || Event::Received { status: -34, len: 0, rx: [0; RX_CAP] },
    ];
    for end in ends {
        let mut p = Phone::connected();
        p.bytes(&frame(b"reboot now"));
        p.event(end());
        p.event(Event::Accepted { handle: 9, status: 0 });
        p.event(Event::Sent { status: 0 });
        p.drain();
        assert!(p.acts.iter().all(|a| !a.starts_with("kill")), "{:?}", p.acts);
        assert_eq!(p.text("ping"), "+pong");
        assert!(p.acts.iter().all(|a| !a.starts_with("kill")));
    }
    // Nor does a client that replaces another find its request.
    let mut p = Phone::connected();
    p.bytes(&frame(b"reboot now"));
    p.event(Event::Accepted { handle: 9, status: 0 });
    p.event(Event::Sent { status: 0 });
    assert!(p.acts.iter().all(|a| !a.starts_with("kill")));
}

#[test]
fn a_reset_whose_reply_cannot_be_sent_does_not_come() {
    let mut p = Phone::connected();
    p.take_calls = false;
    p.bytes(&frame(b"reboot now"));
    p.take_calls = true;
    p.event(Event::Timer);
    p.event(Event::Accepted { handle: 9, status: 0 });
    p.event(Event::Sent { status: 0 });
    assert!(p.acts.iter().all(|a| !a.starts_with("kill")), "{:?}", p.acts);
}

#[test]
fn an_exit_outlives_the_client_that_asked_for_it() {
    let mut p = Phone::connected();
    p.bytes(&frame(b"quit"));
    p.event(Event::Closed);
    assert!(!p.shell.should_exit());
    p.event(Event::Accepted { handle: 9, status: 0 });
    assert!(!p.shell.should_exit());
    p.event(Event::Sent { status: 0 });
    assert!(p.shell.should_exit());
}

#[test]
fn a_second_drop_only_calls_for_a_client() {
    let mut p = Phone::new();
    p.event(Event::Timer);
    p.event(Event::Accepted { handle: 7, status: 0 });
    p.take_calls = false;
    p.event(Event::Closed);
    p.acts.clear();
    p.event(Event::Closed);
    assert_eq!(p.acts, vec!["accept"]);
    p.take_calls = true;
    p.event(Event::Closed);
    p.acts.clear();
    p.event(Event::Closed);
    assert!(p.acts.is_empty());
}

#[test]
fn get_is_cat_and_blanks_change_nothing() {
    let mut p = Phone::connected();
    p.files.insert(String::from("Z:\\my file"), b"0123456789".to_vec());
    let whole = p.line("cat my file");
    assert_eq!(whole, (b"0123456789".to_vec(), String::from("+10 bytes")));
    assert_eq!(p.line("get my file"), whole);
    assert_eq!(p.line("  get   my file \t"), whole);
    let range = p.line("cat my file 2 3");
    assert_eq!(range.0, b"234".to_vec());
    assert_eq!(p.line("get my file 2 3"), range);
    assert_eq!(p.line("get"), p.line("cat"));
}

#[test]
fn a_stream_is_handled_however_it_is_cut() {
    let mut all: Vec<u8> = Vec::new();
    for line in ["ping", "pwd", "", "cd sys", "pwd"] {
        all.extend(frame(line.as_bytes()));
    }
    let rest = &frame(b"ping")[..6];
    all.extend(rest);
    for size in 1..all.len() {
        let mut p = Phone::connected();
        for piece in all.chunks(size) {
            p.bytes(piece);
        }
        p.drain();
        let want: Vec<&[u8]> = vec![b"+pong", b"+Z:\\", b"+Z:\\sys\\", b"+Z:\\sys\\"];
        assert_eq!(p.sent, want, "{}", size);
        assert_eq!(p.published[&pubsub::KEY_CMDS], 5);
        // What was left over is the start of the next frame.
        p.bytes(&frame(b"ping")[6..]);
        p.drain();
        assert_eq!(p.sent.len(), 5);
    }
}

#[test]
fn a_frame_that_claims_too_much_is_seen_before_its_client_is_dropped() {
    let mut p = Phone::connected();
    assert_eq!(p.shell.oversize(), None);
    let mut rx = [0u8; RX_CAP];
    rx[..4].copy_from_slice(&(MAX_FRAME as u32 + 1).to_be_bytes());
    p.shell.route(&Event::Received { status: 0, len: 4, rx });
    assert_eq!(p.shell.oversize(), Some(MAX_FRAME + 1));
    p.pump();
    assert_eq!(p.shell.oversize(), None);
    let mut p = Phone::connected();
    p.bytes(&(MAX_FRAME as u32).to_be_bytes());
    assert_eq!(p.shell.oversize(), None);
}

#[test]
fn quit_waits_for_its_reply_to_leave() {
    let mut p = Phone::connected();
    p.bytes(&frame(b"quit"));
    assert_eq!(p.sent, vec![b"+bye".to_vec()]);
    assert!(!p.shell.should_exit());
    p.event(Event::Sent { status: 0 });
    assert!(p.shell.should_exit());
}

#[test]
fn keys_that_leave_are_consumed() {
    let mut p = Phone::connected();
    assert_eq!(p.shell.handle_key(Key::Left) == Handled::Ignored, true);
    assert_eq!(p.shell.handle_key(Key::Other) == Handled::Ignored, true);
    assert!(!p.shell.should_exit());
    assert_eq!(p.shell.handle_key(Key::Right) == Handled::Consumed, true);
    assert!(p.shell.should_exit());
    let mut p = Phone::connected();
    assert_eq!(p.shell.handle_key(Key::End) == Handled::Consumed, true);
    assert!(p.shell.should_exit());
}

#[test]
fn the_last_eight_lines_are_kept_for_the_screen() {
    let mut p = Phone::connected();
    for i in 0..10 {
        p.text(&format!("  ping {} ", i));
    }
    let shown = rows(&p.shell);
    assert_eq!(shown.len(), 9);
    assert_eq!(shown[0], "client: connected");
    assert_eq!(shown[1], "ping 2");
    assert_eq!(shown[8], "ping 9");
}

#[test]
fn lines_that_do_not_fit_are_not_drawn() {
    let p = Phone::connected();
    let area = adbian::screen::Area { top: 20, bottom: 44 };
    let s = p.shell.draw(area, 12);
    assert_eq!(s.title, "RFCOMM shell  ch 13");
    assert_eq!(s.left, None);
    assert_eq!(s.right, Some(String::from("Exit")));
    assert_eq!(s.rows.len(), 2);
    assert_eq!((s.rows[0].top, s.rows[0].bottom), (20, 32));
    assert_eq!((s.rows[1].top, s.rows[1].bottom), (32, 44));
    // What the shell is doing is shown in any case.
    let tight = adbian::screen::Area { top: 20, bottom: 21 };
    assert_eq!(p.shell.draw(tight, 12).rows.len(), 1);
    assert_eq!(Phone::new().shell.draw(area, 12).title, "RFCOMM shell");
}

#[test]
fn the_published_state_is_the_state_of_the_shell() {
    let mut p = Phone::new();
    assert!(p.published.is_empty());
    p.listener = Err(String::from("InUse"));
    p.event(Event::Timer);
    assert_eq!(p.published[&pubsub::KEY_STATE], pubsub::STATE_DOWN);
    p.event(Event::Timer);
    assert_eq!(p.published[&pubsub::KEY_STATE], pubsub::STATE_DOWN);
    p.listener = Ok(4);
    p.event(Event::Timer);
    assert_eq!(p.published[&pubsub::KEY_STATE], pubsub::STATE_LISTENING);
    assert_eq!(p.published[&pubsub::KEY_CHANNEL], 4);
    p.event(Event::Accepted { handle: 3, status: -1 });
    assert_eq!(p.published[&pubsub::KEY_STATE], pubsub::STATE_LISTENING);
    p.event(Event::Accepted { handle: 3, status: 0 });
    assert_eq!(p.published[&pubsub::KEY_STATE], pubsub::STATE_CONNECTED);
    p.event(Event::Closed);
    assert_eq!(p.published[&pubsub::KEY_STATE], pubsub::STATE_LISTENING);
    assert_eq!(p.published[&pubsub::KEY_CLIENTS], 1);
}

#[test]
fn lines_are_read_as_utf8() {
    let mut p = Phone::connected();
    assert_eq!(p.text("cd é€😀"), "+Z:\\é€😀\\");
    assert_eq!(p.text("cd .."), "+Z:\\");
}

#[test]
fn replies_to_lines_in_one_read_are_not_mixed() {
    let mut p = Phone::connected();
    p.files.insert(String::from("Z:\\f"), vec![1; 4_097]);
    p.files.insert(String::from("Z:\\g"), vec![2; 4_097]);
    let mut all = frame(b"cat f");
    all.extend(frame(b"cat g"));
    p.bytes(&all);
    p.drain();
    let tags: Vec<(u8, u8)> = p.sent.iter().map(|f| (f[0], f[1])).collect();
    assert_eq!(
        tags,
        vec![(b'.', 1), (b'.', 1), (b'+', b'4'), (b'.', 2), (b'.', 2), (b'+', b'4')]
    );
}
