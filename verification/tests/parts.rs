//! The parts that the commands and the panels are made of.

use adbian::args::{split_range, two_numbers};
use adbian::command::{parse_line, Verb};
use adbian::lines::{keep_last, last_lines, tail_log};
use adbian::listing::{decode_listing, decode_utf16, split_listing};
use adbian::number::{
    from_bits, parse_num, parse_usize, push_count, push_dec, push_dec_padded, push_hex,
    push_hex_i32, push_hex_padded, push_int, to_bits,
};
use adbian::path::{parent_of, resolve_dir, resolve_path};
use adbian::probe::{Findings, RfProbe, StepCodes, OUT_PATH};
use adbian::reply::{chunks_of, text_as_data, DATA_CHUNK};
use adbian::screen::{Area, Handled, Key, Tint};
use adbian::search::{contains_chars, find_bytes, parse_hex};
use adbian::text::{
    chars_of, is_whitespace, lower, string_of, strip_prefix, trim, trim_end, trim_start,
};
use adbian::viewer::{KeyAction, Readings, Viewer, DAEMON, LOG_PATH, REFRESH_MS};
use adbian::wire::{cut_frame, frame, tagged_frame, Cut, MAX_FRAME, TAG_DATA, TAG_ERR, TAG_OK};
use adbian::work::{Event, SERVICE_NAME};

#[test]
fn blanks_are_those_of_unicode() {
    for c in '\0'..=char::MAX {
        assert_eq!(is_whitespace(c), c.is_whitespace(), "{:?}", c);
    }
}

#[test]
fn trimming_takes_blanks_off_both_ends() {
    for s in ["", " ", "a", " a b ", "\t\u{3000}x\u{a0}\n", "  é\u{2028}", "\u{feff}a"] {
        let cs = chars_of(s);
        assert_eq!(string_of(trim(&cs)), s.trim());
        assert_eq!(string_of(trim_start(&cs)), s.trim_start());
        assert_eq!(string_of(trim_end(&cs)), s.trim_end());
    }
}

#[test]
fn only_ascii_letters_are_lowered() {
    assert_eq!(lower("ABC xyz É ß 12_@[`{"), "abc xyz É ß 12_@[`{");
    for c in '\0'..='\u{ff}' {
        assert_eq!(lower(&c.to_string()), c.to_ascii_lowercase().to_string());
    }
}

#[test]
fn a_prefix_is_taken_off_only_where_it_stands() {
    let cs = chars_of("hex:66");
    assert_eq!(strip_prefix(&cs, "hex:").map(string_of), Some(String::from("66")));
    assert_eq!(strip_prefix(&cs, "").map(string_of), Some(String::from("hex:66")));
    assert_eq!(strip_prefix(&cs, "hax:").map(string_of), None);
    assert_eq!(strip_prefix(&cs, "hex:667").map(string_of), None);
}

#[test]
fn numbers_are_written_as_usual() {
    for n in [0u64, 1, 9, 10, 255, 4096, 1_048_576, u32::MAX as u64, u64::MAX] {
        let mut s = String::from("=");
        push_dec(&mut s, n);
        assert_eq!(s, format!("={}", n));
        let mut s = String::new();
        push_hex(&mut s, n);
        assert_eq!(s, format!("{:x}", n));
        for width in [0usize, 2, 4, 8, 25] {
            let mut s = String::new();
            push_dec_padded(&mut s, n, width);
            assert_eq!(s, format!("{:0width$}", n, width = width));
            let mut s = String::new();
            push_hex_padded(&mut s, n, width);
            assert_eq!(s, format!("{:0width$x}", n, width = width));
        }
    }
    let mut s = String::new();
    push_count(&mut s, usize::MAX);
    assert_eq!(s, format!("{}", usize::MAX));
    for i in [0i32, 1, -1, 42, -42, i32::MAX, i32::MIN] {
        let mut s = String::new();
        push_int(&mut s, i);
        assert_eq!(s, format!("{}", i));
        let mut s = String::new();
        push_hex_i32(&mut s, i);
        assert_eq!(s, format!("{:x}", i));
        assert_eq!(to_bits(i), i as u32);
        assert_eq!(from_bits(to_bits(i)), i);
    }
}

#[test]
fn numbers_are_read_as_usual() {
    for s in [
        "", "+", "-", "0", "007", "+5", "-5", "4294967295", "4294967296", "1 2", " 8 ", "12a",
        "99999999999999999999999999", "٣",
    ] {
        assert_eq!(parse_num(s), s.trim().parse::<u32>().ok(), "{:?}", s);
        assert_eq!(parse_usize(&chars_of(s)), s.parse::<usize>().ok(), "{:?}", s);
    }
    for h in ["", "+", "f", "FF", "+f", "-f", "ffffffff", "100000000", "g", " f"] {
        assert_eq!(parse_num(&format!("0x{}", h)), u32::from_str_radix(h, 16).ok(), "{:?}", h);
        assert_eq!(parse_num(&format!("0X{}", h)), u32::from_str_radix(h, 16).ok(), "{:?}", h);
    }
    let max = format!("{}", usize::MAX);
    assert_eq!(parse_usize(&chars_of(&max)), Some(usize::MAX));
    assert_eq!(parse_usize(&chars_of(&format!("{}0", max))), None);
}

#[test]
fn two_numbers_take_the_first_two_words() {
    assert_eq!(two_numbers("1 2"), Some((1, 2)));
    assert_eq!(two_numbers("  0x10\t16  3"), Some((16, 16)));
    assert_eq!(two_numbers("1 x"), None);
    assert_eq!(two_numbers("x 1"), None);
    assert_eq!(two_numbers(""), None);
}

#[test]
fn a_range_needs_a_path_before_it() {
    assert_eq!(split_range("5 6"), ("5 6", None));
    assert_eq!(split_range("a 5 6"), ("a", Some((5, 6))));
    assert_eq!(split_range("  a  b   5\t6  "), ("a  b", Some((5, 6))));
    assert_eq!(split_range("a 5 x"), ("a 5 x", None));
    assert_eq!(split_range("a x 5"), ("a x 5", None));
    assert_eq!(split_range("a 1 2 3"), ("a 1", Some((2, 3))));
    assert_eq!(split_range("é 0x10 0xffffffff"), ("é", Some((16, 0xffff_ffff))));
    assert_eq!(split_range(""), ("", None));
}

#[test]
fn paths_resolve_at_their_edges() {
    assert_eq!(resolve_path("Z:\\sys", "bin"), "Z:\\sys\\bin");
    assert_eq!(resolve_path("Z:\\sys", ""), "Z:\\sys");
    assert_eq!(resolve_path("Z:\\sys", "   "), "Z:\\sys");
    assert_eq!(resolve_path("Z:\\", " C:x "), "C:x");
    // A drive is a colon in the second byte.
    assert_eq!(resolve_path("Z:\\", "é:x"), "Z:\\é:x");
    assert_eq!(resolve_path("Z:\\", ":x"), "Z:\\:x");
    assert_eq!(resolve_dir("Z:\\sys", ""), "Z:\\sys\\");
    assert_eq!(resolve_dir("Z:\\", "C:\\a\\"), "C:\\a\\");
}

#[test]
fn up_undoes_down() {
    let down = resolve_dir("C:\\Data\\", "my files");
    assert_eq!(down, "C:\\Data\\my files\\");
    assert_eq!(parent_of(&down), "C:\\Data\\");
    assert_eq!(parent_of("C:\\a\\\\\\"), "C:\\");
    assert_eq!(parent_of("nothing"), "nothing");
    assert_eq!(parent_of("\\"), "\\");
}

#[test]
fn frames_are_read_back() {
    let mut buf = frame(b"one");
    buf.extend(frame(b""));
    buf.extend(frame(b"three"));
    buf.extend([0, 0, 0]);
    for want in [&b"one"[..], b"", b"three"] {
        match cut_frame(&mut buf) {
            Cut::Whole(payload) => assert_eq!(payload, want),
            _ => panic!("no frame"),
        }
    }
    assert!(matches!(cut_frame(&mut buf), Cut::Partial));
    assert_eq!(buf, vec![0, 0, 0]);
    buf.push(9);
    assert!(matches!(cut_frame(&mut buf), Cut::Partial));
    assert_eq!(buf.len(), 4);
    let mut huge = (MAX_FRAME as u32 + 1).to_be_bytes().to_vec();
    assert!(matches!(cut_frame(&mut huge), Cut::Oversize));
    assert_eq!(huge.len(), 4);
    let mut largest = frame(&vec![1; MAX_FRAME]);
    assert!(matches!(cut_frame(&mut largest), Cut::Whole(p) if p.len() == MAX_FRAME));
}

#[test]
fn a_tag_stands_before_the_data() {
    assert_eq!((TAG_OK, TAG_ERR, TAG_DATA), (b'+', b'-', b'.'));
    assert_eq!(tagged_frame(b'+', b"ok"), vec![0, 0, 0, 3, b'+', b'o', b'k']);
    assert_eq!(tagged_frame(b'.', b""), vec![0, 0, 0, 1, b'.']);
}

#[test]
fn pieces_are_the_whole() {
    for n in [0usize, 1, DATA_CHUNK - 1, DATA_CHUNK, DATA_CHUNK + 1, 3 * DATA_CHUNK] {
        let bytes: Vec<u8> = (0..n).map(|i| (i % 256) as u8).collect();
        let want: Vec<Vec<u8>> = bytes.chunks(DATA_CHUNK).map(|c| c.to_vec()).collect();
        assert_eq!(chunks_of(&bytes), want);
    }
    assert_eq!(text_as_data("é"), vec![vec![0xc3, 0xa9]]);
    assert!(text_as_data("").is_empty());
}

#[test]
fn bytes_are_found_where_they_first_stand() {
    let hay = b"abababc";
    for from in 0..hay.len() {
        for to in from + 1..=hay.len() {
            let needle = &hay[from..to];
            let want = hay.windows(needle.len()).position(|w| w == needle);
            assert_eq!(find_bytes(hay, needle), want);
        }
    }
    assert_eq!(find_bytes(b"ab", b"abc"), None);
    assert_eq!(find_bytes(b"", b"a"), None);
}

#[test]
fn names_hold_their_substrings() {
    for (hay, needle) in [("abc", "bc"), ("abc", ""), ("abc", "abc"), ("abc", "cb"), ("", "a"), ("aab", "ab")] {
        assert_eq!(
            contains_chars(&chars_of(hay), &chars_of(needle)),
            hay.contains(needle),
            "{:?} {:?}",
            hay,
            needle
        );
    }
}

#[test]
fn hex_is_read_in_pairs() {
    assert_eq!(parse_hex(""), Some(vec![]));
    assert_eq!(parse_hex(" \t"), Some(vec![]));
    assert_eq!(parse_hex("AbCd"), Some(vec![0xab, 0xcd]));
    assert_eq!(parse_hex("6 6"), Some(vec![0x66]));
    assert_eq!(parse_hex("0x66"), None);
    let all: Vec<u8> = (0..=255).collect();
    let spelled: String = all.iter().map(|b| format!("{:02x}", b)).collect();
    assert_eq!(parse_hex(&spelled), Some(all));
}

#[test]
fn wide_text_is_decoded_as_the_standard_library_does() {
    let samples: Vec<Vec<u16>> = vec![
        vec![],
        "plain".encode_utf16().collect(),
        "é€😀".encode_utf16().collect(),
        vec![0xd83d],
        vec![0xde00],
        vec![0xd83d, 0x41],
        vec![0xd83d, 0xd83d, 0xde00],
        vec![0xde00, 0xd83d, 0xde00, 0xffff, 0xd7ff, 0xe000],
        vec![0xdbff, 0xdfff, 0xd800, 0xdc00],
    ];
    for units in samples {
        assert_eq!(decode_utf16(&units), String::from_utf16_lossy(&units));
    }
}

#[test]
fn a_listing_stops_at_its_count_or_its_end() {
    let buf: Vec<u16> = "a\0b\0c".encode_utf16().collect();
    assert_eq!(split_listing(&buf, 0), Vec::<String>::new());
    assert_eq!(split_listing(&buf, 2), vec!["a", "b"]);
    assert_eq!(split_listing(&buf, 3), vec!["a", "b", "c"]);
    assert_eq!(split_listing(&buf, 9), vec!["a", "b", "c"]);
    assert_eq!(split_listing(&[0, 0], 9), vec!["", ""]);
    assert_eq!(decode_listing(&buf, 9), "a\nb\nc\n");
    assert_eq!(decode_listing(&[], 3), "");
}

#[test]
fn a_line_is_taken_apart() {
    let c = parse_line("  cat  C:\\my file  1 2 ");
    assert_eq!(c.line, "cat  C:\\my file  1 2");
    assert!(c.verb == Verb::Cat);
    assert_eq!(c.arg, "C:\\my file  1 2");
    let c = parse_line("get x");
    assert!(c.verb == Verb::Cat);
    let c = parse_line("\n");
    assert!(c.verb == Verb::Blank);
    assert_eq!((c.line.as_str(), c.arg.as_str()), ("", ""));
    assert!(parse_line("quit").verb == Verb::Quit);
    assert!(parse_line("quits").verb == Verb::Unknown);
}

#[test]
fn the_last_lines_are_those_with_something_on_them() {
    let text = "one\r\n\r\n  two  \n\t\nthree\n";
    assert_eq!(last_lines(text, 8), vec!["one", "two", "three"]);
    assert_eq!(last_lines(text, 2), vec!["two", "three"]);
    assert_eq!(last_lines(text, 0), Vec::<String>::new());
    assert_eq!(last_lines("", 8), Vec::<String>::new());
    let mut list = vec![String::from("a"), String::from("b"), String::from("c")];
    keep_last(&mut list, 3);
    assert_eq!(list.len(), 3);
    keep_last(&mut list, 1);
    assert_eq!(list, vec!["c"]);
}

#[test]
fn a_log_that_is_not_all_text_is_shown_as_far_as_it_is() {
    assert_eq!(tail_log(Ok(Some(b"a\nb\xffc\n".to_vec())), 8), vec!["a", "b\u{fffd}c"]);
    assert_eq!(tail_log(Ok(Some("é\n".as_bytes().to_vec())), 8), vec!["é"]);
    assert_eq!(tail_log(Ok(None), 8), Vec::<String>::new());
    assert_eq!(tail_log(Err(String::from("AccessDenied")), 8), Vec::<String>::new());
}

fn readings(running: bool, state: Option<i32>) -> Readings {
    Readings {
        running,
        state,
        channel: Some(13),
        cmds: Some(5),
        clients: Some(2),
        log: Ok(Some(b"up\nbusy\n".to_vec())),
    }
}

#[test]
fn the_panel_shows_what_the_daemon_is_doing() {
    let area = Area { top: 10, bottom: 100 };
    let heads = [
        (true, Some(2), "Daemon: client connected (ch 13)"),
        (true, Some(1), "Daemon: listening (ch 13)"),
        (true, Some(0), "Daemon: starting..."),
        (true, None, "Daemon: starting..."),
        (false, Some(2), "Daemon: stopped"),
    ];
    for (running, state, head) in heads {
        let v = Viewer::new(readings(running, state));
        let s = v.draw(area, 11);
        assert_eq!(s.title, "ADBian");
        assert_eq!(s.left.is_some(), !running);
        assert_eq!(s.right, Some(String::from("Exit")));
        let texts: Vec<&str> = s.rows.iter().map(|r| r.text.as_str()).collect();
        assert_eq!(texts, vec![head, "commands: 5   clients: 2", "up", "busy"]);
        let tops: Vec<i32> = s.rows.iter().map(|r| r.top).collect();
        assert_eq!(tops, vec![10, 21, 37, 48]);
        assert!(s.rows.iter().all(|r| r.bottom == r.top + 11));
        assert!(s.rows[0].tint == if running { Tint::Accent } else { Tint::Dim });
        assert!(s.rows[1].tint == Tint::Dim && s.rows[2].tint == Tint::Text);
    }
    assert_eq!((REFRESH_MS, DAEMON), (700, "rshelld.exe"));
    assert_eq!(LOG_PATH, "C:\\Data\\_logs\\rshelld.txt");
    assert_eq!(SERVICE_NAME, "rshell");
}

#[test]
fn the_panel_leaves_out_what_does_not_fit() {
    let v = Viewer::new(readings(true, Some(1)));
    assert!(Area { top: 10, bottom: 20 }.can_hold(11));
    assert!(!Area { top: 10, bottom: 20 }.can_hold(0));
    assert!(!Area { top: i32::MAX, bottom: 20 }.can_hold(1));
    assert!(!Area { top: 10, bottom: i32::MAX }.can_hold(1));
    for (bottom, n) in [(20, 0), (21, 1), (32, 2), (47, 2), (48, 3), (59, 4)] {
        assert_eq!(v.draw(Area { top: 10, bottom }, 11).rows.len(), n, "{}", bottom);
    }
}

#[test]
fn readings_that_fail_leave_nothing_behind() {
    let mut v = Viewer::new(readings(true, Some(2)));
    v.refresh(Readings {
        running: true,
        state: None,
        channel: None,
        cmds: None,
        clients: None,
        log: Ok(None),
    });
    let s = v.draw(Area { top: 0, bottom: 100 }, 10);
    let texts: Vec<&str> = s.rows.iter().map(|r| r.text.as_str()).collect();
    assert_eq!(texts, vec!["Daemon: starting...", "commands: 0   clients: 0"]);
    v.refresh(Readings {
        running: true,
        state: Some(1),
        channel: None,
        cmds: None,
        clients: None,
        log: Err(String::from("NotFound")),
    });
    let s = v.draw(Area { top: 0, bottom: 100 }, 10);
    assert_eq!(s.rows[0].text, "Daemon: listening (ch -1)");
}

#[test]
fn the_panel_starts_the_daemon_only_when_it_is_down() {
    let mut up = Viewer::new(readings(true, Some(1)));
    assert!(up.handle_key(Key::Left) == KeyAction::Ignored);
    let mut down = Viewer::new(readings(false, None));
    assert!(down.handle_key(Key::Left) == KeyAction::StartDaemon);
    assert!(down.handle_key(Key::Other) == KeyAction::Ignored);
    assert!(!down.should_exit());
    assert!(down.handle_key(Key::End) == KeyAction::Consumed);
    assert!(down.should_exit());
    assert!(up.handle_key(Key::Right) == KeyAction::Consumed);
    assert!(up.should_exit());
    assert_eq!(up.title(), "ADBian");
    assert!(Viewer::handle_raw(&Event::Timer) == Handled::Consumed);
    assert!(Viewer::handle_raw(&Event::Closed) == Handled::Ignored);
    assert!(Viewer::handle_raw(&Event::Other) == Handled::Ignored);
}

const CODES: StepCodes = StepCodes { ok: 0, skipped: 1 };

fn findings(channel_err: i32, later: i32) -> Findings {
    Findings {
        serv_err: 0,
        open_err: 0,
        channel_err,
        bind_err: later,
        sdp_open_err: later,
        sdp_reg_err: later,
        listen_err: later,
        channel: 9,
    }
}

#[test]
fn a_probe_that_works_says_so() {
    let p = RfProbe::new(Ok(findings(0, 0)), CODES);
    assert_eq!(
        p.report(),
        "BEGIN btsock\n\
         socket server (Connect): OK\n\
         open RFCOMM socket: OK\n\
         claim server channel: OK\n\
         bind to the channel: OK\n\
         open SDP database: OK\n\
         register SPP record: OK\n\
         listen (LocalServices): OK\n\
         ALL OK - RFCOMM server works (channel 9)\n\
         END btsock\n"
    );
    assert_eq!(OUT_PATH, "C:\\Data\\dump-71-btsock.txt");
}

#[test]
fn a_probe_that_is_blocked_says_where() {
    let p = RfProbe::new(Ok(findings(-46, 1)), CODES);
    assert_eq!(
        p.report(),
        "BEGIN btsock\n\
         socket server (Connect): OK\n\
         open RFCOMM socket: OK\n\
         claim server channel: err -46\n\
         bind to the channel: skipped\n\
         open SDP database: skipped\n\
         register SPP record: skipped\n\
         listen (LocalServices): skipped\n\
         blocked - a step failed (see above)\n\
         END btsock\n"
    );
    let area = Area { top: 20, bottom: 200 };
    assert!(p.can_draw(area, 10));
    assert!(!p.can_draw(area, 0));
    assert!(!p.can_draw(Area { top: i32::MAX - 69, bottom: 200 }, 10));
    assert!(p.can_draw(Area { top: i32::MAX - 70, bottom: 200 }, 10));
    assert!(!p.can_draw(Area { top: 20, bottom: i32::MIN + 11 }, 10));
    let s = p.draw(area, 10);
    assert_eq!(s.title, "RFCOMM probe");
    assert_eq!((s.left, s.right), (None, Some(String::from("Exit"))));
    let texts: Vec<&str> = s.rows.iter().map(|r| r.text.as_str()).collect();
    assert_eq!(
        texts,
        vec![
            "[ok ] socket server (Connect)",
            "[ok ] open RFCOMM socket",
            "[ERR] claim server channel (-46)",
            "[-- ] bind to the channel",
            "[-- ] open SDP database",
            "[-- ] register SPP record",
            "[-- ] listen (LocalServices)",
            "blocked - a step failed (see above)",
        ]
    );
    assert_eq!((s.rows[0].top, s.rows[0].bottom), (20, 30));
    assert_eq!((s.rows[6].top, s.rows[6].bottom), (80, 90));
    assert_eq!((s.rows[7].top, s.rows[7].bottom), (188, 200));
    assert!(s.rows[0].tint == Tint::Accent);
    assert!(s.rows[2].tint == Tint::Unread);
    assert!(s.rows[3].tint == Tint::Dim);
    assert!(s.rows[7].tint == Tint::Text);
}

#[test]
fn a_probe_that_could_not_run_has_no_steps() {
    let mut p = RfProbe::new(Err(String::from("NotSupported")), CODES);
    assert_eq!(p.report(), "BEGIN btsock\nprobe could not run: NotSupported\nEND btsock\n");
    assert_eq!(p.draw(Area { top: 0, bottom: 50 }, 10).rows.len(), 1);
    assert_eq!(p.title(), "RFCOMM probe");
    assert!(p.handle_key(Key::Left) == Handled::Ignored);
    assert!(!p.should_exit());
    assert!(p.handle_key(Key::Right) == Handled::Consumed);
    assert!(p.should_exit());
}
