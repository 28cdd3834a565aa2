# adbian

A remote shell and file bridge for an old phone, over a Bluetooth serial link, written in Rust and
verified with Verus.

The phone is the RFCOMM server. A paired computer connects and sends command lines; the shell
browses, reads, writes and searches files, starts programs, reads system values, and resets the
phone. One client is served at a time.

## Layout

- `src/` is the verified library. It holds everything that can be computed: the wire format, the
  parsing of lines and arguments, the commands, the two searches, the state machine of the shell,
  and the contents of the on-phone panel and of the probe.
- `app/` is the device side: the radio, the file server, the timers and the screen.
- `tests/` runs the library: whole sessions against a phone made of plain values, and the parts.

## How the shell runs

The shell performs nothing itself. An event is taken in with `Shell::route`. After that
`Shell::step` is called until it says `Rest`: each call takes the outcome of the last action and
hands out the next one. The state machine is stated in `src/model.rs`. What holds of it as a whole
is proved in `src/laws.rs`, `src/intake.rs`, `src/replies.rs`, `src/published.rs` and
`src/ending.rs`; among other things:

- every line with something on it is met with exactly one reply, data frames first;
- however the bytes are cut on their way, the payloads in them are handled once each and in order;
- frames leave in order, and only to the client of the moment;
- a broken link leads back to accepting, with nothing left of the client before;
- a `put` writes exactly the bytes it was promised, and `cat` sends exactly the bytes of the file;
- a reset needs the word `now`, waits for its reply to leave, and goes with the client that asked
  for it;
- the state that is published is the state that the shell is in.

What `find` and `grep` report when they run to their end is stated in `src/completeness.rs`.

## Wire format

Every message is a frame: `[u32 big-endian length][body]`. From the computer a body is a UTF-8
command line, or bytes for a `put` in progress. To the computer it is one tag byte and data: `+`
for success and `-` for an error, each with text, and `.` for raw data. A reply is zero or more `.`
frames and then exactly one `+` or `-`.

Limits: 1 MB for a `cat` or a `put`, 512 KB for an inbound frame, about 2 s for a `find` or a
`grep`.

## What is taken on trust

Four items of the standard library that Verus has no contract for: `String::push` (`src/text.rs`),
`char::from_u32` (`src/listing.rs`), and `core::str::from_utf8` and `String::from_utf8_lossy`
(`src/utf8.rs`).
