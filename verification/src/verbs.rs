//! What each verb does, from the line that names it to the question it asks and the reply it
//! gives.

use vstd::prelude::*;

use crate::args;
use crate::command;
use crate::command::Verb;
use crate::job;
use crate::job::{Job, JobModel, Progress, StepModel};
use crate::laws;
use crate::listing;
use crate::model;
use crate::model::ShellModel;
use crate::number;
use crate::path;
use crate::platform::{Answer, FileStat, Listing, Query, QueryModel, RangeRead};
use crate::reply;
use crate::reply::ReplyModel;
use crate::scan::{FindModel, GrepModel};
use crate::search;
use crate::text;
use crate::work::WorkModel;

verus! {

/// A step that sends one text back, and no data.
pub open spec fn says(ok: bool, text: Seq<char>) -> StepModel {
    Progress::Finish(ReplyModel { data: seq![], ok, text })
}

// ---------------------------------------------------------------------------------------------
// From lines to commands.

/// What stands before and behind the first space of a text.
pub proof fn law_a_text_is_split_at_its_first_space(before: Seq<char>, behind: Seq<char>)
    requires
        !before.contains(' '),
    ensures
        command::before_space(before + seq![' '] + behind) == before,
        command::behind_space(before + seq![' '] + behind) == behind,
        command::before_space(before) == before,
        command::behind_space(before) == Seq::<char>::empty(),
{
    let all = before + seq![' '] + behind;
    let n = before.len() as int;
    text::lemma_first_index(all, ' ');
    text::lemma_first_index(before, ' ');
    assert(all[n] == ' ');
    match text::first_index(all, ' ') {
        Some(i) => {
            if i < n {
                assert(before[i] == all[i]);
                assert(before.contains(before[i]));
            }
        },
        None => {
            assert(all.contains(all[n]));
        },
    }
    if let Some(i) = text::first_index(before, ' ') {
        assert(before.contains(before[i]));
    }
    assert(all.take(n) =~= before);
    assert(all.skip(n + 1) =~= behind);
}

/// Each word names its own verb, and `get` the same as `cat`.
pub proof fn law_each_word_names_its_verb()
    ensures
        command::verb_named("pwd"@) == Verb::Pwd,
        command::verb_named("cd"@) == Verb::Cd,
        command::verb_named("ls"@) == Verb::Ls,
        command::verb_named("cat"@) == Verb::Cat,
        command::verb_named("get"@) == Verb::Cat,
        command::verb_named("put"@) == Verb::Put,
        command::verb_named("rm"@) == Verb::Rm,
        command::verb_named("mkdir"@) == Verb::Mkdir,
        command::verb_named("stat"@) == Verb::Stat,
        command::verb_named("find"@) == Verb::Find,
        command::verb_named("grep"@) == Verb::Grep,
        command::verb_named("exec"@) == Verb::Exec,
        command::verb_named("reboot"@) == Verb::Reboot,
        command::verb_named("ps"@) == Verb::Ps,
        command::verb_named("cenrep"@) == Verb::Cenrep,
        command::verb_named("hal"@) == Verb::Hal,
        command::verb_named("ping"@) == Verb::Ping,
        command::verb_named("quit"@) == Verb::Quit,
        command::verb_named(seq![]) == Verb::Blank,
{
    reveal_strlit("pwd");
    reveal_strlit("cd");
    reveal_strlit("ls");
    reveal_strlit("cat");
    reveal_strlit("get");
    reveal_strlit("put");
    reveal_strlit("rm");
    reveal_strlit("mkdir");
    reveal_strlit("stat");
    reveal_strlit("find");
    reveal_strlit("grep");
    reveal_strlit("exec");
    reveal_strlit("reboot");
    reveal_strlit("ps");
    reveal_strlit("cenrep");
    reveal_strlit("hal");
    reveal_strlit("ping");
    reveal_strlit("quit");
    assert("pwd"@[0] == 'p' && "pwd"@[1] == 'w');
    assert("cd"@[0] == 'c' && "cd"@[1] == 'd');
    assert("ls"@[0] == 'l');
    assert("cat"@[0] == 'c' && "cat"@[1] == 'a');
    assert("get"@[0] == 'g' && "get"@[1] == 'e');
    assert("put"@[0] == 'p' && "put"@[1] == 'u');
    assert("rm"@[0] == 'r' && "rm"@[1] == 'm');
    assert("mkdir"@[0] == 'm');
    assert("stat"@[0] == 's');
    assert("find"@[0] == 'f');
    assert("grep"@[0] == 'g' && "grep"@[1] == 'r');
    assert("exec"@[0] == 'e');
    assert("reboot"@[0] == 'r' && "reboot"@[1] == 'e');
    assert("ps"@[0] == 'p' && "ps"@[1] == 's');
    assert("cenrep"@[0] == 'c' && "cenrep"@[1] == 'e');
    assert("hal"@[0] == 'h');
    assert("ping"@[0] == 'p' && "ping"@[1] == 'i');
    assert("quit"@[0] == 'q');
}

/// No other word names any of them.
pub proof fn law_no_other_word_names_a_verb(word: Seq<char>)
    requires
        word.len() > 0,
        word != "pwd"@ && word != "cd"@ && word != "ls"@ && word != "cat"@ && word != "get"@,
        word != "put"@ && word != "rm"@ && word != "mkdir"@ && word != "stat"@ && word != "find"@,
        word != "grep"@ && word != "exec"@ && word != "reboot"@ && word != "ps"@,
        word != "cenrep"@ && word != "hal"@ && word != "ping"@ && word != "quit"@,
    ensures
        command::verb_named(word) == Verb::Unknown,
{
}

/// A verb by itself has a blank argument.
pub proof fn law_a_word_alone_is_a_verb_without_an_argument(word: Seq<char>)
    requires
        text::no_whitespace(word),
    ensures
        command::line_verb(word) == command::verb_named(word),
        command::line_arg(word) == Seq::<char>::empty(),
{
    if word.len() > 0 {
        assert(!text::whitespace(word[0]) && !text::whitespace(word[word.len() - 1]));
    }
    text::lemma_trimmed_as_it_stands(word);
    assert(!word.contains(' ')) by {
        if word.contains(' ') {
            let i = choose|i: int| 0 <= i < word.len() && word[i] == ' ';
            assert(text::whitespace(word[i]));
        }
    }
    law_a_text_is_split_at_its_first_space(word, seq![]);
    assert(text::trimmed(seq![]) =~= seq![]);
}

/// A line is noted, and its verb is run under the working directory, with the argument as it
/// stands but for the blanks around it. Nothing else of the shell changes.
pub proof fn law_a_verb_is_run_where_the_shell_is(s: ShellModel, line: Seq<char>)
    requires
        text::trimmed(line).len() > 0,
    ensures
        ({
            let arg = command::line_arg(line);
            let noted = s.noted(text::trimmed(line));
            let step = match command::line_verb(line) {
                Verb::Ls => command::ls_begun(s.cwd, arg),
                Verb::Cat => command::cat_begun(s.cwd, arg),
                Verb::Rm => command::rm_begun(s.cwd, arg),
                Verb::Mkdir => command::mkdir_begun(s.cwd, arg),
                Verb::Stat => command::stat_begun(s.cwd, arg),
                Verb::Find => command::find_begun(s.cwd, arg),
                Verb::Grep => command::grep_begun(s.cwd, arg),
                Verb::Exec => command::exec_begun(s.cwd, arg),
                Verb::Ps => command::ps_begun(arg),
                Verb::Cenrep => command::cenrep_begun(arg),
                Verb::Hal => command::hal_begun(arg),
                Verb::Pwd => says(true, s.cwd),
                Verb::Ping => says(true, "pong"@),
                Verb::Quit => says(true, "bye"@),
                _ => says(true, seq![]),
            };
            let own = command::line_verb(line) == Verb::Cd || command::line_verb(line) == Verb::Put
                || command::line_verb(line) == Verb::Reboot || command::line_verb(line)
                == Verb::Unknown || command::line_verb(line) == Verb::Blank;
            !own ==> s.dispatched(line) == (ShellModel {
                quit_requested: s.quit_requested || command::line_verb(line) == Verb::Quit,
                ..noted
            }).planned(model::step_work(step))
        }),
{
    reveal(ShellModel::dispatched);
}

/// A question is asked as it is; a reply is its data, each piece tagged with a dot, and then its
/// text in UTF-8, tagged with a plus or a minus.
pub proof fn law_a_reply_is_data_and_then_a_text(step: StepModel)
    ensures
        match step {
            Progress::Ask(query, job) => model::step_work(step) == seq![WorkModel::Ask(query, job)],
            Progress::Finish(r) => {
                let list = model::step_work(step);
                &&& list.len() == r.data.len() + 1
                &&& forall|i: int|
                    0 <= i < r.data.len() ==> #[trigger] list[i] == (WorkModel::Enqueue {
                        tag: 46,
                        data: r.data[i],
                    })
                &&& list.last() == (WorkModel::Enqueue {
                    tag: if r.ok {
                        43
                    } else {
                        45
                    },
                    data: vstd::utf8::encode_utf8(r.text),
                })
            },
        },
{
}

// ---------------------------------------------------------------------------------------------
// `ls`.

/// `ls` asks for the directory that its argument names, or for the working directory.
pub proof fn law_ls_asks_for_the_directory_it_names(cwd: Seq<char>, arg: Seq<char>)
    ensures
        ({
            let dir = if text::trimmed(arg).len() == 0 {
                cwd
            } else {
                path::resolved_dir(cwd, arg)
            };
            command::ls_begun(cwd, arg) == StepModel::Ask(Query::List(dir), Job::List { dir })
        }),
{
}

/// `ls` sends every name that the platform listed, in order, one to a line, however many there are,
/// and says how many it was told of and where.
pub proof fn law_ls_sends_every_name(
    dir: Seq<char>,
    list: Seq<Seq<u16>>,
    padding: Seq<u16>,
    l: Listing,
)
    requires
        forall|i: int| 0 <= i < list.len() ==> !(#[trigger] list[i]).contains(0u16),
        l.units@ == listing::packed(list) + padding,
        l.count == list.len(),
    ensures
        ({
            let step = job::continued(Job::List { dir }, Answer::Listing(Ok(l)));
            let names = list.map_values(|u: Seq<u16>| listing::decoded(u));
            &&& step matches Progress::Finish(r)
            &&& reply::joined(r.data) == vstd::utf8::encode_utf8(listing::lines(names))
            &&& r.ok
            &&& r.text == number::dec(list.len()) + " entries in "@ + dir
        }),
{
    listing::law_packed_names_come_back(list, padding);
    reply::law_a_text_goes_out_whole(
        listing::lines(list.map_values(|u: Seq<u16>| listing::decoded(u))),
    );
}

/// `ls` sends what a listing holds, as far as it goes, or says why there is none.
pub proof fn law_ls_sends_what_a_listing_holds(dir: Seq<char>, l: Listing, e: String)
    ensures
        ({
            let step = job::continued(Job::List { dir }, Answer::Listing(Ok(l)));
            let text = listing::lines(listing::names(l.units@, l.count as nat));
            &&& step matches Progress::Finish(r)
            &&& reply::joined(r.data) == vstd::utf8::encode_utf8(text)
            &&& r.data.len() <= 1
            &&& r.ok
            &&& r.text == number::dec(l.count as nat) + " entries in "@ + dir
        }),
        job::continued(Job::List { dir }, Answer::Listing(Err(e))) == says(
            false,
            "ls failed "@ + e@,
        ),
{
    reply::law_a_text_goes_out_whole(
        listing::lines(listing::names(l.units@, l.count as nat)),
    );
}

// ---------------------------------------------------------------------------------------------
// `cat` and `get`.

/// `cat` of a path asks about that path, under the working directory.
pub proof fn law_cat_asks_about_the_path_it_names(cwd: Seq<char>, arg: Seq<char>)
    requires
        args::ranged(arg).range is None,
    ensures
        ({
            let path = path::resolved(cwd, text::trimmed(arg));
            command::cat_begun(cwd, arg) == StepModel::Ask(
                Query::CheckPath(path),
                Job::CatCheck { path, range: None },
            )
        }),
{
}

/// `cat` of a path and a range asks about that path, and keeps the two numbers as they were given.
pub proof fn law_cat_keeps_the_range_it_was_given(
    cwd: Seq<char>,
    file: Seq<char>,
    gap: Seq<char>,
    off: Seq<char>,
    space: Seq<char>,
    len: Seq<char>,
    o: u32,
    l: u32,
)
    requires
        file.len() > 0,
        !text::whitespace(file[0]),
        !text::whitespace(file.last()),
        gap.len() > 0,
        text::all_whitespace(gap),
        off.len() > 0,
        text::no_whitespace(off),
        space.len() > 0,
        text::all_whitespace(space),
        len.len() > 0,
        text::no_whitespace(len),
        number::number_named(off) == Some(o as int),
        number::number_named(len) == Some(l as int),
    ensures
        ({
            let path = path::resolved(cwd, file);
            command::cat_begun(cwd, file + gap + off + space + len) == StepModel::Ask(
                Query::CheckPath(path),
                Job::CatCheck { path, range: Some((o as u64, l as usize)) },
            )
        }),
{
    let none = Seq::<char>::empty();
    args::law_a_range_is_the_last_two_words(none, file, gap, off, space, len, none);
    let whole = file + gap + off + space + len;
    assert(none + whole + none =~= whole);
}

/// A path that the platform cannot take is refused. Otherwise a whole file is asked for where no
/// range was given; and of a range, up to a megabyte, just the bytes from just that offset, in just
/// that length, of just that path, and the offset reported is the one that was asked for.
pub proof fn law_cat_reads_what_it_was_asked_for(
    path: Seq<char>,
    off: u64,
    len: usize,
    bytes: Vec<u8>,
    total: Option<u64>,
)
    ensures
        job::continued(Job::CatCheck { path, range: None }, Answer::Path(true)) == StepModel::Ask(
            Query::Read(path),
            Job::CatWhole,
        ),
        job::continued(Job::CatCheck { path, range: None }, Answer::Path(false)) == says(
            false,
            "bad path"@,
        ),
        job::continued(Job::CatCheck { path, range: Some((off, len)) }, Answer::Path(false))
            == says(false, "bad path"@),
        ({
            let step = job::continued(
                Job::CatCheck { path, range: Some((off, len)) },
                Answer::Path(true),
            );
            if len > 1048576 {
                step == says(
                    false,
                    number::dec(len as nat) + " bytes is too large for one range"@,
                )
            } else {
                &&& step matches Progress::Ask(query, waiting)
                &&& query == (QueryModel::ReadRange { path, off, len })
                &&& job::continued(waiting, Answer::Range(RangeRead::Bytes { bytes, total }))
                    matches Progress::Finish(r)
                &&& reply::joined(r.data) == bytes@
                &&& r.ok
                &&& r.text == number::dec(bytes@.len()) + " bytes at "@ + number::dec(off as nat)
                    + " (file is "@ + number::dec(
                    match total {
                        Some(n) => n as nat,
                        None => 0,
                    },
                ) + ")"@
            }
        }),
{
    reply::law_the_pieces_are_the_whole(bytes@, reply::DATA_CHUNK as int);
}

/// A range that cannot be read is reported by what went wrong.
pub proof fn law_cat_says_what_went_wrong_with_a_range(off: u64, e: String)
    ensures
        job::continued(Job::CatRange { off }, Answer::Range(RangeRead::OpenFailed(e))) == says(
            false,
            "open failed "@ + e@,
        ),
        job::continued(Job::CatRange { off }, Answer::Range(RangeRead::SeekFailed(e))) == says(
            false,
            "seek failed "@ + e@,
        ),
        job::continued(Job::CatRange { off }, Answer::Range(RangeRead::ReadFailed(e))) == says(
            false,
            "read failed "@ + e@,
        ),
{
}

/// A whole file, up to a megabyte, is sent byte for byte, in pieces of four kilobytes, with its size
/// behind it. A larger one, one that is not there, and one that cannot be read, are reported.
pub proof fn law_cat_sends_a_whole_file_or_says_why_not(bytes: Vec<u8>, e: String)
    ensures
        ({
            let step = job::continued(Job::CatWhole, Answer::Contents(Ok(Some(bytes))));
            if bytes@.len() > 1048576 {
                step == says(
                    false,
                    "file is "@ + number::dec(bytes@.len())
                        + " bytes; too large for cat - use: cat <path> <off> <len>"@,
                )
            } else {
                &&& step matches Progress::Finish(r)
                &&& reply::joined(r.data) == bytes@
                &&& forall|i: int|
                    0 <= i < r.data.len() - 1 ==> (#[trigger] r.data[i]).len() == 4096
                &&& r.data.len() > 0 ==> 0 < r.data.last().len() <= 4096
                &&& r.ok
                &&& r.text == number::dec(bytes@.len()) + " bytes"@
            }
        }),
        job::continued(Job::CatWhole, Answer::Contents(Ok(None))) == says(false, "not found"@),
        job::continued(Job::CatWhole, Answer::Contents(Err(e))) == says(
            false,
            "read failed "@ + e@,
        ),
{
    reply::law_the_pieces_are_the_whole(bytes@, 4096);
    reply::law_every_piece_but_the_last_is_full(bytes@, 4096);
    let list = reply::chunked(bytes@, 4096);
    if list.len() > 0 {
        assert(list.last() == list[list.len() - 1]);
    }
}

// ---------------------------------------------------------------------------------------------
// `stat`.

/// `stat` asks for the facts of the path that its argument names, and needs one.
pub proof fn law_stat_asks_about_the_path_it_names(cwd: Seq<char>, arg: Seq<char>)
    ensures
        command::stat_begun(cwd, arg) == if text::trimmed(arg).len() == 0 {
            says(false, "usage: stat <path>"@)
        } else {
            Progress::Ask(
                Query::Stat(path::resolved(cwd, arg)),
                Job::Stat { path: path::resolved(cwd, arg) },
            )
        },
{
}

/// `stat` gives the path, the size, the day and the time, each in its width, and the attributes.
pub proof fn law_stat_gives_every_fact(path: Seq<char>, f: FileStat, e: String)
    ensures
        job::continued(Job::Stat { path }, Answer::Facts(Ok(f))) == says(
            true,
            path + "  "@ + number::dec(f.size as nat) + " bytes  "@ + number::zero_padded(
                number::dec(f.year as nat),
                4,
            ) + "-"@ + number::zero_padded(number::dec(f.month as nat), 2) + "-"@
                + number::zero_padded(number::dec(f.day as nat), 2) + " "@ + number::zero_padded(
                number::dec(f.hour as nat),
                2,
            ) + ":"@ + number::zero_padded(number::dec(f.minute as nat), 2) + ":"@
                + number::zero_padded(number::dec(f.second as nat), 2) + "  att 0x"@ + number::hex(
                f.attributes as nat,
            ) + if f.is_dir {
                "  <dir>"@
            } else {
                ""@
            },
        ),
        job::continued(Job::Stat { path }, Answer::Facts(Err(e))) == says(
            false,
            "stat failed "@ + e@,
        ),
{
}

// ---------------------------------------------------------------------------------------------
// `find` and `grep`.

/// A line `find D S`: the search begins at D, under the working directory, and is for all of S, in
/// small letters. Without an S there is none.
pub proof fn law_find_begins_where_it_is_told(
    cwd: Seq<char>,
    dir: Seq<char>,
    before: Seq<char>,
    substring: Seq<char>,
    after: Seq<char>,
)
    requires
        !dir.contains(' '),
        text::all_whitespace(before),
        text::all_whitespace(after),
        substring.len() > 0 ==> !text::whitespace(substring[0]) && !text::whitespace(
            substring.last(),
        ),
    ensures
        command::find_begun(cwd, dir) == says(false, "usage: find <dir> <substring>"@),
        command::find_begun(cwd, dir + seq![' '] + (before + substring + after))
            == if substring.len() == 0 {
            says(false, "usage: find <dir> <substring>"@)
        } else {
            Progress::Ask(
                Query::Clock,
                Job::FindStart {
                    root: path::resolved_dir(cwd, dir),
                    substring: text::lowered(substring),
                },
            )
        },
{
    let rest = before + substring + after;
    law_a_text_is_split_at_its_first_space(dir, rest);
    text::law_trimming_takes_off_just_the_blanks(before, substring, after);
    assert(text::trimmed(seq![]) =~= seq![]);
}

/// The first directory that `find` looks into is the one it was told of, under the working
/// directory; so from two working directories it looks into two directories.
pub proof fn law_find_looks_first_under_the_working_directory(
    cwd: Seq<char>,
    other: Seq<char>,
    dir: Seq<char>,
    substring: Seq<char>,
    now: u64,
    then: u64,
)
    requires
        cwd.len() > 0,
        cwd.last() == '\\',
        other.len() > 0,
        other.last() == '\\',
        dir.len() > 0,
        text::no_whitespace(dir),
        dir.last() != '\\',
        !(dir.len() >= 2 && dir[1] == ':'),
        substring.len() > 0,
        !text::whitespace(substring[0]),
        !text::whitespace(substring.last()),
        now <= u64::MAX - 2000000,
        then <= now + 2000000,
    ensures
        ({
            let line = dir + seq![' '] + substring;
            let begun = command::find_begun(cwd, line);
            let due = job::continued(begun->Ask_1, Answer::Time(now));
            let asked = job::continued(due->Ask_1, Answer::Time(then));
            &&& begun is Ask
            &&& due is Ask
            &&& asked matches Progress::Ask(query, _)
            &&& query == QueryModel::List(cwd + dir + seq!['\\'])
            &&& cwd != other ==> command::find_begun(other, line) != begun
        }),
{
    let none = Seq::<char>::empty();
    lemma_no_space_in_a_word(dir);
    law_find_begins_where_it_is_told(cwd, dir, none, substring, none);
    law_find_begins_where_it_is_told(other, dir, none, substring, none);
    assert(none + substring + none =~= substring);
    assert(!text::whitespace(dir[0]) && !text::whitespace(dir[dir.len() - 1]));
    path::law_a_relative_path_hangs_off_the_working_directory(cwd, none, dir, none);
    path::law_a_relative_path_hangs_off_the_working_directory(other, none, dir, none);
    assert(none + dir + none =~= dir);
    let root = cwd + dir + seq!['\\'];
    assert((cwd + dir).last() == dir[dir.len() - 1]);
    assert((other + dir).last() == dir[dir.len() - 1]);
    assert((cwd + dir).push('\\') =~= root);
    let there = (other + dir).push('\\');
    if cwd != other {
        assert(root != there) by {
            if root == there {
                assert(cwd.len() == other.len());
                assert forall|i: int| 0 <= i < cwd.len() implies cwd[i] == other[i] by {
                    assert(root[i] == cwd[i] && there[i] == other[i]);
                }
                assert(cwd =~= other);
            }
        }
    }
}

proof fn lemma_no_space_in_a_word(word: Seq<char>)
    requires
        text::no_whitespace(word),
    ensures
        !word.contains(' '),
{
    if word.contains(' ') {
        let i = choose|i: int| 0 <= i < word.len() && word[i] == ' ';
        assert(text::whitespace(word[i]));
    }
}

/// A line `grep D P`: the search is in D, under the working directory, for the bytes of all of P,
/// the spaces in it included; or, where P starts with `hex:`, for the bytes spelled behind that.
pub proof fn law_grep_searches_for_all_of_its_pattern(
    cwd: Seq<char>,
    dir: Seq<char>,
    before: Seq<char>,
    pattern: Seq<char>,
    after: Seq<char>,
)
    requires
        !dir.contains(' '),
        text::all_whitespace(before),
        text::all_whitespace(after),
        pattern.len() > 0 ==> !text::whitespace(pattern[0]) && !text::whitespace(pattern.last()),
    ensures
        command::grep_begun(cwd, dir) == says(false, "usage: grep <dir> <text|hex:bytes>"@),
        ({
            let begun = command::grep_begun(cwd, dir + seq![' '] + (before + pattern + after));
            let spelled = pattern.len() >= 4 && pattern[0] == 'h' && pattern[1] == 'e'
                && pattern[2] == 'x' && pattern[3] == ':';
            let root = path::resolved_dir(cwd, dir);
            if pattern.len() == 0 {
                begun == says(false, "usage: grep <dir> <text|hex:bytes>"@)
            } else if !spelled {
                begun == StepModel::Ask(
                    Query::Clock,
                    Job::GrepStart { root, needle: vstd::utf8::encode_utf8(pattern) },
                )
            } else {
                match search::hex_bytes(pattern.skip(4)) {
                    Some(needle) if needle.len() > 0 => begun == StepModel::Ask(
                        Query::Clock,
                        Job::GrepStart { root, needle },
                    ),
                    _ => begun == says(false, "bad hex pattern (use hex:66871f10)"@),
                }
            }
        }),
{
    let rest = before + pattern + after;
    law_a_text_is_split_at_its_first_space(dir, rest);
    text::law_trimming_takes_off_just_the_blanks(before, pattern, after);
    assert(text::trimmed(seq![]) =~= seq![]);
    reveal_strlit("hex:");
    let h = "hex:"@;
    assert(h.len() == 4 && h[0] == 'h' && h[1] == 'e' && h[2] == 'x' && h[3] == ':');
    if pattern.len() >= 4 {
        let front = pattern.take(4);
        assert(front[0] == pattern[0] && front[1] == pattern[1] && front[2] == pattern[2]
            && front[3] == pattern[3]);
        if pattern[0] == 'h' && pattern[1] == 'e' && pattern[2] == 'x' && pattern[3] == ':' {
            assert(front =~= h);
        }
    }
    if pattern.len() > 0 {
        vstd::utf8::encode_utf8_decode_utf8(pattern);
        if vstd::utf8::encode_utf8(pattern).len() == 0 {
            assert(vstd::utf8::encode_utf8(pattern) =~= seq![]);
            assert(vstd::utf8::decode_utf8(seq![]) =~= seq![]);
        }
    }
}

/// What the searches found goes out whole, with what they counted behind it.
pub proof fn law_a_search_sends_all_it_found(
    walk: FindModel,
    reached: Option<Seq<char>>,
    scan: GrepModel,
    ran_out: bool,
)
    ensures
        ({
            let r = job::find_reply(walk, reached);
            &&& reply::joined(r.data) == vstd::utf8::encode_utf8(walk.out)
            &&& r.ok
            &&& r.text == walk.summary(reached)
        }),
        ({
            let r = job::grep_reply(scan, ran_out);
            &&& reply::joined(r.data) == vstd::utf8::encode_utf8(scan.out)
            &&& r.ok
            &&& r.text == scan.summary(ran_out)
        }),
{
    reply::law_a_text_goes_out_whole(walk.out);
    reply::law_a_text_goes_out_whole(scan.out);
}

/// A search has the names that the platform listed, all of them, or none where it listed none.
pub proof fn law_a_search_has_every_name(l: Listing, e: String)
    ensures
        job::names_in(Ok(l)) == listing::names(l.units@, l.count as nat),
        job::names_in(Err(e)) == Seq::<Seq<char>>::empty(),
{
}

// ---------------------------------------------------------------------------------------------
// `exec`, `rm`, `mkdir` and writes.

/// `exec` asks about the path that its argument names, starts just that, and says so.
pub proof fn law_exec_starts_the_path_it_names(
    cwd: Seq<char>,
    arg: Seq<char>,
    path: Seq<char>,
    e: String,
)
    ensures
        command::exec_begun(cwd, arg) == if text::trimmed(arg).len() == 0 {
            says(false, "usage: exec <path>  (e.g. exec C:\\sys\\bin\\foo.exe)"@)
        } else {
            Progress::Ask(
                Query::CheckPath(path::resolved(cwd, arg)),
                Job::ExecCheck { path: path::resolved(cwd, arg) },
            )
        },
        job::continued(Job::ExecCheck { path }, Answer::Path(true)) == StepModel::Ask(
            Query::Spawn(path),
            Job::Exec { path },
        ),
        job::continued(Job::ExecCheck { path }, Answer::Path(false)) == says(false, "bad path"@),
        job::continued(Job::Exec { path }, Answer::Done(Ok(()))) == says(true, "spawned "@ + path),
        job::continued(Job::Exec { path }, Answer::Done(Err(e))) == says(
            false,
            "spawn failed "@ + e@,
        ),
{
}

/// `rm` deletes the path that its argument names, and says so.
pub proof fn law_rm_deletes_the_path_it_names(
    cwd: Seq<char>,
    arg: Seq<char>,
    path: Seq<char>,
    e: String,
)
    ensures
        command::rm_begun(cwd, arg) == if text::trimmed(arg).len() == 0 {
            says(false, "usage: rm <path>"@)
        } else {
            Progress::Ask(
                Query::Delete(path::resolved(cwd, arg)),
                Job::Remove { path: path::resolved(cwd, arg) },
            )
        },
        job::continued(Job::Remove { path }, Answer::Done(Ok(()))) == says(
            true,
            "removed "@ + path,
        ),
        job::continued(Job::Remove { path }, Answer::Done(Err(e))) == says(
            false,
            "rm failed "@ + e@,
        ),
{
}

/// `mkdir` creates the directory that its argument names, and says so.
pub proof fn law_mkdir_creates_the_directory_it_names(
    cwd: Seq<char>,
    arg: Seq<char>,
    dir: Seq<char>,
    e: String,
)
    ensures
        command::mkdir_begun(cwd, arg) == if text::trimmed(arg).len() == 0 {
            says(false, "usage: mkdir <path>"@)
        } else {
            Progress::Ask(
                Query::MakeDir(path::resolved_dir(cwd, arg)),
                Job::MakeDir { dir: path::resolved_dir(cwd, arg) },
            )
        },
        job::continued(Job::MakeDir { dir }, Answer::Done(Ok(()))) == says(true, "created "@ + dir),
        job::continued(Job::MakeDir { dir }, Answer::Done(Err(e))) == says(
            false,
            "mkdir failed "@ + e@,
        ),
{
}

/// A write that cannot be done is reported.
pub proof fn law_a_write_that_fails_says_so(path: Seq<char>, data: Seq<u8>, len: usize, e: String)
    ensures
        job::continued(Job::WriteCheck { path, data }, Answer::Path(false)) == says(
            false,
            "bad path"@,
        ),
        job::continued(Job::Write { path, len }, Answer::Done(Err(e))) == says(
            false,
            "write failed "@ + e@,
        ),
        job::continued(Job::Write { path, len }, Answer::Done(Ok(()))) == says(
            true,
            "wrote "@ + number::dec(len as nat) + " bytes to "@ + path,
        ),
{
}

// ---------------------------------------------------------------------------------------------
// `ps`, `cenrep` and `hal`.

/// `ps` reads the value of the category and the key it was given, and shows it with both.
pub proof fn law_ps_reads_the_value_it_names(arg: Seq<char>, a: u32, b: u32, v: i32, e: String)
    ensures
        args::number_pair(arg) is None ==> command::ps_begun(arg) == says(
            false,
            "usage: ps <category> <key>  (hex ok: ps 0x101f75b6 0x10203642)"@,
        ),
        args::number_pair(arg) == Some((a as int, b as int)) ==> command::ps_begun(arg)
            == StepModel::Ask(
            Query::Property { category: a, key: b },
            Job::Property { category: a, key: b },
        ),
        job::continued(Job::Property { category: a, key: b }, Answer::Int(Ok(v))) == says(
            true,
            "0x"@ + number::zero_padded(number::hex(a as nat), 8) + "/0x"@ + number::zero_padded(
                number::hex(b as nat),
                8,
            ) + (" = "@ + number::dec_int(v as int) + " (0x"@ + number::hex_i32(v) + ")"@),
        ),
        job::continued(Job::Property { category: a, key: b }, Answer::Int(Err(e))) == says(
            false,
            "ps failed "@ + e@,
        ),
{
}

/// `cenrep` reads the value of the repository and the key it was given, first as an integer and, if
/// that fails, as a text, and shows it with both.
pub proof fn law_cenrep_reads_the_value_it_names(
    arg: Seq<char>,
    a: u32,
    b: u32,
    v: i32,
    s: String,
    e: String,
    int_error: Seq<char>,
)
    ensures
        args::number_pair(arg) is None ==> command::cenrep_begun(arg) == says(
            false,
            "usage: cenrep <repo> <key>  (hex ok: cenrep 0x101f8766 0x1)"@,
        ),
        args::number_pair(arg) == Some((a as int, b as int)) ==> command::cenrep_begun(arg)
            == StepModel::Ask(
            Query::RepositoryInt { repo: a, key: b },
            Job::RepositoryInt { repo: a, key: b },
        ),
        job::continued(Job::RepositoryInt { repo: a, key: b }, Answer::Int(Ok(v))) == says(
            true,
            "0x"@ + number::zero_padded(number::hex(a as nat), 8) + "/0x"@ + number::hex(b as nat)
                + (" = "@ + number::dec_int(v as int) + " (0x"@ + number::hex_i32(v) + ")"@),
        ),
        job::continued(Job::RepositoryInt { repo: a, key: b }, Answer::Int(Err(e)))
            == StepModel::Ask(
            Query::RepositoryText { repo: a, key: b },
            Job::RepositoryText { repo: a, key: b, int_error: e@ },
        ),
        job::continued(Job::RepositoryText { repo: a, key: b, int_error }, Answer::Text(Ok(s)))
            == says(
            true,
            "0x"@ + number::zero_padded(number::hex(a as nat), 8) + "/0x"@ + number::hex(b as nat)
                + " = \""@ + s@ + "\""@,
        ),
        job::continued(Job::RepositoryText { repo: a, key: b, int_error }, Answer::Text(Err(e)))
            == says(false, "cenrep int "@ + int_error + ", string "@ + e@),
{
}

/// `hal` reads the attribute it was given, or the machine UID, and shows it.
pub proof fn law_hal_reads_the_attribute_it_names(arg: Seq<char>, n: u32, v: i32, e: String)
    ensures
        text::trimmed(arg).len() == 0 ==> command::hal_begun(arg) == StepModel::Ask(
            Query::Hal(5),
            Job::MachineUid,
        ),
        text::trimmed(arg).len() > 0 && number::number_named(arg) is None ==> command::hal_begun(
            arg,
        ) == says(false, "usage: hal [attribute-number]   (no argument = machine uid)"@),
        text::trimmed(arg).len() > 0 && number::number_named(arg) == Some(n as int)
            ==> ({
            &&& command::hal_begun(arg) matches Progress::Ask(Query::Hal(i), waiting)
            &&& waiting == (JobModel::Hal { attribute: n })
            &&& i as int == if n < 0x8000_0000 {
                n as int
            } else {
                n - 0x1_0000_0000
            }
        }),
        job::continued(Job::MachineUid, Answer::Int(Ok(v))) == says(
            true,
            "machine uid = 0x"@ + number::zero_padded(number::hex_i32(v), 8) + " ("@
                + number::dec_int(v as int) + ")"@,
        ),
        job::continued(Job::MachineUid, Answer::Int(Err(e))) == says(false, "hal failed "@ + e@),
        job::continued(Job::Hal { attribute: n }, Answer::Int(Ok(v))) == says(
            true,
            "hal["@ + number::dec(n as nat) + "]"@ + (" = "@ + number::dec_int(v as int) + " (0x"@
                + number::hex_i32(v) + ")"@),
        ),
        job::continued(Job::Hal { attribute: n }, Answer::Int(Err(e))) == says(
            false,
            "hal["@ + number::dec(n as nat) + "]"@ + " failed "@ + e@,
        ),
{
}

// ---------------------------------------------------------------------------------------------
// From a line to the question.

proof fn lemma_a_question_is_planned_first(s: ShellModel, word: Seq<char>, arg: Seq<char>)
    requires
        text::no_whitespace(word),
        word == "find"@ || word == "grep"@ || word == "cat"@ || word == "ls"@,
    ensures
        ({
            let step = if word == "find"@ {
                command::find_begun(s.cwd, text::trimmed(arg))
            } else if word == "grep"@ {
                command::grep_begun(s.cwd, text::trimmed(arg))
            } else if word == "cat"@ {
                command::cat_begun(s.cwd, text::trimmed(arg))
            } else {
                command::ls_begun(s.cwd, text::trimmed(arg))
            };
            s.dispatched(word + seq![' '] + arg).agenda == model::step_work(step) + s.agenda
        }),
{
    reveal_strlit("find");
    reveal_strlit("grep");
    reveal_strlit("cat");
    reveal_strlit("ls");
    assert("find"@[0] == 'f');
    assert("grep"@[0] == 'g');
    assert("cat"@[0] == 'c');
    assert("ls"@[0] == 'l');
    law_each_word_names_its_verb();
    laws::law_a_line_is_a_verb_and_an_argument(word, arg);
    law_a_verb_is_run_where_the_shell_is(s, word + seq![' '] + arg);
}

/// A line `find D S`, D a name without a drive: the shell asks for the time, and goes on with the
/// directory D of its working directory, and with all of S in small letters.
pub proof fn law_a_find_line_searches_under_the_working_directory(
    s: ShellModel,
    dir: Seq<char>,
    substring: Seq<char>,
)
    requires
        s.cwd.len() > 0,
        s.cwd.last() == '\\',
        dir.len() > 0,
        text::no_whitespace(dir),
        dir.last() != '\\',
        !(dir.len() >= 2 && dir[1] == ':'),
        substring.len() > 0,
        !text::whitespace(substring[0]),
        !text::whitespace(substring.last()),
    ensures
        s.dispatched("find"@ + seq![' '] + (dir + seq![' '] + substring)).agenda == seq![
            WorkModel::Ask(
                Query::Clock,
                Job::FindStart {
                    root: s.cwd + dir + seq!['\\'],
                    substring: text::lowered(substring),
                },
            ),
        ] + s.agenda,
{
    let none = Seq::<char>::empty();
    let arg = dir + seq![' '] + substring;
    lemma_word("find"@);
    lemma_a_question_is_planned_first(s, "find"@, arg);
    assert(arg[0] == dir[0] && arg[arg.len() - 1] == substring[substring.len() - 1]);
    assert(!text::whitespace(dir[0]) && !text::whitespace(dir[dir.len() - 1]));
    text::lemma_trimmed_as_it_stands(arg);
    lemma_no_space_in_a_word(dir);
    law_find_begins_where_it_is_told(s.cwd, dir, none, substring, none);
    assert(none + substring + none =~= substring);
    path::law_a_relative_path_hangs_off_the_working_directory(s.cwd, none, dir, none);
    assert(none + dir + none =~= dir);
    assert((s.cwd + dir).last() == dir[dir.len() - 1]);
    assert((s.cwd + dir).push('\\') =~= s.cwd + dir + seq!['\\']);
}

proof fn lemma_word(word: Seq<char>)
    requires
        word == "find"@ || word == "grep"@ || word == "cat"@ || word == "ls"@,
    ensures
        text::no_whitespace(word),
{
    reveal_strlit("find");
    reveal_strlit("grep");
    reveal_strlit("cat");
    reveal_strlit("ls");
}

/// A line `grep D P`, P a text: the shell asks for the time, and goes on with the bytes of P, all
/// of them, whatever P is made of.
pub proof fn law_a_grep_line_searches_for_the_whole_text(
    s: ShellModel,
    dir: Seq<char>,
    pattern: Seq<char>,
)
    requires
        dir.len() > 0,
        text::no_whitespace(dir),
        pattern.len() > 0,
        !text::whitespace(pattern[0]),
        !text::whitespace(pattern.last()),
        !(pattern.len() >= 4 && pattern[0] == 'h' && pattern[1] == 'e' && pattern[2] == 'x'
            && pattern[3] == ':'),
    ensures
        s.dispatched("grep"@ + seq![' '] + (dir + seq![' '] + pattern)).agenda == seq![
            WorkModel::Ask(
                Query::Clock,
                Job::GrepStart {
                    root: path::resolved_dir(s.cwd, dir),
                    needle: vstd::utf8::encode_utf8(pattern),
                },
            ),
        ] + s.agenda,
{
    let none = Seq::<char>::empty();
    let arg = dir + seq![' '] + pattern;
    lemma_word("grep"@);
    lemma_a_question_is_planned_first(s, "grep"@, arg);
    assert(arg[0] == dir[0] && arg[arg.len() - 1] == pattern[pattern.len() - 1]);
    text::lemma_trimmed_as_it_stands(arg);
    lemma_no_space_in_a_word(dir);
    law_grep_searches_for_all_of_its_pattern(s.cwd, dir, none, pattern, none);
    assert(none + pattern + none =~= pattern);
    reveal_strlit("grep");
    reveal_strlit("find");
    assert("grep"@[0] == 'g' && "find"@[0] == 'f');
}

/// A line `cat F O L`: the shell asks about F, and, where the platform takes the path, for L bytes
/// of that file from O on, whatever O is, and for L up to a megabyte; and O is the offset it
/// reports.
pub proof fn law_a_cat_line_reads_the_range_it_gives(
    s: ShellModel,
    file: Seq<char>,
    off: Seq<char>,
    len: Seq<char>,
    o: u32,
    l: u32,
    bytes: Vec<u8>,
    total: Option<u64>,
)
    requires
        file.len() > 0,
        !text::whitespace(file[0]),
        !text::whitespace(file.last()),
        off.len() > 0,
        text::no_whitespace(off),
        len.len() > 0,
        text::no_whitespace(len),
        number::number_named(off) == Some(o as int),
        number::number_named(len) == Some(l as int),
        l <= 1048576,
    ensures
        ({
            let path = path::resolved(s.cwd, file);
            let line = "cat"@ + seq![' '] + (file + seq![' '] + off + seq![' '] + len);
            let agenda = s.dispatched(line).agenda;
            let job = agenda[0]->Ask_1;
            let asked = job::continued(job, Answer::Path(true));
            let answer = Answer::Range(RangeRead::Bytes { bytes, total });
            let told = job::continued(asked->Ask_1, answer);
            &&& agenda == seq![WorkModel::Ask(Query::CheckPath(path), job)] + s.agenda
            &&& asked matches Progress::Ask(query, _)
            &&& query == (QueryModel::ReadRange { path, off: o as u64, len: l as usize })
            &&& told matches Progress::Finish(r)
            &&& reply::joined(r.data) == bytes@
            &&& r.text == number::dec(bytes@.len()) + " bytes at "@ + number::dec(o as nat)
                + " (file is "@ + number::dec(
                match total {
                    Some(n) => n as nat,
                    None => 0,
                },
            ) + ")"@
        }),
{
    let sp = seq![' '];
    let arg = file + sp + off + sp + len;
    lemma_word("cat"@);
    lemma_a_question_is_planned_first(s, "cat"@, arg);
    assert(arg[0] == file[0] && arg[arg.len() - 1] == len[len.len() - 1]);
    assert(!text::whitespace(len[len.len() - 1]));
    text::lemma_trimmed_as_it_stands(arg);
    assert(text::all_whitespace(sp));
    law_cat_keeps_the_range_it_was_given(s.cwd, file, sp, off, sp, len, o, l);
    let path = path::resolved(s.cwd, file);
    law_cat_reads_what_it_was_asked_for(path, o as u64, l as usize, bytes, total);
    reveal_strlit("find");
    reveal_strlit("grep");
    reveal_strlit("cat");
    assert("grep"@[0] == 'g' && "find"@[0] == 'f' && "cat"@[0] == 'c');
}

/// A line `ls D`: the shell asks for the entries of D under its working directory.
pub proof fn law_an_ls_line_asks_for_its_directory(s: ShellModel, dir: Seq<char>)
    requires
        dir.len() > 0,
        !text::whitespace(dir[0]),
        !text::whitespace(dir.last()),
    ensures
        ({
            let there = path::resolved_dir(s.cwd, dir);
            s.dispatched("ls"@ + seq![' '] + dir).agenda == seq![
                WorkModel::Ask(Query::List(there), Job::List { dir: there }),
            ] + s.agenda
        }),
{
    lemma_word("ls"@);
    lemma_a_question_is_planned_first(s, "ls"@, dir);
    text::lemma_trimmed_as_it_stands(dir);
    law_ls_asks_for_the_directory_it_names(s.cwd, dir);
    reveal_strlit("find");
    reveal_strlit("grep");
    reveal_strlit("cat");
    reveal_strlit("ls");
    assert("grep"@[0] == 'g' && "find"@[0] == 'f' && "cat"@[0] == 'c' && "ls"@[0] == 'l');
}

// ---------------------------------------------------------------------------------------------
// Questions and answers.

/// Every question calls for an answer of its own kind, whatever the answer says.
pub proof fn law_every_answer_of_the_kind_will_do(query: QueryModel, job: JobModel, answer: Answer)
    requires
        job::asks_for(query, job),
    ensures
        job.awaits(answer) <==> match query {
            Query::CheckPath(_) => answer is Path,
            Query::List(_) => answer is Listing,
            Query::Read(_) => answer is Contents,
            Query::ReadRange { .. } => answer is Range,
            Query::Stat(_) => answer is Facts,
            Query::RepositoryText { .. } => answer is Text,
            Query::Clock => answer is Time,
            Query::Property { .. } | Query::RepositoryInt { .. } | Query::Hal(_) => answer is Int,
            Query::Write { .. } | Query::Spawn(_) | Query::Delete(_) | Query::MakeDir(_) =>
                answer is Done,
        },
{
}

/// Both searches have two seconds from the time they were told, and then end with what they have
/// when the next directory or file comes up; at any time up to that they go on.
pub proof fn law_a_search_has_two_seconds(
    root: Seq<char>,
    substring: Seq<char>,
    needle: Seq<u8>,
    now: u64,
    walk: FindModel,
    dir: Seq<char>,
    then: u64,
)
    ensures
        ({
            let end = if now + 2000000 <= u64::MAX {
                now + 2000000
            } else {
                now + 2000000 - 0x1_0000_0000_0000_0000
            };
            let find = job::continued(Job::FindStart { root, substring }, Answer::Time(now));
            let grep = job::continued(Job::GrepStart { root, needle }, Answer::Time(now));
            &&& find matches Progress::Ask(Query::Clock, Job::FindDue { walk: begun, dir: first })
            &&& begun.deadline == end
            &&& begun.needle == substring
            &&& first == root
            &&& grep matches Progress::Ask(
                Query::List(entries),
                Job::GrepList { root: r, needle: n, deadline },
            )
            &&& entries == root
            &&& r == root
            &&& n == needle
            &&& deadline == end
        }),
        then <= walk.deadline ==> job::continued(Job::FindDue { walk, dir }, Answer::Time(then))
            == StepModel::Ask(Query::List(dir), Job::FindList { walk, dir }),
        then > walk.deadline ==> job::continued(Job::FindDue { walk, dir }, Answer::Time(then))
            == StepModel::Finish(job::find_reply(walk, Some(dir))),
{
}

/// A write that the platform takes the path of is a write of just that data to just that path.
pub proof fn law_a_write_is_of_the_data_it_was_given(path: Seq<char>, data: Seq<u8>)
    ensures
        command::write_begun(path, data) == StepModel::Ask(
            Query::CheckPath(path),
            Job::WriteCheck { path, data },
        ),
        job::continued(Job::WriteCheck { path, data }, Answer::Path(true)) == StepModel::Ask(
            Query::Write { path, data },
            Job::Write { path, len: data.len() as usize },
        ),
{
}

} // verus!
