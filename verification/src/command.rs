//! The commands: how a line is split into verb and argument, and how each command that leaves
//! the shell itself alone begins.

use vstd::prelude::*;
use vstd::slice::slice_subrange;
use vstd::slice::slice_to_vec;

use crate::args;
use crate::args::{split_range, two_numbers};
use crate::job::{CommandStep, Job, Progress, StepModel, MACHINE_UID};
use crate::number;
use crate::number::{from_bits, parse_num};
use crate::path;
use crate::path::{resolve_dir, resolve_path};
use crate::platform::Query;
use crate::reply;
use crate::reply::say_error;
use crate::search;
use crate::search::parse_hex_chars;
use crate::text;
use crate::text::{chars_of, find_char, lower_chars, spells, string_of, strip_prefix, trim};

verus! {

/// The verbs the shell knows, and two more: a line with nothing on it, and any other word.
#[derive(Clone, Copy, PartialEq, Eq, Structural)]
pub enum Verb {
    Blank,
    Pwd,
    Cd,
    Ls,
    Cat,
    Put,
    Rm,
    Mkdir,
    Stat,
    Find,
    Grep,
    Exec,
    Reboot,
    Ps,
    Cenrep,
    Hal,
    Ping,
    Quit,
    Unknown,
}

/// The verb that a word names.
pub open spec fn verb_named(word: Seq<char>) -> Verb {
    if word.len() == 0 {
        Verb::Blank
    } else if word == "pwd"@ {
        Verb::Pwd
    } else if word == "cd"@ {
        Verb::Cd
    } else if word == "ls"@ {
        Verb::Ls
    } else if word == "cat"@ || word == "get"@ {
        Verb::Cat
    } else if word == "put"@ {
        Verb::Put
    } else if word == "rm"@ {
        Verb::Rm
    } else if word == "mkdir"@ {
        Verb::Mkdir
    } else if word == "stat"@ {
        Verb::Stat
    } else if word == "find"@ {
        Verb::Find
    } else if word == "grep"@ {
        Verb::Grep
    } else if word == "exec"@ {
        Verb::Exec
    } else if word == "reboot"@ {
        Verb::Reboot
    } else if word == "ps"@ {
        Verb::Ps
    } else if word == "cenrep"@ {
        Verb::Cenrep
    } else if word == "hal"@ {
        Verb::Hal
    } else if word == "ping"@ {
        Verb::Ping
    } else if word == "quit"@ {
        Verb::Quit
    } else {
        Verb::Unknown
    }
}

/// Finds the verb that a word names.
fn verb_of(word: &[char]) -> (r: Verb)
    ensures
        r == verb_named(word@),
{
    if word.len() == 0 {
        Verb::Blank
    } else if spells(word, "pwd") {
        Verb::Pwd
    } else if spells(word, "cd") {
        Verb::Cd
    } else if spells(word, "ls") {
        Verb::Ls
    } else if spells(word, "cat") || spells(word, "get") {
        Verb::Cat
    } else if spells(word, "put") {
        Verb::Put
    } else if spells(word, "rm") {
        Verb::Rm
    } else if spells(word, "mkdir") {
        Verb::Mkdir
    } else if spells(word, "stat") {
        Verb::Stat
    } else if spells(word, "find") {
        Verb::Find
    } else if spells(word, "grep") {
        Verb::Grep
    } else if spells(word, "exec") {
        Verb::Exec
    } else if spells(word, "reboot") {
        Verb::Reboot
    } else if spells(word, "ps") {
        Verb::Ps
    } else if spells(word, "cenrep") {
        Verb::Cenrep
    } else if spells(word, "hal") {
        Verb::Hal
    } else if spells(word, "ping") {
        Verb::Ping
    } else if spells(word, "quit") {
        Verb::Quit
    } else {
        Verb::Unknown
    }
}

/// What stands before the first space of a text; all of it where there is none.
pub open spec fn before_space(s: Seq<char>) -> Seq<char> {
    match text::first_index(s, ' ') {
        Some(i) => s.take(i),
        None => s,
    }
}

/// What stands behind the first space of a text; nothing where there is none.
pub open spec fn behind_space(s: Seq<char>) -> Seq<char> {
    match text::first_index(s, ' ') {
        Some(i) => s.skip(i + 1),
        None => seq![],
    }
}

/// Takes a text apart at its first space, if it has one.
fn split_at_space(cs: &[char]) -> (r: Option<(&[char], &[char])>)
    ensures
        match r {
            Some((before, behind)) => before@ == before_space(cs@) && behind@ == behind_space(cs@),
            None => before_space(cs@) == cs@ && behind_space(cs@) == Seq::<char>::empty(),
        },
{
    let total: usize = cs.len();
    match find_char(cs, ' ') {
        Some(i) => {
            let before = slice_subrange(cs, 0, i);
            assert(before@ =~= cs@.take(i as int));
            let behind = slice_subrange(cs, i + 1, total);
            assert(behind@ =~= cs@.skip(i + 1));
            Some((before, behind))
        },
        None => None,
    }
}

/// The verb a line starts with.
pub open spec fn line_verb(line: Seq<char>) -> Verb {
    verb_named(before_space(text::trimmed(line)))
}

/// The argument behind the verb of a line.
pub open spec fn line_arg(line: Seq<char>) -> Seq<char> {
    text::trimmed(behind_space(text::trimmed(line)))
}

/// A line, trimmed and taken apart.
pub struct Command {
    /// The whole of it, without the blanks around it.
    pub line: String,
    pub verb: Verb,
    pub arg: String,
}

/// Takes a line apart.
pub fn parse_line(line: &str) -> (r: Command)
    ensures
        r.line@ == text::trimmed(line@),
        r.verb == line_verb(line@),
        r.arg@ == line_arg(line@),
{
    let cs = chars_of(line);
    let t = trim(&cs);
    match split_at_space(t) {
        Some((word, rest)) => Command {
            line: string_of(t),
            verb: verb_of(word),
            arg: string_of(trim(rest)),
        },
        None => {
            let arg = String::new();
            assert(arg@ =~= text::trimmed(seq![]));
            Command { line: string_of(t), verb: verb_of(t), arg }
        },
    }
}

/// A command that sends an error back at once.
pub open spec fn refused(text: Seq<char>) -> StepModel {
    Progress::Finish(reply::failure(text))
}

/// Sends an error back at once.
fn refuse(text: &str) -> (r: CommandStep)
    ensures
        r@ == refused(text@),
        r@.wf(),
{
    Progress::Finish(say_error(text))
}

/// An argument with nothing in it but blanks.
pub open spec fn blank(arg: Seq<char>) -> bool {
    text::trimmed(arg).len() == 0
}

/// Whether an argument has nothing in it but blanks.
fn is_blank(arg: &str) -> (r: bool)
    ensures
        r == blank(arg@),
{
    let cs = chars_of(arg);
    trim(&cs).len() == 0
}

/// How `ls [path]` begins: with the entries of the directory, by default the working directory.
pub open spec fn ls_begun(cwd: Seq<char>, arg: Seq<char>) -> StepModel {
    let dir = if blank(arg) {
        cwd
    } else {
        path::resolved_dir(cwd, arg)
    };
    Progress::Ask(Query::List(dir), Job::List { dir })
}

/// Begins `ls [path]`.
pub fn cmd_ls(cwd: &str, arg: &str) -> (r: CommandStep)
    ensures
        r@ == ls_begun(cwd@, arg@),
        r@.wf(),
{
    let dir = if is_blank(arg) {
        cwd.to_owned()
    } else {
        resolve_dir(cwd, arg)
    };
    Progress::Ask(Query::List(dir.clone()), Job::List { dir })
}

/// The range that `cat` was given, as machine integers.
pub open spec fn range_asked(range: Option<(int, int)>) -> Option<(u64, usize)> {
    match range {
        Some((off, len)) => Some((off as u64, len as usize)),
        None => None,
    }
}

/// How `cat <path> [off len]` begins: by asking whether the path will do.
pub open spec fn cat_begun(cwd: Seq<char>, arg: Seq<char>) -> StepModel {
    let path = path::resolved(cwd, args::ranged(arg).path);
    Progress::Ask(
        Query::CheckPath(path),
        Job::CatCheck { path, range: range_asked(args::ranged(arg).range) },
    )
}

/// Begins `cat <path>` for a whole file, or `cat <path> <off> <len>` for a range.
pub fn cmd_cat(cwd: &str, arg: &str) -> (r: CommandStep)
    ensures
        r@ == cat_begun(cwd@, arg@),
        r@.wf(),
{
    let (path_part, range) = split_range(arg);
    let path = resolve_path(cwd, path_part);
    Progress::Ask(Query::CheckPath(path.clone()), Job::CatCheck { path, range })
}

/// How `stat <path>` begins.
pub open spec fn stat_begun(cwd: Seq<char>, arg: Seq<char>) -> StepModel {
    if blank(arg) {
        refused("usage: stat <path>"@)
    } else {
        let path = path::resolved(cwd, arg);
        Progress::Ask(Query::Stat(path), Job::Stat { path })
    }
}

/// Begins `stat <path>`.
pub fn cmd_stat(cwd: &str, arg: &str) -> (r: CommandStep)
    ensures
        r@ == stat_begun(cwd@, arg@),
        r@.wf(),
{
    if is_blank(arg) {
        return refuse("usage: stat <path>");
    }
    let path = resolve_path(cwd, arg);
    Progress::Ask(Query::Stat(path.clone()), Job::Stat { path })
}

/// How `find <dir> <substring>` begins: with the time, to set its deadline.
pub open spec fn find_begun(cwd: Seq<char>, arg: Seq<char>) -> StepModel {
    let needle = text::trimmed(behind_space(arg));
    if needle.len() == 0 {
        refused("usage: find <dir> <substring>"@)
    } else {
        Progress::Ask(
            Query::Clock,
            Job::FindStart {
                root: path::resolved_dir(cwd, before_space(arg)),
                substring: text::lowered(needle),
            },
        )
    }
}

/// Begins `find <dir> <substring>`, a search for names in a directory and all below it.
pub fn cmd_find(cwd: &str, arg: &str) -> (r: CommandStep)
    ensures
        r@ == find_begun(cwd@, arg@),
        r@.wf(),
{
    let cs = chars_of(arg);
    let (dir, rest) = match split_at_space(&cs) {
        Some(parts) => parts,
        None => {
            assert(text::trimmed(behind_space(arg@)) =~= seq![]);
            return refuse("usage: find <dir> <substring>");
        },
    };
    let needle = trim(rest);
    if needle.len() == 0 {
        return refuse("usage: find <dir> <substring>");
    }
    let root = resolve_dir(cwd, &string_of(dir));
    let substring = string_of(&lower_chars(needle));
    Progress::Ask(Query::Clock, Job::FindStart { root, substring })
}

/// What `grep` looks for: the bytes behind `hex:`, or the text itself. Nothing where the pattern
/// behind `hex:` does not spell bytes.
pub open spec fn pattern_bytes(pattern: Seq<char>) -> Option<Seq<u8>> {
    if text::starts_with(pattern, "hex:"@) {
        search::hex_bytes(pattern.skip("hex:"@.len() as int))
    } else {
        Some(vstd::utf8::encode_utf8(pattern))
    }
}

/// How `grep <dir> <text|hex:bytes>` begins: with the time, to set its deadline.
pub open spec fn grep_begun(cwd: Seq<char>, arg: Seq<char>) -> StepModel {
    let pattern = text::trimmed(behind_space(arg));
    if pattern.len() == 0 {
        refused("usage: grep <dir> <text|hex:bytes>"@)
    } else {
        match pattern_bytes(pattern) {
            Some(needle) if needle.len() > 0 => Progress::Ask(
                Query::Clock,
                Job::GrepStart { root: path::resolved_dir(cwd, before_space(arg)), needle },
            ),
            _ => refused("bad hex pattern (use hex:66871f10)"@),
        }
    }
}

/// Begins `grep <dir> <text|hex:bytes>`, a search through the files of one directory.
pub fn cmd_grep(cwd: &str, arg: &str) -> (r: CommandStep)
    ensures
        r@ == grep_begun(cwd@, arg@),
        r@.wf(),
{
    let cs = chars_of(arg);
    let (dir, rest) = match split_at_space(&cs) {
        Some(parts) => parts,
        None => {
            assert(text::trimmed(behind_space(arg@)) =~= seq![]);
            return refuse("usage: grep <dir> <text|hex:bytes>");
        },
    };
    let pattern = trim(rest);
    proof {
        reveal_strlit("hex:");
    }
    let needle: Vec<u8> = match strip_prefix(pattern, "hex:") {
        Some(h) => match parse_hex_chars(h) {
            Some(v) => {
                if v.len() == 0 {
                    return refuse("bad hex pattern (use hex:66871f10)");
                }
                v
            },
            None => return refuse("bad hex pattern (use hex:66871f10)"),
        },
        None => {
            if pattern.len() == 0 {
                return refuse("usage: grep <dir> <text|hex:bytes>");
            }
            let p = string_of(pattern);
            slice_to_vec(p.as_str().as_bytes())
        },
    };
    let root = resolve_dir(cwd, &string_of(dir));
    Progress::Ask(Query::Clock, Job::GrepStart { root, needle })
}

/// How `exec <path>` begins: by asking whether the path will do.
pub open spec fn exec_begun(cwd: Seq<char>, arg: Seq<char>) -> StepModel {
    if blank(arg) {
        refused("usage: exec <path>  (e.g. exec C:\\sys\\bin\\foo.exe)"@)
    } else {
        let path = path::resolved(cwd, arg);
        Progress::Ask(Query::CheckPath(path), Job::ExecCheck { path })
    }
}

/// Begins `exec <path>`.
pub fn cmd_exec(cwd: &str, arg: &str) -> (r: CommandStep)
    ensures
        r@ == exec_begun(cwd@, arg@),
        r@.wf(),
{
    if is_blank(arg) {
        return refuse("usage: exec <path>  (e.g. exec C:\\sys\\bin\\foo.exe)");
    }
    let path = resolve_path(cwd, arg);
    Progress::Ask(Query::CheckPath(path.clone()), Job::ExecCheck { path })
}

/// How `ps <category> <key>` begins.
pub open spec fn ps_begun(arg: Seq<char>) -> StepModel {
    match args::number_pair(arg) {
        Some((category, key)) => Progress::Ask(
            Query::Property { category: category as u32, key: key as u32 },
            Job::Property { category: category as u32, key: key as u32 },
        ),
        None => refused("usage: ps <category> <key>  (hex ok: ps 0x101f75b6 0x10203642)"@),
    }
}

/// Begins `ps <category> <key>`.
pub fn cmd_ps(arg: &str) -> (r: CommandStep)
    ensures
        r@ == ps_begun(arg@),
        r@.wf(),
{
    match two_numbers(arg) {
        Some((category, key)) => Progress::Ask(
            Query::Property { category, key },
            Job::Property { category, key },
        ),
        None => refuse("usage: ps <category> <key>  (hex ok: ps 0x101f75b6 0x10203642)"),
    }
}

/// How `cenrep <repo> <key>` begins: with the value as an integer.
pub open spec fn cenrep_begun(arg: Seq<char>) -> StepModel {
    match args::number_pair(arg) {
        Some((repo, key)) => Progress::Ask(
            Query::RepositoryInt { repo: repo as u32, key: key as u32 },
            Job::RepositoryInt { repo: repo as u32, key: key as u32 },
        ),
        None => refused("usage: cenrep <repo> <key>  (hex ok: cenrep 0x101f8766 0x1)"@),
    }
}

/// Begins `cenrep <repo> <key>`.
pub fn cmd_cenrep(arg: &str) -> (r: CommandStep)
    ensures
        r@ == cenrep_begun(arg@),
        r@.wf(),
{
    match two_numbers(arg) {
        Some((repo, key)) => Progress::Ask(
            Query::RepositoryInt { repo, key },
            Job::RepositoryInt { repo, key },
        ),
        None => refuse("usage: cenrep <repo> <key>  (hex ok: cenrep 0x101f8766 0x1)"),
    }
}

/// How `hal [attr]` begins: with the attribute, by default the machine UID.
pub open spec fn hal_begun(arg: Seq<char>) -> StepModel {
    if blank(arg) {
        Progress::Ask(Query::Hal(MACHINE_UID), Job::MachineUid)
    } else {
        match number::number_named(arg) {
            Some(n) => Progress::Ask(
                Query::Hal(number::signed(n as u32)),
                Job::Hal { attribute: n as u32 },
            ),
            None => refused("usage: hal [attribute-number]   (no argument = machine uid)"@),
        }
    }
}

/// Begins `hal [attr]`.
pub fn cmd_hal(arg: &str) -> (r: CommandStep)
    ensures
        r@ == hal_begun(arg@),
        r@.wf(),
{
    if is_blank(arg) {
        return Progress::Ask(Query::Hal(MACHINE_UID), Job::MachineUid);
    }
    match parse_num(arg) {
        Some(n) => Progress::Ask(Query::Hal(from_bits(n)), Job::Hal { attribute: n }),
        None => refuse("usage: hal [attribute-number]   (no argument = machine uid)"),
    }
}

/// How `rm <path>` begins.
pub open spec fn rm_begun(cwd: Seq<char>, arg: Seq<char>) -> StepModel {
    if blank(arg) {
        refused("usage: rm <path>"@)
    } else {
        let path = path::resolved(cwd, arg);
        Progress::Ask(Query::Delete(path), Job::Remove { path })
    }
}

/// Begins `rm <path>`.
pub fn cmd_rm(cwd: &str, arg: &str) -> (r: CommandStep)
    ensures
        r@ == rm_begun(cwd@, arg@),
        r@.wf(),
{
    if is_blank(arg) {
        return refuse("usage: rm <path>");
    }
    let path = resolve_path(cwd, arg);
    Progress::Ask(Query::Delete(path.clone()), Job::Remove { path })
}

/// How `mkdir <path>` begins. The directory's path is given its trailing separator: without it
/// the platform creates nothing and still reports success.
pub open spec fn mkdir_begun(cwd: Seq<char>, arg: Seq<char>) -> StepModel {
    if blank(arg) {
        refused("usage: mkdir <path>"@)
    } else {
        let dir = path::resolved_dir(cwd, arg);
        Progress::Ask(Query::MakeDir(dir), Job::MakeDir { dir })
    }
}

/// Begins `mkdir <path>`.
pub fn cmd_mkdir(cwd: &str, arg: &str) -> (r: CommandStep)
    ensures
        r@ == mkdir_begun(cwd@, arg@),
        r@.wf(),
{
    if is_blank(arg) {
        return refuse("usage: mkdir <path>");
    }
    let dir = resolve_dir(cwd, arg);
    Progress::Ask(Query::MakeDir(dir.clone()), Job::MakeDir { dir })
}

/// How a write begins: by asking whether the path will do.
pub open spec fn write_begun(path: Seq<char>, data: Seq<u8>) -> StepModel {
    Progress::Ask(Query::CheckPath(path), Job::WriteCheck { path, data })
}

/// Begins to write a file.
pub fn write_file(path: String, data: Vec<u8>) -> (r: CommandStep)
    ensures
        r@ == write_begun(path@, data@),
        r@.wf(),
{
    Progress::Ask(Query::CheckPath(path.clone()), Job::WriteCheck { path, data })
}

} // verus!
