//! Commands under way: what each is waiting for, and what it does with the answer.
//!
//! Every command asks the platform for all it needs before it sends anything back. So a command
//! is a chain of questions that ends in one reply.

use vstd::prelude::*;

use crate::listing;
use crate::listing::{decode_listing, split_listing};
use crate::number;
use crate::number::{
    push_count, push_dec, push_dec_padded, push_hex, push_hex_i32, push_hex_padded, push_int,
    to_bits,
};
use crate::path;
use crate::platform::{Answer, FileStat, Listing, PlatformQuery, Query, QueryModel, RangeRead};
use crate::reply;
use crate::reply::{
    chunks_of, say_done, say_err, say_error, say_failed, say_ok, text_as_data, Reply, ReplyModel,
};
use crate::scan::{FindModel, FindScan, GrepModel, GrepScan, SCAN_BUDGET_US};
use crate::text::chars_of;

verus! {

/// The biggest file that `cat` or `put` will move in one go.
pub const MAX_FILE: usize = 1024 * 1024;

/// The HAL attribute that holds the machine UID.
pub const MACHINE_UID: i32 = 5;

/// A command under way. The parameters are the types of text, of raw bytes and of the two
/// searches: the ones that hold values in a command that runs, their models in its model.
pub enum Job<S, B, F, G> {
    /// `ls` waits for the entries.
    List { dir: S },
    /// `cat` waits to hear whether the path will do.
    CatCheck { path: S, range: Option<(u64, usize)> },
    /// `cat` waits for a range of the file.
    CatRange { off: u64 },
    /// `cat` waits for the whole file.
    CatWhole,
    /// `stat` waits for the facts.
    Stat { path: S },
    /// A write waits to hear whether the path will do.
    WriteCheck { path: S, data: B },
    /// A write waits to hear how it went.
    Write { path: S, len: usize },
    /// `exec` waits to hear whether the path will do.
    ExecCheck { path: S },
    /// `exec` waits to hear how the start went.
    Exec { path: S },
    /// `rm` waits to hear how it went.
    Remove { path: S },
    /// `mkdir` waits to hear how it went.
    MakeDir { dir: S },
    /// `ps` waits for the value.
    Property { category: u32, key: u32 },
    /// `cenrep` waits for the value as an integer.
    RepositoryInt { repo: u32, key: u32 },
    /// `cenrep` waits for the value as a string, the integer having failed.
    RepositoryText { repo: u32, key: u32, int_error: S },
    /// `hal` waits for the machine UID.
    MachineUid,
    /// `hal` waits for an attribute.
    Hal { attribute: u32 },
    /// `find` waits for the time, to set its deadline.
    FindStart { root: S, substring: S },
    /// `find` waits for the time, before it looks into a directory.
    FindDue { walk: F, dir: S },
    /// `find` waits for a directory's entries.
    FindList { walk: F, dir: S },
    /// `grep` waits for the time, to set its deadline.
    GrepStart { root: S, needle: B },
    /// `grep` waits for the directory's entries.
    GrepList { root: S, needle: B, deadline: u64 },
    /// `grep` waits for the time, before it takes the next entry.
    GrepDue { scan: G },
    /// `grep` waits to hear whether a path will do.
    GrepPath { scan: G, full: S },
    /// `grep` waits for a file.
    GrepRead { scan: G, full: S },
}

/// A command that runs.
pub type PendingJob = Job<String, Vec<u8>, FindScan, GrepScan>;

/// The model of a command under way.
pub type JobModel = Job<Seq<char>, Seq<u8>, FindModel, GrepModel>;

impl View for Job<String, Vec<u8>, FindScan, GrepScan> {
    type V = JobModel;

    open spec fn view(&self) -> JobModel {
        match *self {
            Job::List { dir } => Job::List { dir: dir@ },
            Job::CatCheck { path, range } => Job::CatCheck { path: path@, range },
            Job::CatRange { off } => Job::CatRange { off },
            Job::CatWhole => Job::CatWhole,
            Job::Stat { path } => Job::Stat { path: path@ },
            Job::WriteCheck { path, data } => Job::WriteCheck { path: path@, data: data@ },
            Job::Write { path, len } => Job::Write { path: path@, len },
            Job::ExecCheck { path } => Job::ExecCheck { path: path@ },
            Job::Exec { path } => Job::Exec { path: path@ },
            Job::Remove { path } => Job::Remove { path: path@ },
            Job::MakeDir { dir } => Job::MakeDir { dir: dir@ },
            Job::Property { category, key } => Job::Property { category, key },
            Job::RepositoryInt { repo, key } => Job::RepositoryInt { repo, key },
            Job::RepositoryText { repo, key, int_error } => Job::RepositoryText {
                repo,
                key,
                int_error: int_error@,
            },
            Job::MachineUid => Job::MachineUid,
            Job::Hal { attribute } => Job::Hal { attribute },
            Job::FindStart { root, substring } => Job::FindStart {
                root: root@,
                substring: substring@,
            },
            Job::FindDue { walk, dir } => Job::FindDue { walk: walk@, dir: dir@ },
            Job::FindList { walk, dir } => Job::FindList { walk: walk@, dir: dir@ },
            Job::GrepStart { root, needle } => Job::GrepStart { root: root@, needle: needle@ },
            Job::GrepList { root, needle, deadline } => Job::GrepList {
                root: root@,
                needle: needle@,
                deadline,
            },
            Job::GrepDue { scan } => Job::GrepDue { scan: scan@ },
            Job::GrepPath { scan, full } => Job::GrepPath { scan: scan@, full: full@ },
            Job::GrepRead { scan, full } => Job::GrepRead { scan: scan@, full: full@ },
        }
    }
}

impl Job<Seq<char>, Seq<u8>, FindModel, GrepModel> {
    /// A search through files has counted no more files than it has taken.
    pub open spec fn wf(self) -> bool {
        match self {
            Job::GrepDue { scan } => scan.wf() && scan.next < scan.names.len(),
            Job::GrepPath { scan, .. } => scan.wf() && scan.files + scan.skipped < scan.next,
            Job::GrepRead { scan, .. } => scan.wf() && scan.files + scan.skipped < scan.next,
            _ => true,
        }
    }

    /// The answer is of the kind that the command waits for.
    pub open spec fn awaits(self, answer: Answer) -> bool {
        match self {
            Job::List { .. } | Job::FindList { .. } | Job::GrepList { .. } => answer is Listing,
            Job::CatCheck { .. }
            | Job::WriteCheck { .. }
            | Job::ExecCheck { .. }
            | Job::GrepPath { .. } => answer is Path,
            Job::CatRange { .. } => answer is Range,
            Job::CatWhole | Job::GrepRead { .. } => answer is Contents,
            Job::Stat { .. } => answer is Facts,
            Job::Write { .. } | Job::Exec { .. } | Job::Remove { .. } | Job::MakeDir { .. } =>
                answer is Done,
            Job::Property { .. }
            | Job::RepositoryInt { .. }
            | Job::MachineUid
            | Job::Hal { .. } => answer is Int,
            Job::RepositoryText { .. } => answer is Text,
            Job::FindStart { .. }
            | Job::FindDue { .. }
            | Job::GrepStart { .. }
            | Job::GrepDue { .. } => answer is Time,
        }
    }
}

/// How a command goes on: with a question, or with the reply that ends it.
pub enum Progress<Q, J, R> {
    Ask(Q, J),
    Finish(R),
}

/// How a command that runs goes on.
pub type CommandStep = Progress<PlatformQuery, PendingJob, Reply>;

/// The model of how a command goes on.
pub type StepModel = Progress<QueryModel, JobModel, ReplyModel>;

impl View for Progress<PlatformQuery, PendingJob, Reply> {
    type V = StepModel;

    open spec fn view(&self) -> StepModel {
        match *self {
            Progress::Ask(query, job) => Progress::Ask(query@, job@),
            Progress::Finish(reply) => Progress::Finish(reply@),
        }
    }
}

impl Progress<QueryModel, JobModel, ReplyModel> {
    /// A question is asked only by a well-formed command, and of the kind it waits for.
    pub open spec fn wf(self) -> bool {
        match self {
            Progress::Ask(query, job) => job.wf() && asks_for(query, job),
            Progress::Finish(_) => true,
        }
    }
}

/// The question is one whose answer the command waits for.
pub open spec fn asks_for(query: QueryModel, job: JobModel) -> bool {
    forall|answer: Answer| #[trigger] job.awaits(answer) <==> answers(query, answer)
}

/// The answer is of the kind that the question calls for.
pub open spec fn answers(query: QueryModel, answer: Answer) -> bool {
    match query {
        Query::CheckPath(_) => answer is Path,
        Query::List(_) => answer is Listing,
        Query::Read(_) => answer is Contents,
        Query::ReadRange { .. } => answer is Range,
        Query::Write { .. } | Query::Spawn(_) | Query::Delete(_) | Query::MakeDir(_) =>
            answer is Done,
        Query::Stat(_) => answer is Facts,
        Query::Property { .. } | Query::RepositoryInt { .. } | Query::Hal(_) => answer is Int,
        Query::RepositoryText { .. } => answer is Text,
        Query::Clock => answer is Time,
    }
}

// ---------------------------------------------------------------------------------------------
// The texts of the replies.

/// What `ls` says of a directory with so many entries.
pub open spec fn listed_text(count: usize, dir: Seq<char>) -> Seq<char> {
    number::dec(count as nat) + " entries in "@ + dir
}

/// What `ls` says.
fn listed(count: usize, dir: &str) -> (r: String)
    ensures
        r@ == listed_text(count, dir@),
{
    let mut s = String::new();
    push_count(&mut s, count);
    s.append(" entries in ");
    s.append(dir);
    assert(s@ =~= listed_text(count, dir@));
    s
}

/// What `cat` says of a range: how many bytes, from where, in a file of what size.
pub open spec fn range_text(len: nat, off: u64, total: u64) -> Seq<char> {
    number::dec(len) + " bytes at "@ + number::dec(off as nat) + " (file is "@ + number::dec(
        total as nat,
    ) + ")"@
}

/// What `cat` says of a range.
fn range_read(len: usize, off: u64, total: u64) -> (r: String)
    ensures
        r@ == range_text(len as nat, off, total),
{
    let mut s = String::new();
    push_count(&mut s, len);
    s.append(" bytes at ");
    push_dec(&mut s, off);
    s.append(" (file is ");
    push_dec(&mut s, total);
    s.append(")");
    assert(s@ =~= range_text(len as nat, off, total));
    s
}

/// What `cat` says of a range that is longer than it moves in one go.
pub open spec fn range_too_large_text(len: usize) -> Seq<char> {
    number::dec(len as nat) + " bytes is too large for one range"@
}

/// What `cat` says of a file that is bigger than it moves in one go.
pub open spec fn file_too_large_text(len: nat) -> Seq<char> {
    "file is "@ + number::dec(len)
        + " bytes; too large for cat - use: cat <path> <off> <len>"@
}

/// What `cat` says of a file that is too big.
fn file_too_large(len: usize) -> (r: String)
    ensures
        r@ == file_too_large_text(len as nat),
{
    let mut s = "file is ".to_owned();
    push_count(&mut s, len);
    s.append(" bytes; too large for cat - use: cat <path> <off> <len>");
    s
}

/// A count, then a fixed text.
pub fn counted(len: usize, what: &str) -> (r: String)
    ensures
        r@ == number::dec(len as nat) + what@,
{
    let mut s = String::new();
    push_count(&mut s, len);
    s.append(what);
    assert(s@ =~= number::dec(len as nat) + what@);
    s
}

/// What a write that succeeded says.
pub open spec fn wrote_text(len: usize, path: Seq<char>) -> Seq<char> {
    "wrote "@ + number::dec(len as nat) + " bytes to "@ + path
}

/// What a write that succeeded says.
fn wrote(len: usize, path: &str) -> (r: String)
    ensures
        r@ == wrote_text(len, path@),
{
    let mut s = "wrote ".to_owned();
    push_count(&mut s, len);
    s.append(" bytes to ");
    s.append(path);
    s
}

/// What `stat` says: the path, the size, the time of the last change and the attributes.
pub open spec fn stat_text(path: Seq<char>, s: FileStat) -> Seq<char> {
    path + "  "@ + number::dec(s.size as nat) + " bytes  "@ + number::zero_padded(
        number::dec(s.year as nat),
        4,
    ) + "-"@ + number::zero_padded(number::dec(s.month as nat), 2) + "-"@ + number::zero_padded(
        number::dec(s.day as nat),
        2,
    ) + " "@ + number::zero_padded(number::dec(s.hour as nat), 2) + ":"@ + number::zero_padded(
        number::dec(s.minute as nat),
        2,
    ) + ":"@ + number::zero_padded(number::dec(s.second as nat), 2) + "  att 0x"@ + number::hex(
        s.attributes as nat,
    ) + if s.is_dir {
        "  <dir>"@
    } else {
        ""@
    }
}

/// What `stat` says.
fn stat_line(path: &str, s: &FileStat) -> (r: String)
    ensures
        r@ == stat_text(path@, *s),
{
    let mut line = path.to_owned();
    line.append("  ");
    push_dec(&mut line, s.size);
    line.append(" bytes  ");
    push_dec_padded(&mut line, s.year as u64, 4);
    line.append("-");
    push_dec_padded(&mut line, s.month as u64, 2);
    line.append("-");
    push_dec_padded(&mut line, s.day as u64, 2);
    line.append(" ");
    push_dec_padded(&mut line, s.hour as u64, 2);
    line.append(":");
    push_dec_padded(&mut line, s.minute as u64, 2);
    line.append(":");
    push_dec_padded(&mut line, s.second as u64, 2);
    line.append("  att 0x");
    push_hex(&mut line, s.attributes as u64);
    if s.is_dir {
        line.append("  <dir>");
    } else {
        line.append("");
    }
    line
}

/// A value as `ps`, `cenrep` and `hal` show it: in decimal, and its bits in hexadecimal.
pub open spec fn value_text(v: i32) -> Seq<char> {
    " = "@ + number::dec_int(v as int) + " (0x"@ + number::hex_i32(v) + ")"@
}

/// Appends a value as it is shown.
fn push_value(s: &mut String, v: i32)
    ensures
        final(s)@ == old(s)@ + value_text(v),
{
    let ghost start = s@;
    s.append(" = ");
    push_int(s, v);
    s.append(" (0x");
    push_hex_i32(s, v);
    s.append(")");
    assert(s@ =~= start + value_text(v));
}

/// How `ps` names a value: category and key, each in eight hexadecimal digits.
pub open spec fn property_name(category: u32, key: u32) -> Seq<char> {
    "0x"@ + number::zero_padded(number::hex(category as nat), 8) + "/0x"@ + number::zero_padded(
        number::hex(key as nat),
        8,
    )
}

/// What `ps` says.
fn property_line(category: u32, key: u32, v: i32) -> (r: String)
    ensures
        r@ == property_name(category, key) + value_text(v),
{
    let mut s = "0x".to_owned();
    push_hex_padded(&mut s, category as u64, 8);
    s.append("/0x");
    push_hex_padded(&mut s, key as u64, 8);
    push_value(&mut s, v);
    s
}

/// How `cenrep` names a value: the repository in eight hexadecimal digits, and the key.
pub open spec fn setting_name(repo: u32, key: u32) -> Seq<char> {
    "0x"@ + number::zero_padded(number::hex(repo as nat), 8) + "/0x"@ + number::hex(key as nat)
}

/// How `cenrep` names a value.
fn setting(repo: u32, key: u32) -> (r: String)
    ensures
        r@ == setting_name(repo, key),
{
    let mut s = "0x".to_owned();
    push_hex_padded(&mut s, repo as u64, 8);
    s.append("/0x");
    push_hex(&mut s, key as u64);
    s
}

/// What `cenrep` says of a value that is a string.
pub open spec fn setting_text(repo: u32, key: u32, value: Seq<char>) -> Seq<char> {
    setting_name(repo, key) + " = \""@ + value + "\""@
}

/// What `cenrep` says where neither reading worked.
pub open spec fn setting_failed_text(
    int_error: Seq<char>,
    text_error: Seq<char>,
) -> Seq<char> {
    "cenrep int "@ + int_error + ", string "@ + text_error
}

/// What `hal` says of the machine UID.
pub open spec fn machine_text(v: i32) -> Seq<char> {
    "machine uid = 0x"@ + number::zero_padded(number::hex_i32(v), 8) + " ("@ + number::dec_int(
        v as int,
    ) + ")"@
}

/// What `hal` says of the machine UID.
fn machine_line(v: i32) -> (r: String)
    ensures
        r@ == machine_text(v),
{
    let mut s = "machine uid = 0x".to_owned();
    push_hex_padded(&mut s, to_bits(v) as u64, 8);
    s.append(" (");
    push_int(&mut s, v);
    s.append(")");
    s
}

/// How `hal` names an attribute.
pub open spec fn attribute_name(attribute: u32) -> Seq<char> {
    "hal["@ + number::dec(attribute as nat) + "]"@
}

/// How `hal` names an attribute.
fn attribute_head(attribute: u32) -> (r: String)
    ensures
        r@ == attribute_name(attribute),
{
    let mut s = "hal[".to_owned();
    push_dec(&mut s, attribute as u64);
    s.append("]");
    s
}

// ---------------------------------------------------------------------------------------------
// How a command goes on when an answer comes.

/// The names in a listing; none where there is no listing.
pub open spec fn names_in(listing: Result<Listing, String>) -> Seq<Seq<char>> {
    match listing {
        Ok(l) => listing::names(l.units@, l.count as nat),
        Err(_) => seq![],
    }
}

/// `find` goes on with the next directory, or ends where there is none.
pub open spec fn find_continued(walk: FindModel) -> StepModel {
    if walk.queue.len() > 0 {
        Progress::Ask(
            Query::Clock,
            Job::FindDue {
                walk: FindModel { queue: walk.queue.skip(1), ..walk },
                dir: walk.queue[0],
            },
        )
    } else {
        Progress::Finish(find_reply(walk, None))
    }
}

/// The reply that ends a `find`.
pub open spec fn find_reply(walk: FindModel, reached: Option<Seq<char>>) -> ReplyModel {
    ReplyModel { data: reply::as_data(walk.out), ok: true, text: walk.summary(reached) }
}

/// `grep` goes on with the next entry, or ends where there is none.
pub open spec fn grep_continued(scan: GrepModel) -> StepModel {
    if scan.next < scan.names.len() {
        Progress::Ask(Query::Clock, Job::GrepDue { scan })
    } else {
        Progress::Finish(grep_reply(scan, false))
    }
}

/// The reply that ends a `grep`.
pub open spec fn grep_reply(scan: GrepModel, ran_out: bool) -> ReplyModel {
    ReplyModel { data: reply::as_data(scan.out), ok: true, text: scan.summary(ran_out) }
}

/// How a file, once read whole, is answered.
pub open spec fn whole_file_reply(contents: Result<Option<Vec<u8>>, String>) -> ReplyModel {
    match contents {
        Ok(Some(bytes)) => if bytes@.len() > MAX_FILE {
            reply::failure(file_too_large_text(bytes@.len()))
        } else {
            ReplyModel {
                data: reply::chunked(bytes@, reply::DATA_CHUNK as int),
                ok: true,
                text: number::dec(bytes@.len()) + " bytes"@,
            }
        },
        Ok(None) => reply::failure("not found"@),
        Err(e) => reply::failure("read failed "@ + e@),
    }
}

/// How a range of a file, once read, is answered.
pub open spec fn range_reply(off: u64, range: RangeRead) -> ReplyModel {
    match range {
        RangeRead::OpenFailed(e) => reply::failure("open failed "@ + e@),
        RangeRead::SeekFailed(e) => reply::failure("seek failed "@ + e@),
        RangeRead::ReadFailed(e) => reply::failure("read failed "@ + e@),
        RangeRead::Bytes { bytes, total } => ReplyModel {
            data: reply::chunked(bytes@, reply::DATA_CHUNK as int),
            ok: true,
            text: range_text(
                bytes@.len(),
                off,
                match total {
                    Some(n) => n,
                    None => 0,
                },
            ),
        },
    }
}

/// How an operation that succeeds or fails is answered.
pub open spec fn outcome_reply(
    result: Result<(), String>,
    done: Seq<char>,
    failed: Seq<char>,
) -> ReplyModel {
    match result {
        Ok(()) => reply::success(done),
        Err(e) => reply::failure(failed + e@),
    }
}

/// How a directory's entries are answered.
pub open spec fn listing_reply(dir: Seq<char>, listing: Result<Listing, String>) -> ReplyModel {
    match listing {
        Ok(l) => ReplyModel {
            data: reply::as_data(listing::lines(listing::names(l.units@, l.count as nat))),
            ok: true,
            text: listed_text(l.count, dir),
        },
        Err(e) => reply::failure("ls failed "@ + e@),
    }
}

/// How a command goes on when the answer it waits for has come.
pub open spec fn continued(job: JobModel, answer: Answer) -> StepModel {
    match job {
        Job::List { dir } => Progress::Finish(listing_reply(dir, answer->Listing_0)),
        Job::CatCheck { path, range } => if !answer->Path_0 {
            Progress::Finish(reply::failure("bad path"@))
        } else {
            match range {
                Some((off, len)) => if len > MAX_FILE {
                    Progress::Finish(reply::failure(range_too_large_text(len)))
                } else {
                    Progress::Ask(Query::ReadRange { path, off, len }, Job::CatRange { off })
                },
                None => Progress::Ask(Query::Read(path), Job::CatWhole),
            }
        },
        Job::CatRange { off } => Progress::Finish(range_reply(off, answer->Range_0)),
        Job::CatWhole => Progress::Finish(whole_file_reply(answer->Contents_0)),
        Job::Stat { path } => Progress::Finish(
            match answer->Facts_0 {
                Ok(s) => reply::success(stat_text(path, s)),
                Err(e) => reply::failure("stat failed "@ + e@),
            },
        ),
        Job::WriteCheck { path, data } => if answer->Path_0 {
            Progress::Ask(
                Query::Write { path, data },
                Job::Write { path, len: data.len() as usize },
            )
        } else {
            Progress::Finish(reply::failure("bad path"@))
        },
        Job::Write { path, len } => Progress::Finish(
            outcome_reply(answer->Done_0, wrote_text(len, path), "write failed "@),
        ),
        Job::ExecCheck { path } => if answer->Path_0 {
            Progress::Ask(Query::Spawn(path), Job::Exec { path })
        } else {
            Progress::Finish(reply::failure("bad path"@))
        },
        Job::Exec { path } => Progress::Finish(
            outcome_reply(answer->Done_0, "spawned "@ + path, "spawn failed "@),
        ),
        Job::Remove { path } => Progress::Finish(
            outcome_reply(answer->Done_0, "removed "@ + path, "rm failed "@),
        ),
        Job::MakeDir { dir } => Progress::Finish(
            outcome_reply(answer->Done_0, "created "@ + dir, "mkdir failed "@),
        ),
        Job::Property { category, key } => Progress::Finish(
            match answer->Int_0 {
                Ok(v) => reply::success(property_name(category, key) + value_text(v)),
                Err(e) => reply::failure("ps failed "@ + e@),
            },
        ),
        Job::RepositoryInt { repo, key } => match answer->Int_0 {
            Ok(v) => Progress::Finish(reply::success(setting_name(repo, key) + value_text(v))),
            Err(e) => Progress::Ask(
                Query::RepositoryText { repo, key },
                Job::RepositoryText { repo, key, int_error: e@ },
            ),
        },
        Job::RepositoryText { repo, key, int_error } => Progress::Finish(
            match answer->Text_0 {
                Ok(s) => reply::success(setting_text(repo, key, s@)),
                Err(e) => reply::failure(setting_failed_text(int_error, e@)),
            },
        ),
        Job::MachineUid => Progress::Finish(
            match answer->Int_0 {
                Ok(v) => reply::success(machine_text(v)),
                Err(e) => reply::failure("hal failed "@ + e@),
            },
        ),
        Job::Hal { attribute } => Progress::Finish(
            match answer->Int_0 {
                Ok(v) => reply::success(attribute_name(attribute) + value_text(v)),
                Err(e) => reply::failure(attribute_name(attribute) + " failed "@ + e@),
            },
        ),
        Job::FindStart { root, substring } => find_continued(
            FindModel::started(root, substring, answer->Time_0),
        ),
        Job::FindDue { walk, dir } => if answer->Time_0 > walk.deadline {
            Progress::Finish(find_reply(walk, Some(dir)))
        } else {
            Progress::Ask(Query::List(dir), Job::FindList { walk, dir })
        },
        Job::FindList { walk, dir } => find_continued(
            walk.looked_into(dir, names_in(answer->Listing_0)),
        ),
        Job::GrepStart { root, needle } => Progress::Ask(
            Query::List(root),
            Job::GrepList {
                root,
                needle,
                deadline: (answer->Time_0).wrapping_add(SCAN_BUDGET_US),
            },
        ),
        Job::GrepList { root, needle, deadline } => grep_continued(
            GrepModel::started(root, needle, deadline, names_in(answer->Listing_0)),
        ),
        Job::GrepDue { scan } => if answer->Time_0 > scan.deadline {
            Progress::Finish(grep_reply(scan, true))
        } else if path::ends_in_separator(scan.names[scan.next]) {
            grep_continued(scan.advanced())
        } else {
            Progress::Ask(
                Query::CheckPath(scan.root + scan.names[scan.next]),
                Job::GrepPath {
                    scan: scan.advanced(),
                    full: scan.root + scan.names[scan.next],
                },
            )
        },
        Job::GrepPath { scan, full } => if answer->Path_0 {
            Progress::Ask(Query::Read(full), Job::GrepRead { scan, full })
        } else {
            grep_continued(scan.unread())
        },
        Job::GrepRead { scan, full } => grep_continued(
            match answer->Contents_0 {
                Ok(Some(bytes)) => scan.read(full, bytes@),
                _ => scan.unread(),
            },
        ),
    }
}

/// The names in a listing; none where there is no listing.
fn listing_names(listing: Result<Listing, String>) -> (r: Vec<String>)
    ensures
        listing::texts(r@) == names_in(listing),
{
    match listing {
        Ok(l) => split_listing(&l.units, l.count),
        Err(_) => {
            let none: Vec<String> = Vec::new();
            assert(listing::texts(none@) =~= seq![]);
            none
        },
    }
}

/// Goes on with a `find`.
fn continue_find(walk: FindScan) -> (r: CommandStep)
    ensures
        r@ == find_continued(walk@),
        r@.wf(),
{
    let mut walk = walk;
    match walk.next_dir() {
        Some(dir) => Progress::Ask(Query::Clock, Job::FindDue { walk, dir }),
        None => Progress::Finish(walk.report(None)),
    }
}

/// Goes on with a `grep`.
fn continue_grep(scan: GrepScan) -> (r: CommandStep)
    requires
        scan@.wf(),
    ensures
        r@ == grep_continued(scan@),
        r@.wf(),
{
    if scan.next < scan.names.len() {
        Progress::Ask(Query::Clock, Job::GrepDue { scan })
    } else {
        Progress::Finish(scan.report(false))
    }
}

/// Answers a whole file.
fn reply_whole_file(contents: Result<Option<Vec<u8>>, String>) -> (r: Reply)
    ensures
        r@ == whole_file_reply(contents),
{
    match contents {
        Ok(Some(bytes)) => {
            if bytes.len() > MAX_FILE {
                say_err(file_too_large(bytes.len()))
            } else {
                Reply {
                    data: chunks_of(&bytes),
                    ok: true,
                    text: counted(bytes.len(), " bytes"),
                }
            }
        },
        Ok(None) => say_error("not found"),
        Err(e) => say_failed("read failed ", &e),
    }
}

/// Answers a range of a file.
fn reply_range(off: u64, range: RangeRead) -> (r: Reply)
    ensures
        r@ == range_reply(off, range),
{
    match range {
        RangeRead::OpenFailed(e) => say_failed("open failed ", &e),
        RangeRead::SeekFailed(e) => say_failed("seek failed ", &e),
        RangeRead::ReadFailed(e) => say_failed("read failed ", &e),
        RangeRead::Bytes { bytes, total } => {
            let size: u64 = match total {
                Some(n) => n,
                None => 0,
            };
            Reply {
                data: chunks_of(&bytes),
                ok: true,
                text: range_read(bytes.len(), off, size),
            }
        },
    }
}

/// Answers a directory's entries.
fn reply_listing(dir: &str, listing: Result<Listing, String>) -> (r: Reply)
    ensures
        r@ == listing_reply(dir@, listing),
{
    match listing {
        Ok(l) => {
            let text = decode_listing(&l.units, l.count);
            Reply { data: text_as_data(&text), ok: true, text: listed(l.count, dir) }
        },
        Err(e) => say_failed("ls failed ", &e),
    }
}

/// Answers an operation on a path that succeeded or failed.
fn reply_outcome(result: Result<(), String>, done: &str, path: &str, failed: &str) -> (r: Reply)
    ensures
        r@ == outcome_reply(result, done@ + path@, failed@),
{
    match result {
        Ok(()) => say_done(done, path),
        Err(e) => say_failed(failed, &e),
    }
}

/// The reply to a path that the platform cannot take.
fn bad_path() -> (r: CommandStep)
    ensures
        r@ == StepModel::Finish(reply::failure("bad path"@)),
{
    Progress::Finish(say_error("bad path"))
}

/// Whether an answer is of the kind that a command waits for.
pub fn waits_for(job: &PendingJob, answer: &Answer) -> (r: bool)
    ensures
        r == job@.awaits(*answer),
{
    match (job, answer) {
        (
            Job::List { .. } | Job::FindList { .. } | Job::GrepList { .. },
            Answer::Listing(_),
        ) => true,
        (
            Job::CatCheck { .. }
            | Job::WriteCheck { .. }
            | Job::ExecCheck { .. }
            | Job::GrepPath { .. },
            Answer::Path(_),
        ) => true,
        (Job::CatRange { .. }, Answer::Range(_)) => true,
        (Job::CatWhole | Job::GrepRead { .. }, Answer::Contents(_)) => true,
        (Job::Stat { .. }, Answer::Facts(_)) => true,
        (
            Job::Write { .. } | Job::Exec { .. } | Job::Remove { .. } | Job::MakeDir { .. },
            Answer::Done(_),
        ) => true,
        (
            Job::Property { .. } | Job::RepositoryInt { .. } | Job::MachineUid | Job::Hal { .. },
            Answer::Int(_),
        ) => true,
        (Job::RepositoryText { .. }, Answer::Text(_)) => true,
        (
            Job::FindStart { .. }
            | Job::FindDue { .. }
            | Job::GrepStart { .. }
            | Job::GrepDue { .. },
            Answer::Time(_),
        ) => true,
        _ => false,
    }
}

/// Goes on with a command when the answer it waits for has come.
pub fn resume(job: PendingJob, answer: Answer) -> (r: CommandStep)
    requires
        job@.wf(),
        job@.awaits(answer),
    ensures
        r@ == continued(job@, answer),
        r@.wf(),
{
    match (job, answer) {
        (Job::List { dir }, Answer::Listing(listing)) => Progress::Finish(
            reply_listing(&dir, listing),
        ),
        (Job::CatCheck { path, range }, Answer::Path(fine)) => {
            if !fine {
                return bad_path();
            }
            match range {
                Some((off, len)) => {
                    if len > MAX_FILE {
                        return Progress::Finish(
                            say_err(counted(len, " bytes is too large for one range")),
                        );
                    }
                    Progress::Ask(Query::ReadRange { path, off, len }, Job::CatRange { off })
                },
                None => Progress::Ask(Query::Read(path), Job::CatWhole),
            }
        },
        (Job::CatRange { off }, Answer::Range(range)) => Progress::Finish(reply_range(off, range)),
        (Job::CatWhole, Answer::Contents(contents)) => Progress::Finish(
            reply_whole_file(contents),
        ),
        (Job::Stat { path }, Answer::Facts(facts)) => Progress::Finish(
            match facts {
                Ok(s) => say_ok(stat_line(&path, &s)),
                Err(e) => say_failed("stat failed ", &e),
            },
        ),
        (Job::WriteCheck { path, data }, Answer::Path(fine)) => {
            if !fine {
                return bad_path();
            }
            let len: usize = data.len();
            Progress::Ask(Query::Write { path: path.clone(), data }, Job::Write { path, len })
        },
        (Job::Write { path, len }, Answer::Done(result)) => Progress::Finish(
            match result {
                Ok(()) => say_ok(wrote(len, &path)),
                Err(e) => say_failed("write failed ", &e),
            },
        ),
        (Job::ExecCheck { path }, Answer::Path(fine)) => {
            if !fine {
                return bad_path();
            }
            Progress::Ask(Query::Spawn(path.clone()), Job::Exec { path })
        },
        (Job::Exec { path }, Answer::Done(result)) => Progress::Finish(
            reply_outcome(result, "spawned ", &path, "spawn failed "),
        ),
        (Job::Remove { path }, Answer::Done(result)) => Progress::Finish(
            reply_outcome(result, "removed ", &path, "rm failed "),
        ),
        (Job::MakeDir { dir }, Answer::Done(result)) => Progress::Finish(
            reply_outcome(result, "created ", &dir, "mkdir failed "),
        ),
        (Job::Property { category, key }, Answer::Int(value)) => Progress::Finish(
            match value {
                Ok(v) => say_ok(property_line(category, key, v)),
                Err(e) => say_failed("ps failed ", &e),
            },
        ),
        (Job::RepositoryInt { repo, key }, Answer::Int(value)) => match value {
            Ok(v) => {
                let mut line = setting(repo, key);
                push_value(&mut line, v);
                Progress::Finish(say_ok(line))
            },
            Err(e) => Progress::Ask(
                Query::RepositoryText { repo, key },
                Job::RepositoryText { repo, key, int_error: e },
            ),
        },
        (Job::RepositoryText { repo, key, int_error }, Answer::Text(value)) => Progress::Finish(
            match value {
                Ok(s) => {
                    let mut line = setting(repo, key);
                    line.append(" = \"");
                    line.append(&s);
                    line.append("\"");
                    say_ok(line)
                },
                Err(e) => {
                    let mut line = "cenrep int ".to_owned();
                    line.append(&int_error);
                    line.append(", string ");
                    line.append(&e);
                    say_err(line)
                },
            },
        ),
        (Job::MachineUid, Answer::Int(value)) => Progress::Finish(
            match value {
                Ok(v) => say_ok(machine_line(v)),
                Err(e) => say_failed("hal failed ", &e),
            },
        ),
        (Job::Hal { attribute }, Answer::Int(value)) => {
            let mut line = attribute_head(attribute);
            Progress::Finish(
                match value {
                    Ok(v) => {
                        push_value(&mut line, v);
                        say_ok(line)
                    },
                    Err(e) => {
                        line.append(" failed ");
                        line.append(&e);
                        say_err(line)
                    },
                },
            )
        },
        (Job::FindStart { root, substring }, Answer::Time(now)) => continue_find(
            FindScan::start(root, chars_of(&substring), now),
        ),
        (Job::FindDue { walk, dir }, Answer::Time(now)) => {
            if now > walk.deadline {
                return Progress::Finish(walk.report(Some(&dir)));
            }
            Progress::Ask(Query::List(dir.clone()), Job::FindList { walk, dir })
        },
        (Job::FindList { walk, dir }, Answer::Listing(listing)) => {
            let mut walk = walk;
            let names = listing_names(listing);
            walk.look_into(&dir, &names);
            continue_find(walk)
        },
        (Job::GrepStart { root, needle }, Answer::Time(now)) => Progress::Ask(
            Query::List(root.clone()),
            Job::GrepList { root, needle, deadline: now.wrapping_add(SCAN_BUDGET_US) },
        ),
        (Job::GrepList { root, needle, deadline }, Answer::Listing(listing)) => continue_grep(
            GrepScan::start(root, needle, deadline, listing_names(listing)),
        ),
        (Job::GrepDue { scan }, Answer::Time(now)) => {
            let mut scan = scan;
            if now > scan.deadline {
                return Progress::Finish(scan.report(true));
            }
            match scan.take_name() {
                Some(full) => Progress::Ask(
                    Query::CheckPath(full.clone()),
                    Job::GrepPath { scan, full },
                ),
                None => continue_grep(scan),
            }
        },
        (Job::GrepPath { scan, full }, Answer::Path(fine)) => {
            let mut scan = scan;
            if fine {
                return Progress::Ask(Query::Read(full.clone()), Job::GrepRead { scan, full });
            }
            scan.count_unread();
            continue_grep(scan)
        },
        (Job::GrepRead { scan, full }, Answer::Contents(contents)) => {
            let mut scan = scan;
            match contents {
                Ok(Some(bytes)) => scan.count_read(&full, &bytes),
                _ => scan.count_unread(),
            }
            continue_grep(scan)
        },
        _ => vstd::pervasive::unreached(),
    }
}

/// A command that goes on stays in order, and waits for what it asks for.
pub proof fn lemma_continued_wf(job: JobModel, answer: Answer)
    requires
        job.wf(),
        job.awaits(answer),
    ensures
        continued(job, answer).wf(),
{
}

} // verus!
