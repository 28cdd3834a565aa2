//! What the two searches report when they run to their end.
//!
//! The platform is taken to answer alike throughout a search: each directory has its names, and
//! each path its bytes or none that can be read.

use vstd::prelude::*;

use crate::job;
use crate::job::{Job, StepModel};
use crate::listing;
use crate::number;
use crate::path;
use crate::platform::{Answer, Listing, Query};
use crate::scan;
use crate::scan::{FindModel, GrepModel};
use crate::search;

verus! {

// ---------------------------------------------------------------------------------------------
// `find`.

/// The paths of the matching entries of some directories, in order.
pub open spec fn found_in(
    dirs: Seq<Seq<char>>,
    names: spec_fn(Seq<char>) -> Seq<Seq<char>>,
    needle: Seq<char>,
) -> Seq<Seq<char>>
    decreases dirs.len(),
{
    if dirs.len() == 0 {
        seq![]
    } else {
        found_in(dirs.drop_last(), names, needle) + scan::matching(
            dirs.last(),
            names(dirs.last()),
            needle,
        )
    }
}

/// The paths of the subdirectories of some directories, in order.
pub open spec fn directly_below(
    dirs: Seq<Seq<char>>,
    names: spec_fn(Seq<char>) -> Seq<Seq<char>>,
) -> Seq<Seq<char>>
    decreases dirs.len(),
{
    if dirs.len() == 0 {
        seq![]
    } else {
        directly_below(dirs.drop_last(), names) + scan::subdirectories(
            dirs.last(),
            names(dirs.last()),
        )
    }
}

/// How many entries some directories have.
pub open spec fn entries_in(
    dirs: Seq<Seq<char>>,
    names: spec_fn(Seq<char>) -> Seq<Seq<char>>,
) -> nat
    decreases dirs.len(),
{
    if dirs.len() == 0 {
        0
    } else {
        entries_in(dirs.drop_last(), names) + names(dirs.last()).len()
    }
}

/// The search has looked into just these directories: it reports what matches in them, and their
/// subdirectories are among them or wait their turn.
pub open spec fn tracks(
    walk: FindModel,
    root: Seq<char>,
    dirs: Seq<Seq<char>>,
    names: spec_fn(Seq<char>) -> Seq<Seq<char>>,
) -> bool {
    let found = found_in(dirs, names, walk.needle);
    &&& walk.out == listing::lines(found)
    &&& dirs + walk.queue == seq![root] + directly_below(dirs, names)
    &&& found.len() <= usize::MAX ==> walk.hits == found.len()
    &&& entries_in(dirs, names) <= usize::MAX ==> walk.scanned == entries_in(dirs, names)
}

/// A search starts with nothing looked into, and its root waiting. Its time is up when the budget
/// has passed since then.
pub proof fn law_find_starts_at_its_root(
    root: Seq<char>,
    needle: Seq<char>,
    now: u64,
    names: spec_fn(Seq<char>) -> Seq<Seq<char>>,
)
    ensures
        tracks(FindModel::started(root, needle, now), root, seq![], names),
        job::continued(Job::FindStart { root, substring: needle }, Answer::Time(now))
            == job::find_continued(FindModel::started(root, needle, now)),
        now + scan::SCAN_BUDGET_US <= u64::MAX ==> FindModel::started(root, needle, now).deadline
            == now + scan::SCAN_BUDGET_US,
{
    let walk = FindModel::started(root, needle, now);
    assert(Seq::<Seq<char>>::empty() + walk.queue =~= seq![root] + directly_below(seq![], names));
}

proof fn lemma_lines_together(a: Seq<Seq<char>>, b: Seq<Seq<char>>)
    ensures
        listing::lines(a + b) == listing::lines(a) + listing::lines(b),
    decreases b.len(),
{
    if b.len() == 0 {
        assert(a + b =~= a);
        assert(listing::lines(b) =~= seq![]);
        assert(listing::lines(a) + listing::lines(b) =~= listing::lines(a));
    } else {
        lemma_lines_together(a, b.drop_last());
        assert((a + b).drop_last() =~= a + b.drop_last());
        assert(listing::lines(a + b) =~= listing::lines(a) + listing::lines(b));
    }
}

/// The next directory in the queue, once the platform has named its entries in time, is looked
/// into, and the search keeps track of it.
pub proof fn law_find_looks_into_what_waits(
    walk: FindModel,
    root: Seq<char>,
    dirs: Seq<Seq<char>>,
    names: spec_fn(Seq<char>) -> Seq<Seq<char>>,
    now: u64,
    entries: Result<Listing, String>,
)
    requires
        tracks(walk, root, dirs, names),
        walk.queue.len() > 0,
        now <= walk.deadline,
        job::names_in(entries) == names(walk.queue[0]),
    ensures
        ({
            let dir = walk.queue[0];
            let rest = FindModel { queue: walk.queue.skip(1), ..walk };
            let due = Job::FindDue { walk: rest, dir };
            let list = Job::FindList { walk: rest, dir };
            let after = rest.looked_into(dir, names(dir));
            &&& job::find_continued(walk) == StepModel::Ask(Query::Clock, due)
            &&& job::continued(due, Answer::Time(now)) == StepModel::Ask(Query::List(dir), list)
            &&& job::continued(list, Answer::Listing(entries)) == job::find_continued(after)
            &&& tracks(after, root, dirs.push(dir), names)
        }),
{
    let dir = walk.queue[0];
    let rest = FindModel { queue: walk.queue.skip(1), ..walk };
    let after = rest.looked_into(dir, names(dir));
    let found = found_in(dirs, names, walk.needle);
    let matches_here = scan::matching(dir, names(dir), walk.needle);
    assert(dirs.push(dir).drop_last() =~= dirs);
    lemma_lines_together(found, matches_here);
    let subs = scan::subdirectories(dir, names(dir));
    let below = directly_below(dirs, names);
    assert(walk.queue =~= seq![dir] + rest.queue);
    assert(dirs.push(dir) + after.queue =~= (dirs + walk.queue) + subs);
    assert((seq![root] + below) + subs =~= seq![root] + (below + subs));
}

proof fn lemma_matching(dir: Seq<char>, names: Seq<Seq<char>>, needle: Seq<char>, p: Seq<char>)
    ensures
        scan::matching(dir, names, needle).contains(p) <==> exists|i: int|
            0 <= i < names.len() && scan::name_matches(#[trigger] names[i], needle) && p == dir
                + names[i],
    decreases names.len(),
{
    if names.len() > 0 {
        let front = names.drop_last();
        lemma_matching(dir, front, needle, p);
        let before = scan::matching(dir, front, needle);
        let all = scan::matching(dir, names, needle);
        if exists|i: int|
            0 <= i < names.len() && scan::name_matches(#[trigger] names[i], needle) && p == dir
                + names[i] {
            let i = choose|i: int|
                0 <= i < names.len() && scan::name_matches(#[trigger] names[i], needle) && p == dir
                    + names[i];
            if i < front.len() {
                assert(front[i] == names[i]);
                let k = choose|k: int| 0 <= k < before.len() && before[k] == p;
                assert(all[k] == p);
            } else {
                assert(all.last() == p);
            }
        }
        if all.contains(p) {
            let k = choose|k: int| 0 <= k < all.len() && all[k] == p;
            if k < before.len() {
                assert(before[k] == p);
                let i = choose|i: int|
                    0 <= i < front.len() && scan::name_matches(#[trigger] front[i], needle) && p
                        == dir + front[i];
                assert(names[i] == front[i]);
            } else {
                assert(names[names.len() - 1] == names.last());
            }
        }
    }
}

proof fn lemma_subdirectories(dir: Seq<char>, names: Seq<Seq<char>>, i: int)
    requires
        0 <= i < names.len(),
        path::ends_in_separator(names[i]),
    ensures
        scan::subdirectories(dir, names).contains(dir + names[i]),
    decreases names.len(),
{
    let front = names.drop_last();
    let before = scan::subdirectories(dir, front);
    let all = scan::subdirectories(dir, names);
    if i < front.len() {
        assert(front[i] == names[i]);
        lemma_subdirectories(dir, front, i);
        let k = choose|k: int| 0 <= k < before.len() && before[k] == dir + names[i];
        assert(all[k] == before[k]);
    } else {
        assert(all.last() == dir + names[i]);
    }
}

proof fn lemma_found_in(
    dirs: Seq<Seq<char>>,
    names: spec_fn(Seq<char>) -> Seq<Seq<char>>,
    needle: Seq<char>,
    p: Seq<char>,
)
    ensures
        found_in(dirs, names, needle).contains(p) <==> exists|d: int, i: int|
            is_match(dirs, names, needle, p, d, i),
    decreases dirs.len(),
{
    if dirs.len() > 0 {
        let front = dirs.drop_last();
        let before = found_in(front, names, needle);
        let here = scan::matching(dirs.last(), names(dirs.last()), needle);
        let all = found_in(dirs, names, needle);
        lemma_found_in(front, names, needle, p);
        lemma_matching(dirs.last(), names(dirs.last()), needle, p);
        if exists|d: int, i: int| is_match(dirs, names, needle, p, d, i) {
            let (d, i) = choose|d: int, i: int| is_match(dirs, names, needle, p, d, i);
            if d < front.len() {
                assert(is_match(front, names, needle, p, d, i));
                let k = choose|k: int| 0 <= k < before.len() && before[k] == p;
                assert(all[k] == p);
            } else {
                let k = choose|k: int| 0 <= k < here.len() && here[k] == p;
                assert(all[before.len() + k] == p);
            }
        }
        if all.contains(p) {
            let k = choose|k: int| 0 <= k < all.len() && all[k] == p;
            if k < before.len() {
                assert(before[k] == p);
                let (d, i) = choose|d: int, i: int| is_match(front, names, needle, p, d, i);
                assert(is_match(dirs, names, needle, p, d, i));
            } else {
                assert(here[k - before.len()] == p);
                let i = choose|i: int|
                    0 <= i < names(dirs.last()).len() && scan::name_matches(
                        #[trigger] names(dirs.last())[i],
                        needle,
                    ) && p == dirs.last() + names(dirs.last())[i];
                assert(is_match(dirs, names, needle, p, dirs.len() - 1, i));
            }
        }
    }
}

/// The path is that of an entry whose name matches.
pub open spec fn is_match(
    dirs: Seq<Seq<char>>,
    names: spec_fn(Seq<char>) -> Seq<Seq<char>>,
    needle: Seq<char>,
    p: Seq<char>,
    d: int,
    i: int,
) -> bool {
    &&& 0 <= d < dirs.len()
    &&& 0 <= i < names(dirs[d]).len()
    &&& scan::name_matches(names(dirs[d])[i], needle)
    &&& p == dirs[d] + names(dirs[d])[i]
}

proof fn lemma_directly_below(
    dirs: Seq<Seq<char>>,
    names: spec_fn(Seq<char>) -> Seq<Seq<char>>,
    d: int,
    i: int,
)
    requires
        0 <= d < dirs.len(),
        0 <= i < names(dirs[d]).len(),
        path::ends_in_separator(names(dirs[d])[i]),
    ensures
        directly_below(dirs, names).contains(dirs[d] + names(dirs[d])[i]),
    decreases dirs.len(),
{
    let front = dirs.drop_last();
    let before = directly_below(front, names);
    let here = scan::subdirectories(dirs.last(), names(dirs.last()));
    let all = directly_below(dirs, names);
    let p = dirs[d] + names(dirs[d])[i];
    if d < front.len() {
        assert(front[d] == dirs[d]);
        lemma_directly_below(front, names, d, i);
        let k = choose|k: int| 0 <= k < before.len() && before[k] == p;
        assert(all[k] == p);
    } else {
        lemma_subdirectories(dirs.last(), names(dirs.last()), i);
        let k = choose|k: int| 0 <= k < here.len() && here[k] == p;
        assert(all[before.len() + k] == p);
    }
}

/// A search that runs to its end has looked into its root and into every subdirectory of a
/// directory it looked into, and reports just the entries of those directories whose names match.
pub proof fn law_find_searches_the_whole_tree(
    walk: FindModel,
    root: Seq<char>,
    dirs: Seq<Seq<char>>,
    names: spec_fn(Seq<char>) -> Seq<Seq<char>>,
)
    requires
        tracks(walk, root, dirs, names),
        walk.queue.len() == 0,
    ensures
        job::find_continued(walk) == StepModel::Finish(job::find_reply(walk, None)),
        dirs.contains(root),
        forall|d: int, i: int|
            0 <= d < dirs.len() && 0 <= i < names(dirs[d]).len() && path::ends_in_separator(
                #[trigger] names(dirs[d])[i],
            ) ==> dirs.contains(dirs[d] + names(dirs[d])[i]),
        walk.out == listing::lines(found_in(dirs, names, walk.needle)),
        forall|p: Seq<char>|
            found_in(dirs, names, walk.needle).contains(p) <==> exists|d: int, i: int|
                is_match(dirs, names, walk.needle, p, d, i),
{
    let below = directly_below(dirs, names);
    assert(dirs =~= seq![root] + below) by {
        assert(dirs + walk.queue =~= dirs);
    }
    assert(dirs[0] == root);
    assert forall|d: int, i: int|
        0 <= d < dirs.len() && 0 <= i < names(dirs[d]).len() && path::ends_in_separator(
            #[trigger] names(dirs[d])[i],
        ) implies dirs.contains(dirs[d] + names(dirs[d])[i]) by {
        lemma_directly_below(dirs, names, d, i);
        let p = dirs[d] + names(dirs[d])[i];
        let k = choose|k: int| 0 <= k < below.len() && below[k] == p;
        assert(dirs[k + 1] == p);
    }
    assert forall|p: Seq<char>|
        found_in(dirs, names, walk.needle).contains(p) <==> exists|d: int, i: int|
            is_match(dirs, names, walk.needle, p, d, i) by {
        lemma_found_in(dirs, names, walk.needle, p);
    }
}

/// A search that is out of time when its next directory comes up ends there, and says so and
/// where.
pub proof fn law_find_says_when_it_ran_out(walk: FindModel, dir: Seq<char>, now: u64)
    requires
        now > walk.deadline,
    ensures
        job::continued(Job::FindDue { walk, dir }, Answer::Time(now)) == StepModel::Finish(
            job::find_reply(walk, Some(dir)),
        ),
        walk.summary(Some(dir)) == walk.summary(None) + ", reached "@ + dir
            + " - BUDGET EXPIRED — narrow the path"@,
{
}

// ---------------------------------------------------------------------------------------------
// `grep`.

/// What the platform has under a path: the bytes of a file, or none that can be read.
pub type Files = spec_fn(Seq<char>) -> Option<Seq<u8>>;

/// The line for a file that holds the bytes.
pub open spec fn hit_line(full: Seq<char>, at: int) -> Seq<char> {
    full + "  @"@ + number::dec(at as nat) + "\n"@
}

/// What the files among some entries of a directory come to: how many were read, how many could
/// not be, how many hold the bytes, and the lines for those.
#[verifier::ext_equal]
pub struct Tally {
    pub files: int,
    pub skipped: int,
    pub hits: int,
    pub out: Seq<char>,
}

/// The tally of some entries of a directory. Directories do not count.
pub open spec fn tally(
    root: Seq<char>,
    names: Seq<Seq<char>>,
    files: Files,
    needle: Seq<u8>,
) -> Tally
    decreases names.len(),
{
    if names.len() == 0 {
        Tally { files: 0, skipped: 0, hits: 0, out: seq![] }
    } else {
        let t = tally(root, names.drop_last(), files, needle);
        let full = root + names.last();
        if path::ends_in_separator(names.last()) {
            t
        } else {
            match files(full) {
                None => Tally { skipped: t.skipped + 1, ..t },
                Some(bytes) => match search::first_occurrence(bytes, needle) {
                    Some(at) => Tally {
                        files: t.files + 1,
                        hits: t.hits + 1,
                        out: t.out + hit_line(full, at),
                        ..t
                    },
                    None => Tally { files: t.files + 1, ..t },
                },
            }
        }
    }
}

/// The search has dealt with the entries before `next`, and has their tally.
pub open spec fn tallied(scan: GrepModel, files: Files) -> bool {
    let t = tally(scan.root, scan.names.take(scan.next), files, scan.needle);
    &&& scan.wf()
    &&& scan.files == t.files
    &&& scan.skipped == t.skipped
    &&& scan.hits == t.hits
    &&& scan.out == t.out
}

/// A search first asks for the directory's entries. Its time is up when the budget has passed since
/// it began.
pub proof fn law_grep_asks_for_the_entries(root: Seq<char>, needle: Seq<u8>, now: u64)
    requires
        now + scan::SCAN_BUDGET_US <= u64::MAX,
    ensures
        job::continued(Job::GrepStart { root, needle }, Answer::Time(now)) == StepModel::Ask(
            Query::List(root),
            Job::GrepList { root, needle, deadline: (now + scan::SCAN_BUDGET_US) as u64 },
        ),
{
}

/// A search starts with nothing dealt with.
pub proof fn law_grep_starts_with_nothing(
    root: Seq<char>,
    needle: Seq<u8>,
    deadline: u64,
    entries: Result<Listing, String>,
    files: Files,
)
    ensures
        ({
            let scan = GrepModel::started(root, needle, deadline, job::names_in(entries));
            &&& tallied(scan, files)
            &&& job::continued(
                Job::GrepList { root, needle, deadline },
                Answer::Listing(entries),
            ) == job::grep_continued(scan)
        }),
{
    let scan = GrepModel::started(root, needle, deadline, job::names_in(entries));
    assert(scan.names.take(0) =~= seq![]);
}

/// How the platform answers when a path is read.
pub open spec fn reads(contents: Result<Option<Vec<u8>>, String>, file: Option<Seq<u8>>) -> bool {
    match contents {
        Ok(Some(bytes)) => file == Some(bytes@),
        _ => file is None,
    }
}

/// In time, the next entry is dealt with: a directory is passed over, and a file is read and
/// searched, or counted as unreadable where the platform cannot take its path or cannot read it.
/// The search has the tally of it then.
pub proof fn law_grep_deals_with_the_next_entry(
    scan: GrepModel,
    files: Files,
    now: u64,
    fine: bool,
    contents: Result<Option<Vec<u8>>, String>,
)
    requires
        tallied(scan, files),
        scan.next < scan.names.len(),
        now <= scan.deadline,
        ({
            let full = scan.root + scan.names[scan.next];
            if fine {
                reads(contents, files(full))
            } else {
                files(full) is None
            }
        }),
    ensures
        ({
            let name = scan.names[scan.next];
            let full = scan.root + name;
            let due = Job::GrepDue { scan };
            let check = Job::GrepPath { scan: scan.advanced(), full };
            let read = Job::GrepRead { scan: scan.advanced(), full };
            let after = if path::ends_in_separator(name) {
                scan.advanced()
            } else {
                match files(full) {
                    Some(bytes) => scan.advanced().read(full, bytes),
                    None => scan.advanced().unread(),
                }
            };
            &&& job::grep_continued(scan) == StepModel::Ask(Query::Clock, due)
            &&& path::ends_in_separator(name) ==> job::continued(due, Answer::Time(now))
                == job::grep_continued(after)
            &&& !path::ends_in_separator(name) ==> {
                &&& job::continued(due, Answer::Time(now)) == StepModel::Ask(
                    Query::CheckPath(full),
                    check,
                )
                &&& !fine ==> job::continued(check, Answer::Path(false)) == job::grep_continued(
                    after,
                )
                &&& fine ==> job::continued(check, Answer::Path(true)) == StepModel::Ask(
                    Query::Read(full),
                    read,
                )
                &&& fine ==> job::continued(read, Answer::Contents(contents))
                    == job::grep_continued(after)
            }
            &&& tallied(after, files)
        }),
{
    let name = scan.names[scan.next];
    let full = scan.root + name;
    let before = scan.names.take(scan.next);
    let dealt = scan.names.take(scan.next + 1);
    assert(dealt.drop_last() =~= before);
    assert(dealt.last() == name);
    match files(full) {
        Some(bytes) => match search::first_occurrence(bytes, scan.needle) {
            Some(at) => {
                assert(scan.out + full + "  @"@ + number::dec(at as nat) + "\n"@ =~= scan.out
                    + hit_line(full, at));
            },
            None => {},
        },
        None => {},
    }
}

/// A search that runs to its end reports the tally of all the directory's entries.
pub proof fn law_grep_searches_every_file(scan: GrepModel, files: Files)
    requires
        tallied(scan, files),
        scan.next == scan.names.len(),
    ensures
        job::grep_continued(scan) == StepModel::Finish(job::grep_reply(scan, false)),
        ({
            let t = tally(scan.root, scan.names, files, scan.needle);
            &&& scan.files == t.files
            &&& scan.skipped == t.skipped
            &&& scan.hits == t.hits
            &&& scan.out == t.out
        }),
{
    assert(scan.names.take(scan.names.len() as int) =~= scan.names);
}

/// A search that is out of time when its next entry comes up ends there, and says so.
pub proof fn law_grep_says_when_it_ran_out(scan: GrepModel, now: u64)
    requires
        now > scan.deadline,
    ensures
        job::continued(Job::GrepDue { scan }, Answer::Time(now)) == StepModel::Finish(
            job::grep_reply(scan, true),
        ),
        scan.summary(true) == scan.summary(false) + " - BUDGET EXPIRED"@,
{
}

} // verus!
