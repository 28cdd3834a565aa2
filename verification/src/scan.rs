//! The two searches, `find` and `grep`: what they have gathered so far and how they report it.
//!
//! A search runs inside one turn of the phone's event loop, and a turn that does not end promptly
//! freezes the whole phone. So each search has a deadline, and one that meets it says so instead
//! of passing off what it has as the whole answer.

use std::collections::VecDeque;

use vstd::prelude::*;

use crate::listing;
use crate::number;
use crate::number::push_count;
use crate::path;
use crate::path::is_dir_name;
use crate::reply::{text_as_data, Reply};
use crate::search;
use crate::search::{contains_chars, find_bytes};
use crate::text;
use crate::text::{chars_of, lower_chars, push_chars};

verus! {

/// How long one `find` or `grep` may run, in microseconds.
pub const SCAN_BUDGET_US: u64 = 2_000_000;

/// A name holds the substring, capitals aside. The substring is given in small letters.
pub open spec fn name_matches(name: Seq<char>, needle: Seq<char>) -> bool {
    search::occurs_in(text::lowered(name), needle)
}

/// The paths of those entries of a directory whose names hold the substring, in order.
pub open spec fn matching(
    dir: Seq<char>,
    names: Seq<Seq<char>>,
    needle: Seq<char>,
) -> Seq<Seq<char>>
    decreases names.len(),
{
    if names.len() == 0 {
        seq![]
    } else if name_matches(names.last(), needle) {
        matching(dir, names.drop_last(), needle).push(dir + names.last())
    } else {
        matching(dir, names.drop_last(), needle)
    }
}

/// The paths of those entries of a directory that are directories, in order.
pub open spec fn subdirectories(dir: Seq<char>, names: Seq<Seq<char>>) -> Seq<Seq<char>>
    decreases names.len(),
{
    if names.len() == 0 {
        seq![]
    } else if path::ends_in_separator(names.last()) {
        subdirectories(dir, names.drop_last()).push(dir + names.last())
    } else {
        subdirectories(dir, names.drop_last())
    }
}

/// A search for names, under way.
pub struct FindScan {
    /// The substring, in small letters.
    pub needle: Vec<char>,
    /// When the search has to stop.
    pub deadline: u64,
    /// How many names held the substring.
    pub hits: usize,
    /// How many names were looked at.
    pub scanned: usize,
    /// The paths found, one to a line.
    pub out: String,
    /// The directories still to be looked into, next first.
    pub queue: VecDeque<String>,
}

/// The model of a search for names.
#[verifier::ext_equal]
pub struct FindModel {
    pub needle: Seq<char>,
    pub deadline: u64,
    pub hits: usize,
    pub scanned: usize,
    pub out: Seq<char>,
    pub queue: Seq<Seq<char>>,
}

impl View for FindScan {
    type V = FindModel;

    open spec fn view(&self) -> FindModel {
        FindModel {
            needle: self.needle@,
            deadline: self.deadline,
            hits: self.hits,
            scanned: self.scanned,
            out: self.out@,
            queue: listing::texts(self.queue@),
        }
    }
}

impl FindModel {
    /// A search that has looked at nothing yet.
    pub open spec fn started(root: Seq<char>, needle: Seq<char>, now: u64) -> FindModel {
        FindModel {
            needle,
            deadline: now.wrapping_add(SCAN_BUDGET_US),
            hits: 0,
            scanned: 0,
            out: seq![],
            queue: seq![root],
        }
    }

    /// The search after looking into a directory: every name is counted, the matching ones are
    /// reported, and the subdirectories wait their turn.
    pub open spec fn looked_into(self, dir: Seq<char>, names: Seq<Seq<char>>) -> FindModel {
        FindModel {
            needle: self.needle,
            deadline: self.deadline,
            hits: self.hits.wrapping_add(matching(dir, names, self.needle).len() as usize),
            scanned: self.scanned.wrapping_add(names.len() as usize),
            out: self.out + listing::lines(matching(dir, names, self.needle)),
            queue: self.queue + subdirectories(dir, names),
        }
    }

    /// What the search reports at its end. One that ran out of time says so, with the directory it
    /// had reached.
    pub open spec fn summary(self, reached: Option<Seq<char>>) -> Seq<char> {
        let counts = number::dec(self.hits as nat) + " hits, "@ + number::dec(self.scanned as nat)
            + " entries scanned"@;
        match reached {
            Some(dir) => counts + ", reached "@ + dir + " - BUDGET EXPIRED — narrow the path"@,
            None => counts,
        }
    }
}

/// The text of some lines with one more.
proof fn lemma_lines_push(list: Seq<Seq<char>>, line: Seq<char>)
    ensures
        listing::lines(list.push(line)) == listing::lines(list) + line.push('\n'),
{
    assert(list.push(line).drop_last() =~= list);
}

impl FindScan {
    /// Starts a search at a directory.
    pub fn start(root: String, needle: Vec<char>, now: u64) -> (r: FindScan)
        ensures
            r@ == FindModel::started(root@, needle@, now),
    {
        let mut queue: VecDeque<String> = VecDeque::new();
        let ghost first = root@;
        queue.push_back(root);
        assert(listing::texts(queue@) =~= seq![first]);
        FindScan {
            needle,
            deadline: now.wrapping_add(SCAN_BUDGET_US),
            hits: 0,
            scanned: 0,
            out: String::new(),
            queue,
        }
    }

    /// Takes in the entries of a directory.
    pub fn look_into(&mut self, dir: &str, names: &Vec<String>)
        ensures
            final(self)@ == old(self)@.looked_into(dir@, listing::texts(names@)),
    {
        let ghost all = listing::texts(names@);
        let ghost before = self@;
        let dir_chars = chars_of(dir);
        let mut found: usize = 0;
        for i in 0..names.len()
            invariant
                all == listing::texts(names@),
                dir_chars@ == dir@,
                self.needle@ == before.needle,
                self.deadline == before.deadline,
                self.hits == before.hits,
                self.scanned == before.scanned,
                found <= i,
                found == matching(dir@, all.take(i as int), before.needle).len(),
                self.out@ == before.out + listing::lines(
                    matching(dir@, all.take(i as int), before.needle),
                ),
                listing::texts(self.queue@) == before.queue + subdirectories(
                    dir@,
                    all.take(i as int),
                ),
        {
            let ghost front = all.take(i + 1);
            assert(front.drop_last() =~= all.take(i as int));
            let ghost out_before = self.out@;
            let ghost queue_before = listing::texts(self.queue@);
            let name = chars_of(&names[i]);
            assert(name@ == front.last());
            let is_dir = is_dir_name(&name);
            let small = lower_chars(&name);
            if contains_chars(&small, &self.needle) {
                found += 1;
                push_chars(&mut self.out, &dir_chars);
                push_chars(&mut self.out, &name);
                self.out.push('\n');
                proof {
                    let earlier = matching(dir@, all.take(i as int), before.needle);
                    lemma_lines_push(earlier, dir@ + name@);
                    assert(self.out@ =~= before.out + listing::lines(
                        earlier.push(dir@ + name@),
                    ));
                }
            }
            if is_dir {
                let mut sub = String::new();
                push_chars(&mut sub, &dir_chars);
                push_chars(&mut sub, &name);
                let ghost path = sub@;
                self.queue.push_back(sub);
                assert(path =~= dir@ + name@);
                assert(listing::texts(self.queue@) =~= queue_before.push(path));
                assert(queue_before.push(path) =~= before.queue + subdirectories(dir@, front));
            }
        }
        assert(all.take(all.len() as int) =~= all);
        self.hits = self.hits.wrapping_add(found);
        self.scanned = self.scanned.wrapping_add(names.len());
        assert(self@ =~= before.looked_into(dir@, all));
    }

    /// The directory to look into next, taken off the queue.
    pub fn next_dir(&mut self) -> (r: Option<String>)
        ensures
            match r {
                Some(dir) => {
                    &&& old(self)@.queue.len() > 0
                    &&& dir@ == old(self)@.queue[0]
                    &&& final(self)@ == (FindModel { queue: old(self)@.queue.skip(1), ..old(self)@ })
                },
                None => old(self)@.queue.len() == 0 && final(self)@ == old(self)@,
            },
    {
        let ghost before = self@;
        let next = self.queue.pop_front();
        match next {
            Some(dir) => {
                assert(listing::texts(self.queue@) =~= before.queue.skip(1));
                assert(dir@ == before.queue[0]);
                Some(dir)
            },
            None => None,
        }
    }

    /// The reply that ends the search.
    pub fn report(&self, reached: Option<&str>) -> (r: Reply)
        ensures
            r@.ok,
            r@.data == crate::reply::as_data(self@.out),
            r@.text == self@.summary(
                match reached {
                    Some(dir) => Some(dir@),
                    None => None,
                },
            ),
    {
        let mut line = String::new();
        push_count(&mut line, self.hits);
        line.append(" hits, ");
        push_count(&mut line, self.scanned);
        line.append(" entries scanned");
        assert(line@ =~= self@.summary(None));
        if let Some(dir) = reached {
            line.append(", reached ");
            line.append(dir);
            line.append(" - BUDGET EXPIRED — narrow the path");
            assert(line@ =~= self@.summary(Some(dir@)));
        }
        Reply { data: text_as_data(&self.out), ok: true, text: line }
    }
}

/// A search through the contents of the files of one directory, under way.
pub struct GrepScan {
    /// The directory.
    pub root: String,
    /// The bytes searched for.
    pub needle: Vec<u8>,
    /// When the search has to stop.
    pub deadline: u64,
    /// The names of the directory's entries.
    pub names: Vec<String>,
    /// How many of the names are dealt with.
    pub next: usize,
    /// How many files hold the bytes.
    pub hits: usize,
    /// How many files were read.
    pub files: usize,
    /// How many files could not be read.
    pub skipped: usize,
    /// The files found, one to a line, each with the offset of the first occurrence.
    pub out: String,
}

/// The model of a search through files.
#[verifier::ext_equal]
pub struct GrepModel {
    pub root: Seq<char>,
    pub needle: Seq<u8>,
    pub deadline: u64,
    pub names: Seq<Seq<char>>,
    pub next: int,
    pub hits: int,
    pub files: int,
    pub skipped: int,
    pub out: Seq<char>,
}

impl View for GrepScan {
    type V = GrepModel;

    open spec fn view(&self) -> GrepModel {
        GrepModel {
            root: self.root@,
            needle: self.needle@,
            deadline: self.deadline,
            names: listing::texts(self.names@),
            next: self.next as int,
            hits: self.hits as int,
            files: self.files as int,
            skipped: self.skipped as int,
            out: self.out@,
        }
    }
}

impl GrepModel {
    /// A search that has looked at nothing yet.
    pub open spec fn started(
        root: Seq<char>,
        needle: Seq<u8>,
        deadline: u64,
        names: Seq<Seq<char>>,
    ) -> GrepModel {
        GrepModel {
            root,
            needle,
            deadline,
            names,
            next: 0,
            hits: 0,
            files: 0,
            skipped: 0,
            out: seq![],
        }
    }

    /// No file is counted that was not dealt with, and none twice.
    pub open spec fn wf(self) -> bool {
        &&& 0 <= self.next <= self.names.len()
        &&& 0 <= self.hits <= self.files
        &&& 0 <= self.skipped
        &&& self.files + self.skipped <= self.next
    }

    /// The search with one more name dealt with.
    pub open spec fn advanced(self) -> GrepModel {
        GrepModel { next: self.next + 1, ..self }
    }

    /// The search after a file that could not be read.
    pub open spec fn unread(self) -> GrepModel {
        GrepModel { skipped: self.skipped + 1, ..self }
    }

    /// The search after a file was read: a hit is reported with the offset of the first
    /// occurrence.
    pub open spec fn read(self, full: Seq<char>, bytes: Seq<u8>) -> GrepModel {
        match search::first_occurrence(bytes, self.needle) {
            Some(at) => GrepModel {
                files: self.files + 1,
                hits: self.hits + 1,
                out: self.out + full + "  @"@ + number::dec(at as nat) + "\n"@,
                ..self
            },
            None => GrepModel { files: self.files + 1, ..self },
        }
    }

    /// What the search reports at its end.
    pub open spec fn summary(self, ran_out: bool) -> Seq<char> {
        let counts = number::dec(self.hits as nat) + " hits in "@ + number::dec(self.files as nat)
            + " files ("@ + number::dec(self.skipped as nat) + " unreadable)"@;
        if ran_out {
            counts + " - BUDGET EXPIRED"@
        } else {
            counts
        }
    }
}

impl GrepScan {
    /// Starts a search through the named entries of a directory.
    pub fn start(root: String, needle: Vec<u8>, deadline: u64, names: Vec<String>) -> (r: GrepScan)
        ensures
            r@ == GrepModel::started(root@, needle@, deadline, listing::texts(names@)),
            r@.wf(),
    {
        GrepScan {
            root,
            needle,
            deadline,
            names,
            next: 0,
            hits: 0,
            files: 0,
            skipped: 0,
            out: String::new(),
        }
    }

    /// Takes the next name: the path of a file to read, or nothing for a directory.
    pub fn take_name(&mut self) -> (r: Option<String>)
        requires
            old(self)@.wf(),
            old(self)@.next < old(self)@.names.len(),
        ensures
            final(self)@ == old(self)@.advanced(),
            match r {
                Some(full) => {
                    &&& !path::ends_in_separator(old(self)@.names[old(self)@.next])
                    &&& full@ == old(self)@.root + old(self)@.names[old(self)@.next]
                },
                None => path::ends_in_separator(old(self)@.names[old(self)@.next]),
            },
    {
        let name = chars_of(&self.names[self.next]);
        assert(name@ == self@.names[self@.next]);
        assert(self.next < self.names.len());
        self.next += 1;
        if is_dir_name(&name) {
            return None;
        }
        let mut full = self.root.clone();
        push_chars(&mut full, &name);
        Some(full)
    }

    /// Counts a file that could not be read.
    pub fn count_unread(&mut self)
        requires
            old(self)@.wf(),
            old(self)@.files + old(self)@.skipped < old(self)@.next,
        ensures
            final(self)@ == old(self)@.unread(),
    {
        self.skipped += 1;
    }

    /// Searches a file that was read.
    pub fn count_read(&mut self, full: &str, bytes: &[u8])
        requires
            old(self)@.wf(),
            old(self)@.files + old(self)@.skipped < old(self)@.next,
        ensures
            final(self)@ == old(self)@.read(full@, bytes@),
    {
        let ghost before = self@;
        self.files += 1;
        if let Some(at) = find_bytes(bytes, &self.needle) {
            self.hits += 1;
            self.out.append(full);
            self.out.append("  @");
            push_count(&mut self.out, at);
            self.out.append("\n");
        }
        assert(self@ =~= before.read(full@, bytes@));
    }

    /// The reply that ends the search.
    pub fn report(&self, ran_out: bool) -> (r: Reply)
        ensures
            r@.ok,
            r@.data == crate::reply::as_data(self@.out),
            r@.text == self@.summary(ran_out),
    {
        let mut line = String::new();
        push_count(&mut line, self.hits);
        line.append(" hits in ");
        push_count(&mut line, self.files);
        line.append(" files (");
        push_count(&mut line, self.skipped);
        line.append(" unreadable)");
        assert(line@ =~= self@.summary(false));
        if ran_out {
            line.append(" - BUDGET EXPIRED");
        }
        Reply { data: text_as_data(&self.out), ok: true, text: line }
    }
}

/// The names of a directory are gone through one by one: one whose letters, capitals aside, hold the
/// substring at some place is reported with the directory in front, and one that ends in a
/// separator is a directory to look into, however many there are and whatever else is in them.
pub proof fn law_names_are_gone_through_one_by_one(
    dir: Seq<char>,
    names: Seq<Seq<char>>,
    name: Seq<char>,
    needle: Seq<char>,
)
    ensures
        matching(dir, seq![], needle) == Seq::<Seq<char>>::empty(),
        (exists|i: int|
            0 <= i && i + needle.len() <= name.len() && #[trigger] text::lowered(name).subrange(
                i,
                i + needle.len(),
            ) == needle) ==> matching(dir, names.push(name), needle) == matching(
            dir,
            names,
            needle,
        ).push(dir + name),
        (forall|i: int|
            0 <= i && i + needle.len() <= name.len() ==> #[trigger] text::lowered(name).subrange(
                i,
                i + needle.len(),
            ) != needle) ==> matching(dir, names.push(name), needle) == matching(
            dir,
            names,
            needle,
        ),
        subdirectories(dir, seq![]) == Seq::<Seq<char>>::empty(),
        subdirectories(dir, names.push(name)) == if name.len() > 0 && name.last() == '\\' {
            subdirectories(dir, names).push(dir + name)
        } else {
            subdirectories(dir, names)
        },
{
    assert(names.push(name).drop_last() =~= names);
    let low = text::lowered(name);
    if exists|i: int|
        0 <= i && i + needle.len() <= name.len() && #[trigger] low.subrange(i, i + needle.len())
            == needle {
        let i = choose|i: int|
            0 <= i && i + needle.len() <= name.len() && #[trigger] low.subrange(
                i,
                i + needle.len(),
            ) == needle;
        assert(search::occurs_at(low, needle, i));
    }
}

/// A search for names begins with its root and nothing else, and may take two seconds.
pub proof fn law_a_search_for_names_begins_with_its_root(
    root: Seq<char>,
    needle: Seq<char>,
    now: u64,
)
    ensures
        ({
            let f = FindModel::started(root, needle, now);
            &&& f.queue == seq![root]
            &&& f.needle == needle
            &&& f.out.len() == 0
            &&& f.hits == 0
            &&& f.scanned == 0
            &&& now <= u64::MAX - 2000000 ==> f.deadline == now + 2000000
        }),
{
}

/// Looking into a directory reports its matches behind those before, puts its subdirectories behind
/// those that wait, and counts; it changes neither what is searched for nor how long.
pub proof fn law_looking_into_a_directory_adds_to_the_search(
    f: FindModel,
    dir: Seq<char>,
    names: Seq<Seq<char>>,
)
    ensures
        ({
            let after = f.looked_into(dir, names);
            let found = matching(dir, names, f.needle);
            &&& after.out == f.out + listing::lines(found)
            &&& after.queue == f.queue + subdirectories(dir, names)
            &&& after.needle == f.needle
            &&& after.deadline == f.deadline
            &&& f.hits + found.len() <= usize::MAX ==> after.hits == f.hits + found.len()
            &&& f.scanned + names.len() <= usize::MAX ==> after.scanned == f.scanned + names.len()
        }),
{
}

/// What a search for names says at its end: how many it found, among how many; and where it ran out
/// of time, the directory it had reached.
pub proof fn law_a_search_for_names_says_what_it_counted(f: FindModel, dir: Seq<char>)
    ensures
        f.summary(None) == number::dec(f.hits as nat) + " hits, "@ + number::dec(f.scanned as nat)
            + " entries scanned"@,
        f.summary(Some(dir)) == f.summary(None) + ", reached "@ + dir
            + " - BUDGET EXPIRED — narrow the path"@,
{
}

/// A search through files counts each file once, as read or as unreadable, and reports one that
/// holds the bytes with its path and the place where they first stand.
pub proof fn law_a_file_is_counted_and_reported_once(g: GrepModel, full: Seq<char>, bytes: Seq<u8>)
    ensures
        g.advanced() == (GrepModel { next: g.next + 1, ..g }),
        g.unread() == (GrepModel { skipped: g.skipped + 1, ..g }),
        ({
            let after = g.read(full, bytes);
            let rest = GrepModel { files: g.files, hits: g.hits, out: g.out, ..after };
            &&& rest == g
            &&& after.files == g.files + 1
            &&& match search::first_occurrence(bytes, g.needle) {
                Some(at) => after.hits == g.hits + 1 && after.out == g.out + full + "  @"@
                    + number::dec(at as nat) + "\n"@,
                None => after.hits == g.hits && after.out == g.out,
            }
        }),
{
}

/// A search through files begins with all its names before it.
pub proof fn law_a_search_through_files_begins_at_the_first(
    root: Seq<char>,
    needle: Seq<u8>,
    deadline: u64,
    names: Seq<Seq<char>>,
)
    ensures
        ({
            let g = GrepModel::started(root, needle, deadline, names);
            &&& g.root == root
            &&& g.needle == needle
            &&& g.deadline == deadline
            &&& g.names == names
            &&& g.next == 0
            &&& g.hits == 0
            &&& g.files == 0
            &&& g.skipped == 0
            &&& g.out.len() == 0
        }),
{
}

/// What a search through files says at its end: how many files hold the bytes, how many were read
/// and how many could not be; and that it ran out of time, where it did.
pub proof fn law_a_search_through_files_says_what_it_counted(g: GrepModel)
    ensures
        g.summary(false) == number::dec(g.hits as nat) + " hits in "@ + number::dec(g.files as nat)
            + " files ("@ + number::dec(g.skipped as nat) + " unreadable)"@,
        g.summary(true) == g.summary(false) + " - BUDGET EXPIRED"@,
{
}

} // verus!
