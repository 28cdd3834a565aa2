//! The most recent lines: those the shell noted, and the tail of a log file.

use vstd::prelude::*;
use vstd::slice::slice_subrange;

use crate::listing;
use crate::text;
use crate::text::{chars_of, find_char, string_of, trim};
use crate::utf8;
use crate::utf8::lossy_text;

verus! {

/// How many recent lines are kept for the screen.
pub const RECENT: usize = 8;

/// The last `n` items of a list; all of them where there are no more.
pub open spec fn last<T>(list: Seq<T>, n: int) -> Seq<T> {
    if list.len() > n {
        list.skip(list.len() - n)
    } else {
        list
    }
}

/// Cuts a list down to its last `n` lines.
pub fn keep_last(list: &mut Vec<String>, n: usize)
    ensures
        listing::texts(final(list)@) == last(listing::texts(old(list)@), n as int),
{
    let len: usize = list.len();
    if len > n {
        let rest = list.split_off(len - n);
        *list = rest;
        assert(listing::texts(list@) =~= last(listing::texts(old(list)@), n as int));
    }
}

/// A line as it is shown, without the blanks around it; none where nothing else is on it.
pub open spec fn shown(line: Seq<char>) -> Seq<Seq<char>> {
    if text::trimmed(line).len() == 0 {
        seq![]
    } else {
        seq![text::trimmed(line)]
    }
}

/// The lines of a text that have something on them, without the blanks around them.
pub open spec fn lines_of(s: Seq<char>) -> Seq<Seq<char>>
    decreases s.len(),
{
    match text::first_index(s, '\n') {
        Some(i) => {
            proof {
                text::lemma_first_index(s, '\n');
            }
            shown(s.take(i)) + lines_of(s.skip(i + 1))
        },
        None => shown(s),
    }
}

/// Adds a line to a list as it is shown.
fn push_shown(list: &mut Vec<String>, line: &[char])
    ensures
        listing::texts(final(list)@) == listing::texts(old(list)@) + shown(line@),
{
    let t = trim(line);
    if t.len() > 0 {
        list.push(string_of(t));
    }
    assert(listing::texts(list@) =~= listing::texts(old(list)@) + shown(line@));
}

/// The last `n` lines of a text that have something on them, without the blanks around them.
pub fn last_lines(text: &str, n: usize) -> (r: Vec<String>)
    ensures
        listing::texts(r@) == last(lines_of(text@), n as int),
{
    let cs = chars_of(text);
    let mut list: Vec<String> = Vec::new();
    let mut rest: &[char] = &cs;
    assert(listing::texts(list@) =~= seq![]);
    assert(listing::texts(list@) + lines_of(rest@) =~= lines_of(text@));
    loop
        invariant_except_break
            listing::texts(list@) + lines_of(rest@) == lines_of(text@),
        ensures
            listing::texts(list@) == lines_of(text@),
        decreases rest@.len(),
    {
        let ghost before = listing::texts(list@);
        let total: usize = rest.len();
        match find_char(rest, '\n') {
            Some(i) => {
                let line = slice_subrange(rest, 0, i);
                assert(line@ =~= rest@.take(i as int));
                push_shown(&mut list, line);
                let behind = slice_subrange(rest, i + 1, total);
                assert(behind@ =~= rest@.skip(i + 1));
                assert(before + (shown(line@) + lines_of(behind@)) =~= listing::texts(list@)
                    + lines_of(behind@));
                rest = behind;
            },
            None => {
                push_shown(&mut list, rest);
                break;
            },
        }
    }
    keep_last(&mut list, n);
    list
}

/// The last `n` lines of a log file, from what reading it gave. A log that is not there, or cannot
/// be read, has no lines.
pub fn tail_log(contents: Result<Option<Vec<u8>>, String>, n: usize) -> (r: Vec<String>)
    ensures
        listing::texts(r@) == match contents {
            Ok(Some(bytes)) => last(lines_of(utf8::utf8_lossy(bytes@)), n as int),
            _ => seq![],
        },
{
    match contents {
        Ok(Some(bytes)) => {
            let text = lossy_text(&bytes);
            last_lines(&text, n)
        },
        _ => {
            let none: Vec<String> = Vec::new();
            assert(listing::texts(none@) =~= seq![]);
            none
        },
    }
}

/// The tail of a text has no more lines than were asked for, and each has something on it and no
/// blanks around it.
pub proof fn law_a_tail_is_short_and_trimmed(s: Seq<char>, n: int)
    requires
        n >= 0,
    ensures
        last(lines_of(s), n).len() <= n,
        forall|i: int|
            0 <= i < last(lines_of(s), n).len() ==> {
                let line = #[trigger] last(lines_of(s), n)[i];
                line.len() > 0 && !text::whitespace(line[0]) && !text::whitespace(line.last())
            },
{
    lemma_lines_are_trimmed(s);
    let all = lines_of(s);
    assert forall|i: int| 0 <= i < last(all, n).len() implies {
        let line = #[trigger] last(all, n)[i];
        line.len() > 0 && !text::whitespace(line[0]) && !text::whitespace(line.last())
    } by {
        if all.len() > n {
            assert(last(all, n)[i] == all[i + all.len() - n]);
        }
    }
}

proof fn lemma_lines_are_trimmed(s: Seq<char>)
    ensures
        forall|i: int|
            0 <= i < lines_of(s).len() ==> {
                let line = #[trigger] lines_of(s)[i];
                line.len() > 0 && !text::whitespace(line[0]) && !text::whitespace(line.last())
            },
    decreases s.len(),
{
    match text::first_index(s, '\n') {
        Some(i) => {
            text::lemma_first_index(s, '\n');
            lemma_lines_are_trimmed(s.skip(i + 1));
            text::lemma_trimmed_twice(s.take(i));
            let first = shown(s.take(i));
            let rest = lines_of(s.skip(i + 1));
            assert forall|j: int| 0 <= j < lines_of(s).len() implies {
                let line = #[trigger] lines_of(s)[j];
                line.len() > 0 && !text::whitespace(line[0]) && !text::whitespace(line.last())
            } by {
                if j < first.len() {
                    assert(lines_of(s)[j] == first[j]);
                } else {
                    assert(lines_of(s)[j] == rest[j - first.len()]);
                }
            }
        },
        None => text::lemma_trimmed_twice(s),
    }
}

/// The last few of a list are its end: as many as were asked for, or all there are.
pub proof fn law_the_last_few_are_the_end<T>(front: Seq<T>, end: Seq<T>, n: int)
    requires
        n >= 0,
    ensures
        end.len() == n ==> last(front + end, n) == end,
        end.len() <= n ==> last(end, n) == end,
{
    if end.len() == n {
        assert(last(front + end, n) =~= end);
    }
}

/// The lines of a text are what stands between its newlines, in order, without the blanks around
/// them; a line with nothing else on it is left out.
pub proof fn law_lines_stand_between_newlines(
    before: Seq<char>,
    line: Seq<char>,
    after: Seq<char>,
    rest: Seq<char>,
)
    requires
        text::all_whitespace(before),
        line.len() > 0 ==> !text::whitespace(line[0]) && !text::whitespace(line.last()),
        text::all_whitespace(after),
        !(before + line + after).contains('\n'),
    ensures
        ({
            let here = if line.len() == 0 {
                Seq::<Seq<char>>::empty()
            } else {
                seq![line]
            };
            &&& lines_of(before + line + after) == here
            &&& lines_of(before + line + after + seq!['\n'] + rest) == here + lines_of(rest)
        }),
{
    let whole = before + line + after;
    let all = whole + seq!['\n'] + rest;
    text::law_trimming_takes_off_just_the_blanks(before, line, after);
    text::lemma_first_index(whole, '\n');
    text::lemma_first_index(all, '\n');
    let n = whole.len() as int;
    assert(text::first_index(whole, '\n') is None) by {
        if let Some(i) = text::first_index(whole, '\n') {
            assert(whole.contains(whole[i]));
        }
    }
    assert(all[n] == '\n');
    assert(text::first_index(all, '\n') == Some(n)) by {
        match text::first_index(all, '\n') {
            Some(i) => {
                if i < n {
                    assert(all[i] == whole[i]);
                    assert(whole.contains(whole[i]));
                }
            },
            None => {
                assert(all.contains(all[n]));
            },
        }
    }
    assert(all.take(n) =~= whole);
    assert(all.skip(n + 1) =~= rest);
}

} // verus!
