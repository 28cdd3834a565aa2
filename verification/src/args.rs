//! Arguments: taking the words of a command line apart.

use vstd::prelude::*;

use crate::number;
use crate::number::parse_num_chars;
use crate::text;
use crate::text::{chars_of, cut_first_word, cut_last_word, trim_end, trim_start};

verus! {

/// The argument of `cat` in its parts: a path, and the offset and length of a range where there
/// is one.
pub struct Ranged {
    pub path: Seq<char>,
    pub range: Option<(int, int)>,
}

/// How an argument of `cat` is read. A path may hold spaces, so a range is recognised only when
/// the last two words are both numbers and something stands in front of them. The path is then
/// what stands there, without the white space that sets the words off.
pub open spec fn ranged(arg: Seq<char>) -> Ranged {
    let t = text::trimmed(arg);
    let before_len = text::trimmed_end(text::before_last_word(t));
    let path = text::trimmed_end(text::before_last_word(before_len));
    let off = number::number_named(text::last_word(before_len));
    let len = number::number_named(text::last_word(t));
    if path.len() > 0 && off is Some && len is Some {
        Ranged { path, range: Some((off->0, len->0)) }
    } else {
        Ranged { path: t, range: None }
    }
}

/// A range in the types it is handed on in.
pub open spec fn range_ints(range: Option<(u64, usize)>) -> Option<(int, int)> {
    match range {
        Some((off, len)) => Some((off as int, len as int)),
        None => None,
    }
}

/// Splits the argument of `cat` into the path and an optional trailing `<off> <len>`.
///
/// The two words are taken off the end by their place, never by searching for them, so that a
/// range whose offset reads like its length leaves the path whole.
pub fn split_range(arg: &str) -> (r: (&str, Option<(u64, usize)>))
    ensures
        r.0@ == ranged(arg@).path,
        range_ints(r.1) == ranged(arg@).range,
{
    let cs = chars_of(arg);
    let from_start = trim_start(&cs);
    proof {
        text::lemma_trimmed_start(arg@);
    }
    let skipped: usize = cs.len() - from_start.len();
    let t = trim_end(from_start);
    let (front, len_word) = cut_last_word(t);
    let (path_front, off_word) = cut_last_word(trim_end(front));
    let path = trim_end(path_front);
    proof {
        text::lemma_trimmed_end(from_start@);
        text::lemma_last_word(t@);
        text::lemma_trimmed_end(front@);
        text::lemma_last_word(text::trimmed_end(front@));
        text::lemma_trimmed_end(path_front@);
    }
    if path.len() > 0 {
        if let Some(off) = parse_num_chars(off_word) {
            if let Some(len) = parse_num_chars(len_word) {
                let p = arg.substring_char(skipped, skipped + path.len());
                assert(p@ =~= path@);
                return (p, Some((off as u64, len as usize)));
            }
        }
    }
    let p = arg.substring_char(skipped, skipped + t.len());
    assert(p@ =~= t@);
    (p, None)
}

/// The first two words of an argument, read as numbers.
pub open spec fn number_pair(arg: Seq<char>) -> Option<(int, int)> {
    let t = text::trimmed_start(arg);
    let rest = text::trimmed_start(text::after_first_word(t));
    let a = number::number_named(text::first_word(t));
    let b = number::number_named(text::first_word(rest));
    if a is Some && b is Some {
        Some((a->0, b->0))
    } else {
        None
    }
}

/// Two numbers separated by white space, held in a slice of characters.
pub fn two_numbers_chars(cs: &[char]) -> (r: Option<(u32, u32)>)
    ensures
        match r {
            Some((a, b)) => number_pair(cs@) == Some((a as int, b as int)),
            None => number_pair(cs@) is None,
        },
{
    let (first, rest) = cut_first_word(trim_start(cs));
    let (second, _) = cut_first_word(trim_start(rest));
    match parse_num_chars(first) {
        Some(a) => match parse_num_chars(second) {
            Some(b) => Some((a, b)),
            None => None,
        },
        None => None,
    }
}

/// Two numbers separated by white space, for the `ps` and `cenrep` verbs.
pub fn two_numbers(arg: &str) -> (r: Option<(u32, u32)>)
    ensures
        match r {
            Some((a, b)) => number_pair(arg@) == Some((a as int, b as int)),
            None => number_pair(arg@) is None,
        },
{
    let cs = chars_of(arg);
    two_numbers_chars(&cs)
}

/// A word without white space is its own trimmed form.
proof fn lemma_word_is_trimmed(w: Seq<char>)
    requires
        text::no_whitespace(w),
    ensures
        text::trimmed(w) == w,
{
}

/// Every 32-bit number is named by its decimal digits.
pub proof fn law_decimal_names_the_number(n: u32)
    ensures
        number::number_named(number::dec(n as nat)) == Some(n as int),
{
    number::lemma_numeral(n as nat, 10);
    let w = number::dec(n as nat);
    lemma_word_is_trimmed(w);
    reveal_strlit("0x");
    reveal_strlit("0X");
    if text::starts_with(w, "0x"@) {
        assert(w.take(2)[1] == 'x');
        assert(w[1] == 'x');
    }
    if text::starts_with(w, "0X"@) {
        assert(w.take(2)[1] == 'X');
        assert(w[1] == 'X');
    }
}

/// Every 32-bit number is named by `0x` and its hexadecimal digits.
pub proof fn law_prefixed_hex_names_the_number(n: u32)
    ensures
        number::number_named("0x"@ + number::hex(n as nat)) == Some(n as int),
        number::number_named("0X"@ + number::hex(n as nat)) == Some(n as int),
{
    number::lemma_numeral(n as nat, 16);
    reveal_strlit("0x");
    reveal_strlit("0X");
    let h = number::hex(n as nat);
    let a = "0x"@ + h;
    let b = "0X"@ + h;
    assert forall|i: int| 0 <= i < a.len() implies !text::whitespace(#[trigger] a[i]) by {
        if i >= 2 {
            assert(a[i] == h[i - 2]);
        }
    }
    assert forall|i: int| 0 <= i < b.len() implies !text::whitespace(#[trigger] b[i]) by {
        if i >= 2 {
            assert(b[i] == h[i - 2]);
        }
    }
    lemma_word_is_trimmed(a);
    lemma_word_is_trimmed(b);
    assert(a.take(2) =~= "0x"@);
    assert(b.take(2) =~= "0X"@);
    assert(a.skip(2) =~= h);
    assert(b.skip(2) =~= h);
}

/// A path followed by an offset and a length in decimal is split into exactly these three,
/// whatever the numbers are: also where the offset reads like the length, or like a part of the
/// path.
pub proof fn law_a_range_keeps_its_path(path: Seq<char>, off: u32, len: u32)
    requires
        path.len() > 0,
        text::trimmed(path) == path,
    ensures
        ranged(path + " "@ + number::dec(off as nat) + " "@ + number::dec(len as nat)) == (Ranged {
            path,
            range: Some((off as int, len as int)),
        }),
{
    reveal_strlit(" ");
    let sp = " "@;
    let o = number::dec(off as nat);
    let l = number::dec(len as nat);
    number::lemma_numeral(off as nat, 10);
    number::lemma_numeral(len as nat, 10);
    law_decimal_names_the_number(off);
    law_decimal_names_the_number(len);
    text::lemma_trimmed_start(path);
    text::lemma_trimmed_end(text::trimmed_start(path));
    assert(text::trimmed_start(path).len() == path.len());
    assert(path.skip(0) =~= path);
    let arg = path + sp + o + sp + l;
    assert(arg[0] == path[0]);
    assert(arg.last() == l.last());
    assert(!text::whitespace(l[l.len() - 1]));
    assert(text::trimmed(arg) == arg);
    // The last word is the length.
    let m = path + sp + o + sp;
    assert(m.last() == ' ');
    text::lemma_last_word_of(m, l);
    assert(text::before_last_word(arg) =~= m);
    assert((path + sp + o).last() == o[o.len() - 1]);
    text::lemma_trimmed_end_padded(path + sp + o, sp);
    // The word before it is the offset.
    assert((path + sp).last() == ' ');
    text::lemma_last_word_of(path + sp, o);
    assert(text::before_last_word(path + sp + o) =~= path + sp);
    text::lemma_trimmed_end_padded(path, sp);
}

/// An argument whose last word is no number is a path as it stands.
pub proof fn law_a_bare_path_has_no_range(arg: Seq<char>)
    requires
        number::number_named(text::last_word(text::trimmed(arg))) is None,
    ensures
        ranged(arg) == (Ranged { path: text::trimmed(arg), range: None }),
{
}

/// The words of an argument, for a path in front of two of them: the last two are a range when both
/// are numbers, and the path is then all that stands in front of them. Otherwise all of it is the
/// path. Neither what the path holds nor what the numbers are makes a difference.
pub proof fn law_a_range_is_the_last_two_words(
    before: Seq<char>,
    path: Seq<char>,
    gap: Seq<char>,
    off: Seq<char>,
    space: Seq<char>,
    len: Seq<char>,
    after: Seq<char>,
)
    requires
        text::all_whitespace(before),
        path.len() > 0,
        !text::whitespace(path[0]),
        !text::whitespace(path.last()),
        gap.len() > 0,
        text::all_whitespace(gap),
        off.len() > 0,
        text::no_whitespace(off),
        space.len() > 0,
        text::all_whitespace(space),
        len.len() > 0,
        text::no_whitespace(len),
        text::all_whitespace(after),
    ensures
        ({
            let whole = path + gap + off + space + len;
            let r = ranged(before + whole + after);
            match (number::number_named(off), number::number_named(len)) {
                (Some(o), Some(l)) => r.path == path && r.range == Some((o, l)),
                _ => r.path == whole && r.range is None,
            }
        }),
{
    let whole = path + gap + off + space + len;
    assert(whole[0] == path[0]);
    assert(!text::whitespace(len[len.len() - 1]));
    assert(whole.last() == len[len.len() - 1]);
    text::law_trimming_takes_off_just_the_blanks(before, whole, after);
    let m = path + gap + off + space;
    assert(text::whitespace(space[space.len() - 1]));
    assert(m.last() == space[space.len() - 1]);
    text::lemma_last_word_of(m, len);
    assert(text::before_last_word(whole) =~= m);
    let front = path + gap + off;
    assert(!text::whitespace(off[off.len() - 1]));
    assert(front.last() == off[off.len() - 1]);
    text::lemma_trimmed_end_padded(front, space);
    assert(text::whitespace(gap[gap.len() - 1]));
    assert((path + gap).last() == gap[gap.len() - 1]);
    text::lemma_last_word_of(path + gap, off);
    assert(text::before_last_word(front) =~= path + gap);
    text::lemma_trimmed_end_padded(path, gap);
}

/// Fewer than three words are a path, even where they are numbers.
pub proof fn law_two_words_are_no_range(
    before: Seq<char>,
    first: Seq<char>,
    space: Seq<char>,
    second: Seq<char>,
    after: Seq<char>,
)
    requires
        text::all_whitespace(before),
        text::no_whitespace(first),
        text::all_whitespace(space),
        first.len() > 0 && second.len() > 0 ==> space.len() > 0,
        first.len() == 0 || second.len() == 0 ==> space.len() == 0,
        text::no_whitespace(second),
        text::all_whitespace(after),
    ensures
        ranged(before + (first + space + second) + after).path == first + space + second,
        ranged(before + (first + space + second) + after).range is None,
{
    let whole = first + space + second;
    if whole.len() > 0 {
        assert(whole[0] == if first.len() > 0 { first[0] } else { second[0] });
        assert(whole.last() == if second.len() > 0 {
            second[second.len() - 1]
        } else {
            first[first.len() - 1]
        });
    }
    text::law_trimming_takes_off_just_the_blanks(before, whole, after);
    // The last word, and what stands before it.
    if second.len() > 0 {
        if space.len() > 0 {
            assert((first + space).last() == space[space.len() - 1]);
            assert(text::whitespace(space[space.len() - 1]));
        } else {
            assert(first + space =~= seq![]);
        }
        text::lemma_last_word_of(first + space, second);
        assert(text::before_last_word(whole) =~= first + space);
        if first.len() > 0 {
            assert(!text::whitespace(first[first.len() - 1]));
        }
        text::lemma_trimmed_end_padded(first, space);
        text::lemma_last_word_of(seq![], first);
        assert(seq![] + first =~= first);
        assert(text::before_last_word(first) =~= seq![]);
        assert(text::trimmed_end(seq![]) =~= seq![]);
    } else {
        assert(whole =~= first);
        text::lemma_last_word_of(seq![], first);
        assert(seq![] + first =~= first);
        assert(text::before_last_word(first) =~= seq![]);
        assert(text::trimmed_end(seq![]) =~= seq![]);
        assert(text::before_last_word(seq![]) =~= seq![]);
    }
}

/// A pair of numbers is the first two words, when both are numbers; what stands behind them does
/// not matter.
pub proof fn law_a_pair_is_the_first_two_words(
    before: Seq<char>,
    first: Seq<char>,
    space: Seq<char>,
    second: Seq<char>,
    rest: Seq<char>,
)
    requires
        text::all_whitespace(before),
        first.len() > 0,
        text::no_whitespace(first),
        space.len() > 0,
        text::all_whitespace(space),
        second.len() > 0,
        text::no_whitespace(second),
        rest.len() > 0 ==> text::whitespace(rest[0]),
    ensures
        number_pair(before + (first + space + second + rest)) == match (
            number::number_named(first),
            number::number_named(second),
        ) {
            (Some(a), Some(b)) => Some((a, b)),
            _ => None,
        },
{
    let t = first + (space + (second + rest));
    assert(first + space + second + rest =~= t);
    text::lemma_blanks_in_front(before, t);
    assert(t[0] == first[0] && !text::whitespace(first[0]));
    assert((space + (second + rest))[0] == space[0] && text::whitespace(space[0]));
    text::law_the_first_word_ends_at_a_blank(first, space + (second + rest));
    text::lemma_blanks_in_front(space, second + rest);
    assert((second + rest)[0] == second[0] && !text::whitespace(second[0]));
    text::law_the_first_word_ends_at_a_blank(second, rest);
}

/// One word is no pair, nor is a blank text.
pub proof fn law_one_word_is_no_pair(before: Seq<char>, word: Seq<char>, after: Seq<char>)
    requires
        text::all_whitespace(before),
        text::no_whitespace(word),
        text::all_whitespace(after),
    ensures
        number_pair(before + (word + after)) is None,
{
    let t = word + after;
    text::lemma_blanks_in_front(before, t);
    let none = Seq::<char>::empty();
    text::lemma_blanks_in_front(after, none);
    assert(after + none =~= after);
    text::law_trimming_takes_off_just_the_blanks(none, none, none);
    assert(none + none + none =~= none);
    assert(number::parsed(none, 10, u32::MAX as int) is None);
    reveal_strlit("0x");
    reveal_strlit("0X");
    assert(number::number_named(none) is None);
    if word.len() > 0 {
        assert(t[0] == word[0] && !text::whitespace(word[0]));
        text::law_the_first_word_ends_at_a_blank(word, after);
        assert(text::first_word(none) =~= none);
    } else {
        assert(t =~= after);
        assert(text::first_word(none) =~= none);
    }
}

} // verus!
