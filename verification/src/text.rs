//! Characters and words: the text handling the command line is read with.
//!
//! Strings are modelled as sequences of characters. The executable functions work on slices of
//! characters, so that a long line is decoded once and then cut without copying.

use vstd::prelude::*;
use vstd::slice::slice_subrange;

verus! {

/// `String::push` appends the one character to the end of the string, which otherwise stays as
/// it was.
pub assume_specification[ String::push ](s: &mut String, c: char)
    ensures
        final(s)@ == old(s)@.push(c),
;

/// The characters of a string, in order.
pub fn chars_of(s: &str) -> (r: Vec<char>)
    ensures
        r@ == s@,
{
    let mut out: Vec<char> = Vec::new();
    for c in it: s.chars()
        invariant
            out@ == it.seq().take(it.index() as int),
            it.seq() == s@,
    {
        out.push(c);
    }
    out
}

/// Appends a run of characters to a string.
pub fn push_chars(s: &mut String, cs: &[char])
    ensures
        final(s)@ == old(s)@ + cs@,
{
    let ghost start = s@;
    for i in 0..cs.len()
        invariant
            s@ == start + cs@.take(i as int),
    {
        s.push(cs[i]);
    }
}

/// The string made of a run of characters.
pub fn string_of(cs: &[char]) -> (r: String)
    ensures
        r@ == cs@,
{
    let mut out = String::new();
    push_chars(&mut out, cs);
    out
}

/// Whether a run of characters spells exactly the given word.
pub fn spells(cs: &[char], word: &str) -> (r: bool)
    ensures
        r == (cs@ == word@),
{
    let w = chars_of(word);
    if w.len() != cs.len() {
        return false;
    }
    for i in 0..cs.len()
        invariant
            w@ == word@,
            w@.len() == cs@.len(),
            forall|j: int| 0 <= j < i ==> cs@[j] == word@[j],
    {
        if cs[i] != w[i] {
            return false;
        }
    }
    assert(cs@ =~= word@);
    true
}

/// The characters with the Unicode property White_Space.
pub open spec fn whitespace(c: char) -> bool {
    ||| '\t' <= c <= '\r'
    ||| c == ' '
    ||| c == '\u{85}'
    ||| c == '\u{a0}'
    ||| c == '\u{1680}'
    ||| '\u{2000}' <= c <= '\u{200a}'
    ||| c == '\u{2028}'
    ||| c == '\u{2029}'
    ||| c == '\u{202f}'
    ||| c == '\u{205f}'
    ||| c == '\u{3000}'
}

/// Whether a character is white space.
pub fn is_whitespace(c: char) -> (r: bool)
    ensures
        r == whitespace(c),
{
    ('\t' <= c && c <= '\r') || c == ' ' || c == '\u{85}' || c == '\u{a0}' || c == '\u{1680}' || (
    '\u{2000}' <= c && c <= '\u{200a}') || c == '\u{2028}' || c == '\u{2029}' || c == '\u{202f}'
        || c == '\u{205f}' || c == '\u{3000}'
}

/// Every character of the sequence is white space.
pub open spec fn all_whitespace(s: Seq<char>) -> bool {
    forall|i: int| 0 <= i < s.len() ==> whitespace(#[trigger] s[i])
}

/// No character of the sequence is white space.
pub open spec fn no_whitespace(s: Seq<char>) -> bool {
    forall|i: int| 0 <= i < s.len() ==> !whitespace(#[trigger] s[i])
}

/// The sequence without the white space it starts with.
pub open spec fn trimmed_start(s: Seq<char>) -> Seq<char>
    decreases s.len(),
{
    if s.len() > 0 && whitespace(s[0]) {
        trimmed_start(s.skip(1))
    } else {
        s
    }
}

/// The sequence without the white space it ends with.
pub open spec fn trimmed_end(s: Seq<char>) -> Seq<char>
    decreases s.len(),
{
    if s.len() > 0 && whitespace(s.last()) {
        trimmed_end(s.drop_last())
    } else {
        s
    }
}

/// The sequence without the white space at either end.
pub open spec fn trimmed(s: Seq<char>) -> Seq<char> {
    trimmed_end(trimmed_start(s))
}

/// The run of characters, other than white space, that the sequence starts with.
pub open spec fn first_word(s: Seq<char>) -> Seq<char>
    decreases s.len(),
{
    if s.len() > 0 && !whitespace(s[0]) {
        seq![s[0]] + first_word(s.skip(1))
    } else {
        seq![]
    }
}

/// The run of characters, other than white space, that the sequence ends with.
pub open spec fn last_word(s: Seq<char>) -> Seq<char>
    decreases s.len(),
{
    if s.len() > 0 && !whitespace(s.last()) {
        last_word(s.drop_last()).push(s.last())
    } else {
        seq![]
    }
}

/// What stands after the first word of the sequence.
pub open spec fn after_first_word(s: Seq<char>) -> Seq<char> {
    s.skip(first_word(s).len() as int)
}

/// What stands before the last word of the sequence.
pub open spec fn before_last_word(s: Seq<char>) -> Seq<char> {
    s.take(s.len() - last_word(s).len())
}

/// The first word is as long as the run it names, and is a prefix.
pub proof fn lemma_first_word(s: Seq<char>)
    ensures
        first_word(s).len() <= s.len(),
        first_word(s) == s.take(first_word(s).len() as int),
        no_whitespace(first_word(s)),
        first_word(s).len() < s.len() ==> whitespace(s[first_word(s).len() as int]),
    decreases s.len(),
{
    if s.len() > 0 && !whitespace(s[0]) {
        lemma_first_word(s.skip(1));
        let w = first_word(s.skip(1));
        assert(first_word(s) =~= s.take(w.len() as int + 1));
    } else {
        assert(first_word(s) =~= s.take(0));
    }
}

/// The last word is as long as the run it names, and is a suffix.
pub proof fn lemma_last_word(s: Seq<char>)
    ensures
        last_word(s).len() <= s.len(),
        last_word(s) == s.skip(s.len() - last_word(s).len()),
        no_whitespace(last_word(s)),
        last_word(s).len() < s.len() ==> whitespace(s[s.len() - last_word(s).len() - 1]),
    decreases s.len(),
{
    if s.len() > 0 && !whitespace(s.last()) {
        lemma_last_word(s.drop_last());
        let w = last_word(s.drop_last());
        assert(last_word(s) =~= s.skip(s.len() - (w.len() + 1)));
    } else {
        assert(last_word(s) =~= s.skip(s.len() as int));
    }
}

/// Trimming the start takes away a run of white space and stops before anything else.
pub proof fn lemma_trimmed_start(s: Seq<char>)
    ensures
        trimmed_start(s).len() <= s.len(),
        trimmed_start(s) == s.skip(s.len() - trimmed_start(s).len()),
        all_whitespace(s.take(s.len() - trimmed_start(s).len())),
        trimmed_start(s).len() > 0 ==> !whitespace(trimmed_start(s)[0]),
    decreases s.len(),
{
    if s.len() > 0 && whitespace(s[0]) {
        lemma_trimmed_start(s.skip(1));
        let t = trimmed_start(s.skip(1));
        let k = s.len() - t.len();
        assert(t =~= s.skip(k));
        assert forall|i: int| 0 <= i < k implies whitespace(#[trigger] s.take(k)[i]) by {
            if i > 0 {
                assert(s.skip(1).take(k - 1)[i - 1] == s[i]);
            }
        }
    } else {
        assert(s.skip(0) =~= s);
    }
}

/// Trimming the end takes away a run of white space and stops before anything else.
pub proof fn lemma_trimmed_end(s: Seq<char>)
    ensures
        trimmed_end(s).len() <= s.len(),
        trimmed_end(s) == s.take(trimmed_end(s).len() as int),
        all_whitespace(s.skip(trimmed_end(s).len() as int)),
        trimmed_end(s).len() > 0 ==> !whitespace(trimmed_end(s).last()),
    decreases s.len(),
{
    if s.len() > 0 && whitespace(s.last()) {
        lemma_trimmed_end(s.drop_last());
        let t = trimmed_end(s.drop_last());
        assert(t =~= s.take(t.len() as int));
        assert forall|i: int| 0 <= i < s.len() - t.len() implies whitespace(
            #[trigger] s.skip(t.len() as int)[i],
        ) by {
            if i + t.len() < s.len() - 1 {
                assert(s.drop_last().skip(t.len() as int)[i] == s[i + t.len()]);
            }
        }
    } else {
        assert(s.take(s.len() as int) =~= s);
    }
}

/// A sequence that ends in something other than white space is its own end-trimmed form, whatever
/// run of white space is put behind it.
pub proof fn lemma_trimmed_end_padded(s: Seq<char>, pad: Seq<char>)
    requires
        s.len() > 0 ==> !whitespace(s.last()),
        all_whitespace(pad),
    ensures
        trimmed_end(s + pad) == s,
    decreases pad.len(),
{
    if pad.len() == 0 {
        assert(s + pad =~= s);
    } else {
        assert((s + pad).drop_last() =~= s + pad.drop_last());
        assert((s + pad).last() == pad[pad.len() - 1]);
        lemma_trimmed_end_padded(s, pad.drop_last());
    }
}

/// A sequence with no white space at its ends is trimmed as it stands.
pub proof fn lemma_trimmed_as_it_stands(s: Seq<char>)
    requires
        s.len() > 0 ==> !whitespace(s[0]) && !whitespace(s.last()),
    ensures
        trimmed(s) == s,
{
}

/// What is left when white space is trimmed off has none at its ends, and is trimmed as it stands.
pub proof fn lemma_trimmed_twice(s: Seq<char>)
    ensures
        trimmed(s).len() > 0 ==> !whitespace(trimmed(s)[0]) && !whitespace(trimmed(s).last()),
        trimmed(trimmed(s)) == trimmed(s),
{
    lemma_trimmed_start(s);
    lemma_trimmed_end(trimmed_start(s));
    lemma_trimmed_as_it_stands(trimmed(s));
}

/// The last word of a sequence that ends in a word set off by white space is that word.
pub proof fn lemma_last_word_of(s: Seq<char>, w: Seq<char>)
    requires
        no_whitespace(w),
        s.len() > 0 ==> whitespace(s.last()),
    ensures
        last_word(s + w) == w,
    decreases w.len(),
{
    if w.len() == 0 {
        assert(s + w =~= s);
        assert(last_word(s) =~= w);
    } else {
        assert((s + w).drop_last() =~= s + w.drop_last());
        assert((s + w).last() == w[w.len() - 1]);
        lemma_last_word_of(s, w.drop_last());
        assert(w.drop_last().push(w.last()) =~= w);
    }
}

/// The slice without the white space it starts with.
pub fn trim_start(cs: &[char]) -> (r: &[char])
    ensures
        r@ == trimmed_start(cs@),
{
    let mut i: usize = 0;
    assert(cs@.skip(0) =~= cs@);
    while i < cs.len() && is_whitespace(cs[i])
        invariant
            i <= cs@.len(),
            trimmed_start(cs@) == trimmed_start(cs@.skip(i as int)),
        decreases cs@.len() - i,
    {
        assert(cs@.skip(i as int).skip(1) =~= cs@.skip(i + 1));
        i += 1;
    }
    let r = slice_subrange(cs, i, cs.len());
    assert(r@ =~= cs@.skip(i as int));
    r
}

/// The slice without the white space it ends with.
pub fn trim_end(cs: &[char]) -> (r: &[char])
    ensures
        r@ == trimmed_end(cs@),
{
    let mut n: usize = cs.len();
    assert(cs@.take(n as int) =~= cs@);
    while n > 0 && is_whitespace(cs[n - 1])
        invariant
            n <= cs@.len(),
            trimmed_end(cs@) == trimmed_end(cs@.take(n as int)),
        decreases n,
    {
        assert(cs@.take(n as int).drop_last() =~= cs@.take(n - 1));
        n -= 1;
    }
    slice_subrange(cs, 0, n)
}

/// The slice without the white space at either end.
pub fn trim(cs: &[char]) -> (r: &[char])
    ensures
        r@ == trimmed(cs@),
{
    trim_end(trim_start(cs))
}

/// Cuts a slice after its first word.
pub fn cut_first_word(cs: &[char]) -> (r: (&[char], &[char]))
    ensures
        r.0@ == first_word(cs@),
        r.1@ == after_first_word(cs@),
{
    let mut i: usize = 0;
    assert(cs@.skip(0) =~= cs@);
    while i < cs.len() && !is_whitespace(cs[i])
        invariant
            i <= cs@.len(),
            first_word(cs@) == cs@.take(i as int) + first_word(cs@.skip(i as int)),
        decreases cs@.len() - i,
    {
        let ghost rest = cs@.skip(i as int);
        assert(rest.skip(1) =~= cs@.skip(i + 1));
        assert(cs@.take(i as int) + (seq![rest[0]] + first_word(rest.skip(1))) =~= cs@.take(i + 1)
            + first_word(cs@.skip(i + 1)));
        i += 1;
    }
    let head = slice_subrange(cs, 0, i);
    let tail = slice_subrange(cs, i, cs.len());
    assert(first_word(cs@.skip(i as int)) =~= seq![]);
    assert(head@ =~= first_word(cs@));
    assert(tail@ =~= cs@.skip(i as int));
    (head, tail)
}

/// Cuts a slice before its last word.
pub fn cut_last_word(cs: &[char]) -> (r: (&[char], &[char]))
    ensures
        r.0@ == before_last_word(cs@),
        r.1@ == last_word(cs@),
{
    let mut n: usize = cs.len();
    assert(cs@.take(n as int) =~= cs@);
    assert(last_word(cs@) =~= last_word(cs@.take(n as int)) + cs@.skip(n as int));
    while n > 0 && !is_whitespace(cs[n - 1])
        invariant
            n <= cs@.len(),
            last_word(cs@) == last_word(cs@.take(n as int)) + cs@.skip(n as int),
        decreases n,
    {
        let ghost front = cs@.take(n as int);
        assert(front.drop_last() =~= cs@.take(n - 1));
        assert(last_word(front.drop_last()).push(front.last()) + cs@.skip(n as int) =~= last_word(
            cs@.take(n - 1),
        ) + cs@.skip(n - 1));
        n -= 1;
    }
    let head = slice_subrange(cs, 0, n);
    let tail = slice_subrange(cs, n, cs.len());
    assert(last_word(cs@.take(n as int)) =~= seq![]);
    assert(tail@ =~= last_word(cs@));
    assert(head@ =~= before_last_word(cs@));
    (head, tail)
}

/// The position of the first occurrence of a character.
pub open spec fn first_index(s: Seq<char>, c: char) -> Option<int>
    decreases s.len(),
{
    if s.len() == 0 {
        None
    } else if s[0] == c {
        Some(0)
    } else {
        match first_index(s.skip(1), c) {
            Some(i) => Some(i + 1),
            None => None,
        }
    }
}

/// The position of the last occurrence of a character.
pub open spec fn last_index(s: Seq<char>, c: char) -> Option<int>
    decreases s.len(),
{
    if s.len() == 0 {
        None
    } else if s.last() == c {
        Some(s.len() - 1)
    } else {
        last_index(s.drop_last(), c)
    }
}

/// The position is one where the character stands, and it stands nowhere before it.
pub proof fn lemma_first_index(s: Seq<char>, c: char)
    ensures
        match first_index(s, c) {
            Some(i) => 0 <= i < s.len() && s[i] == c && forall|j: int|
                0 <= j < i ==> #[trigger] s[j] != c,
            None => !s.contains(c),
        },
    decreases s.len(),
{
    if s.len() > 0 && s[0] != c {
        lemma_first_index(s.skip(1), c);
        match first_index(s.skip(1), c) {
            Some(i) => {
                assert(s.skip(1)[i] == s[i + 1]);
                assert forall|j: int| 0 <= j < i + 1 implies #[trigger] s[j] != c by {
                    if j > 0 {
                        assert(s.skip(1)[j - 1] == s[j]);
                    }
                }
            },
            None => {
                assert forall|j: int| 0 <= j < s.len() implies s[j] != c by {
                    if j > 0 {
                        assert(s.skip(1)[j - 1] == s[j]);
                    }
                }
            },
        }
    }
}

/// The position is one where the character stands, and it stands nowhere after it.
pub proof fn lemma_last_index(s: Seq<char>, c: char)
    ensures
        match last_index(s, c) {
            Some(i) => 0 <= i < s.len() && s[i] == c && forall|j: int|
                i < j < s.len() ==> #[trigger] s[j] != c,
            None => !s.contains(c),
        },
    decreases s.len(),
{
    if s.len() > 0 && s.last() != c {
        lemma_last_index(s.drop_last(), c);
        match last_index(s.drop_last(), c) {
            Some(i) => {
                assert(s.drop_last()[i] == s[i]);
                assert forall|j: int| i < j < s.len() implies #[trigger] s[j] != c by {
                    if j < s.len() - 1 {
                        assert(s.drop_last()[j] == s[j]);
                    }
                }
            },
            None => {
                assert forall|j: int| 0 <= j < s.len() implies s[j] != c by {
                    if j < s.len() - 1 {
                        assert(s.drop_last()[j] == s[j]);
                    }
                }
            },
        }
    }
}

/// The position of the first occurrence of a character, if it occurs.
pub fn find_char(cs: &[char], c: char) -> (r: Option<usize>)
    ensures
        match r {
            Some(i) => first_index(cs@, c) == Some(i as int) && i < cs@.len(),
            None => first_index(cs@, c) is None,
        },
{
    proof {
        lemma_first_index(cs@, c);
    }
    for i in 0..cs.len()
        invariant
            forall|j: int| 0 <= j < i ==> #[trigger] cs@[j] != c,
            match first_index(cs@, c) {
                Some(i) => 0 <= i < cs@.len() && cs@[i] == c && forall|j: int|
                    0 <= j < i ==> #[trigger] cs@[j] != c,
                None => !cs@.contains(c),
            },
    {
        if cs[i] == c {
            return Some(i);
        }
    }
    None
}

/// The position of the last occurrence of a character, if it occurs.
pub fn rfind_char(cs: &[char], c: char) -> (r: Option<usize>)
    ensures
        match r {
            Some(i) => last_index(cs@, c) == Some(i as int) && i < cs@.len(),
            None => last_index(cs@, c) is None,
        },
{
    proof {
        lemma_last_index(cs@, c);
    }
    let mut n: usize = cs.len();
    while n > 0
        invariant
            n <= cs@.len(),
            forall|j: int| n <= j < cs@.len() ==> #[trigger] cs@[j] != c,
            match last_index(cs@, c) {
                Some(i) => 0 <= i < cs@.len() && cs@[i] == c && forall|j: int|
                    i < j < cs@.len() ==> #[trigger] cs@[j] != c,
                None => !cs@.contains(c),
            },
        decreases n,
    {
        n -= 1;
        if cs[n] == c {
            return Some(n);
        }
    }
    None
}

/// Whether the sequence starts with the prefix.
pub open spec fn starts_with(s: Seq<char>, prefix: Seq<char>) -> bool {
    prefix.len() <= s.len() && s.take(prefix.len() as int) == prefix
}

/// The slice behind a prefix, if it starts with the prefix.
pub fn strip_prefix<'a>(cs: &'a [char], prefix: &str) -> (r: Option<&'a [char]>)
    ensures
        match r {
            Some(rest) => starts_with(cs@, prefix@) && rest@ == cs@.skip(prefix@.len() as int),
            None => !starts_with(cs@, prefix@),
        },
{
    let n: usize = prefix.unicode_len();
    if n > cs.len() {
        return None;
    }
    if spells(slice_subrange(cs, 0, n), prefix) {
        let rest = slice_subrange(cs, n, cs.len());
        assert(rest@ =~= cs@.skip(n as int));
        Some(rest)
    } else {
        None
    }
}

/// The sequence with its ASCII capitals made small.
pub open spec fn lowered(s: Seq<char>) -> Seq<char> {
    s.map_values(|c: char| lowered_char(c))
}

/// The character, made small if it is an ASCII capital.
pub open spec fn lowered_char(c: char) -> char {
    if 'A' <= c <= 'Z' {
        (c as u8 + 32) as u8 as char
    } else {
        c
    }
}

/// The small form of an ASCII capital; any other character stays.
fn lower_char(c: char) -> (r: char)
    ensures
        r == lowered_char(c),
{
    if 'A' <= c && c <= 'Z' {
        (c as u8 + 32) as char
    } else {
        c
    }
}

/// The characters with ASCII capitals made small.
pub fn lower_chars(cs: &[char]) -> (r: Vec<char>)
    ensures
        r@ == lowered(cs@),
{
    let mut out: Vec<char> = Vec::new();
    for i in 0..cs.len()
        invariant
            out@ == lowered(cs@.take(i as int)),
    {
        out.push(lower_char(cs[i]));
        assert(lowered(cs@.take(i + 1)) =~= lowered(cs@.take(i as int)).push(lowered_char(cs@[i as int])));
    }
    assert(cs@.take(cs@.len() as int) =~= cs@);
    out
}

/// ASCII-lowercases a string, for case-insensitive matching. The filesystem is itself
/// case-insensitive in ASCII only, so nothing more is needed.
pub fn lower(s: &str) -> (r: String)
    ensures
        r@ == lowered(s@),
{
    let cs = chars_of(s);
    let low = lower_chars(&cs);
    string_of(&low)
}

/// Blanks in front of a text do not change what trimming its start leaves.
pub proof fn lemma_blanks_in_front(before: Seq<char>, s: Seq<char>)
    requires
        all_whitespace(before),
    ensures
        trimmed_start(before + s) == trimmed_start(s),
    decreases before.len(),
{
    if before.len() == 0 {
        assert(before + s =~= s);
    } else {
        let rest = before.skip(1);
        assert forall|i: int| 0 <= i < rest.len() implies whitespace(#[trigger] rest[i]) by {
            assert(rest[i] == before[i + 1]);
        }
        assert((before + s).skip(1) =~= rest + s);
        assert((before + s)[0] == before[0]);
        assert(whitespace(before[0]));
        lemma_blanks_in_front(rest, s);
    }
}

/// Trimming takes off the blanks around a text and nothing else, whatever stands within it.
pub proof fn law_trimming_takes_off_just_the_blanks(
    before: Seq<char>,
    s: Seq<char>,
    after: Seq<char>,
)
    requires
        all_whitespace(before),
        all_whitespace(after),
        s.len() > 0 ==> !whitespace(s[0]) && !whitespace(s.last()),
    ensures
        trimmed(before + s + after) == s,
{
    assert(before + s + after =~= before + (s + after));
    lemma_blanks_in_front(before, s + after);
    if s.len() == 0 {
        assert(s + after =~= after);
        lemma_blanks_in_front(after, seq![]);
        assert(after + seq![] =~= after);
        assert(trimmed(before + s + after) =~= s);
    } else {
        assert((s + after)[0] == s[0]);
        lemma_trimmed_end_padded(s, after);
    }
}

/// A word in front of a blank, or at the end, is the first word.
pub proof fn law_the_first_word_ends_at_a_blank(word: Seq<char>, rest: Seq<char>)
    requires
        no_whitespace(word),
        rest.len() > 0 ==> whitespace(rest[0]),
    ensures
        first_word(word + rest) == word,
        after_first_word(word + rest) == rest,
    decreases word.len(),
{
    let all = word + rest;
    if word.len() == 0 {
        assert(all =~= rest);
        assert(first_word(all) =~= word);
    } else {
        let tail = word.skip(1);
        assert forall|i: int| 0 <= i < tail.len() implies !whitespace(#[trigger] tail[i]) by {
            assert(tail[i] == word[i + 1]);
        }
        assert(all.skip(1) =~= tail + rest);
        assert(all[0] == word[0] && !whitespace(word[0]));
        law_the_first_word_ends_at_a_blank(tail, rest);
        assert(first_word(all) =~= word);
    }
    assert(all.skip(word.len() as int) =~= rest);
}

/// A prefix is what a text starts with, and taking it off leaves what stands behind it.
pub proof fn law_a_prefix_is_what_a_text_starts_with(prefix: Seq<char>, rest: Seq<char>, s: Seq<char>)
    ensures
        starts_with(prefix + rest, prefix),
        (prefix + rest).skip(prefix.len() as int) == rest,
        starts_with(s, prefix) ==> s == prefix + s.skip(prefix.len() as int),
{
    assert((prefix + rest).take(prefix.len() as int) =~= prefix);
    assert((prefix + rest).skip(prefix.len() as int) =~= rest);
    if starts_with(s, prefix) {
        assert(s =~= prefix + s.skip(prefix.len() as int));
    }
}

/// Lowering goes letter by letter: the capitals of ASCII become the letters 32 places on, and every
/// other character stays, at every place of a text of any length.
pub proof fn law_lowering_goes_letter_by_letter(s: Seq<char>)
    ensures
        lowered(s).len() == s.len(),
        forall|i: int|
            #![trigger lowered(s)[i]]
            0 <= i < s.len() ==> lowered(s)[i] as int == if 65 <= s[i] as int <= 90 {
                s[i] as int + 32
            } else {
                s[i] as int
            },
{
}

} // verus!
