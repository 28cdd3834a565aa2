//! Searching: byte patterns in files and substrings in names.

use vstd::prelude::*;
use vstd::slice::slice_subrange;

use crate::number;
use crate::number::to_digit;
use crate::text;
use crate::text::{chars_of, is_whitespace};

verus! {

/// The needle stands in the haystack at this position.
pub open spec fn occurs_at<T>(hay: Seq<T>, needle: Seq<T>, i: int) -> bool {
    0 <= i && i + needle.len() <= hay.len() && hay.subrange(i, i + needle.len()) == needle
}

/// The needle stands somewhere in the haystack.
pub open spec fn occurs_in<T>(hay: Seq<T>, needle: Seq<T>) -> bool {
    exists|i: int| #[trigger] occurs_at(hay, needle, i)
}

/// The first position at which a needle stands in the haystack. An empty needle stands nowhere.
pub open spec fn first_occurrence<T>(hay: Seq<T>, needle: Seq<T>) -> Option<int>
    decreases hay.len(),
{
    if needle.len() == 0 || needle.len() > hay.len() {
        None
    } else if occurs_at(hay, needle, 0) {
        Some(0)
    } else {
        match first_occurrence(hay.skip(1), needle) {
            Some(i) => Some(i + 1),
            None => None,
        }
    }
}

/// The first occurrence is an occurrence, no other comes before it, and it is there whenever the
/// needle is not empty and occurs at all.
pub proof fn law_the_first_occurrence_is_the_first<T>(hay: Seq<T>, needle: Seq<T>)
    ensures
        match first_occurrence(hay, needle) {
            Some(i) => needle.len() > 0 && occurs_at(hay, needle, i) && forall|j: int|
                0 <= j < i ==> !#[trigger] occurs_at(hay, needle, j),
            None => needle.len() == 0 || !occurs_in(hay, needle),
        },
    decreases hay.len(),
{
    if needle.len() == 0 || needle.len() > hay.len() || occurs_at(hay, needle, 0) {
    } else {
        law_the_first_occurrence_is_the_first(hay.skip(1), needle);
        assert forall|j: int| 1 <= j implies #[trigger] occurs_at(hay, needle, j) == occurs_at(
            hay.skip(1),
            needle,
            j - 1,
        ) by {
            if j + needle.len() <= hay.len() {
                assert(hay.skip(1).subrange(j - 1, j - 1 + needle.len()) =~= hay.subrange(
                    j,
                    j + needle.len(),
                ));
            }
        }
        match first_occurrence(hay.skip(1), needle) {
            Some(i) => {
                assert(occurs_at(hay.skip(1), needle, i + 1 - 1));
                assert(occurs_at(hay, needle, i + 1));
                assert forall|j: int| 0 <= j < i + 1 implies !#[trigger] occurs_at(
                    hay,
                    needle,
                    j,
                ) by {
                    if j >= 1 {
                        assert(!occurs_at(hay.skip(1), needle, j - 1));
                    }
                }
            },
            None => {
                assert forall|j: int| !#[trigger] occurs_at(hay, needle, j) by {
                    if j >= 1 {
                        assert(!occurs_at(hay.skip(1), needle, j - 1));
                    }
                }
            },
        }
    }
}

/// Whether two runs of bytes are the same.
fn same_bytes(a: &[u8], b: &[u8]) -> (r: bool)
    ensures
        r == (a@ == b@),
{
    if a.len() != b.len() {
        return false;
    }
    for i in 0..a.len()
        invariant
            a@.len() == b@.len(),
            forall|j: int| 0 <= j < i ==> a@[j] == b@[j],
    {
        if a[i] != b[i] {
            return false;
        }
    }
    assert(a@ =~= b@);
    true
}

/// The offset of the first occurrence of `needle` in `hay`, if any.
pub fn find_bytes(hay: &[u8], needle: &[u8]) -> (r: Option<usize>)
    ensures
        match r {
            Some(i) => first_occurrence(hay@, needle@) == Some(i as int),
            None => first_occurrence(hay@, needle@) is None,
        },
{
    proof {
        law_the_first_occurrence_is_the_first(hay@, needle@);
    }
    if needle.len() == 0 || needle.len() > hay.len() {
        return None;
    }
    let total: usize = hay.len();
    let last: usize = total - needle.len();
    let mut i: usize = 0;
    while i <= last
        invariant
            total == hay@.len(),
            last + needle@.len() == total,
            needle@.len() > 0,
            i <= last + 1,
            forall|j: int| 0 <= j < i ==> !#[trigger] occurs_at(hay@, needle@, j),
            match first_occurrence(hay@, needle@) {
                Some(i) => needle@.len() > 0 && occurs_at(hay@, needle@, i) && forall|j: int|
                    0 <= j < i ==> !#[trigger] occurs_at(hay@, needle@, j),
                None => needle@.len() == 0 || !occurs_in(hay@, needle@),
            },
        decreases last + 1 - i,
    {
        if same_bytes(slice_subrange(hay, i, i + needle.len()), needle) {
            assert(occurs_at(hay@, needle@, i as int));
            return Some(i);
        }
        i += 1;
    }
    None
}

/// Whether a run of characters holds another one.
pub fn contains_chars(hay: &[char], needle: &[char]) -> (r: bool)
    ensures
        r == occurs_in(hay@, needle@),
{
    if needle.len() > hay.len() {
        return false;
    }
    let total: usize = hay.len();
    let last: usize = total - needle.len();
    for i in 0..total
        invariant
            total == hay@.len(),
            last + needle@.len() == total,
            forall|j: int| 0 <= j < i ==> !#[trigger] occurs_at(hay@, needle@, j),
    {
        if i > last {
            return false;
        }
        let mut same = true;
        for k in 0..needle.len()
            invariant
                i <= last,
                total == hay@.len(),
                last + needle@.len() == total,
                same <==> forall|m: int| 0 <= m < k ==> #[trigger] hay@[i + m] == needle@[m],
        {
            if hay[i + k] != needle[k] {
                same = false;
            }
        }
        if same {
            assert forall|m: int| 0 <= m < needle@.len() implies hay@.subrange(
                i as int,
                i + needle@.len(),
            )[m] == needle@[m] by {
                assert(hay@[i + m] == needle@[m]);
            }
            assert(hay@.subrange(i as int, i + needle@.len()) =~= needle@);
            assert(occurs_at(hay@, needle@, i as int));
            return true;
        } else {
            assert(!occurs_at(hay@, needle@, i as int)) by {
                if occurs_at(hay@, needle@, i as int) {
                    assert forall|m: int| 0 <= m < needle@.len() implies #[trigger] hay@[i + m]
                        == needle@[m] by {
                        assert(hay@.subrange(i as int, i + needle@.len())[m] == needle@[m]);
                    }
                }
            }
        }
    }
    if needle.len() == 0 {
        assert(hay@.subrange(0, 0) =~= needle@);
        assert(occurs_at(hay@, needle@, 0));
        return true;
    }
    false
}

/// The sequence without its white space.
pub open spec fn without_whitespace(s: Seq<char>) -> Seq<char>
    decreases s.len(),
{
    if s.len() == 0 {
        seq![]
    } else if text::whitespace(s.last()) {
        without_whitespace(s.drop_last())
    } else {
        without_whitespace(s.drop_last()).push(s.last())
    }
}

/// The byte that a pair of hexadecimal digits spells.
pub open spec fn hex_pair(hi: char, lo: char) -> u8 {
    (number::digit_value(hi, 16)->0 * 16 + number::digit_value(lo, 16)->0) as u8
}

/// The bytes that a text spells as hexadecimal digit pairs, white space apart. There are none
/// where a digit has no partner or a character is no digit.
pub open spec fn hex_bytes(s: Seq<char>) -> Option<Seq<u8>> {
    let d = without_whitespace(s);
    if d.len() % 2 == 0 && number::all_digits(d, 16) {
        Some(Seq::new(d.len() / 2, |i: int| hex_pair(d[2 * i], d[2 * i + 1])))
    } else {
        None
    }
}

/// Parses a run of hex digit pairs, held in a slice of characters, into bytes.
pub fn parse_hex_chars(cs: &[char]) -> (r: Option<Vec<u8>>)
    ensures
        match r {
            Some(v) => hex_bytes(cs@) == Some(v@),
            None => hex_bytes(cs@) is None,
        },
{
    let mut digits: Vec<char> = Vec::new();
    for i in 0..cs.len()
        invariant
            digits@ == without_whitespace(cs@.take(i as int)),
    {
        assert(cs@.take(i + 1).drop_last() =~= cs@.take(i as int));
        if !is_whitespace(cs[i]) {
            digits.push(cs[i]);
        }
    }
    assert(cs@.take(cs@.len() as int) =~= cs@);
    if digits.len() % 2 != 0 {
        return None;
    }
    let total: usize = digits.len();
    let n: usize = total / 2;
    let mut out: Vec<u8> = Vec::new();
    for i in 0..n
        invariant
            digits@ == without_whitespace(cs@),
            digits@.len() == total,
            total == 2 * n,
            number::all_digits(digits@.take(2 * i), 16),
            out@ == Seq::new(i as nat, |j: int| hex_pair(digits@[2 * j], digits@[2 * j + 1])),
    {
        let hi = match to_digit(digits[2 * i], 16) {
            Some(v) => v,
            None => {
                return None;
            },
        };
        let lo = match to_digit(digits[2 * i + 1], 16) {
            Some(v) => v,
            None => {
                return None;
            },
        };
        out.push((hi * 16 + lo) as u8);
        assert forall|j: int| 0 <= j < 2 * (i + 1) implies number::digit_value(
            #[trigger] digits@.take(2 * (i + 1))[j],
            16,
        ) is Some by {
            if j < 2 * i {
                assert(digits@.take(2 * i)[j] == digits@[j]);
            }
        }
        assert(out@ =~= Seq::new(
            (i + 1) as nat,
            |j: int| hex_pair(digits@[2 * j], digits@[2 * j + 1]),
        ));
    }
    assert(digits@.take(2 * n) =~= digits@);
    Some(out)
}

/// Parses a run of hex digit pairs into bytes: `"66871f10"` gives `[0x66, 0x87, 0x1f, 0x10]`.
/// White space is allowed between pairs, so a pattern can be pasted with spaces.
pub fn parse_hex(s: &str) -> (r: Option<Vec<u8>>)
    ensures
        match r {
            Some(v) => hex_bytes(s@) == Some(v@),
            None => hex_bytes(s@) is None,
        },
{
    let cs = chars_of(s);
    parse_hex_chars(&cs)
}

/// The bytes as hexadecimal digit pairs.
pub open spec fn spelled(bytes: Seq<u8>) -> Seq<char> {
    Seq::new(
        2 * bytes.len(),
        |i: int|
            if i % 2 == 0 {
                number::digit_char(bytes[i / 2] as int / 16)
            } else {
                number::digit_char(bytes[i / 2] as int % 16)
            },
    )
}

/// A sequence that holds no white space stays as it is.
proof fn lemma_nothing_to_drop(s: Seq<char>)
    requires
        text::no_whitespace(s),
    ensures
        without_whitespace(s) == s,
    decreases s.len(),
{
    if s.len() > 0 {
        assert(!text::whitespace(s[s.len() - 1]));
        assert forall|i: int| 0 <= i < s.drop_last().len() implies !text::whitespace(
            #[trigger] s.drop_last()[i],
        ) by {
            assert(s.drop_last()[i] == s[i]);
        }
        lemma_nothing_to_drop(s.drop_last());
        assert(s.drop_last().push(s.last()) =~= s);
    } else {
        assert(without_whitespace(s) =~= s);
    }
}

/// Bytes spelled as hexadecimal digit pairs are read back.
pub proof fn law_spelled_bytes_are_read_back(bytes: Seq<u8>)
    ensures
        hex_bytes(spelled(bytes)) == Some(bytes),
{
    let s = spelled(bytes);
    assert forall|i: int| 0 <= i < s.len() implies !text::whitespace(#[trigger] s[i])
        && number::digit_value(s[i], 16) == Some(
        if i % 2 == 0 {
            bytes[i / 2] as int / 16
        } else {
            bytes[i / 2] as int % 16
        },
    ) by {
        let b = bytes[i / 2] as int;
        assert(0 <= b < 256);
    }
    lemma_nothing_to_drop(s);
    let read = hex_bytes(s)->0;
    assert forall|i: int| 0 <= i < bytes.len() implies #[trigger] read[i] == bytes[i] by {
        assert((2 * i) / 2 == i && (2 * i + 1) / 2 == i);
        assert(number::digit_value(s[2 * i], 16) == Some(bytes[i] as int / 16));
        assert(number::digit_value(s[2 * i + 1], 16) == Some(bytes[i] as int % 16));
    }
    assert(read =~= bytes);
}

/// White space drops out of each of two texts alike.
proof fn lemma_blanks_drop_out(a: Seq<char>, b: Seq<char>)
    ensures
        without_whitespace(a + b) == without_whitespace(a) + without_whitespace(b),
    decreases b.len(),
{
    if b.len() == 0 {
        assert(a + b =~= a);
        assert(without_whitespace(a) + without_whitespace(b) =~= without_whitespace(a));
    } else {
        assert((a + b).drop_last() =~= a + b.drop_last());
        assert((a + b).last() == b.last());
        lemma_blanks_drop_out(a, b.drop_last());
        assert(without_whitespace(a + b) =~= without_whitespace(a) + without_whitespace(b));
    }
}

proof fn lemma_all_drops_out(s: Seq<char>)
    requires
        text::all_whitespace(s),
    ensures
        without_whitespace(s) == Seq::<char>::empty(),
    decreases s.len(),
{
    if s.len() > 0 {
        assert(text::whitespace(s[s.len() - 1]));
        assert forall|i: int| 0 <= i < s.drop_last().len() implies text::whitespace(
            #[trigger] s.drop_last()[i],
        ) by {
            assert(s.drop_last()[i] == s[i]);
        }
        lemma_all_drops_out(s.drop_last());
    }
}

/// Hexadecimal bytes are read pair by pair, wherever blanks stand: a pair is sixteen times its first
/// digit and its second, a character that is no digit spoils the whole, and so does a digit without
/// a partner.
pub proof fn law_hex_is_read_pair_by_pair(
    before: Seq<char>,
    hi: char,
    between: Seq<char>,
    lo: char,
    rest: Seq<char>,
)
    requires
        text::all_whitespace(before),
        !text::whitespace(hi),
        text::all_whitespace(between),
        !text::whitespace(lo),
    ensures
        hex_bytes(before) == Some(Seq::<u8>::empty()),
        hex_bytes(before + seq![hi] + between) is None,
        hex_bytes(before + seq![hi] + between + seq![lo] + rest) == match (
            number::digit_value(hi, 16),
            number::digit_value(lo, 16),
            hex_bytes(rest),
        ) {
            (Some(a), Some(b), Some(bytes)) => Some(seq![(a * 16 + b) as u8] + bytes),
            _ => None,
        },
{
    lemma_all_drops_out(before);
    lemma_all_drops_out(between);
    let h = seq![hi];
    let l = seq![lo];
    assert(h.drop_last() =~= seq![]);
    assert(l.drop_last() =~= seq![]);
    assert(without_whitespace(seq![]) =~= seq![]);
    assert(without_whitespace(h) =~= h);
    assert(without_whitespace(l) =~= l);
    lemma_blanks_drop_out(before, h);
    lemma_blanks_drop_out(before + h, between);
    lemma_blanks_drop_out(before + h + between, l);
    lemma_blanks_drop_out(before + h + between + l, rest);
    let r = without_whitespace(rest);
    let d = without_whitespace(before + h + between + l + rest);
    assert(without_whitespace(before + h + between) =~= h);
    assert(d =~= seq![hi, lo] + r);
    let got = hex_bytes(before + h + between + l + rest);
    assert(hex_bytes(before)->0 =~= Seq::<u8>::empty());
    assert(number::all_digits(d, 16) <==> number::digit_value(hi, 16) is Some
        && number::digit_value(lo, 16) is Some && number::all_digits(r, 16)) by {
        assert(d[0] == hi && d[1] == lo);
        assert forall|i: int| 0 <= i < r.len() implies r[i] == #[trigger] d[i + 2] by {}
        if number::all_digits(d, 16) {
            assert forall|i: int| 0 <= i < r.len() implies number::digit_value(
                #[trigger] r[i],
                16,
            ) is Some by {
                assert(r[i] == d[i + 2]);
            }
        }
        if number::digit_value(hi, 16) is Some && number::digit_value(lo, 16) is Some
            && number::all_digits(r, 16) {
            assert forall|i: int| 0 <= i < d.len() implies number::digit_value(
                #[trigger] d[i],
                16,
            ) is Some by {
                if i >= 2 {
                    assert(d[i] == r[i - 2]);
                }
            }
        }
    }
    if got is Some {
        let a = number::digit_value(hi, 16)->0;
        let b = number::digit_value(lo, 16)->0;
        assert(hex_bytes(rest) is Some);
        let bytes = hex_bytes(rest)->0;
        let want = seq![(a * 16 + b) as u8] + bytes;
        assert(got->0.len() == want.len());
        assert forall|i: int| 0 <= i < want.len() implies got->0[i] == want[i] by {
            if i > 0 {
                assert(d[2 * i] == r[2 * (i - 1)]);
                assert(d[2 * i + 1] == r[2 * (i - 1) + 1]);
            }
        }
        assert(got->0 =~= want);
    }
}

/// Something stands in a row just where, with something before it and something behind it, it is
/// the whole row; and nothing at all is never found.
pub proof fn law_what_stands_in_a_row_is_found<T>(
    hay: Seq<T>,
    before: Seq<T>,
    needle: Seq<T>,
    behind: Seq<T>,
    i: int,
)
    ensures
        occurs_at(before + needle + behind, needle, before.len() as int),
        occurs_in(before + needle + behind, needle),
        needle.len() > 0 ==> first_occurrence(before + needle + behind, needle) is Some,
        needle.len() == 0 ==> first_occurrence(hay, needle) is None,
        occurs_at(hay, needle, i) ==> 0 <= i && i + needle.len() <= hay.len() && hay == hay.take(i)
            + needle + hay.skip(i + needle.len()),
        occurs_in(hay, needle) ==> exists|j: int| #[trigger] occurs_at(hay, needle, j),
        first_occurrence(hay, needle) matches Some(j) ==> {
            &&& occurs_at(hay, needle, j)
            &&& forall|k: int| 0 <= k < j ==> !#[trigger] occurs_at(hay, needle, k)
        },
{
    let row = before + needle + behind;
    let n = before.len() as int;
    assert(row.subrange(n, n + needle.len()) =~= needle);
    assert(occurs_at(row, needle, n));
    law_the_first_occurrence_is_the_first(row, needle);
    law_the_first_occurrence_is_the_first(hay, needle);
    if occurs_at(hay, needle, i) {
        let here = hay.subrange(i, i + needle.len());
        assert(hay =~= hay.take(i) + here + hay.skip(i + needle.len()));
    }
}

} // verus!
