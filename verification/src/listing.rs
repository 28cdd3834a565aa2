//! Directory listings: NUL-separated names in UTF-16, as the file server hands them over.

use vstd::prelude::*;
use vstd::slice::slice_subrange;

use crate::text::chars_of;
use crate::text::push_chars;

verus! {

/// `char::from_u32` gives the character of a Unicode scalar value, and nothing for any other
/// number.
pub assume_specification[ char::from_u32 ](v: u32) -> (r: Option<char>)
    ensures
        r == if vstd::utf8::is_scalar(v) {
            Some(v as char)
        } else {
            None
        },
;

/// The character that stands for what is no valid UTF-16.
pub const REPLACEMENT: char = '\u{fffd}';

/// The first half of a surrogate pair.
pub open spec fn high_surrogate(u: u16) -> bool {
    0xd800 <= u <= 0xdbff
}

/// The second half of a surrogate pair.
pub open spec fn low_surrogate(u: u16) -> bool {
    0xdc00 <= u <= 0xdfff
}

/// The scalar value of a surrogate pair.
pub open spec fn pair_value(hi: u16, lo: u16) -> u32 {
    (0x1_0000 + (hi - 0xd800) * 0x400 + (lo - 0xdc00)) as u32
}

/// The text of a run of UTF-16 units. A surrogate without its partner becomes the replacement
/// character.
pub open spec fn decoded(units: Seq<u16>) -> Seq<char>
    decreases units.len(),
{
    if units.len() == 0 {
        seq![]
    } else if high_surrogate(units[0]) && units.len() > 1 && low_surrogate(units[1]) {
        seq![pair_value(units[0], units[1]) as char] + decoded(units.skip(2))
    } else if high_surrogate(units[0]) || low_surrogate(units[0]) {
        seq![REPLACEMENT] + decoded(units.skip(1))
    } else {
        seq![units[0] as char] + decoded(units.skip(1))
    }
}

/// The number of units before the first NUL.
pub open spec fn name_len(buf: Seq<u16>) -> int
    decreases buf.len(),
{
    if buf.len() == 0 || buf[0] == 0 {
        0
    } else {
        1 + name_len(buf.skip(1))
    }
}

/// The buffer behind the first name and the NUL that ends it.
pub open spec fn after_name(buf: Seq<u16>) -> Seq<u16> {
    if name_len(buf) < buf.len() {
        buf.skip(name_len(buf) + 1)
    } else {
        seq![]
    }
}

/// The names of a listing: as many as are counted, or as the buffer holds if that is fewer.
pub open spec fn names(buf: Seq<u16>, count: nat) -> Seq<Seq<char>>
    decreases count,
{
    if count == 0 || buf.len() == 0 {
        seq![]
    } else {
        seq![decoded(buf.take(name_len(buf)))] + names(after_name(buf), (count - 1) as nat)
    }
}

/// The names as text, one to a line.
pub open spec fn lines(list: Seq<Seq<char>>) -> Seq<char>
    decreases list.len(),
{
    if list.len() == 0 {
        seq![]
    } else {
        lines(list.drop_last()) + list.last().push('\n')
    }
}

/// The strings' texts.
pub open spec fn texts(list: Seq<String>) -> Seq<Seq<char>> {
    list.map_values(|s: String| s@)
}

/// A name ends within the buffer, before the first NUL.
proof fn lemma_name_len(buf: Seq<u16>)
    ensures
        0 <= name_len(buf) <= buf.len(),
        forall|i: int| 0 <= i < name_len(buf) ==> #[trigger] buf[i] != 0,
        name_len(buf) < buf.len() ==> buf[name_len(buf)] == 0,
    decreases buf.len(),
{
    if buf.len() > 0 && buf[0] != 0 {
        lemma_name_len(buf.skip(1));
        assert forall|i: int| 0 <= i < name_len(buf) implies #[trigger] buf[i] != 0 by {
            if i > 0 {
                assert(buf.skip(1)[i - 1] == buf[i]);
            }
        }
    }
}

/// Decodes a run of UTF-16 units.
pub fn decode_utf16(units: &[u16]) -> (r: String)
    ensures
        r@ == decoded(units@),
{
    let mut out = String::new();
    let mut i: usize = 0;
    assert(units@.skip(0) =~= units@);
    while i < units.len()
        invariant
            i <= units@.len(),
            decoded(units@) == out@ + decoded(units@.skip(i as int)),
        decreases units@.len() - i,
    {
        let u = units[i];
        let ghost rest = units@.skip(i as int);
        let ghost before = out@;
        assert(rest.skip(1) =~= units@.skip(i + 1));
        if 0xd800 <= u && u <= 0xdbff && i + 1 < units.len() && 0xdc00 <= units[i + 1] && units[i
            + 1] <= 0xdfff {
            let lo = units[i + 1];
            let v: u32 = 0x1_0000 + (u as u32 - 0xd800) * 0x400 + (lo as u32 - 0xdc00);
            assert(v == pair_value(u, lo));
            assert(rest.skip(2) =~= units@.skip(i + 2));
            if let Some(c) = char::from_u32(v) {
                out.push(c);
                assert(before + (seq![c] + decoded(rest.skip(2))) =~= out@ + decoded(
                    units@.skip(i + 2),
                ));
            }
            i += 2;
        } else if 0xd800 <= u && u <= 0xdfff {
            out.push(REPLACEMENT);
            assert(before + (seq![REPLACEMENT] + decoded(rest.skip(1))) =~= out@ + decoded(
                units@.skip(i + 1),
            ));
            i += 1;
        } else {
            if let Some(c) = char::from_u32(u as u32) {
                out.push(c);
                assert(before + (seq![c] + decoded(rest.skip(1))) =~= out@ + decoded(
                    units@.skip(i + 1),
                ));
            }
            i += 1;
        }
    }
    assert(decoded(units@.skip(i as int)) =~= seq![]);
    assert(out@ =~= decoded(units@));
    out
}

/// The file server's NUL-separated listing, split into owned strings.
pub fn split_listing(buf: &[u16], count: usize) -> (r: Vec<String>)
    ensures
        texts(r@) == names(buf@, count as nat),
{
    let mut out: Vec<String> = Vec::new();
    let mut i: usize = 0;
    assert(buf@.skip(0) =~= buf@);
    assert(texts(out@) + names(buf@, count as nat) =~= names(buf@, count as nat));
    while out.len() < count && i < buf.len()
        invariant
            i <= buf@.len(),
            out@.len() <= count,
            names(buf@, count as nat) == texts(out@) + names(
                buf@.skip(i as int),
                (count - out@.len()) as nat,
            ),
        decreases buf@.len() - i,
    {
        let start: usize = i;
        let ghost rest = buf@.skip(start as int);
        proof {
            lemma_name_len(rest);
        }
        while i < buf.len() && buf[i] != 0
            invariant
                start <= i <= buf@.len(),
                rest == buf@.skip(start as int),
                forall|j: int| start <= j < i ==> #[trigger] buf@[j] != 0,
            decreases buf@.len() - i,
        {
            i += 1;
        }
        assert(name_len(rest) == i - start) by {
            if name_len(rest) < i - start {
                assert(rest[name_len(rest)] == buf@[start + name_len(rest)]);
            }
            if name_len(rest) > i - start {
                assert(rest[i - start] == buf@[i as int]);
            }
        }
        let name = decode_utf16(slice_subrange(buf, start, i));
        assert(buf@.subrange(start as int, i as int) =~= rest.take(name_len(rest)));
        let ghost before = texts(out@);
        out.push(name);
        assert(texts(out@) =~= before.push(name@));
        if i < buf.len() {
            i += 1;
        }
        assert(after_name(rest) =~= buf@.skip(i as int));
        assert(before + (seq![name@] + names(after_name(rest), (count - out@.len()) as nat))
            =~= texts(out@) + names(buf@.skip(i as int), (count - out@.len()) as nat));
    }
    assert(names(buf@.skip(i as int), (count - out@.len()) as nat) =~= seq![]);
    assert(texts(out@) =~= names(buf@, count as nat));
    out
}

/// Turns a listing into text, one entry to a line. Directory names arrive with a trailing `\`,
/// which is kept so the listing shows what can be entered.
pub fn decode_listing(buf: &[u16], count: usize) -> (r: String)
    ensures
        r@ == lines(names(buf@, count as nat)),
{
    let list = split_listing(buf, count);
    let mut s = String::new();
    for i in 0..list.len()
        invariant
            s@ == lines(texts(list@).take(i as int)),
    {
        let ghost front = texts(list@).take(i + 1);
        assert(front.drop_last() =~= texts(list@).take(i as int));
        let ghost before = s@;
        let cs = chars_of(&list[i]);
        push_chars(&mut s, &cs);
        s.push('\n');
        assert(s@ =~= before + front.last().push('\n'));
    }
    assert(texts(list@).take(list@.len() as int) =~= texts(list@));
    s
}

/// A listing never has more names than were counted.
pub proof fn law_a_listing_keeps_to_its_count(buf: Seq<u16>, count: nat)
    ensures
        names(buf, count).len() <= count,
        names(buf, count).len() <= buf.len(),
    decreases count,
{
    if count > 0 && buf.len() > 0 {
        lemma_name_len(buf);
        law_a_listing_keeps_to_its_count(after_name(buf), (count - 1) as nat);
    }
}

/// The units of a listing: each name followed by a NUL.
pub open spec fn packed(list: Seq<Seq<u16>>) -> Seq<u16>
    decreases list.len(),
{
    if list.len() == 0 {
        seq![]
    } else {
        list[0].push(0u16) + packed(list.skip(1))
    }
}

/// Names packed into a listing come back in order, whatever padding follows them.
pub proof fn law_packed_names_come_back(list: Seq<Seq<u16>>, padding: Seq<u16>)
    requires
        forall|i: int| 0 <= i < list.len() ==> !(#[trigger] list[i]).contains(0u16),
    ensures
        names(packed(list) + padding, list.len()) == list.map_values(|u: Seq<u16>| decoded(u)),
    decreases list.len(),
{
    if list.len() == 0 {
        assert(names(packed(list) + padding, 0) =~= list.map_values(|u: Seq<u16>| decoded(u)));
    } else {
        let buf = packed(list) + padding;
        let rest = packed(list.skip(1)) + padding;
        let n = list[0].len() as int;
        lemma_name_len(buf);
        assert(buf[n] == 0);
        assert forall|i: int| 0 <= i < n implies #[trigger] buf[i] != 0 by {
            assert(buf[i] == list[0][i]);
        }
        assert(name_len(buf) == n);
        assert(buf.take(n) =~= list[0]);
        assert(buf.skip(n + 1) =~= rest);
        assert(buf.len() > n);
        assert forall|i: int| 0 <= i < list.skip(1).len() implies !(#[trigger] list.skip(
            1,
        )[i]).contains(0u16) by {
            assert(list.skip(1)[i] == list[i + 1]);
        }
        assert(after_name(buf) == rest);
        law_packed_names_come_back(list.skip(1), padding);
        assert(names(buf, list.len()) =~= list.map_values(|u: Seq<u16>| decoded(u)));
    }
}

/// Wide text is decoded unit by unit: a unit that is no surrogate is a character by itself, two
/// surrogates in order are one character, and a surrogate without its partner is replaced.
pub proof fn law_wide_text_is_decoded_unit_by_unit(u: u16, lo: u16, rest: Seq<u16>)
    ensures
        decoded(seq![]) == Seq::<char>::empty(),
        u < 0xd800 || u > 0xdfff ==> {
            let all = decoded(seq![u] + rest);
            &&& all.len() == decoded(rest).len() + 1
            &&& all[0] as int == u as int
            &&& all.skip(1) == decoded(rest)
        },
        0xd800 <= u <= 0xdbff && 0xdc00 <= lo <= 0xdfff ==> {
            let all = decoded(seq![u, lo] + rest);
            &&& all.len() == decoded(rest).len() + 1
            &&& all[0] as int == 65536 + (u - 55296) * 1024 + (lo - 56320)
            &&& all.skip(1) == decoded(rest)
        },
        0xdc00 <= u <= 0xdfff || (0xd800 <= u <= 0xdbff && (rest.len() == 0 || rest[0] < 0xdc00
            || rest[0] > 0xdfff)) ==> decoded(seq![u] + rest) == seq!['\u{fffd}'] + decoded(rest),
{
    let one = seq![u] + rest;
    let two = seq![u, lo] + rest;
    assert(one.skip(1) =~= rest);
    assert(two.skip(2) =~= rest);
    if rest.len() > 0 {
        assert(one[1] == rest[0]);
    }
    if u < 0xd800 || u > 0xdfff {
        assert(decoded(one).skip(1) =~= decoded(rest));
    }
    if 0xd800 <= u <= 0xdbff && 0xdc00 <= lo <= 0xdfff {
        assert(decoded(two).skip(1) =~= decoded(rest));
        assert(two[0] == u && two[1] == lo);
    }
}

/// The names of a listing are those between the NULs, in order, as many as are counted and there,
/// for every count and every length.
pub proof fn law_names_stand_between_the_nuls(name: Seq<u16>, rest: Seq<u16>, count: nat)
    requires
        !name.contains(0u16),
    ensures
        names(name + seq![0u16] + rest, 0) == Seq::<Seq<char>>::empty(),
        names(seq![], count) == Seq::<Seq<char>>::empty(),
        names(name + seq![0u16] + rest, count + 1) == seq![decoded(name)] + names(rest, count),
        name.len() > 0 ==> names(name, count + 1) == seq![decoded(name)],
{
    let buf = name + seq![0u16] + rest;
    let n = name.len() as int;
    lemma_name_len(buf);
    lemma_name_len(name);
    assert(buf[n] == 0);
    assert forall|i: int| 0 <= i < n implies #[trigger] buf[i] != 0 by {
        assert(buf[i] == name[i]);
        assert(name.contains(name[i]));
    }
    assert(name_len(buf) == n);
    assert(buf.take(n) =~= name);
    assert(buf.skip(n + 1) =~= rest);
    if name.len() > 0 {
        assert(name_len(name) == n) by {
            if name_len(name) < n {
                assert(name.contains(name[name_len(name)]));
            }
        }
        assert(name.take(n) =~= name);
        assert(names(seq![], count) =~= seq![]);
        assert(names(name, count + 1) =~= seq![decoded(name)]);
    }
}

/// The lines of a list are its texts, each followed by a newline, in order.
pub proof fn law_every_text_is_a_line(list: Seq<Seq<char>>, text: Seq<char>)
    ensures
        lines(seq![]) == Seq::<char>::empty(),
        lines(list.push(text)) == lines(list) + text + seq!['\n'],
{
    assert(list.push(text).drop_last() =~= list);
    assert(lines(list) + text.push('\n') =~= lines(list) + text + seq!['\n']);
}

/// Names are packed one behind the other, each followed by a NUL.
pub proof fn law_a_packed_name_is_followed_by_a_nul(name: Seq<u16>, list: Seq<Seq<u16>>)
    ensures
        packed(seq![]) == Seq::<u16>::empty(),
        packed(seq![name] + list) == name + seq![0u16] + packed(list),
{
    assert((seq![name] + list).skip(1) =~= list);
}

} // verus!
