//! Numbers as text: reading them from a command line and writing them into a reply.

use vstd::prelude::*;
use vstd::slice::slice_subrange;

use crate::text;
use crate::text::{chars_of, push_chars, strip_prefix, trim};

verus! {

/// The value of a digit in the given radix: `0` to `9`, then letters of either case.
pub open spec fn digit_value(c: char, radix: int) -> Option<int> {
    let v = if '0' <= c <= '9' {
        c as int - '0' as int
    } else if 'a' <= c <= 'z' {
        c as int - 'a' as int + 10
    } else if 'A' <= c <= 'Z' {
        c as int - 'A' as int + 10
    } else {
        radix
    };
    if v < radix {
        Some(v)
    } else {
        None
    }
}

/// Every character of the sequence is a digit of the radix.
pub open spec fn all_digits(s: Seq<char>, radix: int) -> bool {
    forall|i: int| 0 <= i < s.len() ==> digit_value(#[trigger] s[i], radix) is Some
}

/// The number that a sequence of digits spells, most significant digit first.
pub open spec fn numeral_value(s: Seq<char>, radix: int) -> int
    decreases s.len(),
{
    if s.len() == 0 {
        0
    } else {
        numeral_value(s.drop_last(), radix) * radix + digit_value(s.last(), radix)->0
    }
}

/// A numeral without the one plus sign that may stand in front of it.
pub open spec fn unsigned_part(s: Seq<char>) -> Seq<char> {
    if s.len() > 0 && s[0] == '+' {
        s.skip(1)
    } else {
        s
    }
}

/// The number that a text spells: an optional plus sign, then at least one digit and nothing but
/// digits, for a value of at most `max`.
pub open spec fn parsed(s: Seq<char>, radix: int, max: int) -> Option<int> {
    let d = unsigned_part(s);
    if d.len() > 0 && all_digits(d, radix) && numeral_value(d, radix) <= max {
        Some(numeral_value(d, radix))
    } else {
        None
    }
}

/// A longer numeral is worth at least as much as its front.
proof fn lemma_numeral_value_grows(s: Seq<char>, k: int, radix: int)
    requires
        all_digits(s, radix),
        radix >= 1,
        0 <= k <= s.len(),
    ensures
        0 <= numeral_value(s.take(k), radix) <= numeral_value(s, radix),
    decreases s.len(),
{
    if s.len() == 0 {
    } else if k == s.len() {
        assert(s.take(k) =~= s);
        assert forall|i: int| 0 <= i < s.drop_last().len() implies digit_value(
            #[trigger] s.drop_last()[i],
            radix,
        ) is Some by {
            assert(s.drop_last()[i] == s[i]);
        }
        lemma_numeral_value_grows(s.drop_last(), k - 1, radix);
        assert(s.drop_last().take(k - 1) =~= s.drop_last());
        let front = numeral_value(s.drop_last(), radix);
        assert(front * radix >= 0) by (nonlinear_arith)
            requires
                front >= 0,
                radix >= 1,
        ;
        assert(digit_value(s[s.len() - 1], radix) is Some);
    } else {
        assert forall|i: int| 0 <= i < s.drop_last().len() implies digit_value(
            #[trigger] s.drop_last()[i],
            radix,
        ) is Some by {
            assert(s.drop_last()[i] == s[i]);
        }
        lemma_numeral_value_grows(s.drop_last(), k, radix);
        assert(s.drop_last().take(k) =~= s.take(k));
        let front = numeral_value(s.drop_last(), radix);
        assert(front * radix >= front) by (nonlinear_arith)
            requires
                front >= 0,
                radix >= 1,
        ;
        assert(digit_value(s[s.len() - 1], radix) is Some);
    }
}

/// What a text spells is within the bounds.
pub proof fn lemma_parsed_bounds(s: Seq<char>, radix: int, max: int)
    requires
        radix >= 1,
    ensures
        parsed(s, radix, max) matches Some(v) ==> 0 <= v <= max,
{
    let d = unsigned_part(s);
    if all_digits(d, radix) {
        lemma_numeral_value_grows(d, d.len() as int, radix);
        assert(d.take(d.len() as int) =~= d);
    }
}

/// The value of a digit in the given radix.
pub fn to_digit(c: char, radix: u32) -> (r: Option<u32>)
    requires
        2 <= radix <= 36,
    ensures
        match r {
            Some(v) => digit_value(c, radix as int) == Some(v as int) && v < radix,
            None => digit_value(c, radix as int) is None,
        },
{
    let v: u32 = if '0' <= c && c <= '9' {
        c as u32 - 48
    } else if 'a' <= c && c <= 'z' {
        c as u32 - 87
    } else if 'A' <= c && c <= 'Z' {
        c as u32 - 55
    } else {
        radix
    };
    if v < radix {
        Some(v)
    } else {
        None
    }
}

/// Reads a number of at most `max`: an optional plus sign, then digits only.
pub fn parse_radix(cs: &[char], radix: u32, max: u64) -> (r: Option<u64>)
    requires
        2 <= radix <= 36,
    ensures
        match r {
            Some(v) => parsed(cs@, radix as int, max as int) == Some(v as int) && v <= max,
            None => parsed(cs@, radix as int, max as int) is None,
        },
{
    let signed = cs.len() > 0 && cs[0] == '+';
    let from: usize = if signed {
        1
    } else {
        0
    };
    let d = slice_subrange(cs, from, cs.len());
    assert(d@ =~= unsigned_part(cs@));
    if d.len() == 0 {
        return None;
    }
    let mut acc: u64 = 0;
    assert(numeral_value(d@.take(0), radix as int) == 0);
    for i in 0..d.len()
        invariant
            2 <= radix <= 36,
            acc <= max,
            d@ == unsigned_part(cs@),
            all_digits(d@.take(i as int), radix as int),
            acc == numeral_value(d@.take(i as int), radix as int),
    {
        let digit = match to_digit(d[i], radix) {
            Some(v) => v,
            None => {
                assert(digit_value(d@[i as int], radix as int) is None);
                return None;
            },
        };
        let ghost front = d@.take(i + 1);
        assert(front.drop_last() =~= d@.take(i as int));
        assert forall|j: int| 0 <= j < front.len() implies digit_value(
            #[trigger] front[j],
            radix as int,
        ) is Some by {
            if j < i {
                assert(d@.take(i as int)[j] == front[j]);
            }
        }
        assert(acc * radix <= 18446744073709551615 * 36) by (nonlinear_arith)
            requires
                acc <= 18446744073709551615,
                radix <= 36,
        ;
        assert(acc * radix >= 0) by (nonlinear_arith)
            requires
                acc >= 0,
                radix >= 0,
        ;
        let next: u128 = acc as u128 * radix as u128 + digit as u128;
        assert(next == numeral_value(front, radix as int));
        if next > max as u128 {
            proof {
                if all_digits(d@, radix as int) {
                    lemma_numeral_value_grows(d@, i + 1, radix as int);
                }
            }
            return None;
        }
        acc = next as u64;
    }
    assert(d@.take(d@.len() as int) =~= d@);
    Some(acc)
}

/// Reads a `usize`, in decimal.
pub fn parse_usize(cs: &[char]) -> (r: Option<usize>)
    ensures
        match r {
            Some(v) => parsed(cs@, 10, usize::MAX as int) == Some(v as int),
            None => parsed(cs@, 10, usize::MAX as int) is None,
        },
{
    match parse_radix(cs, 10, usize::MAX as u64) {
        Some(v) => Some(v as usize),
        None => None,
    }
}

/// The character of a digit's value, in small letters above nine.
pub open spec fn digit_char(d: int) -> char {
    if d < 10 {
        ('0' as int + d) as u8 as char
    } else {
        ('a' as int + d - 10) as u8 as char
    }
}

/// The digits of a number, most significant first, with no leading zero.
pub open spec fn numeral(n: nat, radix: nat) -> Seq<char>
    decreases n,
{
    if radix < 2 || n < radix {
        seq![digit_char(n as int)]
    } else {
        proof {
            assert(n / radix < n) by (nonlinear_arith)
                requires
                    radix >= 2,
                    n >= radix,
            ;
        }
        numeral(n / radix, radix).push(digit_char((n % radix) as int))
    }
}

/// A number in decimal.
pub open spec fn dec(n: nat) -> Seq<char> {
    numeral(n, 10)
}

/// A number in hexadecimal.
pub open spec fn hex(n: nat) -> Seq<char> {
    numeral(n, 16)
}

/// An integer in decimal, with a minus sign where it is negative.
pub open spec fn dec_int(i: int) -> Seq<char> {
    if i < 0 {
        seq!['-'] + dec((-i) as nat)
    } else {
        dec(i as nat)
    }
}

/// The bits of a 32-bit integer, as an unsigned number.
pub open spec fn bits_of(i: i32) -> u32 {
    if i < 0 {
        (i + 0x1_0000_0000) as u32
    } else {
        i as u32
    }
}

/// A 32-bit integer in hexadecimal, by its two's complement.
pub open spec fn hex_i32(i: i32) -> Seq<char> {
    hex(bits_of(i) as nat)
}

/// A numeral with zeros in front, to at least the given width.
pub open spec fn zero_padded(s: Seq<char>, width: int) -> Seq<char> {
    if s.len() >= width {
        s
    } else {
        Seq::new((width - s.len()) as nat, |i: int| '0') + s
    }
}

/// A digit's character has the digit's value, and is neither a sign nor white space.
proof fn lemma_digit_char(d: int, radix: int)
    requires
        0 <= d < radix <= 16,
    ensures
        digit_value(digit_char(d), radix) == Some(d),
        !text::whitespace(digit_char(d)),
        digit_char(d) != '+',
        '0' <= digit_char(d) <= '9' || 'a' <= digit_char(d) <= 'f',
{
}

/// A number's numeral is not empty, is all digits and has the number as its value.
pub proof fn lemma_numeral(n: nat, radix: nat)
    requires
        2 <= radix <= 16,
    ensures
        numeral(n, radix).len() > 0,
        all_digits(numeral(n, radix), radix as int),
        numeral_value(numeral(n, radix), radix as int) == n,
        text::no_whitespace(numeral(n, radix)),
        forall|i: int| 0 <= i < numeral(n, radix).len() ==> #[trigger] numeral(n, radix)[i] != '+',
        forall|i: int|
            0 <= i < numeral(n, radix).len() ==> '0' <= #[trigger] numeral(n, radix)[i] <= '9'
                || 'a' <= numeral(n, radix)[i] <= 'f',
    decreases n,
{
    let s = numeral(n, radix);
    if n < radix {
        lemma_digit_char(n as int, radix as int);
        assert(s.drop_last() =~= seq![]);
        assert(numeral_value(s.drop_last(), radix as int) == 0);
        assert(0 * radix == 0);
    } else {
        let q = n / radix;
        assert(q < n && q * radix + n % radix == n && 0 <= n % radix < radix) by (nonlinear_arith)
            requires
                q == n / radix,
                radix >= 2,
                n >= radix,
        ;
        lemma_numeral(q, radix);
        lemma_digit_char((n % radix) as int, radix as int);
        let front = numeral(q, radix);
        assert(s.drop_last() =~= front);
        assert forall|i: int| 0 <= i < s.len() implies digit_value(#[trigger] s[i], radix as int) is Some
            && !text::whitespace(s[i]) && s[i] != '+' && ('0' <= s[i] <= '9' || 'a' <= s[i]
            <= 'f') by {
            if i < front.len() {
                assert(front[i] == s[i]);
            }
        }
    }
}

/// What is written as a numeral is read back as the same number, as long as it fits.
pub proof fn law_written_numbers_read_back(n: nat, radix: nat, max: nat)
    requires
        2 <= radix <= 16,
        n <= max,
    ensures
        parsed(numeral(n, radix), radix as int, max as int) == Some(n as int),
{
    lemma_numeral(n, radix);
}

/// The character of a digit's value.
fn to_char(d: u8) -> (r: char)
    requires
        d < 36,
    ensures
        r == digit_char(d as int),
{
    if d < 10 {
        (48 + d) as char
    } else {
        (87 + d) as char
    }
}

/// Appends a number in the given radix.
fn push_numeral(out: &mut String, n: u64, radix: u64)
    requires
        2 <= radix <= 16,
    ensures
        final(out)@ == old(out)@ + numeral(n as nat, radix as nat),
    decreases n,
{
    if n < radix {
        out.push(to_char(n as u8));
    } else {
        assert(n / radix < n && n % radix < radix) by (nonlinear_arith)
            requires
                radix >= 2,
                n >= radix,
        ;
        push_numeral(out, n / radix, radix);
        out.push(to_char((n % radix) as u8));
    }
}

/// Appends a number in decimal.
pub fn push_dec(out: &mut String, n: u64)
    ensures
        final(out)@ == old(out)@ + dec(n as nat),
{
    push_numeral(out, n, 10);
}

/// Appends a count in decimal.
pub fn push_count(out: &mut String, n: usize)
    ensures
        final(out)@ == old(out)@ + dec(n as nat),
{
    push_numeral(out, n as u64, 10);
}

/// Appends a number in hexadecimal.
pub fn push_hex(out: &mut String, n: u64)
    ensures
        final(out)@ == old(out)@ + hex(n as nat),
{
    push_numeral(out, n, 16);
}

/// Appends an integer in decimal.
pub fn push_int(out: &mut String, i: i32)
    ensures
        final(out)@ == old(out)@ + dec_int(i as int),
{
    if i < 0 {
        out.push('-');
        push_numeral(out, (-(i as i64)) as u64, 10);
    } else {
        push_numeral(out, i as u64, 10);
    }
}

/// The bits of a 32-bit integer, as an unsigned number.
pub fn to_bits(i: i32) -> (r: u32)
    ensures
        r == bits_of(i),
{
    if i < 0 {
        (i as i64 + 0x1_0000_0000) as u32
    } else {
        i as u32
    }
}

/// The 32-bit integer whose two's complement has these bits.
pub open spec fn signed(n: u32) -> i32 {
    if n < 0x8000_0000 {
        n as i32
    } else {
        (n - 0x1_0000_0000) as i32
    }
}

/// Reads bits as a 32-bit integer in two's complement.
pub fn from_bits(n: u32) -> (r: i32)
    ensures
        r == signed(n),
{
    if n < 0x8000_0000 {
        n as i32
    } else {
        (n as i64 - 0x1_0000_0000) as i32
    }
}

/// Reading the bits of an integer gives it back, and the bits of what was read are the same.
pub proof fn law_bits_are_read_back(i: i32, n: u32)
    ensures
        signed(bits_of(i)) == i,
        bits_of(signed(n)) == n,
{
}

/// Appends a 32-bit integer in hexadecimal, by its two's complement.
pub fn push_hex_i32(out: &mut String, i: i32)
    ensures
        final(out)@ == old(out)@ + hex_i32(i),
{
    push_numeral(out, to_bits(i) as u64, 16);
}

/// Appends a number in the given radix, with zeros in front to at least the given width.
fn push_padded(out: &mut String, n: u64, radix: u64, width: usize)
    requires
        2 <= radix <= 16,
    ensures
        final(out)@ == old(out)@ + zero_padded(numeral(n as nat, radix as nat), width as int),
{
    let mut digits = String::new();
    push_numeral(&mut digits, n, radix);
    let cs = chars_of(&digits);
    assert(cs@ =~= numeral(n as nat, radix as nat));
    let ghost start = out@;
    let mut at: usize = cs.len();
    while at < width
        invariant
            cs@.len() <= at,
            at <= width || at == cs@.len(),
            out@ == start + Seq::new((at - cs@.len()) as nat, |i: int| '0'),
        decreases width - at,
    {
        out.push('0');
        assert(Seq::new((at - cs@.len()) as nat, |i: int| '0').push('0') =~= Seq::new(
            (at + 1 - cs@.len()) as nat,
            |i: int| '0',
        ));
        at += 1;
    }
    push_chars(out, &cs);
    assert(out@ =~= start + zero_padded(cs@, width as int));
}

/// Appends a number in decimal, with zeros in front to at least the given width.
pub fn push_dec_padded(out: &mut String, n: u64, width: usize)
    ensures
        final(out)@ == old(out)@ + zero_padded(dec(n as nat), width as int),
{
    push_padded(out, n, 10, width);
}

/// Appends a number in hexadecimal, with zeros in front to at least the given width.
pub fn push_hex_padded(out: &mut String, n: u64, width: usize)
    ensures
        final(out)@ == old(out)@ + zero_padded(hex(n as nat), width as int),
{
    push_padded(out, n, 16, width);
}

/// The number that an argument names. Only an explicit `0x` means hexadecimal, so a decimal
/// argument cannot be misread.
pub open spec fn number_named(s: Seq<char>) -> Option<int> {
    let t = text::trimmed(s);
    if text::starts_with(t, "0x"@) || text::starts_with(t, "0X"@) {
        parsed(t.skip(2), 16, u32::MAX as int)
    } else {
        parsed(t, 10, u32::MAX as int)
    }
}

/// Parses a hex or decimal number held in a slice of characters.
pub fn parse_num_chars(cs: &[char]) -> (r: Option<u32>)
    ensures
        match r {
            Some(v) => number_named(cs@) == Some(v as int),
            None => number_named(cs@) is None,
        },
{
    let t = trim(cs);
    proof {
        reveal_strlit("0x");
        reveal_strlit("0X");
    }
    let parsed_value = match strip_prefix(t, "0x") {
        Some(h) => parse_radix(h, 16, u32::MAX as u64),
        None => match strip_prefix(t, "0X") {
            Some(h) => parse_radix(h, 16, u32::MAX as u64),
            None => parse_radix(t, 10, u32::MAX as u64),
        },
    };
    match parsed_value {
        Some(v) => Some(v as u32),
        None => None,
    }
}

/// Parses a hex or decimal number: `0x101f8766` is hex, `4132` is decimal, and `101f8766` is
/// not assumed to be hex.
pub fn parse_num(s: &str) -> (r: Option<u32>)
    ensures
        match r {
            Some(v) => number_named(s@) == Some(v as int),
            None => number_named(s@) is None,
        },
{
    let cs = chars_of(s);
    parse_num_chars(&cs)
}

/// The digits are `0` to `9` and, above nine, the letters from `a` or `A` on.
pub proof fn law_digits_have_their_values(c: char, radix: int, v: int)
    requires
        2 <= radix <= 16,
    ensures
        digit_value(c, radix) == Some(v) <==> 0 <= v < radix && {
            ||| v < 10 && c as int == 48 + v
            ||| v >= 10 && c as int == 87 + v
            ||| v >= 10 && c as int == 55 + v
        },
{
}

/// A digit behind a numeral makes it the radix times as much, and the digit more.
pub proof fn law_numerals_grow_by_their_digits(digits: Seq<char>, c: char, radix: int)
    ensures
        numeral_value(seq![], radix) == 0,
        numeral_value(digits.push(c), radix) == numeral_value(digits, radix) * radix
            + digit_value(c, radix)->0,
{
    assert(digits.push(c).drop_last() =~= digits);
}

/// A text spells a number when it is digits and nothing else, but for one plus sign in front, and
/// the number is within the bound; then it spells their value.
pub proof fn law_a_text_spells_a_number(digits: Seq<char>, s: Seq<char>, radix: int, max: int)
    requires
        digits.len() > 0 ==> digits[0] != '+',
    ensures
        parsed(seq!['+'] + digits, radix, max) == parsed(digits, radix, max),
        parsed(digits, radix, max) == if digits.len() > 0 && (forall|i: int|
            0 <= i < digits.len() ==> digit_value(#[trigger] digits[i], radix) is Some)
            && numeral_value(digits, radix) <= max {
            Some(numeral_value(digits, radix))
        } else {
            None
        },
        parsed(seq!['+', '+'] + s, 10, max) is None,
        parsed(seq!['+', '+'] + s, 16, max) is None,
{
    assert((seq!['+'] + digits).skip(1) =~= digits);
    let t = seq!['+', '+'] + s;
    assert(t.skip(1)[0] == '+');
    assert(digit_value('+', 10) is None && digit_value('+', 16) is None);
}

/// A number in decimal is written digit by digit, for every number.
pub proof fn law_decimal_is_written_digit_by_digit(n: nat)
    ensures
        n < 10 ==> dec(n).len() == 1 && dec(n)[0] as int == 48 + n,
        n >= 10 ==> dec(n) == dec(n / 10) + dec(n % 10),
{
    if n >= 10 {
        assert(dec(n) =~= dec(n / 10) + dec(n % 10));
    }
}

/// A number in hexadecimal is written digit by digit, in small letters, for every number.
pub proof fn law_hexadecimal_is_written_digit_by_digit(n: nat)
    ensures
        n < 10 ==> hex(n).len() == 1 && hex(n)[0] as int == 48 + n,
        10 <= n < 16 ==> hex(n).len() == 1 && hex(n)[0] as int == 87 + n,
        n >= 16 ==> hex(n) == hex(n / 16) + hex(n % 16),
{
    if n >= 16 {
        assert(hex(n) =~= hex(n / 16) + hex(n % 16));
    }
}

/// A negative integer is written as a minus sign and the number without it, and in hexadecimal as
/// what it is short of two to the 32nd.
pub proof fn law_integers_are_written_with_their_sign(i: i32)
    ensures
        i >= 0 ==> dec_int(i as int) == dec(i as nat) && hex_i32(i) == hex(i as nat),
        i < 0 ==> dec_int(i as int) == seq!['-'] + dec((0 - i) as nat) && hex_i32(i) == hex(
            (0x1_0000_0000 + i) as nat,
        ),
{
}

/// Padding puts zeros in front, as many as are missing and no more.
pub proof fn law_padding_puts_zeros_in_front(s: Seq<char>, width: int)
    ensures
        zero_padded(s, width).len() == if s.len() >= width {
            s.len() as int
        } else {
            width
        },
        zero_padded(s, width).skip(zero_padded(s, width).len() - s.len()) == s,
        forall|i: int|
            0 <= i < zero_padded(s, width).len() - s.len() ==> #[trigger] zero_padded(s, width)[i]
                == '0',
{
    assert(zero_padded(s, width).skip(zero_padded(s, width).len() - s.len()) =~= s);
}

/// What stands behind `0x` or `0X` is read in hexadecimal and anything else in decimal, blanks
/// around it aside, up to the largest number of 32 bits.
pub proof fn law_only_a_prefix_means_hexadecimal(
    before: Seq<char>,
    digits: Seq<char>,
    after: Seq<char>,
)
    requires
        text::all_whitespace(before),
        text::all_whitespace(after),
        digits.len() > 0 ==> !text::whitespace(digits.last()),
    ensures
        number_named(before + (seq!['0', 'x'] + digits) + after) == parsed(
            digits,
            16,
            0xffff_ffff,
        ),
        number_named(before + (seq!['0', 'X'] + digits) + after) == parsed(
            digits,
            16,
            0xffff_ffff,
        ),
        (digits.len() > 0 ==> !text::whitespace(digits[0])) && !(digits.len() >= 2 && digits[0]
            == '0' && (digits[1] == 'x' || digits[1] == 'X')) ==> number_named(
            before + digits + after,
        ) == parsed(digits, 10, 0xffff_ffff),
{
    reveal_strlit("0x");
    reveal_strlit("0X");
    let a = seq!['0', 'x'] + digits;
    let b = seq!['0', 'X'] + digits;
    assert(a.last() == if digits.len() > 0 { digits.last() } else { 'x' });
    assert(b.last() == if digits.len() > 0 { digits.last() } else { 'X' });
    text::law_trimming_takes_off_just_the_blanks(before, a, after);
    text::law_trimming_takes_off_just_the_blanks(before, b, after);
    assert(a.take(2) =~= "0x"@);
    assert(b.take(2) =~= "0X"@);
    assert(a.skip(2) =~= digits);
    assert(b.skip(2) =~= digits);
    if digits.len() > 0 ==> !text::whitespace(digits[0]) {
        text::law_trimming_takes_off_just_the_blanks(before, digits, after);
        if digits.len() >= 2 {
            assert(digits.take(2)[0] == digits[0] && digits.take(2)[1] == digits[1]);
            assert("0x"@[0] == '0' && "0x"@[1] == 'x' && "0X"@[0] == '0' && "0X"@[1] == 'X');
        }
    }
}

} // verus!
