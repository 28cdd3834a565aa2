//! Paths: drive letters, backslashes and the working directory.

use vstd::prelude::*;
use vstd::slice::slice_subrange;

use crate::text;
use crate::text::{chars_of, rfind_char, string_of, trim};

verus! {

/// The sequence ends in a path separator.
pub open spec fn ends_in_separator(p: Seq<char>) -> bool {
    p.len() > 0 && p.last() == '\\'
}

/// The path with a separator at its end, added where there is none.
pub open spec fn with_separator(p: Seq<char>) -> Seq<char> {
    if ends_in_separator(p) {
        p
    } else {
        p.push('\\')
    }
}

/// The path starts with a drive letter: one ASCII character, then a colon.
pub open spec fn has_drive(p: Seq<char>) -> bool {
    p.len() >= 2 && p[0] <= '\u{7f}' && p[1] == ':'
}

/// What a path argument stands for under a working directory. One with a drive letter is
/// absolute, one that is blank is the directory itself, and anything else hangs off it.
pub open spec fn resolved(cwd: Seq<char>, arg: Seq<char>) -> Seq<char> {
    let a = text::trimmed(arg);
    if a.len() == 0 {
        cwd
    } else if has_drive(a) {
        a
    } else {
        with_separator(cwd) + a
    }
}

/// What a directory argument stands for: always with a separator at the end.
pub open spec fn resolved_dir(cwd: Seq<char>, arg: Seq<char>) -> Seq<char> {
    with_separator(resolved(cwd, arg))
}

/// The path without the separators it ends in.
pub open spec fn without_separators(p: Seq<char>) -> Seq<char>
    decreases p.len(),
{
    if ends_in_separator(p) {
        without_separators(p.drop_last())
    } else {
        p
    }
}

/// The directory above a working directory. At a drive root it stays put.
pub open spec fn parent(cwd: Seq<char>) -> Seq<char> {
    let t = without_separators(cwd);
    match text::last_index(t, '\\') {
        Some(i) => t.take(i + 1),
        None => cwd,
    }
}

/// Whether a string of characters ends in a path separator.
pub fn is_dir_name(cs: &[char]) -> (r: bool)
    ensures
        r == ends_in_separator(cs@),
{
    cs.len() > 0 && cs[cs.len() - 1] == '\\'
}

/// Resolves a path argument, held in a slice of characters, against the working directory.
pub fn resolve_path_chars(cwd: &[char], arg: &[char]) -> (r: Vec<char>)
    ensures
        r@ == resolved(cwd@, arg@),
{
    let a = trim(arg);
    if a.len() == 0 {
        return vstd::slice::slice_to_vec(cwd);
    }
    if a.len() >= 2 && a[0] <= '\u{7f}' && a[1] == ':' {
        return vstd::slice::slice_to_vec(a);
    }
    let mut p = vstd::slice::slice_to_vec(cwd);
    if !is_dir_name(&p) {
        p.push('\\');
    }
    let ghost base = p@;
    for i in 0..a.len()
        invariant
            p@ == base + a@.take(i as int),
    {
        p.push(a[i]);
    }
    assert(a@.take(a@.len() as int) =~= a@);
    p
}

/// Resolves a directory argument, held in a slice of characters, against the working directory.
pub fn resolve_dir_chars(cwd: &[char], arg: &[char]) -> (r: Vec<char>)
    ensures
        r@ == resolved_dir(cwd@, arg@),
        ends_in_separator(r@),
{
    let mut p = resolve_path_chars(cwd, arg);
    if !is_dir_name(&p) {
        p.push('\\');
    }
    p
}

/// Resolves a path argument against the working directory. An argument with a drive letter
/// (`Z:\...`, `C:\...`) is absolute; anything else hangs off `cwd`.
pub fn resolve_path(cwd: &str, arg: &str) -> (r: String)
    ensures
        r@ == resolved(cwd@, arg@),
{
    let c = chars_of(cwd);
    let a = chars_of(arg);
    let p = resolve_path_chars(&c, &a);
    string_of(&p)
}

/// Like [`resolve_path`], but guarantees a trailing separator, for a directory.
pub fn resolve_dir(cwd: &str, arg: &str) -> (r: String)
    ensures
        r@ == resolved_dir(cwd@, arg@),
        ends_in_separator(r@),
{
    let c = chars_of(cwd);
    let a = chars_of(arg);
    let p = resolve_dir_chars(&c, &a);
    string_of(&p)
}

/// The parent of a working directory that ends in `\`. At a drive root it stays put.
pub fn parent_of(cwd: &str) -> (r: String)
    ensures
        r@ == parent(cwd@),
        ends_in_separator(cwd@) ==> ends_in_separator(r@),
{
    let cs = chars_of(cwd);
    let mut n: usize = cs.len();
    assert(cs@.take(n as int) =~= cs@);
    while n > 0 && cs[n - 1] == '\\'
        invariant
            n <= cs@.len(),
            without_separators(cs@) == without_separators(cs@.take(n as int)),
        decreases n,
    {
        assert(cs@.take(n as int).drop_last() =~= cs@.take(n - 1));
        n -= 1;
    }
    let t = slice_subrange(&cs, 0, n);
    proof {
        text::lemma_last_index(t@, '\\');
    }
    match rfind_char(t, '\\') {
        Some(i) => {
            let up = slice_subrange(t, 0, i + 1);
            assert(up@ =~= t@.take(i + 1));
            string_of(up)
        },
        None => string_of(&cs),
    }
}

/// A directory argument always resolves to a path that ends in a separator.
pub proof fn law_directories_end_in_a_separator(cwd: Seq<char>, arg: Seq<char>)
    ensures
        ends_in_separator(resolved_dir(cwd, arg)),
{
}

/// An absolute argument means the same under every working directory.
pub proof fn law_absolute_ignores_the_working_directory(
    cwd: Seq<char>,
    other: Seq<char>,
    arg: Seq<char>,
)
    requires
        has_drive(text::trimmed(arg)),
    ensures
        resolved(cwd, arg) == text::trimmed(arg),
        resolved(cwd, arg) == resolved(other, arg),
{
}

/// Going up undoes going down into a subdirectory by its name.
pub proof fn law_up_undoes_down(cwd: Seq<char>, name: Seq<char>)
    requires
        ends_in_separator(cwd),
        name.len() > 0,
        !name.contains('\\'),
        !has_drive(name),
        text::trimmed(name) == name,
    ensures
        parent(resolved_dir(cwd, name)) == cwd,
{
    let down = cwd + name;
    assert(down.last() == name[name.len() - 1]);
    assert(resolved_dir(cwd, name) == down.push('\\'));
    assert(down.push('\\').drop_last() =~= down);
    reveal_with_fuel(without_separators, 2);
    assert(without_separators(down.push('\\')) == down);
    text::lemma_last_index(down, '\\');
    assert(down[cwd.len() - 1] == '\\');
    match text::last_index(down, '\\') {
        Some(i) => {
            if i >= cwd.len() {
                assert(down[i] == name[i - cwd.len()]);
            }
            assert(i == cwd.len() - 1);
            assert(down.take(i + 1) =~= cwd);
        },
        None => {
            assert(down.contains('\\'));
        },
    }
}

/// The root of a drive is its own parent.
pub proof fn law_a_root_is_its_own_parent(letter: char)
    requires
        letter != '\\',
    ensures
        parent(seq![letter, ':', '\\']) == seq![letter, ':', '\\'],
{
    let root = seq![letter, ':', '\\'];
    let t = seq![letter, ':'];
    assert(root.drop_last() =~= t);
    reveal_with_fuel(without_separators, 2);
    assert(without_separators(root) == t);
    text::lemma_last_index(t, '\\');
    assert(!t.contains('\\'));
}

/// Going up from a directory leads to a directory, which is a prefix of it.
pub proof fn law_the_parent_is_a_directory_above(cwd: Seq<char>)
    requires
        ends_in_separator(cwd),
    ensures
        ends_in_separator(parent(cwd)),
        parent(cwd).len() <= cwd.len(),
        parent(cwd) == cwd.take(parent(cwd).len() as int),
{
    lemma_without_separators(cwd);
    let t = without_separators(cwd);
    text::lemma_last_index(t, '\\');
    match text::last_index(t, '\\') {
        Some(i) => {
            assert(t.take(i + 1) =~= cwd.take(i + 1));
        },
        None => {
            assert(cwd.take(cwd.len() as int) =~= cwd);
        },
    }
}

/// Taking the separators off the end leaves a prefix.
proof fn lemma_without_separators(p: Seq<char>)
    ensures
        without_separators(p).len() <= p.len(),
        without_separators(p) == p.take(without_separators(p).len() as int),
    decreases p.len(),
{
    if ends_in_separator(p) {
        lemma_without_separators(p.drop_last());
        let n = without_separators(p.drop_last()).len() as int;
        assert(p.drop_last().take(n) =~= p.take(n));
    } else {
        assert(p.take(p.len() as int) =~= p);
    }
}

/// A character's number fits in 32 bits.
proof fn lemma_char_value(c: char)
    ensures
        (c as u32) as int == c as int,
{
}

/// A path has a drive letter exactly when the second byte of its UTF-8 form is a colon.
pub proof fn law_a_drive_is_a_colon_in_the_second_byte(p: Seq<char>)
    ensures
        has_drive(p) <==> vstd::utf8::encode_utf8(p).len() >= 2 && vstd::utf8::encode_utf8(p)[1]
            == 0x3a,
{
    if p.len() > 0 {
        let bytes = vstd::utf8::encode_utf8(p);
        let rest = vstd::utf8::encode_utf8(p.drop_first());
        vstd::utf8::encode_utf8_first_scalar(p);
        lemma_char_value(p[0]);
        if p[0] <= '\u{7f}' {
            assert(bytes.len() == 1 + rest.len());
            if p.len() >= 2 {
                assert(bytes[1] == rest[0]);
                vstd::utf8::encode_utf8_first_scalar(p.drop_first());
                assert(p.drop_first()[0] == p[1]);
                lemma_char_value(p[1]);
                let d = p[1] as u32;
                if d <= 0x7f {
                    assert(rest[0] == (d & 0x7f) as u8);
                    assert((d & 0x7f) as u8 == 0x3au8 <==> d == 0x3a) by (bit_vector)
                        requires
                            d <= 0x7f,
                    ;
                } else {
                    assert(rest[0] > 0x7f);
                }
            }
        } else {
            assert(vstd::utf8::is_continuation_byte(bytes[1]));
        }
    }
}

/// A path argument stands for what it says: a blank one for the working directory, one with a
/// drive letter for itself, and every other for what is under the working directory by that name,
/// separators in it or not.
pub proof fn law_a_relative_path_hangs_off_the_working_directory(
    cwd: Seq<char>,
    before: Seq<char>,
    arg: Seq<char>,
    after: Seq<char>,
)
    requires
        text::all_whitespace(before),
        text::all_whitespace(after),
        arg.len() > 0 ==> !text::whitespace(arg[0]) && !text::whitespace(arg.last()),
    ensures
        resolved(cwd, before + arg + after) == if arg.len() == 0 {
            cwd
        } else if arg.len() >= 2 && arg[0] as int <= 127 && arg[1] == ':' {
            arg
        } else if cwd.len() > 0 && cwd.last() == '\\' {
            cwd + arg
        } else {
            cwd + seq!['\\'] + arg
        },
{
    text::law_trimming_takes_off_just_the_blanks(before, arg, after);
    assert(cwd.push('\\') =~= cwd + seq!['\\']);
}

/// A directory argument stands for the same path with one separator at its end.
pub proof fn law_a_directory_is_its_path_and_a_separator(cwd: Seq<char>, arg: Seq<char>)
    ensures
        ({
            let p = resolved(cwd, arg);
            resolved_dir(cwd, arg) == if p.len() > 0 && p.last() == '\\' {
                p
            } else {
                p + seq!['\\']
            }
        }),
{
    let p = resolved(cwd, arg);
    assert(p.push('\\') =~= p + seq!['\\']);
}

/// Going up takes the last name off, with the separators behind it and not those in front of it.
/// Where there is only one name, it stays.
pub proof fn law_going_up_takes_the_last_name_off(
    above: Seq<char>,
    name: Seq<char>,
    separators: Seq<char>,
)
    requires
        name.len() > 0,
        !name.contains('\\'),
        forall|i: int| 0 <= i < separators.len() ==> #[trigger] separators[i] == '\\',
    ensures
        above.len() > 0 && above.last() == '\\' ==> parent(above + name + separators) == above,
        parent(name + separators) == name + separators,
        parent(separators) == separators,
{
    assert(name.last() != '\\') by {
        assert(name.contains(name.last()));
    }
    let t = above + name;
    assert(t.last() == name.last());
    lemma_separators_off(t, separators);
    lemma_separators_off(name, separators);
    lemma_separators_off(seq![], separators);
    assert(seq![] + separators =~= separators);
    text::lemma_last_index(name, '\\');
    text::lemma_last_index(seq![], '\\');
    text::lemma_last_index(t, '\\');
    if above.len() > 0 && above.last() == '\\' {
        assert(t[above.len() - 1] == '\\');
        match text::last_index(t, '\\') {
            Some(i) => {
                if i >= above.len() {
                    assert(t[i] == name[i - above.len()]);
                }
                assert(i == above.len() - 1);
                assert(t.take(i + 1) =~= above);
            },
            None => {
                assert(t.contains('\\'));
            },
        }
    }
}

/// Separators at the end come off.
proof fn lemma_separators_off(p: Seq<char>, separators: Seq<char>)
    requires
        p.len() > 0 ==> p.last() != '\\',
        forall|i: int| 0 <= i < separators.len() ==> #[trigger] separators[i] == '\\',
    ensures
        without_separators(p + separators) == p,
    decreases separators.len(),
{
    if separators.len() == 0 {
        assert(p + separators =~= p);
    } else {
        assert((p + separators).last() == separators[separators.len() - 1]);
        assert((p + separators).drop_last() =~= p + separators.drop_last());
        lemma_separators_off(p, separators.drop_last());
    }
}

} // verus!
