//! Paths: how their parts are set apart, which differs between platforms,
//! and the file name at their end.

use vstd::prelude::*;
use crate::text::{chars, collect};

verus! {

/// How paths are written.
#[derive(Clone, Copy, PartialEq, Eq, Structural, Debug)]
pub enum Platform {
    /// Parts are set apart by slashes.
    Unix,
    /// Parts are set apart by slashes and backslashes, and a drive can
    /// stand in front.
    Windows,
}

/// Does the character set the parts of a path apart?
pub open spec fn separates(c: char, on: Platform) -> bool {
    c == '/' || (on is Windows && c == '\\')
}

fn is_separator(c: char, on: Platform) -> (r: bool)
    ensures
        r == separates(c, on),
{
    c == '/' || (on == Platform::Windows && c == '\\')
}

/// `std::path::is_separator`: whether the character sets the parts of a
/// path apart on the platform that the program was built for. The slash
/// does on each of them; of the backslash nothing is said, as that is what
/// the platforms differ in.
#[verifier::external_body]
fn separates_here(c: char) -> (r: bool)
    ensures
        c == '/' ==> r,
{
    std::path::is_separator(c)
}

/// The platform that the program was built for.
pub(crate) fn platform() -> Platform {
    if separates_here('\\') {
        Platform::Windows
    } else {
        Platform::Unix
    }
}

fn slice(v: &Vec<char>, from: usize, to: usize) -> (out: Vec<char>)
    requires
        from <= to <= v@.len(),
    ensures
        out@ == v@.subrange(from as int, to as int),
{
    let mut out: Vec<char> = Vec::new();
    let mut i: usize = from;
    while i < to
        invariant
            from <= i <= to <= v@.len(),
            out@ == v@.subrange(from as int, i as int),
        decreases to - i,
    {
        out.push(v[i]);
        assert(out@ =~= v@.subrange(from as int, i + 1));
        i = i + 1;
    }
    out
}

/// Where the last part of a path starts.
pub open spec fn part_start(s: Seq<char>, on: Platform, end: int) -> int
    decreases end,
{
    if end <= 0 || end > s.len() {
        0
    } else if separates(s[end - 1], on) {
        end
    } else {
        part_start(s, on, end - 1)
    }
}

/// The file name at the end of a path without a drive. Empty where it has
/// none.
pub open spec fn last_part(s: Seq<char>, on: Platform) -> Seq<char>
    decreases s.len(),
    via name_shrinks
{
    if s.len() == 0 {
        Seq::empty()
    } else if separates(s.last(), on) {
        last_part(s.drop_last(), on)
    } else {
        let a = part_start(s, on, s.len() as int);
        let part = s.skip(a);
        if part == seq!['.'] {
            last_part(s.take(a), on)
        } else if part == seq!['.', '.'] {
            Seq::empty()
        } else {
            part
        }
    }
}

#[via_fn]
proof fn name_shrinks(s: Seq<char>, on: Platform) {
    if s.len() > 0 && !separates(s.last(), on) {
        lemma_part(s, on, s.len() as int);
    }
}

proof fn lemma_part(s: Seq<char>, on: Platform, end: int)
    requires
        0 <= end <= s.len(),
    ensures
        0 <= part_start(s, on, end) <= end,
        end > 0 && !separates(s[end - 1], on) ==> part_start(s, on, end) < end,
    decreases end,
{
    if end > 0 && !separates(s[end - 1], on) {
        lemma_part(s, on, end - 1);
    }
}

/// Does the path start with a drive, as "C:"?
pub open spec fn has_drive(s: Seq<char>) -> bool {
    s.len() >= 2 && s[1] == ':' && ('a' <= s[0] <= 'z' || 'A' <= s[0] <= 'Z')
}

/// The file name at the end of a path. Empty where it has none.
pub open spec fn file_name_of(s: Seq<char>, on: Platform) -> Seq<char> {
    if on is Windows && has_drive(s) {
        last_part(s.skip(2), on)
    } else {
        last_part(s, on)
    }
}

/// The place of the last dot, if there is one after the first character.
pub open spec fn last_dot(s: Seq<char>, end: int) -> int
    decreases end,
{
    if end <= 1 || end > s.len() {
        s.len() as int
    } else if s[end - 1] == '.' {
        end - 1
    } else {
        last_dot(s, end - 1)
    }
}

/// A file's name without its extension.
pub open spec fn stem_of(path: Seq<char>, on: Platform) -> Seq<char> {
    let name = file_name_of(path, on);
    name.take(last_dot(name, name.len() as int))
}

/// The file name at the end of a path, as its characters.
pub(crate) fn file_name(path: &str, on: Platform) -> (r: Vec<char>)
    ensures
        r@ == file_name_of(path@, on),
{
    let mut v = chars(path);
    if on == Platform::Windows && v.len() >= 2 && v[1] == ':' && (('a' <= v[0] && v[0] <= 'z') || (
    'A' <= v[0] && v[0] <= 'Z')) {
        v = slice(&v, 2, v.len());
        assert(v@ =~= path@.skip(2));
    }
    while v.len() > 0
        invariant
            last_part(v@, on) == file_name_of(path@, on),
        decreases v@.len(),
    {
        let n: usize = v.len();
        if is_separator(v[n - 1], on) {
            let ghost was = v@;
            v.pop();
            assert(v@ =~= was.drop_last());
            continue;
        }
        let mut a: usize = n;
        while a > 0 && !is_separator(v[a - 1], on)
            invariant
                a <= n,
                n == v@.len(),
                part_start(v@, on, n as int) == part_start(v@, on, a as int),
            decreases a,
        {
            a = a - 1;
        }
        proof {
            lemma_part(v@, on, n as int);
        }
        assert(a == part_start(v@, on, n as int));
        let dot = n - a == 1 && v[a] == '.';
        let up = n - a == 2 && v[a] == '.' && v[a + 1] == '.';
        let ghost part = v@.skip(a as int);
        proof {
            if dot {
                assert(part =~= seq!['.']);
            } else if part == seq!['.'] {
                assert(part[0] == '.');
            }
            if up {
                assert(part =~= seq!['.', '.']);
            } else if part == seq!['.', '.'] {
                assert(part[0] == '.' && part[1] == '.');
            }
        }
        if up {
            return Vec::new();
        }
        if !dot {
            let out = slice(&v, a, n);
            assert(out@ =~= part);
            return out;
        }
        let ghost was = v@;
        v.truncate(a);
        assert(v@ =~= was.take(a as int));
    }
    v
}

/// A file's name without its extension, on a platform.
pub fn stem_on(path: &str, on: Platform) -> (r: String)
    ensures
        r@ == stem_of(path@, on),
{
    let v = file_name(path, on);
    let mut i: usize = v.len();
    let n: usize = v.len();
    while i > 1 && v[i - 1] != '.'
        invariant
            i <= n,
            n == v@.len(),
            last_dot(v@, n as int) == last_dot(v@, i as int),
        decreases i,
    {
        i = i - 1;
    }
    let end: usize = if i > 1 {
        i - 1
    } else {
        n
    };
    proof {
        assert(end == last_dot(v@, n as int));
        assert(v@.subrange(0, end as int) =~= v@.take(end as int));
    }
    collect(&v, 0, end)
}

/// A path without a backslash and without a drive: it reads the same on
/// every platform.
pub open spec fn portable(s: Seq<char>) -> bool {
    !has_drive(s) && !s.contains('\\')
}

proof fn lemma_same_part(s: Seq<char>, on: Platform, end: int)
    requires
        0 <= end <= s.len(),
        !s.contains('\\'),
    ensures
        part_start(s, on, end) == part_start(s, Platform::Unix, end),
    decreases end,
{
    if end > 0 {
        assert(s.contains(s[end - 1]));
        if !separates(s[end - 1], on) {
            lemma_same_part(s, on, end - 1);
        }
    }
}

proof fn lemma_same_name(s: Seq<char>, on: Platform)
    requires
        !s.contains('\\'),
    ensures
        last_part(s, on) == last_part(s, Platform::Unix),
    decreases s.len(),
{
    if s.len() > 0 {
        assert(s.contains(s.last()));
        let n = s.len() as int;
        if separates(s.last(), on) {
            let t = s.drop_last();
            assert(!t.contains('\\')) by {
                if t.contains('\\') {
                    let i = choose|i: int| 0 <= i < t.len() && t[i] == '\\';
                    assert(s[i] == '\\');
                }
            }
            lemma_same_name(t, on);
        } else {
            lemma_part(s, on, n);
            lemma_same_part(s, on, n);
            let t = s.take(part_start(s, on, n));
            assert(!t.contains('\\')) by {
                if t.contains('\\') {
                    let i = choose|i: int| 0 <= i < t.len() && t[i] == '\\';
                    assert(s[i] == '\\');
                }
            }
            lemma_same_name(t, on);
        }
    }
}

/// A portable path names the same file on every platform.
pub proof fn law_portable(path: Seq<char>, on: Platform)
    requires
        portable(path),
    ensures
        file_name_of(path, on) == file_name_of(path, Platform::Unix),
        stem_of(path, on) == stem_of(path, Platform::Unix),
{
    lemma_same_name(path, on);
}

/// A file's name without its extension, on the platform that the program
/// was built for.
pub fn file_stem(path: &str) -> (r: String)
    ensures
        exists|on: Platform| r@ == #[trigger] stem_of(path@, on),
        portable(path@) ==> r@ == stem_of(path@, Platform::Unix),
{
    let on = platform();
    let r = stem_on(path, on);
    proof {
        assert(r@ == stem_of(path@, on));
        if portable(path@) {
            law_portable(path@, on);
        }
    }
    r
}

/// The file name of a path is what stands behind its last separator.
pub proof fn law_file_name(dir: Seq<char>, name: Seq<char>, on: Platform)
    requires
        name.len() > 0,
        forall|i: int| 0 <= i < name.len() ==> !separates(#[trigger] name[i], on),
        name != seq!['.'] && name != seq!['.', '.'],
        !has_drive(dir + seq!['/'] + name) || on is Unix,
    ensures
        file_name_of(dir + seq!['/'] + name, on) == name,
{
    let s = dir + seq!['/'] + name;
    let at = dir.len() as int + 1;
    assert(s.skip(at) =~= name);
    assert(s[at - 1] == '/');
    assert(s.last() == name.last());
    assert forall|i: int| at <= i < s.len() implies !separates(#[trigger] s[i], on) by {
        assert(s[i] == name[i - at]);
    }
    lemma_start(s, on, at, s.len() as int);
}

proof fn lemma_start(s: Seq<char>, on: Platform, at: int, end: int)
    requires
        1 <= at <= end <= s.len(),
        separates(s[at - 1], on),
        forall|i: int| at <= i < end ==> !separates(#[trigger] s[i], on),
    ensures
        part_start(s, on, end) == at,
    decreases end,
{
    if end > at {
        assert(!separates(s[end - 1], on));
        lemma_start(s, on, at, end - 1);
    }
}

/// A stem and its extension make the name: the extension is what stands
/// behind the last dot, unless the name starts with that dot.
pub proof fn law_last_dot(stem: Seq<char>, ext: Seq<char>)
    requires
        stem.len() > 0,
        forall|i: int| 0 <= i < ext.len() ==> #[trigger] ext[i] != '.',
    ensures
        ({
            let name = stem + seq!['.'] + ext;
            name.take(last_dot(name, name.len() as int)) == stem
        }),
{
    let name = stem + seq!['.'] + ext;
    let at = stem.len() as int;
    assert(name[at] == '.');
    assert forall|i: int| at < i < name.len() implies #[trigger] name[i] != '.' by {
        assert(name[i] == ext[i - at - 1]);
    }
    lemma_dot(name, at, name.len() as int);
    assert(name.take(at) =~= stem);
}

proof fn lemma_dot(s: Seq<char>, at: int, end: int)
    requires
        1 <= at < end <= s.len(),
        s[at] == '.',
        forall|i: int| at < i < end ==> #[trigger] s[i] != '.',
    ensures
        last_dot(s, end) == at,
    decreases end,
{
    if end - 1 > at {
        assert(s[end - 1] != '.');
        lemma_dot(s, at, end - 1);
    }
}

/// A slash separates everywhere, and a backslash on Windows alone.
pub proof fn law_separators(c: char, on: Platform)
    ensures
        separates('/', on),
        separates('\\', Platform::Windows) && !separates('\\', Platform::Unix),
        c != '/' && c != '\\' ==> !separates(c, on),
{
}

} // verus!
