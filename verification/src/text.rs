//! Text: the string operations the rest of the library states its
//! results in. A string is the sequence of its characters.

use vstd::prelude::*;

verus! {

/// `String::push` appends one character.
pub assume_specification[ String::push ](s: &mut String, c: char)
    ensures
        final(s)@ == old(s)@.push(c),
;

/// The characters of the Unicode `White_Space` property.
pub open spec fn is_space(c: char) -> bool {
    ||| 0x09 <= c as u32 <= 0x0d
    ||| c as u32 == 0x20
    ||| c as u32 == 0x85
    ||| c as u32 == 0xa0
    ||| c as u32 == 0x1680
    ||| 0x2000 <= c as u32 <= 0x200a
    ||| c as u32 == 0x2028
    ||| c as u32 == 0x2029
    ||| c as u32 == 0x202f
    ||| c as u32 == 0x205f
    ||| c as u32 == 0x3000
}

pub fn space(c: char) -> (r: bool)
    ensures
        r == is_space(c),
{
    let u: u32 = c as u32;
    (0x09 <= u && u <= 0x0d) || u == 0x20 || u == 0x85 || u == 0xa0 || u == 0x1680 || (0x2000 <= u
        && u <= 0x200a) || u == 0x2028 || u == 0x2029 || u == 0x202f || u == 0x205f || u == 0x3000
}

/// The characters of `s`, one by one.
pub fn chars(s: &str) -> (r: Vec<char>)
    ensures
        r@ == s@,
{
    let mut out: Vec<char> = Vec::new();
    for c in it: s.chars()
        invariant
            out@ == it.seq().take(it.index() as int),
            it.seq() == s@,
    {
        out.push(c);
        assert(it.seq().take(it.index() as int).push(c) =~= it.seq().take(it.index() + 1));
    }
    out
}

/// The string of `v`'s characters from `from` up to `to`.
pub fn collect(v: &Vec<char>, from: usize, to: usize) -> (r: String)
    requires
        from <= to <= v@.len(),
    ensures
        r@ == v@.subrange(from as int, to as int),
{
    let mut out = String::new();
    let mut i: usize = from;
    while i < to
        invariant
            from <= i <= to <= v@.len(),
            out@ == v@.subrange(from as int, i as int),
        decreases to - i,
    {
        out.push(v[i]);
        assert(v@.subrange(from as int, i as int).push(v@[i as int]) =~= v@.subrange(
            from as int,
            i + 1,
        ));
        i = i + 1;
    }
    out
}

/// Do two strings hold the same characters?
pub fn same(a: &str, b: &str) -> (r: bool)
    ensures
        r == (a@ == b@),
{
    a.to_owned() == b.to_owned()
}

pub open spec fn digit(d: nat) -> char {
    (48 + d) as char
}

/// `n` in decimal, with no sign, padding or separator.
pub open spec fn decimal(n: nat) -> Seq<char>
    decreases n,
{
    if n < 10 {
        seq![digit(n)]
    } else {
        decimal(n / 10).push(digit(n % 10))
    }
}

fn digit_char(d: u8) -> (c: char)
    requires
        d < 10,
    ensures
        c == digit(d as nat),
{
    (48u8 + d) as char
}

/// Append `n` in decimal.
pub fn push_decimal(out: &mut String, n: u64)
    ensures
        final(out)@ == old(out)@ + decimal(n as nat),
    decreases n,
{
    if n >= 10 {
        push_decimal(out, n / 10);
    }
    let d: u8 = (n % 10) as u8;
    out.push(digit_char(d));
    assert(out@ =~= old(out)@ + decimal(n as nat));
}

/// The strings of a list.
pub open spec fn texts(v: Seq<String>) -> Seq<Seq<char>> {
    Seq::new(v.len(), |i: int| v[i]@)
}

pub proof fn lemma_texts_push(v: Seq<String>, s: String)
    ensures
        texts(v.push(s)) == texts(v).push(s@),
{
    assert(texts(v.push(s)) =~= texts(v).push(s@));
}

/// Does `s` begin with `prefix`?
pub open spec fn begins(s: Seq<char>, prefix: Seq<char>) -> bool {
    prefix.len() <= s.len() && s.take(prefix.len() as int) == prefix
}

pub fn starts_with(s: &str, prefix: &str) -> (r: bool)
    ensures
        r == begins(s@, prefix@),
{
    let n: usize = prefix.unicode_len();
    if n > s.unicode_len() {
        return false;
    }
    let head = s.substring_char(0, n);
    assert(head@ =~= s@.take(n as int));
    same(head, prefix)
}

/// The number that the first `n` characters write in decimal.
pub open spec fn number_prefix(s: Seq<char>, n: int) -> Option<int>
    decreases n,
{
    if n <= 0 {
        Some(0)
    } else {
        match number_prefix(s, n - 1) {
            Some(v) => if '0' <= s[n - 1] <= '9' {
                Some(v * 10 + (s[n - 1] as int - '0' as int))
            } else {
                None
            },
            None => None,
        }
    }
}

/// The 64-bit number that `s` writes in decimal, with or without a plus
/// sign before it.
pub open spec fn number_of(s: Seq<char>) -> Option<u64> {
    let t = if s.len() > 0 && s[0] == '+' {
        s.skip(1)
    } else {
        s
    };
    match number_prefix(t, t.len() as int) {
        Some(v) => if t.len() > 0 && v <= u64::MAX {
            Some(v as u64)
        } else {
            None
        },
        None => None,
    }
}

proof fn lemma_number_grows(s: Seq<char>, i: int, n: int)
    requires
        0 <= i <= n <= s.len(),
    ensures
        number_prefix(s, i) is None ==> number_prefix(s, n) is None,
        number_prefix(s, i) matches Some(v) ==> v >= 0 && (number_prefix(s, n) matches Some(u)
            ==> u >= v),
    decreases n,
{
    if n > 0 {
        if i < n {
            lemma_number_grows(s, i, n - 1);
        } else {
            lemma_number_grows(s, i - 1, n - 1);
        }
    }
}

/// The 64-bit number that `s` writes.
pub fn parse_u64(s: &str) -> (r: Option<u64>)
    ensures
        r == number_of(s@),
{
    let cs = chars(s);
    let from: usize = if cs.len() > 0 && cs[0] == '+' {
        1
    } else {
        0
    };
    let ghost t = if s@.len() > 0 && s@[0] == '+' {
        s@.skip(1)
    } else {
        s@
    };
    assert(t =~= s@.skip(from as int));
    if cs.len() == from {
        return None;
    }
    let mut v: u64 = 0;
    let mut i: usize = from;
    while i < cs.len()
        invariant
            cs@ == s@,
            from <= i <= cs@.len(),
            from < cs@.len(),
            t == s@.skip(from as int),
            number_of(s@) == (match number_prefix(t, t.len() as int) {
                Some(v) => if t.len() > 0 && v <= u64::MAX {
                    Some(v as u64)
                } else {
                    None
                },
                None => None,
            }),
            number_prefix(t, i - from) == Some(v as int),
        decreases cs@.len() - i,
    {
        proof {
            lemma_number_grows(t, i + 1 - from, t.len() as int);
            assert(t[i - from] == cs@[i as int]);
        }
        let c = cs[i];
        if c < '0' || c > '9' {
            return None;
        }
        let d: u64 = c as u64 - 48;
        if v > (u64::MAX - d) / 10 {
            return None;
        }
        v = v * 10 + d;
        i = i + 1;
    }
    Some(v)
}

/// The parts in turn, as one string.
pub fn joined3(a: &str, b: &str, c: &str) -> (r: String)
    ensures
        r@ == a@ + b@ + c@,
{
    let mut out = a.to_owned();
    out.append(b);
    out.append(c);
    out
}

/// `s` with each `pat`, from the left and without overlap, replaced.
pub open spec fn replaced(s: Seq<char>, pat: Seq<char>, by: Seq<char>) -> Seq<char>
    decreases s.len(),
{
    if pat.len() == 0 || s.len() < pat.len() {
        s
    } else if begins(s, pat) {
        by + replaced(s.skip(pat.len() as int), pat, by)
    } else {
        seq![s[0]] + replaced(s.skip(1), pat, by)
    }
}

/// Replace each `pat`, which is not empty.
pub fn replace(s: &str, pat: &str, by: &str) -> (r: String)
    requires
        pat@.len() > 0,
    ensures
        r@ == replaced(s@, pat@, by@),
{
    let cs = chars(s);
    let n: usize = cs.len();
    let m: usize = pat.unicode_len();
    let mut out = String::new();
    let mut i: usize = 0;
    assert(s@.skip(0) =~= s@);
    assert(out@ + replaced(s@, pat@, by@) =~= replaced(s@, pat@, by@));
    while n - i >= m
        invariant
            cs@ == s@,
            n == s@.len(),
            m == pat@.len(),
            m > 0,
            i <= n,
            out@ + replaced(s@.skip(i as int), pat@, by@) == replaced(s@, pat@, by@),
        decreases n - i,
    {
        let ghost rest = s@.skip(i as int);
        let ghost before = out@;
        let head = collect(&cs, i, i + m);
        assert(head@ =~= rest.take(m as int));
        if same(head.as_str(), pat) {
            out.append(by);
            assert(rest.skip(m as int) =~= s@.skip(i + m));
            assert(out@ + replaced(s@.skip(i + m), pat@, by@) =~= before + replaced(
                rest,
                pat@,
                by@,
            ));
            i = i + m;
        } else {
            out.push(cs[i]);
            assert(rest.skip(1) =~= s@.skip(i + 1));
            assert(out@ + replaced(s@.skip(i + 1), pat@, by@) =~= before + replaced(rest, pat@, by@));
            i = i + 1;
        }
    }
    let tail = collect(&cs, i, n);
    assert(tail@ =~= s@.skip(i as int));
    out.append(tail.as_str());
    out
}

/// `n` in decimal, with `0`s in front up to `width` digits.
pub open spec fn padded(n: nat, width: nat) -> Seq<char> {
    let d = decimal(n);
    if d.len() >= width {
        d
    } else {
        Seq::new((width - d.len()) as nat, |i: int| '0') + d
    }
}

/// `n` in decimal, with `0`s in front up to `width` digits.
pub fn pad(n: u64, width: usize) -> (r: String)
    ensures
        r@ == padded(n as nat, width as nat),
{
    let mut d = String::new();
    push_decimal(&mut d, n);
    assert(d@ =~= decimal(n as nat));
    let len: usize = d.as_str().unicode_len();
    let mut out = String::new();
    let mut i: usize = len;
    assert(out@ =~= Seq::new(0, |i: int| '0'));
    while i < width
        invariant
            len <= i,
            i <= width || i == len,
            out@ == Seq::new((i - len) as nat, |i: int| '0'),
        decreases width - i,
    {
        out.push('0');
        i = i + 1;
        assert(out@ =~= Seq::new((i - len) as nat, |i: int| '0'));
    }
    out.append(d.as_str());
    assert(out@ =~= padded(n as nat, width as nat));
    out
}

/// Distinct numbers are written differently.
pub proof fn lemma_decimal_injective(a: nat, b: nat)
    requires
        decimal(a) == decimal(b),
    ensures
        a == b,
    decreases a,
{
    assert(decimal(a).last() == digit(a % 10));
    assert(decimal(b).last() == digit(b % 10));
    assert(a % 10 == b % 10);
    if a >= 10 && b >= 10 {
        assert(decimal(a).drop_last() =~= decimal(a / 10));
        assert(decimal(b).drop_last() =~= decimal(b / 10));
        lemma_decimal_injective(a / 10, b / 10);
    } else if a >= 10 {
        lemma_decimal_nonempty(a / 10);
        assert(decimal(a).len() >= 2);
    } else if b >= 10 {
        lemma_decimal_nonempty(b / 10);
        assert(decimal(b).len() >= 2);
    }
}

pub proof fn lemma_decimal_nonempty(a: nat)
    ensures
        decimal(a).len() >= 1,
    decreases a,
{
    if a >= 10 {
        lemma_decimal_nonempty(a / 10);
    }
}

/// `s` without the white space in front.
pub open spec fn trim_front(s: Seq<char>) -> Seq<char>
    decreases s.len(),
{
    if s.len() > 0 && is_space(s[0]) {
        trim_front(s.skip(1))
    } else {
        s
    }
}

/// `s` without the white space behind.
pub open spec fn trim_back(s: Seq<char>) -> Seq<char>
    decreases s.len(),
{
    if s.len() > 0 && is_space(s.last()) {
        trim_back(s.drop_last())
    } else {
        s
    }
}

/// `s` without the white space around it.
pub open spec fn trimmed(s: Seq<char>) -> Seq<char> {
    trim_back(trim_front(s))
}

/// `s` without the white space around it.
pub fn trim(s: &str) -> (r: String)
    ensures
        r@ == trimmed(s@),
        r@.len() <= s@.len(),
{
    let cs = chars(s);
    let mut from: usize = 0;
    assert(s@.skip(0) =~= s@);
    while from < cs.len() && space(cs[from])
        invariant
            cs@ == s@,
            from <= s@.len(),
            trim_front(s@.skip(from as int)) == trim_front(s@),
        decreases s@.len() - from,
    {
        assert(s@.skip(from as int).skip(1) =~= s@.skip(from + 1));
        from = from + 1;
    }
    let ghost front = s@.skip(from as int);
    assert(front == trim_front(s@));
    let mut to: usize = cs.len();
    assert(s@.subrange(from as int, to as int) =~= front);
    while to > from && space(cs[to - 1])
        invariant
            cs@ == s@,
            from <= to <= s@.len(),
            trim_back(s@.subrange(from as int, to as int)) == trim_back(front),
        decreases to,
    {
        assert(s@.subrange(from as int, to as int).drop_last() =~= s@.subrange(
            from as int,
            to - 1,
        ));
        to = to - 1;
    }
    collect(&cs, from, to)
}

/// The decimal digits of a number, with a minus sign where it has one.
pub open spec fn signed(n: int) -> Seq<char> {
    if n < 0 {
        seq!['-'] + decimal((-n) as nat)
    } else {
        decimal(n as nat)
    }
}

pub fn push_signed(out: &mut String, n: i64)
    requires
        n > i64::MIN,
    ensures
        final(out)@ == old(out)@ + signed(n as int),
{
    if n < 0 {
        out.push('-');
        push_decimal(out, (-n) as u64);
        assert(out@ =~= old(out)@ + signed(n as int));
    } else {
        push_decimal(out, n as u64);
    }
}

/// A hexadecimal digit, in lower case.
pub open spec fn hex_digit(d: nat) -> char {
    if d < 10 {
        (48 + d) as char
    } else {
        (87 + d) as char
    }
}

/// A byte as two hexadecimal digits.
pub open spec fn hex_of(b: u8) -> Seq<char> {
    seq![hex_digit((b / 16) as nat), hex_digit((b % 16) as nat)]
}

pub fn push_hex(out: &mut String, b: u8)
    ensures
        final(out)@ == old(out)@ + hex_of(b),
{
    let hi: u8 = b / 16;
    let lo: u8 = b % 16;
    out.push(
        if hi < 10 {
            (48 + hi) as char
        } else {
            (87 + hi) as char
        },
    );
    out.push(
        if lo < 10 {
            (48 + lo) as char
        } else {
            (87 + lo) as char
        },
    );
    assert(out@ =~= old(out)@ + hex_of(b));
}

/// Does `pat` stand at place `i` of `s`?
pub open spec fn stands_at(s: Seq<char>, pat: Seq<char>, i: int) -> bool {
    0 <= i && i + pat.len() <= s.len() && s.subrange(i, i + pat.len()) == pat
}

/// Does `pat` stand somewhere in `s`?
pub open spec fn occurs(s: Seq<char>, pat: Seq<char>) -> bool {
    exists|i: int| #[trigger] stands_at(s, pat, i)
}

/// Does `s` contain `pat`?
pub fn contains(s: &str, pat: &str) -> (r: bool)
    ensures
        r == occurs(s@, pat@),
{
    let v = chars(s);
    let n: usize = v.len();
    let m: usize = pat.unicode_len();
    if m > n {
        return false;
    }
    let mut i: usize = 0;
    while i <= n - m
        invariant
            v@ == s@,
            n == s@.len(),
            m == pat@.len(),
            m <= n,
            i <= n - m + 1,
            forall|k: int| k < i ==> !#[trigger] stands_at(s@, pat@, k),
        decreases n - m + 1 - i,
    {
        let part = collect(&v, i, i + m);
        if same(part.as_str(), pat) {
            assert(stands_at(s@, pat@, i as int));
            return true;
        }
        assert(!stands_at(s@, pat@, i as int));
        if i == n - m {
            return false;
        }
        i = i + 1;
    }
    false
}

proof fn lemma_prefix_same(s: Seq<char>, t: Seq<char>, n: int)
    requires
        n <= s.len(),
        n <= t.len(),
        forall|i: int| 0 <= i < n ==> s[i] == #[trigger] t[i],
    ensures
        number_prefix(s, n) == number_prefix(t, n),
    decreases n,
{
    if n > 0 {
        lemma_prefix_same(s, t, n - 1);
        assert(s[n - 1] == t[n - 1]);
    }
}

proof fn lemma_decimal_value(n: nat)
    ensures
        decimal(n).len() > 0,
        number_prefix(decimal(n), decimal(n).len() as int) == Some(n as int),
        forall|i: int| 0 <= i < decimal(n).len() ==> '0' <= #[trigger] decimal(n)[i] <= '9',
        n > 0 ==> decimal(n)[0] != '0',
    decreases n,
{
    let d = decimal(n);
    if n < 10 {
        reveal_with_fuel(number_prefix, 2);
        assert(d[0] == digit(n));
    } else {
        let e = decimal(n / 10);
        lemma_decimal_value(n / 10);
        let k = e.len() as int;
        assert(d == e.push(digit(n % 10)));
        assert forall|i: int| 0 <= i < k implies d[i] == #[trigger] e[i] by {}
        lemma_prefix_same(d, e, k);
        assert(d[k] == digit(n % 10));
        assert(number_prefix(d, k + 1) == Some((n / 10) as int * 10 + n as int % 10));
        assert(d[0] == e[0]);
    }
}

/// A number reads back as it is written, in decimal digits, with no zero
/// before them.
pub proof fn law_decimal_reads(n: u64)
    ensures
        number_of(decimal(n as nat)) == Some(n),
        n > 0 ==> decimal(n as nat)[0] != '0',
        forall|i: int|
            0 <= i < decimal(n as nat).len() ==> '0' <= #[trigger] decimal(n as nat)[i] <= '9',
{
    lemma_decimal_value(n as nat);
    assert('0' <= decimal(n as nat)[0] <= '9');
}

/// A sign stands before what is less than nothing, and only there.
pub proof fn law_signed(n: int)
    ensures
        n >= 0 ==> signed(n) == decimal(n as nat),
        n < 0 ==> signed(n).len() > 0 && signed(n)[0] == '-' && signed(n).skip(1) == decimal(
            (-n) as nat,
        ),
{
    if n < 0 {
        assert(signed(n).skip(1) =~= decimal((-n) as nat));
    }
}

/// A padded number has its digits at the end, zeros before them, and is as
/// long as asked where the digits are not longer.
pub proof fn law_padded(n: nat, width: nat)
    ensures
        padded(n, width).len() == if decimal(n).len() >= width {
            decimal(n).len()
        } else {
            width
        },
        padded(n, width).skip(padded(n, width).len() - decimal(n).len()) == decimal(n),
        forall|i: int|
            0 <= i < padded(n, width).len() - decimal(n).len() ==> #[trigger] padded(n, width)[i]
                == '0',
{
    assert(padded(n, width).skip(padded(n, width).len() - decimal(n).len()) =~= decimal(n));
}

/// Nothing but spaces is trimmed, and no space is left at either end.
pub proof fn law_trimmed(s: Seq<char>)
    ensures
        trimmed(s).len() > 0 ==> !is_space(trimmed(s)[0]) && !is_space(trimmed(s).last()),
        exists|a: int, b: int|
            #![trigger s.subrange(a, b)]
            {
                &&& 0 <= a <= b <= s.len()
                &&& trimmed(s) == s.subrange(a, b)
                &&& forall|i: int| 0 <= i < a || b <= i < s.len() ==> is_space(#[trigger] s[i])
            },
{
    lemma_front(s);
    let t = trim_front(s);
    lemma_back(t);
    let a = choose|a: int|
        0 <= a <= s.len() && t == #[trigger] s.skip(a) && forall|i: int|
            0 <= i < a ==> is_space(#[trigger] s[i]);
    let c = choose|c: int|
        0 <= c <= t.len() && trim_back(t) == #[trigger] t.take(c) && forall|i: int|
            c <= i < t.len() ==> is_space(#[trigger] t[i]);
    assert(trimmed(s) =~= s.subrange(a, a + c));
    assert forall|i: int| 0 <= i < a || a + c <= i < s.len() implies is_space(#[trigger] s[i]) by {
        if i >= a {
            assert(t[i - a] == s[i]);
        }
    }
    if trimmed(s).len() > 0 {
        assert(trimmed(s)[0] == t[0]);
    }
}

proof fn lemma_front(s: Seq<char>)
    ensures
        trim_front(s).len() > 0 ==> !is_space(trim_front(s)[0]),
        exists|a: int|
            0 <= a <= s.len() && trim_front(s) == #[trigger] s.skip(a) && forall|i: int|
                0 <= i < a ==> is_space(#[trigger] s[i]),
    decreases s.len(),
{
    if s.len() > 0 && is_space(s[0]) {
        let t = s.skip(1);
        lemma_front(t);
        let a = choose|a: int|
            0 <= a <= t.len() && trim_front(t) == #[trigger] t.skip(a) && forall|i: int|
                0 <= i < a ==> is_space(#[trigger] t[i]);
        assert(t.skip(a) =~= s.skip(a + 1));
        assert forall|i: int| 0 <= i < a + 1 implies is_space(#[trigger] s[i]) by {
            if i > 0 {
                assert(t[i - 1] == s[i]);
            }
        }
    } else {
        assert(s.skip(0) =~= s);
    }
}

proof fn lemma_back(s: Seq<char>)
    ensures
        trim_back(s).len() > 0 ==> !is_space(trim_back(s).last()),
        exists|c: int|
            0 <= c <= s.len() && trim_back(s) == #[trigger] s.take(c) && forall|i: int|
                c <= i < s.len() ==> is_space(#[trigger] s[i]),
    decreases s.len(),
{
    if s.len() > 0 && is_space(s.last()) {
        let t = s.drop_last();
        lemma_back(t);
        let c = choose|c: int|
            0 <= c <= t.len() && trim_back(t) == #[trigger] t.take(c) && forall|i: int|
                c <= i < t.len() ==> is_space(#[trigger] t[i]);
        assert(t.take(c) =~= s.take(c));
        assert forall|i: int| c <= i < s.len() implies is_space(#[trigger] s[i]) by {
            if i < t.len() {
                assert(t[i] == s[i]);
            }
        }
    } else {
        assert(s.take(s.len() as int) =~= s);
    }
}

/// Where a pattern stands nothing else is: it is replaced where it begins
/// the text, and the rest goes on behind it; a text without it stays.
pub proof fn law_replaced(s: Seq<char>, pat: Seq<char>, by: Seq<char>)
    requires
        pat.len() > 0,
    ensures
        replaced(pat + s, pat, by) == by + replaced(s, pat, by),
        !occurs(s, pat) ==> replaced(s, pat, by) == s,
    decreases s.len(),
{
    assert((pat + s).take(pat.len() as int) =~= pat);
    assert((pat + s).skip(pat.len() as int) =~= s);
    if !occurs(s, pat) && s.len() >= pat.len() {
        assert(s.take(pat.len() as int) =~= s.subrange(0, pat.len() as int));
        assert(!stands_at(s, pat, 0));
        let t = s.skip(1);
        if occurs(t, pat) {
            let i = choose|i: int| #[trigger] stands_at(t, pat, i);
            assert(t.subrange(i, i + pat.len()) =~= s.subrange(i + 1, i + 1 + pat.len()));
            assert(stands_at(s, pat, i + 1));
        }
        law_replaced(t, pat, by);
        assert(seq![s[0]] + t =~= s);
    }
}

} // verus!
