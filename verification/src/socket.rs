//! What a client sends to the daemon, and how the daemon reads it: the
//! arguments, one to a line.

use vstd::prelude::*;
use crate::text::{chars, collect, lemma_texts_push, texts};

verus! {

/// The daemon stops reading from a client beyond this many bytes, or this
/// many milliseconds.
pub const MOST_BYTES: usize = 0x10_0000;

pub const MOST_MILLIS: u64 = 5000;

/// Has the daemon read enough from a client?
pub fn read_enough(bytes: usize, millis: u64) -> (r: bool)
    ensures
        r == (bytes > MOST_BYTES || millis > MOST_MILLIS),
{
    bytes > MOST_BYTES || millis > MOST_MILLIS
}

/// The texts with a line end between each two.
pub open spec fn joined(args: Seq<Seq<char>>) -> Seq<char>
    decreases args.len(),
{
    if args.len() == 0 {
        Seq::empty()
    } else if args.len() == 1 {
        args[0]
    } else {
        joined(args.drop_last()) + seq!['\n'] + args.last()
    }
}

/// Arguments in the form a client sends them.
pub fn payload(args: &Vec<String>) -> (r: String)
    ensures
        r@ == joined(texts(args@)),
{
    let mut r: String = String::new();
    let mut i: usize = 0;
    while i < args.len()
        invariant
            i <= args@.len(),
            r@ == joined(texts(args@.take(i as int))),
        decreases args@.len() - i,
    {
        let ghost before = r@;
        if i > 0 {
            r.push('\n');
        }
        r.append(args[i].as_str());
        proof {
            let t = texts(args@.take(i + 1));
            assert(t.drop_last() =~= texts(args@.take(i as int)));
            assert(t.last() == args@[i as int]@);
            if i == 0 {
                assert(before =~= Seq::empty());
                assert(r@ =~= args@[0]@);
            } else {
                assert(r@ =~= before + seq!['\n'] + args@[i as int]@);
            }
        }
        i = i + 1;
    }
    assert(args@.take(args@.len() as int) =~= args@);
    r
}

/// What the client does with its arguments.
pub enum Forward {
    /// A daemon answered: send it this.
    Send(String),
    /// None did: start one and send it this.
    Spawn(String),
    /// None did, and there is nothing to send: become the daemon.
    Become,
}

/// The arguments of a bare invocation.
pub open spec fn bare() -> Seq<Seq<char>> {
    seq!["--home"@]
}

/// How the arguments reach the daemon. A bare invocation shows the home
/// window of a running one, and becomes the daemon where there is none.
pub fn forward_if_running(args: &Vec<String>, connected: bool) -> (r: Forward)
    ensures
        if connected {
            r matches Forward::Send(p) && p@ == joined(
                if args@.len() == 0 {
                    bare()
                } else {
                    texts(args@)
                },
            )
        } else if args@.len() == 0 {
            r is Become
        } else {
            r matches Forward::Spawn(p) && p@ == joined(texts(args@))
        },
{
    if connected {
        if args.len() == 0 {
            assert(joined(bare()) == "--home"@);
            Forward::Send("--home".to_owned())
        } else {
            Forward::Send(payload(args))
        }
    } else if args.len() == 0 {
        Forward::Become
    } else {
        Forward::Spawn(payload(args))
    }
}

/// The place of the first line end from `i` on, or the text's end.
pub open spec fn line_end(s: Seq<char>, i: int) -> int
    decreases s.len() - i,
{
    if i < 0 || i >= s.len() {
        s.len() as int
    } else if s[i] == '\n' {
        i
    } else {
        line_end(s, i + 1)
    }
}

/// A line from `a` to `b`, without the carriage return of its line end.
pub open spec fn line_at(s: Seq<char>, a: int, b: int) -> Seq<char> {
    if b < s.len() && a < b && s[b - 1] == '\r' {
        s.subrange(a, b - 1)
    } else {
        s.subrange(a, b)
    }
}

/// The lines of a text from `i` on that are not empty.
pub open spec fn lines_from(s: Seq<char>, i: int) -> Seq<Seq<char>>
    decreases s.len() - i + 1,
    when 0 <= i
    via lines_decrease
{
    if i >= s.len() {
        Seq::empty()
    } else {
        let e = line_end(s, i);
        let line = line_at(s, i, e);
        let rest = lines_from(s, e + 1);
        if line.len() == 0 {
            rest
        } else {
            seq![line] + rest
        }
    }
}

#[via_fn]
proof fn lines_decrease(s: Seq<char>, i: int) {
    if i < s.len() {
        lemma_line_end(s, i);
    }
}

proof fn lemma_line_end(s: Seq<char>, i: int)
    requires
        0 <= i <= s.len(),
    ensures
        i <= line_end(s, i) <= s.len(),
        line_end(s, i) < s.len() ==> s[line_end(s, i)] == '\n',
        forall|k: int| i <= k < line_end(s, i) ==> s[k] != '\n',
    decreases s.len() - i,
{
    if i < s.len() && s[i] != '\n' {
        lemma_line_end(s, i + 1);
    }
}

/// The arguments that a client sent: the lines that are not empty.
pub fn accept_args(text: &str) -> (r: Vec<String>)
    ensures
        texts(r@) == lines_from(text@, 0),
{
    let v = chars(text);
    let n: usize = v.len();
    let mut r: Vec<String> = Vec::new();
    let mut i: usize = 0;
    proof {
        assert(texts(r@) =~= Seq::empty());
        assert(texts(r@) + lines_from(v@, 0) =~= lines_from(v@, 0));
    }
    while i < n
        invariant
            n == v@.len(),
            v@ == text@,
            i <= n,
            texts(r@) + lines_from(v@, i as int) == lines_from(v@, 0),
        decreases n - i,
    {
        let mut e: usize = i;
        while e < n && v[e] != '\n'
            invariant
                n == v@.len(),
                i <= e <= n,
                line_end(v@, i as int) == line_end(v@, e as int),
            decreases n - e,
        {
            e = e + 1;
        }
        proof {
            lemma_line_end(v@, i as int);
        }
        assert(e == line_end(v@, i as int));
        let to: usize = if e < n && e > i && v[e - 1] == '\r' {
            e - 1
        } else {
            e
        };
        let ghost line = line_at(v@, i as int, e as int);
        let ghost before = r@;
        assert(line == v@.subrange(i as int, to as int));
        if to > i {
            let s = collect(&v, i, to);
            proof {
                lemma_texts_push(r@, s);
            }
            r.push(s);
            proof {
                assert(texts(r@) =~= texts(before) + seq![line]);
                assert(texts(before) + (seq![line] + lines_from(v@, e + 1)) =~= texts(r@)
                    + lines_from(v@, e + 1));
            }
        }
        assert(texts(r@) + lines_from(v@, e + 1) == lines_from(v@, 0));
        if e < n {
            i = e + 1;
        } else {
            proof {
                assert(lines_from(v@, e + 1) =~= Seq::<Seq<char>>::empty());
                assert(lines_from(v@, n as int) =~= Seq::<Seq<char>>::empty());
            }
            i = n;
        }
    }
    proof {
        assert(texts(r@) + lines_from(v@, n as int) =~= texts(r@));
    }
    r
}

/// An argument that comes through as it is: not empty, on one line and
/// without a carriage return at its end.
pub open spec fn plain(s: Seq<char>) -> bool {
    &&& s.len() > 0
    &&& s.last() != '\r'
    &&& forall|k: int| 0 <= k < s.len() ==> s[k] != '\n'
}

/// What the daemon reads is what the client sent.
pub proof fn law_forwarded_back(args: Seq<Seq<char>>)
    requires
        forall|i: int| 0 <= i < args.len() ==> plain(#[trigger] args[i]),
    ensures
        lines_from(joined(args), 0) == args,
    decreases args.len(),
{
    if args.len() == 0 {
        assert(lines_from(joined(args), 0) =~= args);
    } else {
        lemma_lines_back(args, args.len() as int);
    }
}

/// Where the `k`th argument starts.
spec fn start_of(args: Seq<Seq<char>>, k: int) -> int {
    if k <= 0 {
        0
    } else {
        joined(args.take(k)).len() as int + 1
    }
}

/// The arguments that are left are the lines that are left.
proof fn lemma_lines_back(args: Seq<Seq<char>>, left: int)
    requires
        0 <= left <= args.len(),
        args.len() > 0,
        forall|i: int| 0 <= i < args.len() ==> plain(#[trigger] args[i]),
    ensures
        lines_from(joined(args), start_of(args, args.len() - left)) == args.skip(
            args.len() - left,
        ),
    decreases left,
{
    let s = joined(args);
    let k = args.len() - left;
    let at = start_of(args, k);
    if left == 0 {
        assert(args.take(k) =~= args);
        assert(lines_from(s, at) =~= Seq::<Seq<char>>::empty());
        assert(args.skip(k) =~= Seq::<Seq<char>>::empty());
    } else {
        lemma_place(args, k);
        lemma_lines_back(args, left - 1);
        let e = at + args[k].len();
        assert(s.subrange(at, e) =~= args[k]);
        lemma_line_end(s, at);
        let f = line_end(s, at);
        assert(f == e) by {
            if f < e {
                assert(s[f] == s.subrange(at, e)[f - at]);
            }
        }
        assert(s[e - 1] == args[k].last());
        assert(line_at(s, at, e) == args[k]);
        assert(start_of(args, k + 1) == e + 1);
        assert(args.skip(k) =~= seq![args[k]] + args.skip(k + 1));
        if e + 1 > s.len() {
            assert(lines_from(s, e + 1) =~= Seq::<Seq<char>>::empty());
        }
    }
}

/// The `k`th argument stands where it starts, and a line end or the text's
/// end follows.
proof fn lemma_place(args: Seq<Seq<char>>, k: int)
    requires
        0 <= k < args.len(),
    ensures
        ({
            let s = joined(args);
            let at = start_of(args, k);
            let e = at + args[k].len();
            &&& 0 <= at && e <= s.len()
            &&& s.subrange(at, e) == args[k]
            &&& joined(args.take(k + 1)).len() == e
            &&& e < s.len() ==> s[e] == '\n'
            &&& e == s.len() ==> k + 1 == args.len()
        }),
    decreases args.len(),
{
    let s = joined(args);
    if k + 1 == args.len() {
        assert(args.take(k + 1) =~= args);
        assert(args.drop_last() =~= args.take(k));
        assert(s.subrange(start_of(args, k), s.len() as int) =~= args[k]);
    } else {
        let front = args.drop_last();
        lemma_place(front, k);
        assert(front.take(k) =~= args.take(k));
        assert(front.take(k + 1) =~= args.take(k + 1));
        let f = joined(front);
        let at = start_of(args, k);
        let e = at + args[k].len();
        assert(s =~= f + seq!['\n'] + args.last());
        assert(s.subrange(at, e) =~= f.subrange(at, e));
        if e < f.len() {
            assert(s[e] == f[e]);
        } else {
            assert(s[e] == '\n');
        }
    }
}

} // verus!
