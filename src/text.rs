//! Character-level text operations with their meaning stated over `Seq<char>`.
use vstd::prelude::*;
use vstd::string::*;

verus! {

/// `s` with every occurrence of `pat`, found scanning from the left without overlap,
/// replaced by `with`.
pub open spec fn replaced(s: Seq<char>, pat: Seq<char>, with: Seq<char>) -> Seq<char>
    recommends
        pat.len() > 0,
    decreases s.len(),
{
    if s.len() == 0 || pat.len() == 0 {
        s
    } else if pat.len() <= s.len() && s.subrange(0, pat.len() as int) == pat {
        with + replaced(s.subrange(pat.len() as int, s.len() as int), pat, with)
    } else {
        seq![s[0]] + replaced(s.subrange(1, s.len() as int), pat, with)
    }
}

/// What follows the last `.` of `s`; all of `s` when it has none.
pub open spec fn after_last_dot(s: Seq<char>) -> Seq<char>
    decreases s.len(),
{
    if s.len() == 0 {
        s
    } else if s.last() == '.' {
        Seq::empty()
    } else {
        after_last_dot(s.drop_last()).push(s.last())
    }
}

/// Whether the two texts hold the same characters.
pub fn same_text(a: &str, b: &str) -> (r: bool)
    ensures
        r == (a@ == b@),
{
    let n = a.unicode_len();
    if n != b.unicode_len() {
        return false;
    }
    let mut i: usize = 0;
    while i < n
        invariant
            n == a@.len(),
            n == b@.len(),
            i <= n,
            forall|j: int| 0 <= j < i ==> a@[j] == b@[j],
        decreases n - i,
    {
        if a.get_char(i) != b.get_char(i) {
            return false;
        }
        i = i + 1;
    }
    assert(a@ =~= b@);
    true
}

/// Whether `pat` occurs in `s` at character position `at`.
fn occurs_at(s: &str, n: usize, pat: &str, m: usize, at: usize) -> (r: bool)
    requires
        n == s@.len(),
        m == pat@.len(),
        at <= n,
    ensures
        r == (at + m <= n && s@.subrange(at as int, at + m) == pat@),
{
    if m > n - at {
        return false;
    }
    let mut j: usize = 0;
    while j < m
        invariant
            n == s@.len(),
            m == pat@.len(),
            at + m <= n,
            j <= m,
            forall|t: int| 0 <= t < j ==> s@[at + t] == pat@[t],
        decreases m - j,
    {
        if s.get_char(at + j) != pat.get_char(j) {
            assert(s@.subrange(at as int, at + m)[j as int] != pat@[j as int]);
            return false;
        }
        j = j + 1;
    }
    assert(s@.subrange(at as int, at + m) =~= pat@);
    true
}

proof fn lemma_replaced_step(s: Seq<char>, pat: Seq<char>, with: Seq<char>, at: int, hit: bool)
    requires
        pat.len() > 0,
        0 <= at < s.len(),
        hit == (at + pat.len() <= s.len() && s.subrange(at, at + pat.len()) == pat),
    ensures
        hit ==> replaced(s.subrange(at, s.len() as int), pat, with) == with + replaced(
            s.subrange(at + pat.len(), s.len() as int),
            pat,
            with,
        ),
        !hit ==> replaced(s.subrange(at, s.len() as int), pat, with) == seq![s[at]] + replaced(
            s.subrange(at + 1, s.len() as int),
            pat,
            with,
        ),
{
    let rest = s.subrange(at, s.len() as int);
    if hit {
        assert(rest.subrange(0, pat.len() as int) =~= s.subrange(at, at + pat.len()));
        assert(rest.subrange(pat.len() as int, rest.len() as int) =~= s.subrange(
            at + pat.len(),
            s.len() as int,
        ));
    } else {
        if pat.len() <= rest.len() {
            assert(rest.subrange(0, pat.len() as int) =~= s.subrange(at, at + pat.len()));
        }
        assert(rest.subrange(1, rest.len() as int) =~= s.subrange(at + 1, s.len() as int));
    }
}

/// `s` with each occurrence of `pat` replaced by `with`, as `str::replace` does.
pub fn replace_all(s: &str, pat: &str, with: &str) -> (r: String)
    requires
        pat@.len() > 0,
    ensures
        r@ == replaced(s@, pat@, with@),
{
    let n = s.unicode_len();
    let m = pat.unicode_len();
    let mut out = String::new();
    let mut start: usize = 0;
    let mut i: usize = 0;
    proof {
        assert(s@.subrange(0, 0) =~= Seq::<char>::empty());
        assert(s@.subrange(0, n as int) =~= s@);
        assert(out@ + s@.subrange(0, 0) =~= Seq::<char>::empty());
    }
    while i < n
        invariant
            n == s@.len(),
            m == pat@.len(),
            m > 0,
            start <= i <= n,
            out@ + s@.subrange(start as int, i as int) + replaced(s@.subrange(i as int, n as int), pat@, with@)
                == replaced(s@, pat@, with@),
        decreases n - i,
    {
        let hit = occurs_at(s, n, pat, m, i);
        proof {
            lemma_replaced_step(s@, pat@, with@, i as int, hit);
        }
        if hit {
            let piece = s.substring_char(start, i);
            let ghost before = out@;
            out.append(piece);
            out.append(with);
            proof {
                assert(out@ + s@.subrange((i + m) as int, (i + m) as int) =~= before + s@.subrange(
                    start as int,
                    i as int,
                ) + with@);
            }
            i = i + m;
            start = i;
        } else {
            proof {
                assert(s@.subrange(start as int, i as int) + seq![s@[i as int]] =~= s@.subrange(
                    start as int,
                    i + 1,
                ));
            }
            i = i + 1;
        }
    }
    proof {
        assert(s@.subrange(n as int, n as int) =~= Seq::<char>::empty());
    }
    let piece = s.substring_char(start, n);
    out.append(piece);
    out
}

/// What follows the last `.` of `s` (the whole of `s` when it has none), as
/// `s.split('.').last()` gives it.
pub fn extension_of(s: &str) -> (r: String)
    ensures
        r@ == after_last_dot(s@),
{
    let n = s.unicode_len();
    let mut i: usize = n;
    proof {
        assert(s@.subrange(0, n as int) =~= s@);
        assert(after_last_dot(s@) + s@.subrange(n as int, n as int) =~= after_last_dot(s@));
    }
    while i > 0
        invariant
            n == s@.len(),
            i <= n,
            after_last_dot(s@) == after_last_dot(s@.subrange(0, i as int)) + s@.subrange(
                i as int,
                n as int,
            ),
        decreases i,
    {
        let c = s.get_char(i - 1);
        proof {
            let pre = s@.subrange(0, i as int);
            assert(pre.drop_last() =~= s@.subrange(0, i - 1));
            assert(pre.last() == c);
            assert(seq![c] + s@.subrange(i as int, n as int) =~= s@.subrange(i - 1, n as int));
        }
        if c == '.' {
            proof {
                assert(Seq::<char>::empty() + s@.subrange(i as int, n as int) =~= s@.subrange(
                    i as int,
                    n as int,
                ));
            }
            let tail = s.substring_char(i, n);
            return tail.to_string();
        }
        proof {
            let pre = s@.subrange(0, i as int);
            assert(after_last_dot(pre.drop_last()).push(c) + s@.subrange(i as int, n as int)
                =~= after_last_dot(pre.drop_last()) + s@.subrange(i - 1, n as int));
        }
        i = i - 1;
    }
    proof {
        assert(s@.subrange(0, 0) =~= Seq::<char>::empty());
        assert(Seq::<char>::empty() + s@.subrange(0, n as int) =~= s@);
    }
    s.to_string()
}

} // verus!
