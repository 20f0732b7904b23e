//! Literal replacement in character sequences, and joining.

use vstd::prelude::*;
use vstd::string::StringExecFns;

verus! {

/// Whether `pattern` stands in `s` at `at`.
pub open spec fn occurs_at(s: Seq<char>, pattern: Seq<char>, at: int) -> bool {
    0 <= at && at + pattern.len() <= s.len() && s.subrange(at, at + pattern.len()) == pattern
}

/// `s` from `from` on, with every occurrence of `pattern` replaced by
/// `with`. Occurrences are taken from left to right and do not overlap. An
/// empty pattern occurs nowhere.
pub open spec fn replace_from(s: Seq<char>, pattern: Seq<char>, with: Seq<char>, from: int) -> Seq<
    char,
>
    decreases s.len() - from,
{
    if from < 0 || from > s.len() {
        Seq::empty()
    } else if pattern.len() == 0 || from + pattern.len() > s.len() {
        s.subrange(from, s.len() as int)
    } else if occurs_at(s, pattern, from) {
        with + replace_from(s, pattern, with, from + pattern.len())
    } else {
        seq![s[from]] + replace_from(s, pattern, with, from + 1)
    }
}

/// `s` with every occurrence of `pattern` replaced by `with`.
pub open spec fn replace_all(s: Seq<char>, pattern: Seq<char>, with: Seq<char>) -> Seq<char> {
    replace_from(s, pattern, with, 0)
}

/// Whether `a[a_from..a_from + len]` and `b[b_from..b_from + len]` hold the
/// same characters.
pub(crate) fn same_chars(a: &Vec<char>, a_from: usize, b: &Vec<char>, b_from: usize, len: usize) -> (same:
    bool)
    requires
        a_from + len <= a.len(),
        b_from + len <= b.len(),
    ensures
        same == (a@.subrange(a_from as int, a_from + len) == b@.subrange(
            b_from as int,
            b_from + len,
        )),
{
    let mut k: usize = 0;
    while k < len
        invariant
            k <= len,
            a_from + len <= a.len(),
            b_from + len <= b.len(),
            forall|j: int|
                0 <= j < k ==> #[trigger] a@.subrange(a_from as int, a_from + len)[j] == b@.subrange(
                    b_from as int,
                    b_from + len,
                )[j],
        decreases len - k,
    {
        if a[a_from + k] != b[b_from + k] {
            proof {
                let x = a@.subrange(a_from as int, a_from + len);
                let y = b@.subrange(b_from as int, b_from + len);
                assert(x[k as int] != y[k as int]);
            }
            return false;
        }
        k += 1;
    }
    assert(a@.subrange(a_from as int, a_from + len) =~= b@.subrange(b_from as int, b_from + len));
    true
}

/// `text` with every occurrence of `pattern` replaced by `with`.
pub fn replace_chars(text: &Vec<char>, pattern: &Vec<char>, with: &Vec<char>) -> (replaced: Vec<
    char,
>)
    ensures
        replaced@ == replace_all(text@, pattern@, with@),
{
    let n = text.len();
    let m = pattern.len();
    let mut replaced: Vec<char> = Vec::new();
    let mut at: usize = 0;
    while at < n && m > 0 && n - at >= m
        invariant
            at <= n,
            n == text.len(),
            m == pattern.len(),
            replaced@ + replace_from(text@, pattern@, with@, at as int) == replace_all(
                text@,
                pattern@,
                with@,
            ),
        decreases n - at,
    {
        let ghost before = replaced@;
        if same_chars(text, at, pattern, 0, m) {
            assert(pattern@.subrange(0, m as int) =~= pattern@);
            let mut k: usize = 0;
            while k < with.len()
                invariant
                    k <= with.len(),
                    replaced@ == before + with@.take(k as int),
                decreases with.len() - k,
            {
                replaced.push(with[k]);
                k += 1;
                assert(replaced@ =~= before + with@.take(k as int));
            }
            proof {
                assert(with@.take(with.len() as int) =~= with@);
                let rest = replace_from(text@, pattern@, with@, at + m);
                assert(occurs_at(text@, pattern@, at as int));
                assert(replace_from(text@, pattern@, with@, at as int) == with@ + rest);
                assert((before + with@) + rest =~= before + (with@ + rest));
            }
            at += m;
        } else {
            replaced.push(text[at]);
            proof {
                let rest = replace_from(text@, pattern@, with@, at + 1);
                assert(pattern@.subrange(0, m as int) =~= pattern@);
                assert(!occurs_at(text@, pattern@, at as int));
                assert(replace_from(text@, pattern@, with@, at as int) == seq![text@[at as int]]
                    + rest);
                assert(before.push(text@[at as int]) + rest =~= before + (seq![text@[at as int]]
                    + rest));
            }
            at += 1;
        }
    }
    let ghost copied = replaced@;
    let ghost from = at;
    while at < n
        invariant
            from <= at <= n,
            n == text.len(),
            replaced@ == copied + text@.subrange(from as int, at as int),
        decreases n - at,
    {
        replaced.push(text[at]);
        at += 1;
        assert(replaced@ =~= copied + text@.subrange(from as int, at as int));
    }
    replaced
}

/// The parts, with `separator` between each two.
pub open spec fn joined(parts: Seq<Seq<char>>, separator: Seq<char>) -> Seq<char>
    decreases parts.len(),
{
    if parts.len() == 0 {
        Seq::empty()
    } else if parts.len() == 1 {
        parts[0]
    } else {
        joined(parts.drop_last(), separator) + separator + parts.last()
    }
}

/// Appends the parts to `out`, with `separator` between each two.
pub(crate) fn push_joined(out: &mut String, parts: &Vec<String>, separator: &str)
    ensures
        final(out)@ == old(out)@ + joined(parts.deep_view(), separator@),
{
    let mut i: usize = 0;
    assert(parts.deep_view().take(0) =~= Seq::empty());
    while i < parts.len()
        invariant
            i <= parts.len(),
            out@ == old(out)@ + joined(parts.deep_view().take(i as int), separator@),
        decreases parts.len() - i,
    {
        let ghost done = parts.deep_view().take(i as int);
        if i > 0 {
            out.append(separator);
        }
        out.append(parts[i].as_str());
        i += 1;
        proof {
            let next = parts.deep_view().take(i as int);
            assert(next.drop_last() =~= done);
            assert(next.last() == parts@[i - 1]@);
            if i == 1 {
                assert(out@ =~= old(out)@ + joined(next, separator@));
            } else {
                assert(out@ =~= old(out)@ + joined(next, separator@));
            }
        }
    }
    assert(parts.deep_view().take(parts.len() as int) =~= parts.deep_view());
}

} // verus!
