//! Finding placeholders in a template.
//!
//! A placeholder is `{{`, then one or more characters other than `}`, then
//! `}}`. Placeholders are found from left to right and do not overlap: the
//! search for the next one begins behind the last one found.

use vstd::prelude::*;

verus! {

/// Whether `c` has the Unicode property White_Space.
pub open spec fn is_whitespace(c: char) -> bool {
    let n = c as u32;
    ||| 0x09 <= n <= 0x0D
    ||| n == 0x20
    ||| n == 0x85
    ||| n == 0xA0
    ||| n == 0x1680
    ||| 0x2000 <= n <= 0x200A
    ||| n == 0x2028
    ||| n == 0x2029
    ||| n == 0x202F
    ||| n == 0x205F
    ||| n == 0x3000
}

/// Whether `c` has the Unicode property White_Space.
pub fn char_is_whitespace(c: char) -> (white: bool)
    ensures
        white == is_whitespace(c),
{
    let n = c as u32;
    (0x09 <= n && n <= 0x0D) || n == 0x20 || n == 0x85 || n == 0xA0 || n == 0x1680 || (0x2000 <= n
        && n <= 0x200A) || n == 0x2028 || n == 0x2029 || n == 0x202F || n == 0x205F || n == 0x3000
}

/// The first index at or behind `from` that holds no whitespace, or `to`
/// if there is none before `to`.
pub open spec fn trim_start(s: Seq<char>, from: int, to: int) -> int
    decreases to - from,
{
    if from >= to {
        to
    } else if is_whitespace(s[from]) {
        trim_start(s, from + 1, to)
    } else {
        from
    }
}

/// The index behind the last character before `to` that is no whitespace,
/// or `from` if there is none at or behind `from`.
pub open spec fn trim_end(s: Seq<char>, from: int, to: int) -> int
    decreases to - from,
{
    if from >= to {
        from
    } else if is_whitespace(s[to - 1]) {
        trim_end(s, from, to - 1)
    } else {
        to
    }
}

/// `s` without the whitespace at its beginning and at its end.
pub open spec fn trimmed(s: Seq<char>) -> Seq<char> {
    let start = trim_start(s, 0, s.len() as int);
    s.subrange(start, trim_end(s, start, s.len() as int))
}

proof fn lemma_trim_bounds(s: Seq<char>, from: int, to: int)
    requires
        0 <= from <= to <= s.len(),
    ensures
        from <= trim_start(s, from, to) <= to,
        from <= trim_end(s, from, to) <= to,
    decreases to - from,
{
    if from < to {
        lemma_trim_bounds(s, from + 1, to);
        lemma_trim_bounds(s, from, to - 1);
    }
}

/// Trimming a part of a sequence in place is trimming that part.
proof fn lemma_trim_subrange(s: Seq<char>, from: int, to: int)
    requires
        0 <= from <= to <= s.len(),
    ensures
        ({
            let start = trim_start(s, from, to);
            s.subrange(start, trim_end(s, start, to))
        }) == trimmed(s.subrange(from, to)),
{
    let part = s.subrange(from, to);
    lemma_trim_start_shift(s, from, to, from);
    let start = trim_start(s, from, to);
    lemma_trim_bounds(s, from, to);
    lemma_trim_end_shift(s, from, to, start);
    lemma_trim_bounds(s, start, to);
    lemma_trim_bounds(part, 0, part.len() as int);
    lemma_trim_bounds(part, start - from, part.len() as int);
    assert(s.subrange(start, trim_end(s, start, to)) =~= part.subrange(
        start - from,
        trim_end(part, start - from, part.len() as int),
    ));
}

proof fn lemma_trim_start_shift(s: Seq<char>, from: int, to: int, at: int)
    requires
        0 <= from <= at <= to <= s.len(),
    ensures
        trim_start(s, at, to) == from + trim_start(s.subrange(from, to), at - from, to - from),
    decreases to - at,
{
    if at < to {
        assert(s.subrange(from, to)[at - from] == s[at]);
        lemma_trim_start_shift(s, from, to, at + 1);
    }
}

proof fn lemma_trim_end_shift(s: Seq<char>, from: int, to: int, at: int)
    requires
        0 <= from <= at <= to <= s.len(),
    ensures
        forall|end: int|
            at <= end <= to ==> #[trigger] trim_end(s, at, end) == from + trim_end(
                s.subrange(from, to),
                at - from,
                end - from,
            ),
{
    assert forall|end: int| at <= end <= to implies #[trigger] trim_end(s, at, end) == from
        + trim_end(s.subrange(from, to), at - from, end - from) by {
        lemma_trim_end_shift_one(s, from, to, at, end);
    }
}

proof fn lemma_trim_end_shift_one(s: Seq<char>, from: int, to: int, at: int, end: int)
    requires
        0 <= from <= at <= end <= to <= s.len(),
    ensures
        trim_end(s, at, end) == from + trim_end(s.subrange(from, to), at - from, end - from),
    decreases end - at,
{
    if at < end {
        assert(s.subrange(from, to)[end - 1 - from] == s[end - 1]);
        lemma_trim_end_shift_one(s, from, to, at, end - 1);
    }
}

/// The bounds of `chars[from..to]` without the whitespace at its beginning
/// and at its end.
pub fn trim_range(chars: &Vec<char>, from: usize, to: usize) -> (bounds: (usize, usize))
    requires
        from <= to <= chars.len(),
    ensures
        from <= bounds.0 <= bounds.1 <= to,
        chars@.subrange(bounds.0 as int, bounds.1 as int) == trimmed(
            chars@.subrange(from as int, to as int),
        ),
{
    let mut start: usize = from;
    while start < to && char_is_whitespace(chars[start])
        invariant
            from <= start <= to <= chars.len(),
            trim_start(chars@, from as int, to as int) == trim_start(
                chars@,
                start as int,
                to as int,
            ),
        decreases to - start,
    {
        start += 1;
    }
    let mut end: usize = to;
    while end > start && char_is_whitespace(chars[end - 1])
        invariant
            start <= end <= to <= chars.len(),
            trim_end(chars@, start as int, to as int) == trim_end(
                chars@,
                start as int,
                end as int,
            ),
        decreases end - start,
    {
        end -= 1;
    }
    proof {
        lemma_trim_subrange(chars@, from as int, to as int);
    }
    (start, end)
}

/// The index of the first `}` at or behind `from`, or the length of `s` if
/// there is none.
pub open spec fn closing(s: Seq<char>, from: int) -> int
    decreases s.len() - from,
{
    if from >= s.len() {
        s.len() as int
    } else if s[from] == '}' {
        from
    } else {
        closing(s, from + 1)
    }
}

/// Where the placeholder that begins at `at` ends, if one begins there:
/// `{{` stands at `at`, at least one character other than `}` follows, and
/// the first `}` behind them is followed by another.
pub open spec fn placeholder_end(s: Seq<char>, at: int) -> Option<int> {
    if 0 <= at && at + 1 < s.len() && s[at] == '{' && s[at + 1] == '{' {
        let close = closing(s, at + 2);
        if close > at + 2 && close + 1 < s.len() && s[close + 1] == '}' {
            Some(close + 2)
        } else {
            None
        }
    } else {
        None
    }
}

/// The placeholders of `s` at or behind `from`, each as the index where it
/// begins and the index where it ends, from left to right.
pub open spec fn placeholders_from(s: Seq<char>, from: int) -> Seq<(int, int)>
    decreases s.len() - from,
{
    if from < 0 || from >= s.len() {
        Seq::empty()
    } else {
        match placeholder_end(s, from) {
            Some(end) => {
                proof {
                    lemma_closing_bounds(s, from + 2);
                }
                seq![(from, end)] + placeholders_from(s, end)
            },
            None => placeholders_from(s, from + 1),
        }
    }
}

/// The placeholders of `s`.
pub open spec fn placeholders(s: Seq<char>) -> Seq<(int, int)> {
    placeholders_from(s, 0)
}

pub proof fn lemma_closing_bounds(s: Seq<char>, from: int)
    requires
        0 <= from <= s.len(),
    ensures
        from <= closing(s, from) <= s.len(),
        closing(s, from) < s.len() ==> s[closing(s, from)] == '}',
        forall|k: int| from <= k < closing(s, from) ==> #[trigger] s[k] != '}',
    decreases s.len() - from,
{
    if from < s.len() && s[from] != '}' {
        lemma_closing_bounds(s, from + 1);
    }
}

/// A placeholder lies within the sequence and is at least five characters
/// long; the characters between its braces are not `}`.
pub proof fn lemma_placeholder_end(s: Seq<char>, at: int)
    requires
        placeholder_end(s, at) is Some,
    ensures
        0 <= at,
        at + 5 <= placeholder_end(s, at)->0 <= s.len(),
        s[at] == '{',
        s[at + 1] == '{',
        s[placeholder_end(s, at)->0 - 2] == '}',
        s[placeholder_end(s, at)->0 - 1] == '}',
        forall|k: int| at + 2 <= k < placeholder_end(s, at)->0 - 2 ==> #[trigger] s[k] != '}',
{
    lemma_closing_bounds(s, at + 2);
}

/// Every placeholder found lies within the sequence, and each begins at or
/// behind the end of the one before it.
pub proof fn lemma_placeholders_from(s: Seq<char>, from: int)
    requires
        0 <= from,
    ensures
        forall|k: int|
            0 <= k < placeholders_from(s, from).len() ==> {
                let found = #[trigger] placeholders_from(s, from)[k];
                &&& from <= found.0
                &&& found.0 + 5 <= found.1 <= s.len()
                &&& placeholder_end(s, found.0) == Some(found.1)
            },
        forall|j: int, k: int|
            0 <= j < k < placeholders_from(s, from).len() ==> (#[trigger] placeholders_from(
                s,
                from,
            )[j]).1 <= (#[trigger] placeholders_from(s, from)[k]).0,
    decreases s.len() - from,
{
    if from < s.len() {
        match placeholder_end(s, from) {
            Some(end) => {
                lemma_placeholder_end(s, from);
                lemma_placeholders_from(s, end);
                let rest = placeholders_from(s, end);
                let all = placeholders_from(s, from);
                assert(all =~= seq![(from, end)] + rest);
                assert forall|k: int| 0 <= k < all.len() implies {
                    let found = #[trigger] all[k];
                    &&& from <= found.0
                    &&& found.0 + 5 <= found.1 <= s.len()
                    &&& placeholder_end(s, found.0) == Some(found.1)
                } by {
                    if k > 0 {
                        assert(all[k] == rest[k - 1]);
                    }
                }
                assert forall|j: int, k: int| 0 <= j < k < all.len() implies (#[trigger] all[j]).1
                    <= (#[trigger] all[k]).0 by {
                    assert(all[k] == rest[k - 1]);
                    if j > 0 {
                        assert(all[j] == rest[j - 1]);
                    }
                }
            },
            None => {
                lemma_placeholders_from(s, from + 1);
            },
        }
    }
}

/// The index of the first `}` at or behind `from`, or the length of `chars`
/// if there is none.
fn find_closing(chars: &Vec<char>, from: usize) -> (close: usize)
    requires
        from <= chars.len(),
    ensures
        close == closing(chars@, from as int),
        from <= close <= chars.len(),
{
    let mut at: usize = from;
    while at < chars.len() && chars[at] != '}'
        invariant
            from <= at <= chars.len(),
            closing(chars@, from as int) == closing(chars@, at as int),
        decreases chars.len() - at,
    {
        at += 1;
    }
    at
}

/// The placeholders of `chars`, each as the index where it begins and the
/// index where it ends, from left to right.
pub fn find_placeholders(chars: &Vec<char>) -> (found: Vec<(usize, usize)>)
    ensures
        found@.len() == placeholders(chars@).len(),
        forall|k: int|
            0 <= k < found@.len() ==> (#[trigger] found@[k]).0 == placeholders(chars@)[k].0
                && found@[k].1 == placeholders(chars@)[k].1,
{
    let mut found: Vec<(usize, usize)> = Vec::new();
    let ghost mut seen: Seq<(int, int)> = Seq::empty();
    let mut at: usize = 0;
    let n = chars.len();
    while at < n
        invariant
            at <= n,
            n == chars.len(),
            seen + placeholders_from(chars@, at as int) == placeholders(chars@),
            found@.len() == seen.len(),
            forall|k: int|
                0 <= k < found@.len() ==> (#[trigger] found@[k]).0 == seen[k].0 && found@[k].1
                    == seen[k].1,
        decreases n - at,
    {
        let mut end: usize = 0;
        let mut is_placeholder = false;
        if n - at >= 2 && chars[at] == '{' && chars[at + 1] == '{' {
            let close = find_closing(chars, at + 2);
            if close > at + 2 && n - close >= 2 && chars[close + 1] == '}' {
                is_placeholder = true;
                end = close + 2;
            }
        }
        assert(is_placeholder == placeholder_end(chars@, at as int) is Some);
        if is_placeholder {
            proof {
                let rest = placeholders_from(chars@, end as int);
                assert(placeholders_from(chars@, at as int) == seq![(at as int, end as int)] + rest);
                assert(seen.push((at as int, end as int)) + rest =~= seen + (seq![
                    (at as int, end as int),
                ] + rest));
                seen = seen.push((at as int, end as int));
            }
            found.push((at, end));
            at = end;
        } else {
            at += 1;
        }
    }
    proof {
        assert(placeholders_from(chars@, at as int) =~= Seq::empty());
        assert(seen =~= placeholders(chars@));
    }
    found
}

} // verus!
