//! How a sequence of characters divides into lines.
//!
//! A line ends right after a line break.  The recognised breaks are LF, VT,
//! FF, CR, NEL, LS and PS, and a CR directly followed by an LF counts as one
//! break (the pair ends the line after the LF).  A text with `k` breaks has
//! `k + 1` lines; the last one may be empty.
use vstd::prelude::*;

verus! {

/// The characters that end a line.
pub open spec fn is_line_break(c: char) -> bool {
    ||| c == '\n'
    ||| c == '\u{0B}'
    ||| c == '\u{0C}'
    ||| c == '\r'
    ||| c == '\u{85}'
    ||| c == '\u{2028}'
    ||| c == '\u{2029}'
}

/// Position `i` (a gap between characters) is the end of a line: the
/// character before it is a break, and it is not the CR of a CRLF pair.
pub open spec fn ends_line(s: Seq<char>, i: int) -> bool {
    &&& 1 <= i <= s.len()
    &&& is_line_break(s[i - 1])
    &&& !(s[i - 1] == '\r' && i < s.len() && s[i] == '\n')
}

/// The number of line ends at positions `1..=i`: the index of the line that
/// position `i` belongs to.
pub open spec fn breaks_upto(s: Seq<char>, i: int) -> nat
    decreases i,
{
    if i <= 0 {
        0
    } else {
        breaks_upto(s, i - 1) + if ends_line(s, i) {
            1nat
        } else {
            0nat
        }
    }
}

/// The number of lines of `s`.
pub open spec fn line_total(s: Seq<char>) -> nat {
    breaks_upto(s, s.len() as int) + 1
}

/// The first position at or after `p` whose line index is at least `k`, or
/// the length of `s` where there is none before the end.
pub open spec fn first_at_least(s: Seq<char>, k: int, p: int) -> int
    decreases s.len() - p,
{
    if p >= s.len() {
        s.len() as int
    } else if breaks_upto(s, p) >= k {
        p
    } else {
        first_at_least(s, k, p + 1)
    }
}

/// Where line `k` starts; for `k == line_total(s)` this is the length of `s`.
pub open spec fn line_start(s: Seq<char>, k: int) -> int {
    first_at_least(s, k, 0)
}

/// Where line `k` ends, its break included: the start of the next line.
pub open spec fn line_stop(s: Seq<char>, k: int) -> int {
    line_start(s, k + 1)
}

/// The characters of line `k`, its break included.
pub open spec fn line_chars(s: Seq<char>, k: int) -> Seq<char> {
    s.subrange(line_start(s, k), line_stop(s, k))
}

/// The line index of each position grows by at most one per character.
pub proof fn lemma_breaks_monotone(s: Seq<char>, i: int, j: int)
    requires
        0 <= i <= j,
    ensures
        breaks_upto(s, i) <= breaks_upto(s, j),
        breaks_upto(s, j) <= breaks_upto(s, i) + (j - i),
    decreases j - i,
{
    if i < j {
        lemma_breaks_monotone(s, i, j - 1);
    }
}

proof fn lemma_first_at_least(s: Seq<char>, k: int, p: int)
    requires
        0 <= p <= s.len(),
    ensures
        p <= first_at_least(s, k, p) <= s.len(),
        first_at_least(s, k, p) < s.len() ==> breaks_upto(s, first_at_least(s, k, p)) >= k,
        forall|q: int| p <= q < first_at_least(s, k, p) ==> breaks_upto(s, q) < k,
    decreases s.len() - p,
{
    if p < s.len() && breaks_upto(s, p) < k {
        lemma_first_at_least(s, k, p + 1);
    }
}

/// Line `k` starts at the first position of line index `k`, right after a
/// line end (or at 0), and the line after the last starts at the end.
pub proof fn lemma_line_start(s: Seq<char>, k: int)
    requires
        0 <= k < line_total(s),
    ensures
        0 <= line_start(s, k) <= s.len(),
        breaks_upto(s, line_start(s, k)) == k,
        k > 0 ==> ends_line(s, line_start(s, k)),
        k == 0 ==> line_start(s, k) == 0,
        forall|q: int| 0 <= q < line_start(s, k) ==> breaks_upto(s, q) < k,
        line_start(s, line_total(s) as int) == s.len(),
{
    let n = s.len() as int;
    lemma_first_at_least(s, k, 0);
    lemma_first_at_least(s, line_total(s) as int, 0);
    let r = line_start(s, k);
    if r == n {
        if n > 0 {
            lemma_breaks_monotone(s, n - 1, n);
        }
    } else if r > 0 {
        lemma_breaks_monotone(s, r - 1, r);
    }
    let t = line_start(s, line_total(s) as int);
    if t < n {
        lemma_breaks_monotone(s, t, n);
    }
}

/// Position `c` lies in the line `breaks_upto(s, c)`: at or after its start,
/// and before the start of the next line (or at the very end).
pub proof fn lemma_position_in_line(s: Seq<char>, c: int)
    requires
        0 <= c <= s.len(),
    ensures
        breaks_upto(s, c) < line_total(s),
        line_start(s, breaks_upto(s, c) as int) <= c,
        c < line_stop(s, breaks_upto(s, c) as int) || c == s.len(),
        c <= line_stop(s, breaks_upto(s, c) as int),
{
    let n = s.len() as int;
    let k = breaks_upto(s, c) as int;
    lemma_breaks_monotone(s, c, n);
    lemma_line_start(s, k);
    lemma_first_at_least(s, k + 1, 0);
    if k + 1 < line_total(s) {
        lemma_line_start(s, k + 1);
        let r = line_start(s, k + 1);
        if r <= c {
            lemma_breaks_monotone(s, r, c);
        }
    }
}

/// Consecutive lines: each starts no later than the next, and line `k`
/// covers exactly the positions whose line index is `k`.
pub proof fn lemma_line_order(s: Seq<char>, k: int)
    requires
        0 <= k < line_total(s),
    ensures
        line_start(s, k) < line_stop(s, k) || (k + 1 == line_total(s) && line_start(s, k)
            == line_stop(s, k)),
        0 <= line_start(s, k) <= line_stop(s, k) <= s.len(),
        forall|q: int|
            line_start(s, k) <= q < line_stop(s, k) ==> breaks_upto(s, q) == k,
        k + 1 == line_total(s) ==> line_stop(s, k) == s.len() && breaks_upto(s, s.len() as int) == k,
{
    lemma_line_start(s, k);
    let a = line_start(s, k);
    if k + 1 < line_total(s) {
        lemma_line_start(s, k + 1);
        let b = line_start(s, k + 1);
        if b <= a {
            lemma_breaks_monotone(s, b, a);
        }
        assert forall|q: int| a <= q < b implies breaks_upto(s, q) == k by {
            lemma_breaks_monotone(s, a, q);
        }
    } else {
        lemma_line_start(s, k);
        assert forall|q: int| a <= q < s.len() implies breaks_upto(s, q) == k by {
            lemma_breaks_monotone(s, a, q);
            lemma_breaks_monotone(s, q, s.len() as int);
        }
    }
}

} // verus!
