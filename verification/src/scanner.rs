//! Lexical word scanner: maximal runs of ASCII-alphabetic bytes in a line.
//!
//! Offsets are byte offsets into the UTF-8 encoded line. Every byte of a
//! multi-byte character is at least `0x80`, so scanning byte by byte finds
//! exactly the maximal runs of ASCII letters, with correct byte offsets.

use vstd::prelude::*;

verus! {

/// A byte that belongs to a word run: an ASCII letter.
pub open spec fn is_word_byte(b: u8) -> bool {
    (65 <= b && b <= 90) || (97 <= b && b <= 122)
}

/// `[start, end)` is a maximal run of word bytes in `s`:
/// non-empty, all word bytes, and not extendable on either side.
pub open spec fn is_word_run(s: Seq<u8>, start: int, end: int) -> bool {
    &&& 0 <= start < end <= s.len()
    &&& (forall|k: int| start <= k < end ==> is_word_byte(s[k]))
    &&& (start == 0 || !is_word_byte(s[start - 1]))
    &&& (end == s.len() || !is_word_byte(s[end]))
}

/// Two maximal word runs that share a byte position are the same run.
pub proof fn lemma_word_run_overlap(s: Seq<u8>, a: int, b: int, x: int, y: int, k: int)
    requires
        is_word_run(s, a, b),
        is_word_run(s, x, y),
        a <= k < b,
        x <= k < y,
    ensures
        a == x && b == y,
{
    assert forall|c: int, d: int, p: int|
        is_word_run(s, c, d) && is_word_run(s, p, d) && c <= p implies c == p by {
        if c < p {
            assert(is_word_byte(s[p - 1]));
        }
    }
    if b < y {
        assert(is_word_byte(s[b]));
    }
    if y < b {
        assert(is_word_byte(s[y]));
    }
    assert(b == y);
    if a < x {
        assert(is_word_byte(s[x - 1]));
    }
    if x < a {
        assert(is_word_byte(s[a - 1]));
    }
}

/// Position `k` lies inside one of the runs.
pub open spec fn in_some_run(runs: Seq<(usize, usize)>, k: int) -> bool {
    exists|i: int| 0 <= i < runs.len() && (#[trigger] runs[i]).0 <= k < runs[i].1
}

fn word_byte(b: u8) -> (r: bool)
    ensures
        r == is_word_byte(b),
{
    (65 <= b && b <= 90) || (97 <= b && b <= 122)
}

/// Scan a line and return every maximal run of ASCII letters, in
/// left-to-right order, as half-open byte ranges `(start, end)`.
pub fn word_ranges(s: &[u8]) -> (runs: Vec<(usize, usize)>)
    ensures
        forall|i: int| 0 <= i < runs.len() ==>
            is_word_run(s@, (#[trigger] runs[i]).0 as int, runs[i].1 as int),
        forall|i: int, j: int| 0 <= i < j < runs.len() ==>
            (#[trigger] runs[i]).1 < (#[trigger] runs[j]).0,
        forall|k: int| 0 <= k < s@.len() && is_word_byte(s@[k]) ==> in_some_run(runs@, k),
{
    let mut runs: Vec<(usize, usize)> = Vec::new();
    let mut in_word: bool = false;
    let mut start: usize = 0;
    let mut i: usize = 0;
    while i < s.len()
        invariant
            i <= s@.len(),
            forall|j: int| 0 <= j < runs.len() ==>
                is_word_run(s@, (#[trigger] runs[j]).0 as int, runs[j].1 as int),
            forall|j1: int, j2: int| 0 <= j1 < j2 < runs.len() ==>
                (#[trigger] runs[j1]).1 < (#[trigger] runs[j2]).0,
            in_word ==> start < i && (start == 0 || !is_word_byte(s@[start - 1]))
                && (forall|k: int| start <= k < i ==> is_word_byte(s@[k])),
            in_word ==> forall|j: int| 0 <= j < runs.len() ==> (#[trigger] runs[j]).1 < start,
            !in_word ==> (i == 0 || !is_word_byte(s@[i - 1])),
            !in_word ==> forall|j: int| 0 <= j < runs.len() ==> (#[trigger] runs[j]).1 < i,
            forall|k: int| 0 <= k < i && is_word_byte(s@[k]) ==>
                in_some_run(runs@, k) || (in_word && start <= k),
        decreases s@.len() - i,
    {
        if word_byte(s[i]) {
            if !in_word {
                in_word = true;
                start = i;
            }
        } else {
            if in_word {
                let ghost prev = runs@;
                runs.push((start, i));
                proof {
                    lemma_push_keeps_coverage(prev, runs@, start as int, i as int);
                }
                in_word = false;
            }
        }
        i = i + 1;
    }
    if in_word {
        let ghost prev = runs@;
        runs.push((start, s.len()));
        proof {
            lemma_push_keeps_coverage(prev, runs@, start as int, s@.len() as int);
        }
    }
    runs
}

/// After appending the run `[start, end)`, every position that was covered
/// before is still covered, and so is every position of the new run.
proof fn lemma_push_keeps_coverage(prev: Seq<(usize, usize)>, cur: Seq<(usize, usize)>, start: int, end: int)
    requires
        cur.len() == prev.len() + 1,
        forall|j: int| 0 <= j < prev.len() ==> cur[j] == prev[j],
        cur[cur.len() - 1].0 == start,
        cur[cur.len() - 1].1 == end,
    ensures
        forall|k: int| in_some_run(prev, k) ==> in_some_run(cur, k),
        forall|k: int| start <= k < end ==> in_some_run(cur, k),
{
    assert forall|k: int| in_some_run(prev, k) implies in_some_run(cur, k) by {
        let j = choose|j: int| 0 <= j < prev.len() && (#[trigger] prev[j]).0 <= k < prev[j].1;
        assert(0 <= j < cur.len() && (cur[j]).0 <= k < cur[j].1);
    }
    assert forall|k: int| start <= k < end implies in_some_run(cur, k) by {
        let j = cur.len() - 1;
        assert(0 <= j < cur.len() && (cur[j]).0 <= k < cur[j].1);
    }
}

} // verus!
