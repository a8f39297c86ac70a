//! Identifier span locator: the word run of a line that a requested
//! column falls on. The check against a run `[start, end)` is inclusive
//! of `end`, so a cursor placed immediately after the last letter of a
//! word still resolves to that word.

use vstd::prelude::*;
use crate::lines;
use crate::lines::spec_lines;
use crate::scanner;
use crate::scanner::{is_word_byte, is_word_run, in_some_run};
use vstd::slice::slice_subrange;

verus! {

/// The word run of `l` whose inclusive column range `[start, end]`
/// contains `col`, if any. There is at most one such run.
pub open spec fn covering_run(l: Seq<u8>, col: int) -> Option<(int, int)> {
    if exists|a: int, b: int| is_word_run(l, a, b) && a <= col <= b {
        let (a, b) = choose|a: int, b: int| is_word_run(l, a, b) && a <= col <= b;
        Some((a, b))
    } else {
        None
    }
}

/// At most one maximal word run contains a given column, even with the
/// inclusive end check: two runs cannot touch without merging.
pub proof fn lemma_covering_unique(l: Seq<u8>, a: int, b: int, x: int, y: int, col: int)
    requires
        is_word_run(l, a, b),
        is_word_run(l, x, y),
        a <= col <= b,
        x <= col <= y,
    ensures
        a == x && b == y,
{
    if col < b && col < y {
        scanner::lemma_word_run_overlap(l, a, b, x, y, col);
    } else if col == b && col == y {
        scanner::lemma_word_run_overlap(l, a, b, x, y, col - 1);
    } else if col == b {
        assert(is_word_byte(l[col]));
    } else {
        assert(is_word_byte(l[col]));
    }
}

/// A maximal word run whose inclusive range contains the column is
/// the covering run.
pub proof fn lemma_covering_run_is(l: Seq<u8>, a: int, b: int, col: int)
    requires
        is_word_run(l, a, b),
        a <= col <= b,
    ensures
        covering_run(l, col) == Some((a, b)),
{
    let (x, y) = choose|x: int, y: int| is_word_run(l, x, y) && x <= col <= y;
    lemma_covering_unique(l, a, b, x, y, col);
}

/// A column strictly inside a word run and the column exactly at the
/// run's end offset resolve to the same span: the run itself.
pub proof fn lemma_inclusive_end_boundary(l: Seq<u8>, a: int, b: int, col: int)
    requires
        is_word_run(l, a, b),
        a <= col < b,
    ensures
        covering_run(l, col) == Some((a, b)),
        covering_run(l, b) == Some((a, b)),
{
    lemma_covering_run_is(l, a, b, col);
    lemma_covering_run_is(l, a, b, b);
}

/// A column on a separator byte that does not directly follow a word
/// resolves to no run at all.
pub proof fn lemma_separator_not_found(l: Seq<u8>, col: int)
    requires
        0 <= col < l.len(),
        !is_word_byte(l[col]),
        col == 0 || !is_word_byte(l[col - 1]),
    ensures
        covering_run(l, col) is None,
{
    if covering_run(l, col) is Some {
        let (a, b) = choose|a: int, b: int| is_word_run(l, a, b) && a <= col <= b;
        if col < b {
            assert(is_word_byte(l[col]));
        } else {
            assert(is_word_byte(l[col - 1]));
        }
    }
}

/// Find the word run under `column` on line `line` of `text`, as byte
/// offsets within that line. `None` when the line index is out of range
/// or no run's inclusive column range contains the column.
pub fn find_ident_range(text: &[u8], line: usize, column: usize) -> (r: Option<(usize, usize)>)
    ensures
        line < spec_lines(text@).len() ==> ({
            let l = spec_lines(text@)[line as int];
            match r {
                Some(p) => covering_run(l, column as int) == Some((p.0 as int, p.1 as int)),
                None => covering_run(l, column as int) is None,
            }
        }),
        line >= spec_lines(text@).len() ==> r is None,
{
    match lines::line_span(text, line) {
        None => None,
        Some((a, b)) => {
            let ghost l = spec_lines(text@)[line as int];
            let line_slice = slice_subrange(text, a, b);
            let runs = scanner::word_ranges(line_slice);
            let mut idx: usize = 0;
            while idx < runs.len()
                invariant
                    line < spec_lines(text@).len(),
                    l == spec_lines(text@)[line as int],
                    l == line_slice@,
                    idx <= runs.len(),
                    forall|j: int| 0 <= j < runs.len() ==>
                        is_word_run(l, (#[trigger] runs[j]).0 as int, runs[j].1 as int),
                    forall|k: int| 0 <= k < l.len() && is_word_byte(l[k]) ==> in_some_run(runs@, k),
                    forall|j: int| 0 <= j < idx ==>
                        !((#[trigger] runs[j]).0 <= column <= runs[j].1),
                decreases runs.len() - idx,
            {
                let (s, e) = runs[idx];
                if s <= column && column <= e {
                    proof {
                        lemma_covering_run_is(l, s as int, e as int, column as int);
                    }
                    return Some((s, e));
                }
                idx = idx + 1;
            }
            proof {
                if covering_run(l, column as int) is Some {
                    let (x, y) = choose|x: int, y: int|
                        is_word_run(l, x, y) && x <= column <= y;
                    let k = if column < y { column as int } else { y - 1 };
                    assert(is_word_byte(l[k]));
                    assert(0 <= k < l.len());
                    assert(in_some_run(runs@, k));
                    let j = choose|j: int|
                        0 <= j < runs@.len() && (#[trigger] runs@[j]).0 <= k < runs@[j].1;
                    scanner::lemma_word_run_overlap(
                        l, x, y, runs@[j].0 as int, runs@[j].1 as int, k);
                }
            }
            None
        }
    }
}

} // verus!
