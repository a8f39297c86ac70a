//! Coordinate query parser: decode one `path:line:column` argument.
//!
//! Line and column are 1-indexed in the argument and zero-indexed in the
//! parsed query; a value of zero is rejected, so the conversion never
//! underflows. Splitting is a naive split on `:`, so a path containing a
//! literal colon (such as a Windows drive prefix) does not parse; that is
//! a known constraint of the coordinate syntax.

use vstd::prelude::*;
use vstd::slice::{slice_subrange, slice_to_vec};

verus! {

pub const COLON: u8 = 58;

/// A parsed coordinate query, with zero-indexed line and column.
pub struct Query {
    pub file: Vec<u8>,
    pub line: usize,
    pub column: usize,
}

/// Every byte is an ASCII decimal digit, and there is at least one.
pub open spec fn is_digits(s: Seq<u8>) -> bool {
    s.len() > 0 && forall|k: int| 0 <= k < s.len() ==> 48 <= #[trigger] s[k] <= 57
}

/// The value of an ASCII decimal numeral, most significant digit first.
pub open spec fn dec_value(s: Seq<u8>) -> int
    decreases s.len(),
{
    if s.len() == 0 {
        0
    } else {
        dec_value(s.drop_last()) * 10 + (s.last() - 48)
    }
}

pub proof fn lemma_dec_value_nonneg(s: Seq<u8>)
    requires
        forall|k: int| 0 <= k < s.len() ==> 48 <= #[trigger] s[k],
    ensures
        dec_value(s) >= 0,
    decreases s.len(),
{
    if s.len() > 0 {
        lemma_dec_value_nonneg(s.drop_last());
    }
}

/// A numeral is at least as large as the value of any of its prefixes.
pub proof fn lemma_dec_value_prefix(s: Seq<u8>, m: int)
    requires
        forall|k: int| 0 <= k < s.len() ==> 48 <= #[trigger] s[k],
        0 <= m <= s.len(),
    ensures
        dec_value(s.take(m)) <= dec_value(s),
    decreases s.len(),
{
    if m == s.len() {
        assert(s.take(m) =~= s);
    } else {
        let d = s.drop_last();
        assert(d.take(m) =~= s.take(m));
        lemma_dec_value_prefix(d, m);
        lemma_dec_value_nonneg(d);
    }
}

/// `i` and `j` are the only colons of `s`, the path before `i` is
/// non-empty, and both numeral fields denote positive values that fit
/// in `usize`.
pub open spec fn valid_query(s: Seq<u8>, i: int, j: int) -> bool {
    &&& 0 < i < j < s.len()
    &&& s[i] == COLON
    &&& s[j] == COLON
    &&& (forall|k: int| 0 <= k < s.len() && #[trigger] s[k] == COLON ==> k == i || k == j)
    &&& is_digits(s.subrange(i + 1, j))
    &&& is_digits(s.subrange(j + 1, s.len() as int))
    &&& 1 <= dec_value(s.subrange(i + 1, j)) <= usize::MAX
    &&& 1 <= dec_value(s.subrange(j + 1, s.len() as int)) <= usize::MAX
}

/// The argument is a well-formed `path:line:column` coordinate.
pub open spec fn parses(s: Seq<u8>) -> bool {
    exists|i: int, j: int| valid_query(s, i, j)
}

/// Parse the numeral in `s[lo..hi]`, rejecting anything but digits and
/// any value that does not fit in `usize`.
fn parse_number(s: &[u8], lo: usize, hi: usize) -> (r: Option<usize>)
    requires
        lo <= hi <= s@.len(),
    ensures
        r matches Some(v) ==> is_digits(s@.subrange(lo as int, hi as int))
            && dec_value(s@.subrange(lo as int, hi as int)) == v,
        r is None ==> !(is_digits(s@.subrange(lo as int, hi as int))
            && dec_value(s@.subrange(lo as int, hi as int)) <= usize::MAX),
{
    let ghost f = s@.subrange(lo as int, hi as int);
    if lo == hi {
        return None;
    }
    let mut acc: usize = 0;
    let mut k: usize = lo;
    while k < hi
        invariant
            lo <= k <= hi <= s@.len(),
            f == s@.subrange(lo as int, hi as int),
            forall|m: int| 0 <= m < k - lo ==> 48 <= #[trigger] f[m] <= 57,
            acc == dec_value(f.take(k - lo)),
        decreases hi - k,
    {
        let b = s[k];
        if b < 48 || b > 57 {
            proof {
                assert(f[k - lo] == s@[k as int]);
            }
            return None;
        }
        let d = (b - 48) as usize;
        proof {
            assert(f.take(k - lo + 1).drop_last() =~= f.take(k - lo));
            assert(f.take(k - lo + 1).last() == f[k - lo]);
            assert(f[k - lo] == s@[k as int]);
        }
        if acc > usize::MAX / 10 {
            proof {
                assert(dec_value(f.take(k - lo + 1)) > usize::MAX);
                if is_digits(f) {
                    lemma_dec_value_prefix(f, k - lo + 1);
                }
            }
            return None;
        }
        let acc10 = acc * 10;
        if d > usize::MAX - acc10 {
            proof {
                assert(dec_value(f.take(k - lo + 1)) > usize::MAX);
                if is_digits(f) {
                    lemma_dec_value_prefix(f, k - lo + 1);
                }
            }
            return None;
        }
        acc = acc10 + d;
        k = k + 1;
    }
    proof {
        assert(f.take(hi - lo) =~= f);
    }
    Some(acc)
}

/// Decode one `path:line:column` argument. `None` exactly when the
/// argument is not a well-formed coordinate; otherwise the query holds
/// the path bytes and the zero-indexed line and column.
pub fn parse_query(arg: &[u8]) -> (r: Option<Query>)
    ensures
        r matches Some(q) ==> exists|i: int, j: int| #[trigger] valid_query(arg@, i, j)
            && q.file@ == arg@.subrange(0, i)
            && q.line + 1 == dec_value(arg@.subrange(i + 1, j))
            && q.column + 1 == dec_value(arg@.subrange(j + 1, arg@.len() as int)),
        r is Some <==> parses(arg@),
{
    let mut c1: usize = 0;
    let mut has1: bool = false;
    let mut c2: usize = 0;
    let mut has2: bool = false;
    let mut i: usize = 0;
    while i < arg.len()
        invariant
            i <= arg@.len(),
            has2 ==> has1,
            has1 ==> c1 < i && arg@[c1 as int] == COLON,
            has2 ==> c1 < c2 < i && arg@[c2 as int] == COLON,
            forall|k: int| 0 <= k < i && #[trigger] arg@[k] == COLON ==>
                (has1 && k == c1) || (has2 && k == c2),
        decreases arg@.len() - i,
    {
        if arg[i] == COLON {
            if !has1 {
                c1 = i;
                has1 = true;
            } else if !has2 {
                c2 = i;
                has2 = true;
            } else {
                proof {
                    if parses(arg@) {
                        let (x, y) = choose|x: int, y: int| valid_query(arg@, x, y);
                        assert(arg@[c1 as int] == COLON);
                        assert(arg@[c2 as int] == COLON);
                    }
                }
                return None;
            }
        }
        i = i + 1;
    }
    proof {
        if parses(arg@) {
            let (x, y) = choose|x: int, y: int| valid_query(arg@, x, y);
            assert(arg@[x] == COLON);
            assert(arg@[y] == COLON);
            assert(has1 && has2 && x == c1 && y == c2);
        }
    }
    if !has1 || !has2 || c1 == 0 {
        return None;
    }
    let line_1 = match parse_number(arg, c1 + 1, c2) {
        Some(v) => v,
        None => {
            return None;
        },
    };
    let col_1 = match parse_number(arg, c2 + 1, arg.len()) {
        Some(v) => v,
        None => {
            return None;
        },
    };
    if line_1 == 0 || col_1 == 0 {
        return None;
    }
    proof {
        assert(valid_query(arg@, c1 as int, c2 as int));
    }
    Some(Query {
        file: slice_to_vec(slice_subrange(arg, 0, c1)),
        line: line_1 - 1,
        column: col_1 - 1,
    })
}

} // verus!
