//! Splitting a text buffer into lines, the way the target file is read:
//! lines end at `\n`, a `\r` immediately before the `\n` is not part of
//! the line, and a final fragment without a terminator is a line of its
//! own, while a trailing terminator adds no empty line.

use vstd::prelude::*;

verus! {

pub const NL: u8 = 10;

pub const CR: u8 = 13;

/// Index of the first newline byte, or `s.len()` if there is none.
pub open spec fn first_nl(s: Seq<u8>) -> int
    decreases s.len(),
{
    if s.len() == 0 {
        0
    } else if s[0] == NL {
        0
    } else {
        1 + first_nl(s.subrange(1, s.len() as int))
    }
}

pub proof fn lemma_first_nl(s: Seq<u8>)
    ensures
        0 <= first_nl(s) <= s.len(),
        first_nl(s) < s.len() ==> s[first_nl(s)] == NL,
        forall|k: int| 0 <= k < first_nl(s) ==> s[k] != NL,
    decreases s.len(),
{
    if s.len() == 0 {
    } else if s[0] == NL {
    } else {
        let sub = s.subrange(1, s.len() as int);
        lemma_first_nl(sub);
        assert forall|k: int| 0 <= k < first_nl(s) implies s[k] != NL by {
            if k > 0 {
                assert(s[k] == sub[k - 1]);
            }
        }
    }
}

/// The exact position of the first newline, from its characterization.
pub proof fn lemma_first_nl_is(s: Seq<u8>, j: int)
    requires
        0 <= j < s.len(),
        s[j] == NL,
        forall|k: int| 0 <= k < j ==> s[k] != NL,
    ensures
        first_nl(s) == j,
    decreases s.len(),
{
    if j > 0 {
        let sub = s.subrange(1, s.len() as int);
        assert forall|k: int| 0 <= k < j - 1 implies sub[k] != NL by {
            assert(sub[k] == s[k + 1]);
        }
        lemma_first_nl_is(sub, j - 1);
    }
}

pub proof fn lemma_first_nl_none(s: Seq<u8>)
    requires
        forall|k: int| 0 <= k < s.len() ==> s[k] != NL,
    ensures
        first_nl(s) == s.len(),
    decreases s.len(),
{
    if s.len() > 0 {
        let sub = s.subrange(1, s.len() as int);
        assert forall|k: int| 0 <= k < sub.len() implies sub[k] != NL by {
            assert(sub[k] == s[k + 1]);
        }
        lemma_first_nl_none(sub);
    }
}

/// Strip one carriage return left at the end by a `\r\n` terminator.
pub open spec fn chomp_cr(l: Seq<u8>) -> Seq<u8> {
    if l.len() > 0 && l[l.len() - 1] == CR {
        l.subrange(0, l.len() - 1)
    } else {
        l
    }
}

/// The lines of a text buffer.
pub open spec fn spec_lines(s: Seq<u8>) -> Seq<Seq<u8>>
    decreases s.len(),
    via spec_lines_decreases
{
    if s.len() == 0 {
        Seq::empty()
    } else if first_nl(s) == s.len() {
        seq![s]
    } else {
        seq![chomp_cr(s.subrange(0, first_nl(s)))]
            + spec_lines(s.subrange(first_nl(s) + 1, s.len() as int))
    }
}

#[via_fn]
proof fn spec_lines_decreases(s: Seq<u8>) {
    lemma_first_nl(s);
}

/// The suffix of `t` from byte `start` on.
pub open spec fn rest_of(t: Seq<u8>, start: int) -> Seq<u8> {
    t.subrange(start, t.len() as int)
}

/// Return the byte range `[start, end)` of line `n` of `text`, or `None`
/// when the text has no line with that index.
pub fn line_span(text: &[u8], n: usize) -> (r: Option<(usize, usize)>)
    ensures
        r matches Some(p) ==> {
            &&& n < spec_lines(text@).len()
            &&& p.0 <= p.1 <= text@.len()
            &&& spec_lines(text@)[n as int] == text@.subrange(p.0 as int, p.1 as int)
        },
        r is None ==> n >= spec_lines(text@).len(),
{
    let ghost t = text@;
    let mut start: usize = 0;
    let mut count: usize = 0;
    let mut i: usize = 0;
    proof {
        assert(rest_of(t, 0) =~= t);
    }
    while i < text.len()
        invariant
            t == text@,
            start <= i <= t.len(),
            count <= n,
            count <= spec_lines(t).len(),
            spec_lines(t).len() == count + spec_lines(rest_of(t, start as int)).len(),
            forall|m: int| 0 <= m < spec_lines(rest_of(t, start as int)).len() ==>
                spec_lines(t)[count + m] == #[trigger] spec_lines(rest_of(t, start as int))[m],
            forall|k: int| start <= k < i ==> t[k] != NL,
        decreases t.len() - i,
    {
        if text[i] == NL {
            let ghost rest = rest_of(t, start as int);
            proof {
                assert(rest[i - start] == NL);
                assert forall|k: int| 0 <= k < i - start implies rest[k] != NL by {
                    assert(rest[k] == t[start + k]);
                }
                lemma_first_nl_is(rest, i - start);
            }
            if count == n {
                let end = if i > start && text[i - 1] == CR { i - 1 } else { i };
                proof {
                    let l = rest.subrange(0, i - start);
                    assert(l =~= t.subrange(start as int, i as int));
                    assert(spec_lines(rest)[0] == chomp_cr(l));
                    assert(spec_lines(t)[n as int] == spec_lines(rest)[0]);
                    if l.len() > 0 && l[l.len() - 1] == CR {
                        assert(chomp_cr(l) =~= t.subrange(start as int, i as int - 1));
                    }
                }
                return Some((start, end));
            }
            proof {
                let tail = rest.subrange(i - start + 1, rest.len() as int);
                assert(tail =~= rest_of(t, i as int + 1));
                assert(spec_lines(rest) == seq![chomp_cr(rest.subrange(0, i - start))] + spec_lines(tail));
                assert forall|m: int| 0 <= m < spec_lines(rest_of(t, i as int + 1)).len() implies
                    spec_lines(t)[count + 1 + m] == #[trigger] spec_lines(rest_of(t, i as int + 1))[m] by {
                    assert(spec_lines(rest)[1 + m] == spec_lines(tail)[m]);
                }
            }
            count = count + 1;
            start = i + 1;
        }
        i = i + 1;
    }
    let ghost rest = rest_of(t, start as int);
    proof {
        assert forall|k: int| 0 <= k < rest.len() implies rest[k] != NL by {
            assert(rest[k] == t[start + k]);
        }
        lemma_first_nl_none(rest);
    }
    if start < text.len() {
        if count == n {
            proof {
                assert(spec_lines(rest) == seq![rest]);
                assert(spec_lines(t)[n as int] == spec_lines(rest)[0]);
            }
            return Some((start, text.len()));
        }
    }
    None
}

} // verus!
