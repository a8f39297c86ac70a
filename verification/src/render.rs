//! Rendering reference spans back into the stable output layout:
//! one line `path:line:start-end` per reference, every position
//! converted back to 1-indexed, human-facing coordinates.

use vstd::prelude::*;

verus! {

/// The shortest ASCII decimal numeral of `n`, most significant first.
pub open spec fn dec_digits(n: nat) -> Seq<u8>
    decreases n,
{
    if n < 10 {
        seq![(48 + n) as u8]
    } else {
        dec_digits(n / 10).push((48 + n % 10) as u8)
    }
}

/// Append the decimal digits of `n` to `out`.
fn push_dec(out: &mut Vec<u8>, n: u64)
    ensures
        final(out)@ == old(out)@ + dec_digits(n as nat),
    decreases n,
{
    if n < 10 {
        out.push((48 + n) as u8);
        proof {
            assert(out@ =~= old(out)@ + dec_digits(n as nat));
        }
    } else {
        push_dec(out, n / 10);
        out.push((48 + (n % 10)) as u8);
        proof {
            assert(out@ =~= old(out)@ + dec_digits(n as nat));
        }
    }
}

/// One reference occurrence handed back by the analysis store: a file
/// path and a zero-indexed row and column range within it.
pub struct RefSpan {
    pub file: Vec<u8>,
    pub row: u32,
    pub col_start: u32,
    pub col_end: u32,
}

/// The output line for one reference: `path:line:start-end`, with the
/// line and both columns 1-indexed.
pub open spec fn spec_ref_line(file: Seq<u8>, row: int, cs: int, ce: int) -> Seq<u8> {
    file + seq![58u8] + dec_digits((row + 1) as nat) + seq![58u8]
        + dec_digits((cs + 1) as nat) + seq![45u8] + dec_digits((ce + 1) as nat)
}

/// Render one reference span as an output line.
pub fn render_ref_line(file: &Vec<u8>, row: u32, col_start: u32, col_end: u32) -> (out: Vec<u8>)
    ensures
        out@ == spec_ref_line(file@, row as int, col_start as int, col_end as int),
{
    let mut out: Vec<u8> = Vec::new();
    let mut i: usize = 0;
    while i < file.len()
        invariant
            i <= file@.len(),
            out@ == file@.take(i as int),
        decreases file@.len() - i,
    {
        out.push(file[i]);
        proof {
            assert(out@ =~= file@.take(i + 1));
        }
        i = i + 1;
    }
    proof {
        assert(out@ =~= file@);
    }
    out.push(58);
    push_dec(&mut out, row as u64 + 1);
    out.push(58);
    push_dec(&mut out, col_start as u64 + 1);
    out.push(45);
    push_dec(&mut out, col_end as u64 + 1);
    proof {
        assert(out@ =~= spec_ref_line(file@, row as int, col_start as int, col_end as int));
    }
    out
}

/// Render every reference span, one output line per reference, in the
/// order the store yielded them. An empty reference set yields no lines.
pub fn format_refs(refs: &Vec<RefSpan>) -> (out: Vec<Vec<u8>>)
    ensures
        out.len() == refs.len(),
        forall|i: int| 0 <= i < refs.len() ==> (#[trigger] out[i])@ == spec_ref_line(
            refs[i].file@,
            refs[i].row as int,
            refs[i].col_start as int,
            refs[i].col_end as int,
        ),
{
    let mut out: Vec<Vec<u8>> = Vec::new();
    let mut i: usize = 0;
    while i < refs.len()
        invariant
            i <= refs@.len(),
            out.len() == i,
            forall|j: int| 0 <= j < i ==> (#[trigger] out[j])@ == spec_ref_line(
                refs[j].file@,
                refs[j].row as int,
                refs[j].col_start as int,
                refs[j].col_end as int,
            ),
        decreases refs@.len() - i,
    {
        let r = &refs[i];
        let line = render_ref_line(&r.file, r.row, r.col_start, r.col_end);
        out.push(line);
        i = i + 1;
    }
    out
}

} // verus!
