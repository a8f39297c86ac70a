//! Reference resolver: map a located identifier span to an id in the
//! external analysis store and render every recorded reference.
//!
//! The store itself is an external collaborator; the two queries it
//! answers are trusted declarations, and everything the store hands
//! back flows through the verified renderer. What the store answers
//! depends on the analysis data it has loaded, so the trusted contracts
//! promise nothing about the content of an answer.

use vstd::prelude::*;
use crate::render;
use crate::render::{RefSpan, spec_ref_line};

verus! {

/// Handle to the external analysis store. The host inside is opaque to
/// verification: its generic loader parameter cannot be declared here,
/// so the whole handle is held behind this trusted struct. Construction
/// and the disk-scanning reload are the embedding program's steps; the
/// two queries below are the only reads the library makes.
#[verifier::external_body]
pub struct Store {
    pub host: rls_analysis::AnalysisHost,
}

#[verifier::external_type_specification]
#[verifier::external_body]
pub struct ExId(rls_analysis::Id);

/// Failure of the reference resolver.
#[derive(Clone, Copy, Debug, PartialEq, Eq, Structural)]
pub enum StoreError {
    /// The located span does not map to any identifier id the store
    /// has indexed, or the store has no analysis data for it.
    IdentifierNotIndexed,
}

/// Relies on `rls_analysis::AnalysisHost::id`: resolve a zero-indexed,
/// single-line span to the id of the identifier it names, if the loaded
/// analysis data indexes one.
#[verifier::external_body]
fn span_id(
    store: &Store,
    file: &Vec<u8>,
    row: u32,
    col_start: u32,
    col_end: u32,
) -> (r: Option<rls_analysis::Id>) {
    let range = rls_span::Range::new(
        rls_span::Row::new_zero_indexed(row),
        rls_span::Row::new_zero_indexed(row),
        rls_span::Column::new_zero_indexed(col_start),
        rls_span::Column::new_zero_indexed(col_end),
    );
    let path = std::path::PathBuf::from(String::from_utf8_lossy(file).into_owned());
    store.host.id(&rls_analysis::Span::from_range(range, path)).ok()
}

/// Relies on `rls_analysis::AnalysisHost::find_all_refs_by_id`: every
/// span recorded for the id, the definition span first, in store order.
#[verifier::external_body]
fn refs_by_id(store: &Store, id: rls_analysis::Id) -> (r: Option<Vec<RefSpan>>) {
    match store.host.find_all_refs_by_id(id) {
        Err(_) => None,
        Ok(spans) => Some(spans.into_iter().map(|s| RefSpan {
            file: s.file.display().to_string().into_bytes(),
            row: s.range.row_start.0,
            col_start: s.range.col_start.0,
            col_end: s.range.col_end.0,
        }).collect()),
    }
}

/// Resolve the located span through the store and render one output
/// line per reference the store yields. Whatever the store answers,
/// every returned line is the rendering of some reference span, and the
/// only failure is an identifier the store has not indexed.
pub fn resolve_refs(
    store: &Store,
    file: &Vec<u8>,
    row: u32,
    col_start: u32,
    col_end: u32,
) -> (r: Result<Vec<Vec<u8>>, StoreError>)
    ensures
        r matches Err(e) ==> e == StoreError::IdentifierNotIndexed,
        r matches Ok(lines) ==> exists|refs: Seq<RefSpan>|
            lines.len() == refs.len() && forall|i: int| 0 <= i < refs.len() ==>
                (#[trigger] lines[i])@ == spec_ref_line(
                    refs[i].file@,
                    refs[i].row as int,
                    refs[i].col_start as int,
                    refs[i].col_end as int,
                ),
{
    let id = match span_id(store, file, row, col_start, col_end) {
        Some(id) => id,
        None => {
            return Err(StoreError::IdentifierNotIndexed);
        },
    };
    let refs = match refs_by_id(store, id) {
        Some(refs) => refs,
        None => {
            return Err(StoreError::IdentifierNotIndexed);
        },
    };
    let lines = render::format_refs(&refs);
    proof {
        let ghost w = refs@;
        assert(lines.len() == w.len() && forall|i: int| 0 <= i < w.len() ==>
            (#[trigger] lines[i])@ == spec_ref_line(
                w[i].file@,
                w[i].row as int,
                w[i].col_start as int,
                w[i].col_end as int,
            ));
    }
    Ok(lines)
}

} // verus!
