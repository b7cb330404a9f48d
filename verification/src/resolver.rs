use crate::query::{interpret_outcome, interpret_spec, QueryError, QueryOutcome};
use crate::search::{search_hits, EntityIndex};
use vstd::prelude::*;

verus! {

/// Why a resolution failed: the typed name matched no entity, or the
/// remote query for the resolved id failed; the id is kept on the error
/// for diagnostics.
#[derive(PartialEq, Eq, Structural, Clone, Copy, Debug)]
pub enum ResolutionError {
    EntityNotFound,
    Query { id: u8, error: QueryError },
}

/// Resolves a free-text name to the id of its first search hit. An empty
/// search is the normal not-found outcome, reported before any remote
/// call is issued, so no network traffic is spent on unknown names.
pub fn resolve_id(index: &EntityIndex, name: &str) -> (r: Result<u8, ResolutionError>)
    ensures
        ({
            let hits = search_hits(index.catalog_map(), name@);
            match r {
                Ok(id) => {
                    &&& hits.len() > 0
                    &&& id == hits[0]
                    &&& index.catalog_map().dom().contains(id)
                },
                Err(e) => hits.len() == 0 && e == ResolutionError::EntityNotFound,
            }
        }),
{
    let found = index.search_ids(name);
    if found.len() == 0 {
        Err(ResolutionError::EntityNotFound)
    } else {
        Ok(found[0])
    }
}

/// Completes a resolution once the remote outcome for the resolved id is
/// back: the decoded payload is paired with the id so callers can render
/// the canonical name, and every query failure is tagged with the id.
pub fn finish_resolve<T>(id: u8, outcome: QueryOutcome<T>) -> (r: Result<(T, u8), ResolutionError>)
    ensures
        r == (match interpret_spec(outcome) {
            Ok(t) => Ok((t, id)),
            Err(e) => Err::<(T, u8), ResolutionError>(ResolutionError::Query { id, error: e }),
        }),
{
    match interpret_outcome(outcome) {
        Ok(t) => Ok((t, id)),
        Err(e) => Err(ResolutionError::Query { id, error: e }),
    }
}

} // verus!
