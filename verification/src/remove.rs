//! Deleting an object: who may, and what is removed.

use crate::ident::same_text;
use crate::store::{change_views, StoreChange, StoreChangeView};
use crate::types::{HeaderDoc, HeaderView, StoreError};
use vstd::prelude::*;

verus! {

/// The view of an optional header.
pub open spec fn header_view(found: Option<HeaderDoc>) -> Option<HeaderView> {
    match found {
        Some(h) => Some(h@),
        None => None,
    }
}

/// The view of a result that holds changes.
pub open spec fn changes_view(r: Result<Vec<StoreChange>, StoreError>) -> Result<
    Seq<StoreChangeView>,
    StoreError,
> {
    match r {
        Ok(changes) => Ok(change_views(changes@)),
        Err(e) => Err(e),
    }
}

/// The removals of the object with identifier `id`: the header first, then
/// the fragments.
pub open spec fn removals(id: Seq<char>) -> Seq<StoreChangeView> {
    seq![
        StoreChangeView::DeleteHeader { id },
        StoreChangeView::DeleteChunks { parent_id: id },
    ]
}

/// What a delete request leads to, given the header that the lookup found:
/// nothing is removed unless the header exists and `secret` is its secret.
pub open spec fn delete_verdict(found: Option<HeaderView>, secret: Seq<char>) -> Result<
    Seq<StoreChangeView>,
    StoreError,
> {
    match found {
        None => Err(StoreError::NotFound),
        Some(h) => if h.delete_key == secret {
            Ok(removals(h.id))
        } else {
            Err(StoreError::Unauthorized)
        },
    }
}

/// Decides a delete request with the presented `secret`, given the header
/// that the lookup found.
pub fn plan_delete(found: Option<HeaderDoc>, secret: &str) -> (r: Result<
    Vec<StoreChange>,
    StoreError,
>)
    ensures
        changes_view(r) == delete_verdict(header_view(found), secret@),
{
    match found {
        None => Err(StoreError::NotFound),
        Some(header) => {
            if same_text(header.delete_key.as_str(), secret) {
                let mut changes: Vec<StoreChange> = Vec::new();
                changes.push(StoreChange::DeleteHeader { id: header.id.clone() });
                changes.push(StoreChange::DeleteChunks { parent_id: header.id });
                proof {
                    assert(change_views(changes@) =~= removals(header@.id));
                }
                Ok(changes)
            } else {
                Err(StoreError::Unauthorized)
            }
        },
    }
}

} // verus!
