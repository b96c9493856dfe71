//! Allocating the public identifier of a new object.
//!
//! The allocator never reads the store itself. It names a candidate, the
//! caller tells whether a header with that identifier exists, and the
//! allocator grants the candidate, rejects the request or names another.
//! Only an identifier that the caller chose can fail a request: a candidate
//! of the allocator's own that will not do is replaced by another draw.

use crate::ident::{
    is_alphanumeric_string, is_valid, is_valid_id, random_alphanumeric, AUTO_ID_LEN,
};
use crate::types::StoreError;
use vstd::prelude::*;

verus! {

/// Where an allocation stands.
#[derive(Debug)]
pub enum Allocation {
    /// The caller looks `candidate` up in the store and reports what it found.
    Probe { candidate: String, custom: bool },
    /// The allocator's draw cannot be an identifier; the caller asks for
    /// another with `redraw`.
    Redraw,
    /// The object gets `id`.
    Granted { id: String },
    /// The request fails.
    Rejected { error: StoreError },
}

/// Where an allocation stands, as plain values.
pub enum AllocationView {
    Probe { candidate: Seq<char>, custom: bool },
    Redraw,
    Granted { id: Seq<char> },
    Rejected { error: StoreError },
}

impl View for Allocation {
    type V = AllocationView;

    open spec fn view(&self) -> AllocationView {
        match *self {
            Allocation::Probe { candidate, custom } => AllocationView::Probe {
                candidate: candidate@,
                custom,
            },
            Allocation::Redraw => AllocationView::Redraw,
            Allocation::Granted { id } => AllocationView::Granted { id: id@ },
            Allocation::Rejected { error } => AllocationView::Rejected { error },
        }
    }
}

/// The step that the allocator's own draw `fresh` leads to: it is probed if
/// an object may have it, and drawn again if not. It never fails the request.
pub open spec fn auto_step(fresh: Seq<char>) -> AllocationView {
    if is_valid_id(fresh) {
        AllocationView::Probe { candidate: fresh, custom: false }
    } else {
        AllocationView::Redraw
    }
}

/// The step that the caller's identifier leads to: it is probed if an object
/// may have it, and fails the request if not.
pub open spec fn custom_step(custom_id: Seq<char>) -> AllocationView {
    if is_valid_id(custom_id) {
        AllocationView::Probe { candidate: custom_id, custom: true }
    } else {
        AllocationView::Rejected { error: StoreError::InvalidIdentifier }
    }
}

/// The first step: the caller's identifier where it gave one, else `fresh`.
pub open spec fn first_step(custom_id: Seq<char>, fresh: Seq<char>) -> AllocationView {
    if custom_id.len() == 0 {
        auto_step(fresh)
    } else {
        custom_step(custom_id)
    }
}

/// The step after a probe: a free candidate is granted; a taken one fails
/// the request where the caller chose it, and is replaced by `fresh` where
/// the allocator did.
pub open spec fn next_step(
    candidate: Seq<char>,
    custom: bool,
    exists: bool,
    fresh: Seq<char>,
) -> AllocationView {
    if !exists {
        AllocationView::Granted { id: candidate }
    } else if custom {
        AllocationView::Rejected { error: StoreError::IdentifierTaken }
    } else {
        auto_step(fresh)
    }
}

/// Puts the allocator's own draw forward.
pub fn offer(fresh: String) -> (step: Allocation)
    ensures
        step@ == auto_step(fresh@),
{
    if is_valid(fresh.as_str()) {
        Allocation::Probe { candidate: fresh, custom: false }
    } else {
        Allocation::Redraw
    }
}

/// The first step of an allocation, with `fresh` as the allocator's own
/// candidate. An empty `custom_id` asks the allocator to choose.
pub fn propose(custom_id: &str, fresh: String) -> (step: Allocation)
    ensures
        step@ == first_step(custom_id@, fresh@),
{
    if custom_id.is_empty() {
        offer(fresh)
    } else if is_valid(custom_id) {
        Allocation::Probe { candidate: custom_id.to_owned(), custom: true }
    } else {
        Allocation::Rejected { error: StoreError::InvalidIdentifier }
    }
}

/// The step after the caller has looked `candidate` up, with `fresh` as the
/// allocator's next candidate.
pub fn settle(candidate: String, custom: bool, exists: bool, fresh: String) -> (step: Allocation)
    ensures
        step@ == next_step(candidate@, custom, exists, fresh@),
{
    if !exists {
        Allocation::Granted { id: candidate }
    } else if custom {
        Allocation::Rejected { error: StoreError::IdentifierTaken }
    } else {
        offer(fresh)
    }
}

/// Starts an allocation. Where `custom_id` is empty the candidate is drawn at
/// random, `AUTO_ID_LEN` letters and digits, and the request cannot fail: the
/// step is a probe of the draw or a call for another.
pub fn start_allocation(custom_id: &str) -> (step: Allocation)
    ensures
        exists|fresh: Seq<char>|
            is_alphanumeric_string(fresh, AUTO_ID_LEN as nat) && step@ == #[trigger] first_step(
                custom_id@,
                fresh,
            ),
        custom_id@.len() == 0 ==> !(step@ is Rejected) && !(step@ is Granted),
        custom_id@.len() > 0 ==> step@ == custom_step(custom_id@),
{
    let fresh = random_alphanumeric(AUTO_ID_LEN);
    propose(custom_id, fresh)
}

/// Continues an allocation after the caller has looked `candidate` up. A
/// replacement candidate is drawn at random; a taken candidate of the
/// allocator's own never fails the request.
pub fn continue_allocation(candidate: String, custom: bool, exists: bool) -> (step: Allocation)
    ensures
        exists|fresh: Seq<char>|
            is_alphanumeric_string(fresh, AUTO_ID_LEN as nat) && step@ == #[trigger] next_step(
                candidate@,
                custom,
                exists,
                fresh,
            ),
        !exists ==> step@ == (AllocationView::Granted { id: candidate@ }),
        exists && custom ==> step@ == (AllocationView::Rejected {
            error: StoreError::IdentifierTaken,
        }),
        exists && !custom ==> !(step@ is Rejected) && !(step@ is Granted),
{
    let fresh = random_alphanumeric(AUTO_ID_LEN);
    settle(candidate, custom, exists, fresh)
}

/// Draws another candidate after a draw that cannot be an identifier. The
/// step is a probe of the new draw or a call for yet another.
pub fn redraw() -> (step: Allocation)
    ensures
        exists|fresh: Seq<char>|
            is_alphanumeric_string(fresh, AUTO_ID_LEN as nat) && step@ == #[trigger] auto_step(
                fresh,
            ),
        !(step@ is Rejected) && !(step@ is Granted),
{
    let fresh = random_alphanumeric(AUTO_ID_LEN);
    offer(fresh)
}

/// Where the allocator chooses, no step fails the request: whatever the
/// draws and whatever the store answers, each step is a probe of a valid
/// candidate of the allocator's own, a call for another draw, or the grant of
/// the candidate that was found free.
pub proof fn lemma_auto_mode_never_fails(
    fresh: Seq<char>,
    candidate: Seq<char>,
    exists: bool,
    next: Seq<char>,
)
    ensures
        !(first_step(Seq::empty(), fresh) is Rejected),
        !(auto_step(fresh) is Rejected),
        auto_step(fresh) matches AllocationView::Probe { candidate: c, custom } ==> c == fresh
            && is_valid_id(c) && !custom,
        !(next_step(candidate, false, exists, next) is Rejected),
        next_step(candidate, false, exists, next) matches AllocationView::Granted { id } ==> id
            == candidate && !exists,
{
}

/// A draw of the allocator's length is probed unless it is a reserved name.
pub proof fn lemma_auto_draw(fresh: Seq<char>)
    requires
        is_alphanumeric_string(fresh, AUTO_ID_LEN as nat),
    ensures
        auto_step(fresh) == (if crate::ident::is_reserved_name(fresh) {
            AllocationView::Redraw
        } else {
            AllocationView::Probe { candidate: fresh, custom: false }
        }),
{
}

/// Every identifier that is probed is one that an object may have, and one
/// is granted only after a probe that found no header.
pub proof fn lemma_candidates_are_valid(
    custom_id: Seq<char>,
    fresh: Seq<char>,
    exists: bool,
    next: Seq<char>,
)
    ensures
        first_step(custom_id, fresh) matches AllocationView::Probe { candidate, custom } ==> {
            &&& is_valid_id(candidate)
            &&& next_step(candidate, custom, exists, next) matches AllocationView::Granted { id }
                ==> id == candidate && !exists
            &&& next_step(candidate, custom, exists, next) matches AllocationView::Probe {
                candidate: again,
                custom: c,
            } ==> is_valid_id(again) && !c && !custom && exists
        },
        !(first_step(custom_id, fresh) is Granted),
{
}

/// A caller's identifier that is no valid identifier is rejected as invalid,
/// and a valid one that a header already has is rejected as taken.
pub proof fn lemma_custom_id_rejection(custom_id: Seq<char>, fresh: Seq<char>, next: Seq<char>)
    requires
        custom_id.len() > 0,
    ensures
        !is_valid_id(custom_id) ==> first_step(custom_id, fresh) == (AllocationView::Rejected {
            error: StoreError::InvalidIdentifier,
        }),
        is_valid_id(custom_id) ==> first_step(custom_id, fresh) == (AllocationView::Probe {
            candidate: custom_id,
            custom: true,
        }),
        next_step(custom_id, true, true, next) == (AllocationView::Rejected {
            error: StoreError::IdentifierTaken,
        }),
        next_step(custom_id, true, false, next) == (AllocationView::Granted { id: custom_id }),
{
}

/// An identifier of one character is not valid, nor are the reserved names.
pub proof fn lemma_invalid_ids(id: Seq<char>)
    ensures
        id.len() == 1 ==> !is_valid_id(id),
        !is_valid_id("x"@),
        !is_valid_id("github"@),
        !is_valid_id("favicon"@),
{
    reveal_strlit("x");
}

} // verus!
