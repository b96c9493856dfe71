//! What holds of the protocol when its requests are performed, one
//! operation at a time, on the model of the store.
//!
//! The caller runs each operation: it looks up what the protocol names and
//! performs the changes that the protocol hands out. The functions here say
//! what such a run gives on the model, in terms of the same decisions that
//! the executable functions are proved to take.

use crate::allocator::{auto_step, first_step, next_step, AllocationView};
use crate::fetch::{
    assembled, is_ascending, is_complete, key_of, lemma_ordered_keeps_ascending, payloads,
};
use crate::fragments::{fragment_count, fragment_of, lemma_join_split, split_bytes};
use crate::ident::is_valid_id;
use crate::remove::{delete_verdict, removals};
use crate::store::{
    chunks_not_under, chunks_under, header_position, lemma_apply_two, lemma_chunks_left,
    lemma_chunks_not_under, lemma_chunks_under, lemma_chunks_under_concat,
    lemma_find_after_delete, lemma_find_after_insert, lemma_header_position_bounds,
    lemma_insert_keeps_unique, StoreChangeView, StoreModel,
};
use crate::types::{HeaderView, StoreError};
use crate::upload::{admitted, header_of, insertions, planned, tagged};
use vstd::prelude::*;

verus! {

/// The store is consistent: no two headers share an identifier, every header
/// has its complete fragments, and every fragment has its header.
pub open spec fn is_consistent(store: StoreModel) -> bool {
    &&& store.ids_unique()
    &&& forall|i: int|
        0 <= i < store.headers.len() ==> is_complete(
            #[trigger] store.headers[i],
            store.find_chunks(store.headers[i].id),
        )
    &&& forall|k: int|
        0 <= k < store.chunks.len() ==> store.find_header(
            (#[trigger] store.chunks[k]).parent_id,
        ) is Some
}

/// Where an allocation stands after the caller has taken one step for each
/// of `draws`: it has answered a probe from the store, or asked for another
/// draw. It is still a probe or a call for a draw if the draws ran out first.
pub open spec fn allocate_in(
    store: StoreModel,
    step: AllocationView,
    draws: Seq<Seq<char>>,
) -> AllocationView
    decreases draws.len(),
{
    if draws.len() == 0 {
        step
    } else {
        match step {
            AllocationView::Probe { candidate, custom } => allocate_in(
                store,
                next_step(candidate, custom, store.find_header(candidate) is Some, draws.first()),
                draws.drop_first(),
            ),
            AllocationView::Redraw => allocate_in(
                store,
                auto_step(draws.first()),
                draws.drop_first(),
            ),
            _ => step,
        }
    }
}

/// What an upload is given.
pub struct UploadInput {
    pub blob: Seq<u8>,
    pub kind: Option<(Seq<char>, Seq<char>)>,
    pub chunk_size: nat,
    pub custom_id: Seq<char>,
    pub first_draw: Seq<char>,
    pub draws: Seq<Seq<char>>,
    pub delete_key: Seq<char>,
    pub uploaded_at: u64,
}

/// The store after an upload and what the upload returns. There is no
/// outcome, `None`, if the records cannot describe the blob or if the
/// allocation has not come to an end with the draws given.
pub open spec fn upload_in(store: StoreModel, input: UploadInput) -> Option<
    (StoreModel, Result<HeaderView, StoreError>),
> {
    match admitted(input.blob, input.kind, input.chunk_size) {
        None => None,
        Some(Err(e)) => Some((store, Err(e))),
        Some(Ok(plan)) => match allocate_in(
            store,
            first_step(input.custom_id, input.first_draw),
            input.draws,
        ) {
            AllocationView::Probe { .. } => None,
            AllocationView::Redraw => None,
            AllocationView::Rejected { error } => Some((store, Err(error))),
            AllocationView::Granted { id } => {
                let header = header_of(plan, id, input.delete_key, input.uploaded_at);
                Some(
                    (
                        store.apply_all(insertions(header, tagged(id, plan.fragments))),
                        Ok(header),
                    ),
                )
            },
        },
    }
}

/// What a read of `requested` returns.
pub open spec fn read_in(store: StoreModel, requested: Seq<char>) -> Result<
    (HeaderView, Seq<u8>),
    StoreError,
> {
    let key = key_of(requested);
    match store.find_header(key) {
        None => Err(StoreError::NotFound),
        Some(header) => match assembled(header, store.find_chunks(key)) {
            Ok(bytes) => Ok((header, bytes)),
            Err(e) => Err(e),
        },
    }
}

/// The store after a delete request and what the request returns.
pub open spec fn delete_in(store: StoreModel, id: Seq<char>, secret: Seq<char>) -> (
    StoreModel,
    Result<(), StoreError>,
) {
    match delete_verdict(store.find_header(id), secret) {
        Ok(changes) => (store.apply_all(changes), Ok(())),
        Err(e) => (store, Err(e)),
    }
}

/// An allocation grants only an identifier that an object may have and that
/// no header of the store has.
pub proof fn law_granted_id_is_free(store: StoreModel, step: AllocationView, draws: Seq<Seq<char>>)
    requires
        step matches AllocationView::Probe { candidate, .. } ==> is_valid_id(candidate),
        !(step is Granted),
    ensures
        allocate_in(store, step, draws) matches AllocationView::Granted { id } ==> is_valid_id(id)
            && store.find_header(id) is None,
    decreases draws.len(),
{
    if draws.len() > 0 {
        match step {
            AllocationView::Probe { candidate, custom } => {
                let exists = store.find_header(candidate) is Some;
                let next = next_step(candidate, custom, exists, draws.first());
                if next is Granted {
                    assert(allocate_in(store, next, draws.drop_first()) == next) by {
                        reveal_with_fuel(allocate_in, 2);
                    }
                } else {
                    law_granted_id_is_free(store, next, draws.drop_first());
                }
            },
            AllocationView::Redraw => {
                law_granted_id_is_free(store, auto_step(draws.first()), draws.drop_first());
            },
            _ => {},
        }
    }
}

/// Where the allocator chooses, an allocation never fails the request,
/// whatever the draws and whatever the store holds.
pub proof fn law_auto_allocation_never_fails(
    store: StoreModel,
    step: AllocationView,
    draws: Seq<Seq<char>>,
)
    requires
        step is Redraw || (step matches AllocationView::Probe { custom, .. } && !custom),
    ensures
        !(allocate_in(store, step, draws) is Rejected),
    decreases draws.len(),
{
    if draws.len() > 0 {
        match step {
            AllocationView::Probe { candidate, custom } => {
                let exists = store.find_header(candidate) is Some;
                let next = next_step(candidate, custom, exists, draws.first());
                if next is Granted {
                    assert(allocate_in(store, next, draws.drop_first()) == next) by {
                        reveal_with_fuel(allocate_in, 2);
                    }
                } else {
                    law_auto_allocation_never_fails(store, next, draws.drop_first());
                }
            },
            AllocationView::Redraw => {
                law_auto_allocation_never_fails(
                    store,
                    auto_step(draws.first()),
                    draws.drop_first(),
                );
            },
            _ => {},
        }
    }
}

/// The fragments of an upload are all under its identifier, at the positions
/// from zero up, and hold the fragments' bytes.
pub proof fn lemma_tagged(id: Seq<char>, fragments: Seq<Seq<u8>>)
    requires
        fragments.len() <= i32::MAX,
    ensures
        tagged(id, fragments).len() == fragments.len(),
        forall|k: int|
            0 <= k < fragments.len() ==> {
                &&& (#[trigger] tagged(id, fragments)[k]).index == k
                &&& tagged(id, fragments)[k].parent_id == id
            },
        is_ascending(tagged(id, fragments)),
        payloads(tagged(id, fragments)) == fragments,
        chunks_under(tagged(id, fragments), id) == tagged(id, fragments),
        forall|other: Seq<char>|
            other != id ==> (#[trigger] chunks_under(tagged(id, fragments), other)).len() == 0,
{
    let t = tagged(id, fragments);
    assert(payloads(t) =~= fragments);
    lemma_chunks_under(t, id);
    assert forall|other: Seq<char>| other != id implies (#[trigger] chunks_under(
        t,
        other,
    )).len() == 0 by {
        lemma_chunks_under(t, other);
    }
}

/// An upload leaves a consistent store consistent, and changes nothing
/// unless it succeeds.
pub proof fn law_upload_keeps_consistency(store: StoreModel, input: UploadInput)
    requires
        is_consistent(store),
    ensures
        upload_in(store, input) matches Some((after, outcome)) ==> {
            &&& is_consistent(after)
            &&& outcome is Err ==> after == store
            &&& outcome matches Ok(header) ==> {
                &&& store.find_header(header.id) is None
                &&& is_valid_id(header.id)
                &&& after.find_header(header.id) == Some(header)
                &&& after.find_chunks(header.id) == tagged(
                    header.id,
                    split_bytes(input.blob, input.chunk_size),
                )
                &&& forall|other: Seq<char>|
                    other != header.id ==> {
                        &&& #[trigger] after.find_header(other) == store.find_header(other)
                        &&& after.find_chunks(other) == store.find_chunks(other)
                    }
            }
        },
{
    if let Some((after, Ok(header))) = upload_in(store, input) {
        let plan = planned(input.blob, input.kind, input.chunk_size)->Ok_0;
        assert(plan.fragments == split_bytes(input.blob, input.chunk_size));
        let id = header.id;
        let chunks = tagged(id, plan.fragments);
        law_granted_id_is_free(store, first_step(input.custom_id, input.first_draw), input.draws);
        crate::fragments::lemma_fragment_count_covers(input.blob.len(), input.chunk_size);
        assert(plan.fragments.len() == fragment_count(input.blob.len(), input.chunk_size));
        lemma_tagged(id, plan.fragments);
        let insert = StoreChangeView::InsertHeader { header };
        let mid = store.apply(insert);
        lemma_apply_two(store, insert, StoreChangeView::InsertChunks { chunks });
        assert(after.headers == mid.headers);
        assert(after.chunks == store.chunks + chunks);
        lemma_insert_keeps_unique(store, header);
        lemma_find_after_insert(store, header, id);
        assert(after.find_header(id) == mid.find_header(id));
        // No fragment was under the fresh identifier.
        lemma_chunks_under(store.chunks, id);
        assert(chunks_under(store.chunks, id).len() == 0) by {
            assert forall|k: int| 0 <= k < store.chunks.len() implies (
            #[trigger] store.chunks[k]).parent_id != id by {
                assert(store.find_header(store.chunks[k].parent_id) is Some);
            }
        }
        lemma_chunks_under_concat(store.chunks, chunks, id);
        assert(after.find_chunks(id) =~= chunks);
        assert forall|other: Seq<char>| other != id implies {
            &&& #[trigger] after.find_header(other) == store.find_header(other)
            &&& after.find_chunks(other) == store.find_chunks(other)
        } by {
            lemma_find_after_insert(store, header, other);
            assert(after.find_header(other) == mid.find_header(other));
            lemma_chunks_under_concat(store.chunks, chunks, other);
            assert(chunks_under(chunks, other).len() == 0);
            assert(after.find_chunks(other) =~= store.find_chunks(other));
        }
        assert forall|i: int| 0 <= i < after.headers.len() implies is_complete(
            #[trigger] after.headers[i],
            after.find_chunks(after.headers[i].id),
        ) by {
            if i < store.headers.len() {
                assert(after.headers[i] == store.headers[i]);
                lemma_header_position_bounds(store.headers, id);
                assert(store.headers[i].id != id);
                assert(after.find_header(store.headers[i].id) == store.find_header(
                    store.headers[i].id,
                ));
            } else {
                assert(after.headers[i] == header);
            }
        }
        assert forall|k: int| 0 <= k < after.chunks.len() implies after.find_header(
            (#[trigger] after.chunks[k]).parent_id,
        ) is Some by {
            if k < store.chunks.len() {
                assert(after.chunks[k] == store.chunks[k]);
                let p = store.chunks[k].parent_id;
                assert(store.find_header(p) is Some);
                assert(p != id);
                assert(after.find_header(p) == store.find_header(p));
            } else {
                assert(after.chunks[k] == chunks[k - store.chunks.len()]);
            }
        }
    }
}

/// What a successful upload into a consistent store leaves under the new
/// identifier: the header counts the blob's bytes and its fragments, and the
/// store holds exactly the fragments of the blob, each at its position,
/// under that identifier.
pub proof fn law_upload_records(store: StoreModel, input: UploadInput)
    requires
        is_consistent(store),
    ensures
        upload_in(store, input) matches Some((after, Ok(header))) ==> {
            let found = after.find_chunks(header.id);
            &&& input.blob.len() >= 1
            &&& input.chunk_size >= 1
            &&& input.kind == Some((header.content_type, header.file_extension))
            &&& header.content_length == input.blob.len()
            &&& header.total_chunks == fragment_count(input.blob.len(), input.chunk_size)
            &&& header.delete_key == input.delete_key
            &&& header.uploaded_at == input.uploaded_at
            &&& input.custom_id.len() > 0 ==> header.id == input.custom_id
            &&& found.len() == fragment_count(input.blob.len(), input.chunk_size)
            &&& forall|i: int|
                0 <= i < found.len() ==> {
                    &&& (#[trigger] found[i]).index == i
                    &&& found[i].parent_id == header.id
                    &&& found[i].data == fragment_of(input.blob, input.chunk_size, i)
                }
        },
{
    if let Some((after, Ok(header))) = upload_in(store, input) {
        law_upload_keeps_consistency(store, input);
        crate::fragments::lemma_fragment_count_covers(input.blob.len(), input.chunk_size);
        lemma_tagged(header.id, split_bytes(input.blob, input.chunk_size));
        if input.custom_id.len() > 0 {
            lemma_custom_allocation(
                store,
                first_step(input.custom_id, input.first_draw),
                input.custom_id,
                input.draws,
            );
        }
    }
}

/// An allocation for an identifier that the caller chose grants that
/// identifier or none.
proof fn lemma_custom_allocation(
    store: StoreModel,
    step: AllocationView,
    custom_id: Seq<char>,
    draws: Seq<Seq<char>>,
)
    requires
        step is Rejected || step == (AllocationView::Probe { candidate: custom_id, custom: true }),
    ensures
        allocate_in(store, step, draws) matches AllocationView::Granted { id } ==> id == custom_id,
    decreases draws.len(),
{
    if draws.len() > 0 {
        if let AllocationView::Probe { candidate, custom } = step {
            let next = next_step(candidate, custom, store.find_header(candidate) is Some, draws.first());
            assert(allocate_in(store, next, draws.drop_first()) == next) by {
                reveal_with_fuel(allocate_in, 2);
            }
        }
    }
}

/// An empty blob and a blob without a known type are refused for what they
/// are, whatever the store holds, whatever identifier is asked for and
/// whatever the fragment size: the store stays as it was.
pub proof fn law_refused_content_changes_nothing(store: StoreModel, input: UploadInput)
    ensures
        input.blob.len() == 0 ==> upload_in(store, input) == Some(
            (store, Err::<HeaderView, StoreError>(StoreError::EmptyBlob)),
        ),
        input.blob.len() > 0 && input.kind is None ==> upload_in(store, input) == Some(
            (store, Err::<HeaderView, StoreError>(StoreError::UnclassifiableContent)),
        ),
        upload_in(store, input) matches Some((after, Err(_))) ==> after == store,
{
}

/// After a successful upload into a consistent store, a read of the new
/// identifier, with or without a suffix, returns the header and the blob.
pub proof fn law_read_after_upload(store: StoreModel, input: UploadInput, requested: Seq<char>)
    requires
        is_consistent(store),
    ensures
        upload_in(store, input) matches Some((after, Ok(header))) ==> (key_of(requested)
            == header.id ==> read_in(after, requested) == Ok::<
            (HeaderView, Seq<u8>),
            StoreError,
        >((header, input.blob))),
{
    if let Some((after, Ok(header))) = upload_in(store, input) {
        if key_of(requested) == header.id {
            let fragments = split_bytes(input.blob, input.chunk_size);
            law_upload_keeps_consistency(store, input);
            crate::fragments::lemma_fragment_count_covers(input.blob.len(), input.chunk_size);
            lemma_tagged(header.id, fragments);
            lemma_ordered_keeps_ascending(tagged(header.id, fragments));
            lemma_join_split(input.blob, input.chunk_size);
        }
    }
}

/// In a consistent store a read of a live header never fails: it returns the
/// header and the bytes of its fragments, joined in the order of their
/// positions.
pub proof fn law_read_of_live_object(store: StoreModel, requested: Seq<char>)
    requires
        is_consistent(store),
        store.find_header(key_of(requested)) is Some,
    ensures
        read_in(store, requested) == Ok::<(HeaderView, Seq<u8>), StoreError>(
            (
                store.find_header(key_of(requested))->Some_0,
                crate::fragments::join_bytes(payloads(store.find_chunks(key_of(requested)))),
            ),
        ),
{
    let key = key_of(requested);
    let header = store.find_header(key)->Some_0;
    lemma_header_position_bounds(store.headers, key);
    let at = header_position(store.headers, key);
    assert(store.headers[at] == header && header.id == key);
    let chunks = store.find_chunks(key);
    assert(is_complete(store.headers[at], store.find_chunks(store.headers[at].id)));
    assert(is_ascending(chunks));
    lemma_ordered_keeps_ascending(chunks);
}

/// A delete request for an unknown identifier, or with a secret that is not
/// the header's, fails and leaves the store as it was.
pub proof fn law_refused_delete_changes_nothing(
    store: StoreModel,
    id: Seq<char>,
    secret: Seq<char>,
)
    ensures
        store.find_header(id) is None ==> delete_in(store, id, secret) == (
            store,
            Err::<(), StoreError>(StoreError::NotFound),
        ),
        store.find_header(id) matches Some(h) && h.delete_key != secret ==> delete_in(
            store,
            id,
            secret,
        ) == (store, Err::<(), StoreError>(StoreError::Unauthorized)),
        delete_in(store, id, secret).1 is Err ==> delete_in(store, id, secret).0 == store,
        delete_in(store, id, secret).1 is Ok <==> (store.find_header(id) matches Some(h)
            && h.delete_key == secret),
{
}

/// A delete request with the header's secret removes the header and every
/// fragment under its identifier from a consistent store, and nothing else:
/// a read of the identifier then finds nothing, every other object reads as
/// before, and the store is consistent.
pub proof fn law_delete_removes_object(
    store: StoreModel,
    id: Seq<char>,
    secret: Seq<char>,
    requested: Seq<char>,
)
    requires
        is_consistent(store),
        store.find_header(id) matches Some(h) && h.delete_key == secret,
    ensures
        delete_in(store, id, secret).1 is Ok,
        delete_in(store, id, secret).0.find_header(id) is None,
        delete_in(store, id, secret).0.find_chunks(id).len() == 0,
        is_consistent(delete_in(store, id, secret).0),
        key_of(requested) == id ==> read_in(delete_in(store, id, secret).0, requested) == Err::<
            (HeaderView, Seq<u8>),
            StoreError,
        >(StoreError::NotFound),
        key_of(requested) != id ==> read_in(delete_in(store, id, secret).0, requested)
            == read_in(store, requested),
{
    let header = store.find_header(id)->Some_0;
    lemma_header_position_bounds(store.headers, id);
    assert(header.id == id);
    let after = delete_in(store, id, secret).0;
    let first = StoreChangeView::DeleteHeader { id };
    let second = StoreChangeView::DeleteChunks { parent_id: id };
    assert(removals(id) == seq![first, second]);
    lemma_apply_two(store, first, second);
    let mid = store.apply(first);
    assert(after.headers == mid.headers);
    assert(after.chunks == chunks_not_under(store.chunks, id));
    lemma_find_after_delete(store, id, id);
    assert(after.find_header(id) == mid.find_header(id));
    lemma_chunks_not_under(store.chunks, id, id);
    assert forall|other: Seq<char>| other != id implies {
        &&& #[trigger] after.find_header(other) == store.find_header(other)
        &&& after.find_chunks(other) == store.find_chunks(other)
    } by {
        lemma_find_after_delete(store, id, other);
        assert(after.find_header(other) == mid.find_header(other));
        lemma_chunks_not_under(store.chunks, id, other);
    }
    assert forall|i: int| 0 <= i < after.headers.len() implies is_complete(
        #[trigger] after.headers[i],
        after.find_chunks(after.headers[i].id),
    ) by {
        let at = header_position(store.headers, id);
        let was = if i < at {
            i
        } else {
            i + 1
        };
        assert(after.headers[i] == store.headers[was]);
        assert(store.headers[was].id != id);
        assert(after.find_header(store.headers[was].id) == store.find_header(
            store.headers[was].id,
        ));
    }
    lemma_chunks_left(store.chunks, id);
    assert forall|k: int| 0 <= k < after.chunks.len() implies after.find_header(
        (#[trigger] after.chunks[k]).parent_id,
    ) is Some by {
        let c = after.chunks[k];
        assert(store.chunks.contains(c));
        let j = choose|j: int| 0 <= j < store.chunks.len() && store.chunks[j] == c;
        assert(store.find_header(store.chunks[j].parent_id) is Some);
        assert(after.find_header(c.parent_id) == store.find_header(c.parent_id));
    }
    if key_of(requested) != id {
        let key = key_of(requested);
        assert(after.find_header(key) == store.find_header(key));
        assert(after.find_chunks(key) == store.find_chunks(key));
    }
}

/// One operation that changes the store.
pub enum Operation {
    Upload { input: UploadInput },
    Delete { id: Seq<char>, secret: Seq<char> },
}

/// The store after `op`, or `None` for an upload whose allocation has not
/// come to an end.
pub open spec fn perform(store: StoreModel, op: Operation) -> Option<StoreModel> {
    match op {
        Operation::Upload { input } => match upload_in(store, input) {
            Some((after, _)) => Some(after),
            None => None,
        },
        Operation::Delete { id, secret } => Some(delete_in(store, id, secret).0),
    }
}

/// Whether each store of `history` but the first is what the operation of
/// the same position makes of the store before it.
pub open spec fn is_history(history: Seq<StoreModel>, ops: Seq<Operation>) -> bool {
    &&& history.len() == ops.len() + 1
    &&& forall|k: int|
        0 <= k < ops.len() ==> perform(history[k], #[trigger] ops[k]) == Some(history[k + 1])
}

/// One operation leaves a consistent store consistent.
pub proof fn law_operation_keeps_consistency(store: StoreModel, op: Operation)
    requires
        is_consistent(store),
    ensures
        perform(store, op) matches Some(after) ==> is_consistent(after),
{
    match op {
        Operation::Upload { input } => {
            law_upload_keeps_consistency(store, input);
        },
        Operation::Delete { id, secret } => {
            if delete_in(store, id, secret).1 is Ok {
                law_delete_removes_object(store, id, secret, id);
            }
        },
    }
}

/// After any sequence of uploads and deletes on a consistent store, no two
/// headers share an identifier, every header has its complete fragments and
/// every fragment has its header.
pub proof fn law_consistency_is_invariant(history: Seq<StoreModel>, ops: Seq<Operation>, k: int)
    requires
        is_history(history, ops),
        is_consistent(history[0]),
        0 <= k < history.len(),
    ensures
        is_consistent(history[k]),
        history[k].ids_unique(),
    decreases k,
{
    if k > 0 {
        law_consistency_is_invariant(history, ops, k - 1);
        assert(perform(history[k - 1], ops[k - 1]) == Some(history[k]));
        law_operation_keeps_consistency(history[k - 1], ops[k - 1]);
    }
}

/// The store without any record is consistent.
pub proof fn law_empty_store_is_consistent()
    ensures
        is_consistent(StoreModel::empty()),
{
}

} // verus!
