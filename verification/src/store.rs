//! The backing store as the protocol sees it: the changes that the caller
//! performs, and a model of the two collections that says what each change
//! and each lookup does.

use crate::types::{chunk_views, ChunkDoc, ChunkView, HeaderDoc, HeaderView};
use vstd::prelude::*;

verus! {

/// One change of the backing store. The protocol hands changes out in the
/// order in which the caller performs them; no two are atomic together.
#[derive(Debug)]
pub enum StoreChange {
    /// Insert the header.
    InsertHeader { header: HeaderDoc },
    /// Insert the fragments, as one batch.
    InsertChunks { chunks: Vec<ChunkDoc> },
    /// Delete the header with this identifier.
    DeleteHeader { id: String },
    /// Delete every fragment under this identifier.
    DeleteChunks { parent_id: String },
}

/// A change of the store, as plain values.
pub enum StoreChangeView {
    InsertHeader { header: HeaderView },
    InsertChunks { chunks: Seq<ChunkView> },
    DeleteHeader { id: Seq<char> },
    DeleteChunks { parent_id: Seq<char> },
}

impl View for StoreChange {
    type V = StoreChangeView;

    open spec fn view(&self) -> StoreChangeView {
        match *self {
            StoreChange::InsertHeader { header } => StoreChangeView::InsertHeader {
                header: header@,
            },
            StoreChange::InsertChunks { chunks } => StoreChangeView::InsertChunks {
                chunks: chunk_views(chunks@),
            },
            StoreChange::DeleteHeader { id } => StoreChangeView::DeleteHeader { id: id@ },
            StoreChange::DeleteChunks { parent_id } => StoreChangeView::DeleteChunks {
                parent_id: parent_id@,
            },
        }
    }
}

/// The views of a list of changes, in the order of the list.
pub open spec fn change_views(changes: Seq<StoreChange>) -> Seq<StoreChangeView> {
    changes.map_values(|c: StoreChange| c@)
}

/// The position of the first header with identifier `id`, or the number of
/// headers if none has it.
pub open spec fn header_position(headers: Seq<HeaderView>, id: Seq<char>) -> int
    decreases headers.len(),
{
    if headers.len() == 0 || headers.first().id == id {
        0
    } else {
        1 + header_position(headers.drop_first(), id)
    }
}

/// The fragments under `id`, in the order of `chunks`.
pub open spec fn chunks_under(chunks: Seq<ChunkView>, id: Seq<char>) -> Seq<ChunkView>
    decreases chunks.len(),
{
    if chunks.len() == 0 {
        Seq::empty()
    } else if chunks.last().parent_id == id {
        chunks_under(chunks.drop_last(), id).push(chunks.last())
    } else {
        chunks_under(chunks.drop_last(), id)
    }
}

/// The fragments that are not under `id`, in the order of `chunks`.
pub open spec fn chunks_not_under(chunks: Seq<ChunkView>, id: Seq<char>) -> Seq<ChunkView>
    decreases chunks.len(),
{
    if chunks.len() == 0 {
        Seq::empty()
    } else if chunks.last().parent_id == id {
        chunks_not_under(chunks.drop_last(), id)
    } else {
        chunks_not_under(chunks.drop_last(), id).push(chunks.last())
    }
}

/// The two collections of the backing store. The model enforces nothing on
/// an insert: what holds of the store holds because of what the protocol asks
/// for.
pub struct StoreModel {
    pub headers: Seq<HeaderView>,
    pub chunks: Seq<ChunkView>,
}

impl StoreModel {
    /// The store without any record.
    pub open spec fn empty() -> StoreModel {
        StoreModel { headers: Seq::empty(), chunks: Seq::empty() }
    }

    /// The header that a lookup of `id` finds.
    pub open spec fn find_header(self, id: Seq<char>) -> Option<HeaderView> {
        let at = header_position(self.headers, id);
        if at < self.headers.len() {
            Some(self.headers[at])
        } else {
            None
        }
    }

    /// The fragments that a lookup under `id` finds.
    pub open spec fn find_chunks(self, id: Seq<char>) -> Seq<ChunkView> {
        chunks_under(self.chunks, id)
    }

    /// The store after one change.
    pub open spec fn apply(self, change: StoreChangeView) -> StoreModel {
        match change {
            StoreChangeView::InsertHeader { header } => StoreModel {
                headers: self.headers.push(header),
                ..self
            },
            StoreChangeView::InsertChunks { chunks } => StoreModel {
                chunks: self.chunks + chunks,
                ..self
            },
            StoreChangeView::DeleteHeader { id } => {
                let at = header_position(self.headers, id);
                if at < self.headers.len() {
                    StoreModel { headers: self.headers.remove(at), ..self }
                } else {
                    self
                }
            },
            StoreChangeView::DeleteChunks { parent_id } => StoreModel {
                chunks: chunks_not_under(self.chunks, parent_id),
                ..self
            },
        }
    }

    /// The store after `changes`, performed in order.
    pub open spec fn apply_all(self, changes: Seq<StoreChangeView>) -> StoreModel
        decreases changes.len(),
    {
        if changes.len() == 0 {
            self
        } else {
            self.apply(changes.first()).apply_all(changes.drop_first())
        }
    }

    /// No two headers share an identifier.
    pub open spec fn ids_unique(self) -> bool {
        forall|i: int, j: int|
            0 <= i < j < self.headers.len() ==> self.headers[i].id != self.headers[j].id
    }
}

/// `header_position` is the only position with other identifiers before it
/// that is the end of `headers` or holds `id`.
pub proof fn lemma_header_position(headers: Seq<HeaderView>, id: Seq<char>, i: int)
    requires
        0 <= i <= headers.len(),
        forall|j: int| 0 <= j < i ==> headers[j].id != id,
        i < headers.len() ==> headers[i].id == id,
    ensures
        header_position(headers, id) == i,
    decreases headers.len(),
{
    if headers.len() == 0 || headers.first().id == id {
    } else {
        let rest = headers.drop_first();
        assert forall|j: int| 0 <= j < i - 1 implies rest[j].id != id by {
            assert(rest[j] == headers[j + 1]);
        }
        lemma_header_position(rest, id, i - 1);
    }
}

/// `header_position` lies inside the list, after other identifiers only, and
/// on a header with `id` unless it is the end.
pub proof fn lemma_header_position_bounds(headers: Seq<HeaderView>, id: Seq<char>)
    ensures
        0 <= header_position(headers, id) <= headers.len(),
        forall|j: int| 0 <= j < header_position(headers, id) ==> headers[j].id != id,
        header_position(headers, id) < headers.len() ==> headers[header_position(
            headers,
            id,
        )].id == id,
    decreases headers.len(),
{
    if headers.len() == 0 || headers.first().id == id {
    } else {
        let rest = headers.drop_first();
        lemma_header_position_bounds(rest, id);
        assert forall|j: int| 0 <= j < header_position(headers, id) implies headers[j].id
            != id by {
            if j > 0 {
                assert(headers[j] == rest[j - 1]);
            }
        }
        if header_position(headers, id) < headers.len() {
            assert(headers[header_position(headers, id)] == rest[header_position(rest, id)]);
        }
    }
}

/// Every fragment that a lookup under `id` finds is under `id`, and the
/// lookup finds no more than there are.
pub proof fn lemma_chunks_under(chunks: Seq<ChunkView>, id: Seq<char>)
    ensures
        chunks_under(chunks, id).len() <= chunks.len(),
        forall|i: int|
            0 <= i < chunks_under(chunks, id).len() ==> (#[trigger] chunks_under(
                chunks,
                id,
            )[i]).parent_id == id,
        (forall|i: int| 0 <= i < chunks.len() ==> (#[trigger] chunks[i]).parent_id == id)
            ==> chunks_under(chunks, id) == chunks,
        (forall|i: int| 0 <= i < chunks.len() ==> (#[trigger] chunks[i]).parent_id != id)
            ==> chunks_under(chunks, id).len() == 0,
    decreases chunks.len(),
{
    if chunks.len() > 0 {
        let rest = chunks.drop_last();
        lemma_chunks_under(rest, id);
        if forall|i: int| 0 <= i < chunks.len() ==> (#[trigger] chunks[i]).parent_id == id {
            assert forall|i: int| 0 <= i < rest.len() implies (#[trigger] rest[i]).parent_id
                == id by {
                assert(rest[i] == chunks[i]);
            }
            assert(chunks_under(chunks, id) =~= chunks);
        }
        if forall|i: int| 0 <= i < chunks.len() ==> (#[trigger] chunks[i]).parent_id != id {
            assert forall|i: int| 0 <= i < rest.len() implies (#[trigger] rest[i]).parent_id
                != id by {
                assert(rest[i] == chunks[i]);
            }
        }
    } else {
        assert(chunks_under(chunks, id) =~= chunks);
    }
}

/// A lookup in two lists, one after the other, finds what it finds in each.
pub proof fn lemma_chunks_under_concat(a: Seq<ChunkView>, b: Seq<ChunkView>, id: Seq<char>)
    ensures
        chunks_under(a + b, id) == chunks_under(a, id) + chunks_under(b, id),
    decreases b.len(),
{
    if b.len() == 0 {
        assert(a + b =~= a);
        assert(chunks_under(a, id) + chunks_under(b, id) =~= chunks_under(a, id));
    } else {
        assert((a + b).drop_last() =~= a + b.drop_last());
        assert((a + b).last() == b.last());
        lemma_chunks_under_concat(a, b.drop_last(), id);
        assert(chunks_under(a + b, id) =~= chunks_under(a, id) + chunks_under(b, id));
    }
}

/// After the fragments under `id` are deleted a lookup under `id` finds
/// none, and a lookup under another identifier finds what it found before.
pub proof fn lemma_chunks_not_under(chunks: Seq<ChunkView>, id: Seq<char>, other: Seq<char>)
    ensures
        chunks_under(chunks_not_under(chunks, id), id).len() == 0,
        other != id ==> chunks_under(chunks_not_under(chunks, id), other) == chunks_under(
            chunks,
            other,
        ),
    decreases chunks.len(),
{
    if chunks.len() > 0 {
        let rest = chunks.drop_last();
        lemma_chunks_not_under(rest, id, other);
        if chunks.last().parent_id != id {
            let kept = chunks_not_under(rest, id).push(chunks.last());
            assert(kept.drop_last() =~= chunks_not_under(rest, id));
            assert(kept.last() == chunks.last());
        }
    }
}

/// A list of two changes is performed one change after the other.
pub proof fn lemma_apply_two(store: StoreModel, first: StoreChangeView, second: StoreChangeView)
    ensures
        store.apply_all(seq![first, second]) == store.apply(first).apply(second),
{
    let both = seq![first, second];
    assert(both.first() == first);
    assert(both.drop_first() =~= seq![second]);
    assert(seq![second].first() == second);
    assert(seq![second].drop_first().len() == 0);
    reveal_with_fuel(StoreModel::apply_all, 3);
}

/// After a header is inserted, a lookup of an identifier that was found
/// before finds the same header; one that was not found finds the new header
/// if it asks for its identifier, and nothing otherwise.
pub proof fn lemma_find_after_insert(store: StoreModel, header: HeaderView, id: Seq<char>)
    ensures
        store.apply(StoreChangeView::InsertHeader { header }).find_header(id) == (
        if store.find_header(id) is Some {
            store.find_header(id)
        } else if header.id == id {
            Some(header)
        } else {
            None
        }),
{
    let old = store.headers;
    let new = old.push(header);
    let at = header_position(old, id);
    lemma_header_position_bounds(old, id);
    if at < old.len() {
        assert forall|j: int| 0 <= j < at implies new[j].id != id by {
            assert(new[j] == old[j]);
        }
        assert(new[at] == old[at]);
        lemma_header_position(new, id, at);
    } else if header.id == id {
        assert forall|j: int| 0 <= j < old.len() implies new[j].id != id by {
            assert(new[j] == old[j]);
        }
        lemma_header_position(new, id, old.len() as int);
    } else {
        assert forall|j: int| 0 <= j < new.len() implies new[j].id != id by {
            if j < old.len() {
                assert(new[j] == old[j]);
            }
        }
        lemma_header_position(new, id, new.len() as int);
    }
}

/// Inserting a header under an identifier that no header has keeps the
/// identifiers distinct.
pub proof fn lemma_insert_keeps_unique(store: StoreModel, header: HeaderView)
    requires
        store.ids_unique(),
        store.find_header(header.id) is None,
    ensures
        store.apply(StoreChangeView::InsertHeader { header }).ids_unique(),
{
    let old = store.headers;
    let new = old.push(header);
    lemma_header_position_bounds(old, header.id);
    assert forall|i: int, j: int| 0 <= i < j < new.len() implies new[i].id != new[j].id by {
        assert(new[i] == old[i]);
        if j < old.len() {
            assert(new[j] == old[j]);
        }
    }
}

/// After the header with `id` is deleted from a store with distinct
/// identifiers, a lookup of `id` finds nothing and a lookup of another
/// identifier finds what it found before; the identifiers stay distinct.
pub proof fn lemma_find_after_delete(store: StoreModel, id: Seq<char>, other: Seq<char>)
    requires
        store.ids_unique(),
    ensures
        store.apply(StoreChangeView::DeleteHeader { id }).ids_unique(),
        store.apply(StoreChangeView::DeleteHeader { id }).find_header(id) is None,
        other != id ==> store.apply(StoreChangeView::DeleteHeader { id }).find_header(other)
            == store.find_header(other),
{
    let old = store.headers;
    let at = header_position(old, id);
    lemma_header_position_bounds(old, id);
    lemma_header_position_bounds(old, other);
    if at < old.len() {
        let new = old.remove(at);
        assert forall|j: int| 0 <= j < new.len() implies new[j] == (if j < at {
            old[j]
        } else {
            old[j + 1]
        }) by {}
        assert forall|i: int, j: int| 0 <= i < j < new.len() implies new[i].id != new[j].id by {}
        assert forall|j: int| 0 <= j < new.len() implies new[j].id != id by {
            if j < at {
            } else {
                assert(old[at].id != old[j + 1].id);
            }
        }
        lemma_header_position(new, id, new.len() as int);
        if other != id {
            let was = header_position(old, other);
            if was < old.len() {
                let now = if was < at {
                    was
                } else {
                    was - 1
                };
                assert(was != at);
                assert forall|j: int| 0 <= j < now implies new[j].id != other by {}
                assert(new[now] == old[was]);
                lemma_header_position(new, other, now);
            } else {
                assert forall|j: int| 0 <= j < new.len() implies new[j].id != other by {}
                lemma_header_position(new, other, new.len() as int);
            }
        }
    }
}

/// Every fragment that is left after the fragments under `id` are deleted
/// was there before, and is not under `id`.
pub proof fn lemma_chunks_left(chunks: Seq<ChunkView>, id: Seq<char>)
    ensures
        forall|i: int|
            0 <= i < chunks_not_under(chunks, id).len() ==> {
                &&& (#[trigger] chunks_not_under(chunks, id)[i]).parent_id != id
                &&& chunks.contains(chunks_not_under(chunks, id)[i])
            },
    decreases chunks.len(),
{
    if chunks.len() > 0 {
        let rest = chunks.drop_last();
        lemma_chunks_left(rest, id);
        let left = chunks_not_under(chunks, id);
        assert forall|i: int| 0 <= i < left.len() implies {
            &&& (#[trigger] left[i]).parent_id != id
            &&& chunks.contains(left[i])
        } by {
            if i < chunks_not_under(rest, id).len() {
                let c = chunks_not_under(rest, id)[i];
                assert(left[i] == c);
                assert(rest.contains(c));
                let k = choose|k: int| 0 <= k < rest.len() && rest[k] == c;
                assert(chunks[k] == c);
            } else {
                assert(left[i] == chunks.last());
                assert(chunks[chunks.len() - 1] == chunks.last());
            }
        }
    }
}

} // verus!
