//! Reading an object back: the key to look up, what to serve, and the bytes
//! that the fragments of the store give.

use crate::fragments::{fragment_views, join, join_bytes};
use crate::ident::{chars_of, same_text};
use crate::types::{chunk_views, ChunkDoc, ChunkView, HeaderDoc, HeaderView, StoreError};
use vstd::prelude::*;

verus! {

/// The position of the first `.` in `s`, or the length of `s` if it has none.
pub open spec fn first_dot(s: Seq<char>) -> int
    decreases s.len(),
{
    if s.len() == 0 || s.first() == '.' {
        0
    } else {
        1 + first_dot(s.drop_first())
    }
}

/// The identifier that a request names: what stands before the first `.`.
pub open spec fn key_of(requested: Seq<char>) -> Seq<char> {
    requested.take(first_dot(requested))
}

/// Whether a request carries a suffix after its identifier.
pub open spec fn has_suffix(requested: Seq<char>) -> bool {
    first_dot(requested) < requested.len()
}

/// `first_dot` is the only position without a `.` before it that is the end
/// of `s` or holds a `.`.
pub proof fn lemma_first_dot(s: Seq<char>, i: int)
    requires
        0 <= i <= s.len(),
        forall|j: int| 0 <= j < i ==> s[j] != '.',
        i < s.len() ==> s[i] == '.',
    ensures
        first_dot(s) == i,
    decreases s.len(),
{
    if s.len() == 0 || s.first() == '.' {
    } else {
        let rest = s.drop_first();
        assert forall|j: int| 0 <= j < i - 1 implies rest[j] != '.' by {
            assert(rest[j] == s[j + 1]);
        }
        lemma_first_dot(rest, i - 1);
    }
}

/// The identifier that `requested` names, and whether a suffix follows it.
pub fn parse_request(requested: &str) -> (parsed: (String, bool))
    ensures
        parsed.0@ == key_of(requested@),
        parsed.1 == has_suffix(requested@),
{
    let chars = chars_of(requested);
    let n = chars.len();
    let mut i: usize = 0;
    while i < n && chars[i] != '.'
        invariant
            n == chars@.len(),
            chars@ == requested@,
            i <= n,
            forall|j: int| 0 <= j < i ==> chars@[j] != '.',
        decreases n - i,
    {
        i = i + 1;
    }
    proof {
        lemma_first_dot(requested@, i as int);
    }
    let key = requested.substring_char(0, i).to_owned();
    (key, i < n)
}

/// A file that the host serves itself, under a name that no object can have.
#[derive(Clone, Copy, Debug, PartialEq, Eq, Structural)]
pub enum StaticAsset {
    Favicon,
    GithubLogo,
}

/// The static asset that `requested` names, if it names one.
pub open spec fn asset_named(requested: Seq<char>) -> Option<StaticAsset> {
    if requested == "favicon.ico"@ {
        Some(StaticAsset::Favicon)
    } else if requested == "github.png"@ {
        Some(StaticAsset::GithubLogo)
    } else {
        None
    }
}

/// The static asset that `requested` names, if it names one. Such a request
/// never reaches the store.
pub fn static_asset(requested: &str) -> (asset: Option<StaticAsset>)
    ensures
        asset == asset_named(requested@),
{
    if same_text(requested, "favicon.ico") {
        Some(StaticAsset::Favicon)
    } else if same_text(requested, "github.png") {
        Some(StaticAsset::GithubLogo)
    } else {
        None
    }
}

/// Whether `text` begins with `prefix`.
pub open spec fn begins_with(text: Seq<char>, prefix: Seq<char>) -> bool {
    prefix.len() <= text.len() && text.take(prefix.len() as int) == prefix
}

/// Whether `text` begins with `prefix`.
pub fn starts_with(text: &str, prefix: &str) -> (b: bool)
    ensures
        b == begins_with(text@, prefix@),
{
    let t = chars_of(text);
    let p = chars_of(prefix);
    if p.len() > t.len() {
        return false;
    }
    let n = p.len();
    let mut i: usize = 0;
    while i < n
        invariant
            n == p@.len(),
            n <= t@.len(),
            t@ == text@,
            p@ == prefix@,
            i <= n,
            forall|j: int| 0 <= j < i ==> t@[j] == p@[j],
        decreases n - i,
    {
        if t[i] != p[i] {
            proof {
                assert(text@.take(n as int)[i as int] != prefix@[i as int]);
            }
            return false;
        }
        i = i + 1;
    }
    proof {
        assert(text@.take(n as int) =~= prefix@);
    }
    true
}

/// What a request for an existing object is answered with.
#[derive(Debug)]
pub enum FetchPlan {
    /// The header's fields only.
    Metadata,
    /// The bytes of the object.
    Content,
    /// A page that shows the image, under this file name.
    ViewerPage { filename: String },
}

/// What a fetch plan holds, as plain values.
pub enum FetchPlanView {
    Metadata,
    Content,
    ViewerPage { filename: Seq<char> },
}

impl View for FetchPlan {
    type V = FetchPlanView;

    open spec fn view(&self) -> FetchPlanView {
        match *self {
            FetchPlan::Metadata => FetchPlanView::Metadata,
            FetchPlan::Content => FetchPlanView::Content,
            FetchPlan::ViewerPage { filename } => FetchPlanView::ViewerPage {
                filename: filename@,
            },
        }
    }
}

/// The file name under which the viewer page shows an object: its
/// identifier, a `.` and its extension, or `ukn` where it has none.
pub open spec fn viewer_name(id: Seq<char>, extension: Seq<char>) -> Seq<char> {
    if extension.len() == 0 {
        id + "."@ + "ukn"@
    } else {
        id + "."@ + extension
    }
}

/// A request for the header alone is answered with it. Otherwise the bytes
/// are served where the request carries a suffix or the object is no image,
/// and the viewer page where a bare identifier names an image.
pub open spec fn planned_fetch(
    header: HeaderView,
    suffixed: bool,
    metadata_only: bool,
) -> FetchPlanView {
    if metadata_only {
        FetchPlanView::Metadata
    } else if suffixed || !begins_with(header.content_type, "image/"@) {
        FetchPlanView::Content
    } else {
        FetchPlanView::ViewerPage { filename: viewer_name(header.id, header.file_extension) }
    }
}

/// Decides what a request for the object of `header` is answered with.
pub fn plan_fetch(header: &HeaderDoc, suffixed: bool, metadata_only: bool) -> (plan: FetchPlan)
    ensures
        plan@ == planned_fetch(header@, suffixed, metadata_only),
{
    if metadata_only {
        FetchPlan::Metadata
    } else if suffixed || !starts_with(header.content_type.as_str(), "image/") {
        FetchPlan::Content
    } else {
        let mut filename = header.id.clone();
        filename.append(".");
        if header.file_extension.as_str().is_empty() {
            filename.append("ukn");
        } else {
            filename.append(header.file_extension.as_str());
        }
        FetchPlan::ViewerPage { filename }
    }
}

/// Where a fragment with position `index` goes in `sorted`: before the
/// first fragment whose position is not smaller.
pub open spec fn slot(sorted: Seq<ChunkView>, index: i32) -> int
    decreases sorted.len(),
{
    if sorted.len() == 0 || sorted.first().index >= index {
        0
    } else {
        1 + slot(sorted.drop_first(), index)
    }
}

/// The fragments by ascending position; fragments with the same position
/// keep the order in which the store gave them.
pub open spec fn ordered(chunks: Seq<ChunkView>) -> Seq<ChunkView>
    decreases chunks.len(),
{
    if chunks.len() == 0 {
        Seq::empty()
    } else {
        let rest = ordered(chunks.drop_first());
        rest.insert(slot(rest, chunks.first().index), chunks.first())
    }
}

/// The bytes of each fragment, in the order of the list.
pub open spec fn payloads(chunks: Seq<ChunkView>) -> Seq<Seq<u8>> {
    chunks.map_values(|c: ChunkView| c.data)
}

/// The fragments under a header are complete: as many as the header counts,
/// at the positions from zero up, in that order, so that they cover the blob
/// without a gap and without a fragment twice.
pub open spec fn is_complete(header: HeaderView, chunks: Seq<ChunkView>) -> bool {
    &&& chunks.len() == header.total_chunks
    &&& forall|k: int| 0 <= k < chunks.len() ==> (#[trigger] chunks[k]).index == k
}

/// What a read gives for a header and the fragments found under its
/// identifier: the fragments' bytes joined by ascending position where the
/// fragments, so ordered, are complete, and an error where any is missing,
/// extra or out of place. No part of a blob is ever returned for the blob.
pub open spec fn assembled(header: HeaderView, chunks: Seq<ChunkView>) -> Result<
    Seq<u8>,
    StoreError,
> {
    if is_complete(header, ordered(chunks)) {
        Ok(join_bytes(payloads(ordered(chunks))))
    } else {
        Err(StoreError::ChunkConsistencyError)
    }
}

/// `slot` is the only position with smaller positions before it that is the
/// end of `sorted` or holds a position that is not smaller.
pub proof fn lemma_slot(sorted: Seq<ChunkView>, index: i32, i: int)
    requires
        0 <= i <= sorted.len(),
        forall|j: int| 0 <= j < i ==> sorted[j].index < index,
        i < sorted.len() ==> sorted[i].index >= index,
    ensures
        slot(sorted, index) == i,
    decreases sorted.len(),
{
    if sorted.len() == 0 || sorted.first().index >= index {
    } else {
        let rest = sorted.drop_first();
        assert forall|j: int| 0 <= j < i - 1 implies rest[j].index < index by {
            assert(rest[j] == sorted[j + 1]);
        }
        lemma_slot(rest, index, i - 1);
    }
}

/// Orders `chunks` by ascending position, keeping the given order among
/// fragments with the same position.
pub fn order_by_index(chunks: Vec<ChunkDoc>) -> (sorted: Vec<ChunkDoc>)
    ensures
        chunk_views(sorted@) == ordered(chunk_views(chunks@)),
{
    let ghost all = chunk_views(chunks@);
    let mut rest = chunks;
    let mut sorted: Vec<ChunkDoc> = Vec::new();
    proof {
        assert(all.skip(all.len() as int) =~= Seq::<ChunkView>::empty());
        assert(chunk_views(sorted@) =~= Seq::<ChunkView>::empty());
    }
    while rest.len() > 0
        invariant
            rest@.len() <= all.len(),
            chunk_views(rest@) == all.take(rest@.len() as int),
            chunk_views(sorted@) == ordered(all.skip(rest@.len() as int)),
        decreases rest@.len(),
    {
        let ghost k = rest@.len() as int;
        let ghost before = chunk_views(sorted@);
        let ghost prev = rest@;
        let chunk = rest.pop().unwrap();
        proof {
            assert(chunk_views(prev)[k - 1] == prev[k - 1]@);
            assert(all.take(k)[k - 1] == all[k - 1]);
            assert(chunk@ == all[k - 1]);
            assert(chunk_views(rest@) =~= all.take(k - 1));
        }
        let n = sorted.len();
        let mut pos: usize = 0;
        while pos < n && sorted[pos].index < chunk.index
            invariant
                n == sorted@.len(),
                pos <= n,
                before == chunk_views(sorted@),
                forall|j: int| 0 <= j < pos ==> before[j].index < chunk.index,
            decreases n - pos,
        {
            pos = pos + 1;
        }
        proof {
            lemma_slot(before, chunk.index, pos as int);
            let tail = all.skip(k - 1);
            assert(tail.first() == all[k - 1]);
            assert(tail.drop_first() =~= all.skip(k));
        }
        sorted.insert(pos, chunk);
        proof {
            assert(chunk_views(sorted@) =~= before.insert(pos as int, all[k - 1]));
        }
    }
    proof {
        assert(all.skip(0) =~= all);
    }
    sorted
}

/// The bytes of each fragment, in the order of the list.
pub fn into_payloads(chunks: Vec<ChunkDoc>) -> (fragments: Vec<Vec<u8>>)
    ensures
        fragment_views(fragments@) == payloads(chunk_views(chunks@)),
{
    let ghost all = chunks@;
    let mut fragments: Vec<Vec<u8>> = Vec::new();
    for chunk in it: chunks
        invariant
            it.seq() == all,
            fragments@.len() == it.index(),
            fragment_views(fragments@) == payloads(chunk_views(all)).take(it.index()),
    {
        fragments.push(chunk.data);
        proof {
            assert(fragment_views(fragments@) =~= payloads(chunk_views(all)).take(
                it.index() + 1,
            ));
        }
    }
    proof {
        let whole = payloads(chunk_views(all));
        assert(whole.take(whole.len() as int) =~= whole);
    }
    fragments
}

/// The view of a result that holds bytes.
pub open spec fn bytes_view(r: Result<Vec<u8>, StoreError>) -> Result<Seq<u8>, StoreError> {
    match r {
        Ok(b) => Ok(b@),
        Err(e) => Err(e),
    }
}

/// Whether `chunks`, in the order given, are the complete fragments of
/// `header`.
pub fn covers(header: &HeaderDoc, chunks: &[ChunkDoc]) -> (ok: bool)
    ensures
        ok == is_complete(header@, chunk_views(chunks@)),
{
    let n = chunks.len();
    if n != header.total_chunks as usize {
        return false;
    }
    let mut i: usize = 0;
    while i < n
        invariant
            n == chunks@.len(),
            n <= u32::MAX,
            i <= n,
            forall|k: int| 0 <= k < i ==> (#[trigger] chunk_views(chunks@)[k]).index == k,
        decreases n - i,
    {
        let index = chunks[i].index;
        if index < 0 || index as usize != i {
            proof {
                assert(chunk_views(chunks@)[i as int].index != i);
            }
            return false;
        }
        i = i + 1;
    }
    true
}

/// Reassembles the object of `header` from the fragments that the store holds
/// under its identifier.
pub fn assemble(header: &HeaderDoc, chunks: Vec<ChunkDoc>) -> (r: Result<Vec<u8>, StoreError>)
    ensures
        bytes_view(r) == assembled(header@, chunk_views(chunks@)),
        chunks@.len() != header.total_chunks ==> r == Err::<Vec<u8>, StoreError>(
            StoreError::ChunkConsistencyError,
        ),
{
    proof {
        lemma_ordered_sorts(chunk_views(chunks@));
    }
    let sorted = order_by_index(chunks);
    if !covers(header, sorted.as_slice()) {
        return Err(StoreError::ChunkConsistencyError);
    }
    let fragments = into_payloads(sorted);
    Ok(join(fragments.as_slice()))
}

/// The header of a read, or the error of a lookup that found none.
pub fn require_header(found: Option<HeaderDoc>) -> (r: Result<HeaderDoc, StoreError>)
    ensures
        match found {
            Some(h) => r == Ok::<HeaderDoc, StoreError>(h),
            None => r == Err::<HeaderDoc, StoreError>(StoreError::NotFound),
        },
{
    match found {
        Some(header) => Ok(header),
        None => Err(StoreError::NotFound),
    }
}

/// Whether positions never decrease along `chunks`.
pub open spec fn is_ascending(chunks: Seq<ChunkView>) -> bool {
    forall|i: int, j: int| 0 <= i <= j < chunks.len() ==> chunks[i].index <= chunks[j].index
}

/// Fragments that are in ascending order already are left as they are.
pub proof fn lemma_ordered_keeps_ascending(chunks: Seq<ChunkView>)
    requires
        is_ascending(chunks),
    ensures
        ordered(chunks) == chunks,
    decreases chunks.len(),
{
    if chunks.len() > 0 {
        let rest = chunks.drop_first();
        assert forall|i: int, j: int| 0 <= i <= j < rest.len() implies rest[i].index
            <= rest[j].index by {
            assert(rest[i] == chunks[i + 1] && rest[j] == chunks[j + 1]);
        }
        lemma_ordered_keeps_ascending(rest);
        if rest.len() > 0 {
            assert(rest.first() == chunks[1]);
        }
        lemma_slot(rest, chunks.first().index, 0);
        assert(rest.insert(0, chunks.first()) =~= chunks);
    } else {
        assert(chunks =~= Seq::<ChunkView>::empty());
    }
}

/// Ordering keeps every fragment, once each, and puts them in ascending
/// order.
pub proof fn lemma_ordered_sorts(chunks: Seq<ChunkView>)
    ensures
        ordered(chunks).len() == chunks.len(),
        ordered(chunks).to_multiset() == chunks.to_multiset(),
        is_ascending(ordered(chunks)),
    decreases chunks.len(),
{
    broadcast use vstd::seq_lib::group_to_multiset_ensures;

    if chunks.len() > 0 {
        let head = chunks.first();
        let tail = chunks.drop_first();
        lemma_ordered_sorts(tail);
        let rest = ordered(tail);
        lemma_slot_bounds(rest, head.index);
        let at = slot(rest, head.index);
        let out = rest.insert(at, head);
        vstd::seq_lib::to_multiset_insert(rest, at, head);
        assert(chunks =~= tail.insert(0, head));
        vstd::seq_lib::to_multiset_insert(tail, 0, head);
        assert forall|i: int, j: int| 0 <= i <= j < out.len() implies out[i].index
            <= out[j].index by {
            if i < at && j > at {
                assert(out[i] == rest[i] && out[j] == rest[j - 1]);
            } else if i > at {
                assert(out[i] == rest[i - 1] && out[j] == rest[j - 1]);
            } else if j < at {
                assert(out[i] == rest[i] && out[j] == rest[j]);
            } else if i == at && j > at {
                assert(out[j] == rest[j - 1]);
                assert(rest[at].index <= rest[j - 1].index);
            } else if j == at && i < at {
                assert(out[i] == rest[i]);
            }
        }
    }
}

/// `slot` lies inside the list, after smaller positions only, and before a
/// position that is not smaller.
pub proof fn lemma_slot_bounds(sorted: Seq<ChunkView>, index: i32)
    ensures
        0 <= slot(sorted, index) <= sorted.len(),
        forall|j: int| 0 <= j < slot(sorted, index) ==> sorted[j].index < index,
        slot(sorted, index) < sorted.len() ==> sorted[slot(sorted, index)].index >= index,
    decreases sorted.len(),
{
    if sorted.len() == 0 || sorted.first().index >= index {
    } else {
        let rest = sorted.drop_first();
        lemma_slot_bounds(rest, index);
        assert forall|j: int| 0 <= j < slot(sorted, index) implies sorted[j].index < index by {
            if j > 0 {
                assert(sorted[j] == rest[j - 1]);
            }
        }
        if slot(sorted, index) < sorted.len() {
            assert(sorted[slot(sorted, index)] == rest[slot(rest, index)]);
        }
    }
}

} // verus!
