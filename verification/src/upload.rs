//! Preparing a write: classifying and splitting the blob, and building the
//! records that the caller inserts once an identifier is granted.

use crate::fragments::{fragment_count, fragment_views, split, split_bytes};
use crate::ident::{is_alphanumeric_string, random_alphanumeric, same_text, DELETE_KEY_LEN};
use crate::sniff::{kind_view, sniff, sniffed_kind, FileKind};
use crate::store::{change_views, StoreChange, StoreChangeView};
use crate::types::{chunk_views, ChunkDoc, ChunkView, HeaderDoc, HeaderView, StoreError};
use vstd::prelude::*;

verus! {

/// The largest fragment that the backing store takes in one document.
pub const MAX_CHUNK_SIZE: u32 = 16000000;

/// Whether `chunk_size` can be the fragment size of a deployment.
pub open spec fn is_chunk_size(chunk_size: u32) -> bool {
    1 <= chunk_size <= MAX_CHUNK_SIZE
}

/// Whether `chunk_size` can be the fragment size of a deployment: at least
/// one byte, and no more than the backing store takes.
pub fn valid_chunk_size(chunk_size: u32) -> (ok: bool)
    ensures
        ok == is_chunk_size(chunk_size),
{
    1 <= chunk_size && chunk_size <= MAX_CHUNK_SIZE
}

/// Whether an upload may go on: the request presented a credential, and it
/// is the deployment's upload password.
pub fn credential_accepted(presented: Option<&str>, password: &str) -> (ok: bool)
    ensures
        ok == (presented matches Some(p) && p@ == password@),
{
    match presented {
        Some(p) => same_text(p, password),
        None => false,
    }
}

/// Whether the records can describe a blob of `len` bytes at `chunk_size`
/// bytes per fragment: a fragment holds at least one byte, the length fits
/// the header's field and each fragment's position fits the fragment's.
pub open spec fn fits_records(len: nat, chunk_size: nat) -> bool {
    &&& chunk_size >= 1
    &&& len <= u32::MAX
    &&& fragment_count(len, chunk_size) <= i32::MAX
}

/// Whether the records can describe a blob of `len` bytes at `chunk_size`
/// bytes per fragment.
pub fn blob_fits(len: usize, chunk_size: u32) -> (ok: bool)
    ensures
        ok == fits_records(len as nat, chunk_size as nat),
{
    if chunk_size == 0 || len > u32::MAX as usize {
        return false;
    }
    let len = len as u64;
    let size = chunk_size as u64;
    let count = if len % size == 0 {
        len / size
    } else {
        len / size + 1
    };
    count <= i32::MAX as u64
}

/// What is known of an upload before it has an identifier.
#[derive(Debug)]
pub struct UploadPlan {
    pub kind: FileKind,
    pub content_length: u32,
    pub fragments: Vec<Vec<u8>>,
}

/// What an upload plan holds, as plain values.
pub struct UploadPlanView {
    pub mime_type: Seq<char>,
    pub extension: Seq<char>,
    pub content_length: u32,
    pub fragments: Seq<Seq<u8>>,
}

impl View for UploadPlan {
    type V = UploadPlanView;

    open spec fn view(&self) -> UploadPlanView {
        UploadPlanView {
            mime_type: self.kind.mime_type@,
            extension: self.kind.extension@,
            content_length: self.content_length,
            fragments: fragment_views(self.fragments@),
        }
    }
}

impl UploadPlanView {
    /// The plan has at least one fragment, and no more than a fragment's
    /// position can count.
    pub open spec fn wf(self) -> bool {
        1 <= self.fragments.len() <= i32::MAX
    }
}

/// The view of a planning result.
pub open spec fn plan_view(r: Result<UploadPlan, StoreError>) -> Result<UploadPlanView, StoreError> {
    match r {
        Ok(p) => Ok(p@),
        Err(e) => Err(e),
    }
}

/// The view of a planning result that may be absent.
pub open spec fn admission_view(r: Option<Result<UploadPlan, StoreError>>) -> Option<
    Result<UploadPlanView, StoreError>,
> {
    match r {
        Some(p) => Some(plan_view(p)),
        None => None,
    }
}

/// The plan for `blob` when the sniffer found `kind`: an empty blob is
/// refused first, then one without a known type.
pub open spec fn planned(
    blob: Seq<u8>,
    kind: Option<(Seq<char>, Seq<char>)>,
    chunk_size: nat,
) -> Result<UploadPlanView, StoreError> {
    if blob.len() == 0 {
        Err(StoreError::EmptyBlob)
    } else {
        match kind {
            None => Err(StoreError::UnclassifiableContent),
            Some(k) => Ok(
                UploadPlanView {
                    mime_type: k.0,
                    extension: k.1,
                    content_length: blob.len() as u32,
                    fragments: split_bytes(blob, chunk_size),
                },
            ),
        }
    }
}

/// The fragments of an upload as the store keeps them: each under the
/// object's identifier, with its position.
pub open spec fn tagged(id: Seq<char>, fragments: Seq<Seq<u8>>) -> Seq<ChunkView> {
    Seq::new(
        fragments.len(),
        |i: int| ChunkView { parent_id: id, index: i as i32, data: fragments[i] },
    )
}

/// The header of an upload.
pub open spec fn header_of(
    plan: UploadPlanView,
    id: Seq<char>,
    delete_key: Seq<char>,
    uploaded_at: u64,
) -> HeaderView {
    HeaderView {
        id,
        delete_key,
        content_type: plan.mime_type,
        file_extension: plan.extension,
        content_length: plan.content_length,
        uploaded_at,
        total_chunks: plan.fragments.len() as u32,
    }
}

/// What planning gives for any blob and any fragment size. The content is
/// judged first: an empty blob and one without a known type are refused
/// whatever else holds. A blob with a type is planned if the records can
/// describe it, and there is no plan, `None`, if they cannot.
pub open spec fn admitted(
    blob: Seq<u8>,
    kind: Option<(Seq<char>, Seq<char>)>,
    chunk_size: nat,
) -> Option<Result<UploadPlanView, StoreError>> {
    if blob.len() == 0 || kind is None || fits_records(blob.len(), chunk_size) {
        Some(planned(blob, kind, chunk_size))
    } else {
        None
    }
}

/// Plans the upload of `blob`, whose type the sniffer found to be `kind`.
/// `None` where the blob has a type and the records cannot describe it.
pub fn plan_upload(blob: &[u8], kind: Option<FileKind>, chunk_size: u32) -> (r: Option<
    Result<UploadPlan, StoreError>,
>)
    ensures
        admission_view(r) == admitted(blob@, kind_view(kind), chunk_size as nat),
        r matches Some(Ok(p)) ==> p@.wf(),
{
    if blob.len() == 0 {
        return Some(Err(StoreError::EmptyBlob));
    }
    match kind {
        None => Some(Err(StoreError::UnclassifiableContent)),
        Some(k) => {
            if !blob_fits(blob.len(), chunk_size) {
                return None;
            }
            let fragments = split(blob, chunk_size as usize);
            proof {
                crate::fragments::lemma_fragment_count_covers(blob@.len(), chunk_size as nat);
            }
            Some(Ok(UploadPlan { kind: k, content_length: blob.len() as u32, fragments }))
        },
    }
}

/// Classifies `blob` by its content and plans its upload. `None` where the
/// blob has a type and the records cannot describe it.
pub fn begin_upload(blob: &[u8], chunk_size: u32) -> (r: Option<Result<UploadPlan, StoreError>>)
    ensures
        admission_view(r) == admitted(blob@, sniffed_kind(blob@), chunk_size as nat),
        r matches Some(Ok(p)) ==> p@.wf(),
{
    let kind = sniff(blob);
    plan_upload(blob, kind, chunk_size)
}

/// Tags `fragments` with the identifier of their object and their positions.
pub fn tag_fragments(id: &str, fragments: Vec<Vec<u8>>) -> (chunks: Vec<ChunkDoc>)
    requires
        fragments@.len() <= i32::MAX,
    ensures
        chunk_views(chunks@) == tagged(id@, fragment_views(fragments@)),
{
    let ghost all = fragments@;
    let mut chunks: Vec<ChunkDoc> = Vec::new();
    for data in it: fragments
        invariant
            it.seq() == all,
            all.len() <= i32::MAX,
            chunks@.len() == it.index(),
            chunk_views(chunks@) == tagged(id@, fragment_views(all)).take(it.index()),
    {
        let index = chunks.len() as i32;
        chunks.push(ChunkDoc { parent_id: id.to_owned(), index, data });
        proof {
            assert(chunk_views(chunks@) =~= tagged(id@, fragment_views(all)).take(
                it.index() + 1,
            ));
        }
    }
    proof {
        let whole = tagged(id@, fragment_views(all));
        assert(whole.take(whole.len() as int) =~= whole);
    }
    chunks
}

/// Builds the records of an upload: the header, then the fragments in order.
pub fn seal_upload(plan: UploadPlan, id: String, delete_key: String, uploaded_at: u64) -> (records:
    (HeaderDoc, Vec<ChunkDoc>))
    requires
        plan@.wf(),
    ensures
        records.0@ == header_of(plan@, id@, delete_key@, uploaded_at),
        chunk_views(records.1@) == tagged(id@, plan@.fragments),
{
    let total_chunks = plan.fragments.len() as u32;
    let chunks = tag_fragments(id.as_str(), plan.fragments);
    let header = HeaderDoc {
        id,
        delete_key,
        content_type: plan.kind.mime_type,
        file_extension: plan.kind.extension,
        content_length: plan.content_length,
        uploaded_at,
        total_chunks,
    };
    (header, chunks)
}

/// Draws a fresh deletion secret and builds the records of an upload. The
/// secret has `DELETE_KEY_LEN` letters and digits; the rest of the records is
/// fixed by the arguments.
pub fn finish_upload(plan: UploadPlan, id: String, uploaded_at: u64) -> (records: (
    HeaderDoc,
    Vec<ChunkDoc>,
))
    requires
        plan@.wf(),
    ensures
        is_alphanumeric_string(records.0@.delete_key, DELETE_KEY_LEN as nat),
        records.0@ == header_of(plan@, id@, records.0@.delete_key, uploaded_at),
        chunk_views(records.1@) == tagged(id@, plan@.fragments),
{
    let delete_key = random_alphanumeric(DELETE_KEY_LEN);
    seal_upload(plan, id, delete_key, uploaded_at)
}

/// The insertions of an upload: the header first, then the fragments.
pub open spec fn insertions(header: HeaderView, chunks: Seq<ChunkView>) -> Seq<StoreChangeView> {
    seq![StoreChangeView::InsertHeader { header }, StoreChangeView::InsertChunks { chunks }]
}

/// The changes that persist the records of an upload, in order.
pub fn upload_changes(header: HeaderDoc, chunks: Vec<ChunkDoc>) -> (changes: Vec<StoreChange>)
    ensures
        change_views(changes@) == insertions(header@, chunk_views(chunks@)),
{
    let mut changes: Vec<StoreChange> = Vec::new();
    changes.push(StoreChange::InsertHeader { header });
    changes.push(StoreChange::InsertChunks { chunks });
    proof {
        assert(change_views(changes@) =~= insertions(header@, chunk_views(chunks@)));
    }
    changes
}

} // verus!
