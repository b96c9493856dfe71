use imghost::allocator::{continue_allocation, redraw, start_allocation, Allocation};
use imghost::fetch::{assemble, parse_request, require_header};
use imghost::remove::plan_delete;
use imghost::store::StoreChange;
use imghost::types::{ChunkDoc, HeaderDoc, StoreError};
use imghost::upload::{begin_upload, finish_upload, upload_changes};

/// A store in memory that does what a document store does with each request.
struct MemoryStore {
    headers: Vec<HeaderDoc>,
    chunks: Vec<ChunkDoc>,
}

impl MemoryStore {
    fn new() -> Self {
        MemoryStore { headers: Vec::new(), chunks: Vec::new() }
    }

    fn find_header(&self, id: &str) -> Option<HeaderDoc> {
        self.headers.iter().find(|h| h.id == id).cloned()
    }

    fn find_chunks(&self, id: &str) -> Vec<ChunkDoc> {
        self.chunks
            .iter()
            .filter(|c| c.parent_id == id)
            .map(|c| ChunkDoc { parent_id: c.parent_id.clone(), index: c.index, data: c.data.clone() })
            .collect()
    }

    fn perform(&mut self, change: StoreChange) {
        match change {
            StoreChange::InsertHeader { header } => self.headers.push(header),
            StoreChange::InsertChunks { chunks } => self.chunks.extend(chunks),
            StoreChange::DeleteHeader { id } => {
                if let Some(at) = self.headers.iter().position(|h| h.id == id) {
                    self.headers.remove(at);
                }
            }
            StoreChange::DeleteChunks { parent_id } => {
                self.chunks.retain(|c| c.parent_id != parent_id)
            }
        }
    }

    fn ids_are_unique(&self) -> bool {
        let ids: std::collections::HashSet<&str> =
            self.headers.iter().map(|h| h.id.as_str()).collect();
        ids.len() == self.headers.len()
    }
}

fn write(
    store: &mut MemoryStore,
    blob: &[u8],
    custom_id: &str,
    chunk_size: u32,
) -> Result<HeaderDoc, StoreError> {
    let plan = begin_upload(blob, chunk_size).expect("the records can describe the blob")?;
    let mut step = start_allocation(custom_id);
    let id = loop {
        match step {
            Allocation::Probe { candidate, custom } => {
                let exists = store.find_header(&candidate).is_some();
                step = continue_allocation(candidate, custom, exists);
            }
            Allocation::Redraw => step = redraw(),
            Allocation::Granted { id } => break id,
            Allocation::Rejected { error } => return Err(error),
        }
    };
    let (header, chunks) = finish_upload(plan, id, 1_700_000_000_123);
    for change in upload_changes(header.clone(), chunks) {
        store.perform(change);
    }
    Ok(header)
}

fn read(store: &MemoryStore, requested: &str) -> Result<(HeaderDoc, Vec<u8>), StoreError> {
    let (key, _) = parse_request(requested);
    let header = require_header(store.find_header(&key))?;
    let bytes = assemble(&header, store.find_chunks(&key))?;
    Ok((header, bytes))
}

fn delete(store: &mut MemoryStore, id: &str, secret: &str) -> Result<(), StoreError> {
    for change in plan_delete(store.find_header(id), secret)? {
        store.perform(change);
    }
    Ok(())
}

fn png(len: usize, salt: u8) -> Vec<u8> {
    let mut blob = vec![0x89u8, 0x50, 0x4E, 0x47, 0x0D, 0x0A, 0x1A, 0x0A];
    while blob.len() < len {
        blob.push((blob.len() as u8).wrapping_mul(7).wrapping_add(salt));
    }
    blob
}

#[test]
fn upload_of_forty_bytes_reads_back_exactly() {
    let mut store = MemoryStore::new();
    let blob = png(40, 1);
    let header = write(&mut store, &blob, "", 16).unwrap();
    assert_eq!(header.total_chunks, 3);
    assert_eq!(header.content_length, 40);
    assert_eq!(header.content_type, "image/png");
    assert_eq!(header.file_extension, "png");
    assert_eq!(header.id.chars().count(), 6);
    let stored = store.find_chunks(&header.id);
    let sizes: Vec<usize> = stored.iter().map(|c| c.data.len()).collect();
    assert_eq!(sizes, vec![16, 16, 8]);
    let positions: Vec<i32> = stored.iter().map(|c| c.index).collect();
    assert_eq!(positions, vec![0, 1, 2]);
    let (found, bytes) = read(&store, &header.id).unwrap();
    assert_eq!(found.id, header.id);
    assert_eq!(found.total_chunks, 3);
    assert_eq!(bytes, blob);
    let (_, with_suffix) = read(&store, &format!("{}.png", header.id)).unwrap();
    assert_eq!(with_suffix, blob);
}

#[test]
fn read_orders_fragments_that_the_store_returns_out_of_order() {
    let mut store = MemoryStore::new();
    let blob = png(40, 2);
    let header = write(&mut store, &blob, "shuffle", 16).unwrap();
    store.chunks.reverse();
    let (_, bytes) = read(&store, "shuffle").unwrap();
    assert_eq!(bytes, blob);
    assert_eq!(header.id, "shuffle");
}

#[test]
fn unrecognized_upload_persists_nothing() {
    let mut store = MemoryStore::new();
    let junk: Vec<u8> = (0..40u8).collect();
    assert_eq!(write(&mut store, &junk, "", 16).unwrap_err(), StoreError::UnclassifiableContent);
    assert!(store.headers.is_empty());
    assert!(store.chunks.is_empty());
}

#[test]
fn empty_upload_persists_nothing() {
    let mut store = MemoryStore::new();
    assert_eq!(write(&mut store, &[], "holiday", 16).unwrap_err(), StoreError::EmptyBlob);
    assert!(store.headers.is_empty());
    assert!(store.chunks.is_empty());
}

#[test]
fn custom_id_rejections() {
    let mut store = MemoryStore::new();
    let blob = png(40, 3);
    assert_eq!(write(&mut store, &blob, "x", 16).unwrap_err(), StoreError::InvalidIdentifier);
    assert_eq!(write(&mut store, &blob, "github", 16).unwrap_err(), StoreError::InvalidIdentifier);
    assert_eq!(write(&mut store, &blob, "favicon", 16).unwrap_err(), StoreError::InvalidIdentifier);
    assert!(store.headers.is_empty());
    assert!(store.chunks.is_empty());
    let first = write(&mut store, &blob, "holiday", 16).unwrap();
    assert_eq!(first.id, "holiday");
    assert_eq!(
        write(&mut store, &png(24, 4), "holiday", 16).unwrap_err(),
        StoreError::IdentifierTaken
    );
    assert_eq!(store.headers.len(), 1);
    assert_eq!(store.chunks.len(), 3);
    let (_, bytes) = read(&store, "holiday").unwrap();
    assert_eq!(bytes, blob);
}

#[test]
fn writes_never_share_an_identifier() {
    let mut store = MemoryStore::new();
    for i in 0..300usize {
        let blob = png(9 + i % 50, i as u8);
        let header = write(&mut store, &blob, "", 16).unwrap();
        let (_, bytes) = read(&store, &header.id).unwrap();
        assert_eq!(bytes, blob);
    }
    assert_eq!(store.headers.len(), 300);
    assert!(store.ids_are_unique());
}

#[test]
fn delete_with_a_wrong_secret_removes_nothing() {
    let mut store = MemoryStore::new();
    let blob = png(40, 5);
    let header = write(&mut store, &blob, "keepme", 16).unwrap();
    assert_eq!(delete(&mut store, "keepme", "not the secret").unwrap_err(), StoreError::Unauthorized);
    assert_eq!(delete(&mut store, "keepme", "").unwrap_err(), StoreError::Unauthorized);
    assert_eq!(store.headers.len(), 1);
    assert_eq!(store.chunks.len(), 3);
    let (found, bytes) = read(&store, "keepme").unwrap();
    assert_eq!(found.delete_key, header.delete_key);
    assert_eq!(bytes, blob);
}

#[test]
fn delete_with_the_secret_removes_header_and_fragments() {
    let mut store = MemoryStore::new();
    let other = write(&mut store, &png(20, 6), "other1", 16).unwrap();
    let header = write(&mut store, &png(40, 7), "", 16).unwrap();
    assert_eq!(store.find_chunks(&header.id).len(), 3);
    delete(&mut store, &header.id, &header.delete_key).unwrap();
    assert!(store.find_header(&header.id).is_none());
    assert!(store.find_chunks(&header.id).is_empty());
    assert_eq!(read(&store, &header.id).unwrap_err(), StoreError::NotFound);
    assert_eq!(
        delete(&mut store, &header.id, &header.delete_key).unwrap_err(),
        StoreError::NotFound
    );
    let (_, bytes) = read(&store, "other1").unwrap();
    assert_eq!(bytes, png(20, 6));
    assert_eq!(other.total_chunks, 2);
}

#[test]
fn delete_of_an_unknown_id_is_not_found() {
    let mut store = MemoryStore::new();
    assert_eq!(delete(&mut store, "nobody", "secret").unwrap_err(), StoreError::NotFound);
}

#[test]
fn delete_changes_remove_header_then_fragments() {
    let mut store = MemoryStore::new();
    let header = write(&mut store, &png(40, 8), "ordered", 16).unwrap();
    let changes = plan_delete(store.find_header("ordered"), &header.delete_key).unwrap();
    assert_eq!(changes.len(), 2);
    assert!(matches!(&changes[0], StoreChange::DeleteHeader { id } if id == "ordered"));
    assert!(matches!(&changes[1], StoreChange::DeleteChunks { parent_id } if parent_id == "ordered"));
}

#[test]
fn read_of_an_unknown_id_is_not_found() {
    let store = MemoryStore::new();
    assert_eq!(read(&store, "nobody").unwrap_err(), StoreError::NotFound);
    assert_eq!(read(&store, "nobody.png").unwrap_err(), StoreError::NotFound);
}

#[test]
fn header_with_a_fragment_missing_is_a_consistency_error() {
    let mut store = MemoryStore::new();
    write(&mut store, &png(40, 10), "short1", 16).unwrap();
    store.chunks.pop();
    assert_eq!(store.find_chunks("short1").len(), 2);
    assert_eq!(read(&store, "short1").unwrap_err(), StoreError::ChunkConsistencyError);
    assert_eq!(read(&store, "short1.png").unwrap_err(), StoreError::ChunkConsistencyError);
}

#[test]
fn fragments_left_by_a_failed_delete_are_not_joined_into_a_new_object() {
    let mut store = MemoryStore::new();
    let old = write(&mut store, &png(40, 11), "reused", 16).unwrap();
    // The delete loses its second step: the header goes, the fragments stay.
    let mut changes = plan_delete(store.find_header("reused"), &old.delete_key).unwrap();
    changes.truncate(1);
    for change in changes {
        store.perform(change);
    }
    assert_eq!(store.find_chunks("reused").len(), 3);
    write(&mut store, &png(20, 12), "reused", 16).unwrap();
    assert_eq!(read(&store, "reused").unwrap_err(), StoreError::ChunkConsistencyError);
}

#[test]
fn header_without_fragments_is_a_consistency_error() {
    let mut store = MemoryStore::new();
    write(&mut store, &png(40, 9), "orphan", 16).unwrap();
    store.chunks.clear();
    assert_eq!(read(&store, "orphan").unwrap_err(), StoreError::ChunkConsistencyError);
}
