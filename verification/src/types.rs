//! The two records of a stored object, and the errors of the protocol.

use vstd::prelude::*;

verus! {

/// The header of a stored object: one per object, keyed by `id`.
#[derive(Debug)]
pub struct HeaderDoc {
    pub id: String,
    pub delete_key: String,
    pub content_type: String,
    pub file_extension: String,
    pub content_length: u32,
    pub uploaded_at: u64,
    pub total_chunks: u32,
}

/// One fragment of a stored object.
#[derive(Debug)]
pub struct ChunkDoc {
    pub parent_id: String,
    pub index: i32,
    pub data: Vec<u8>,
}

/// What a header holds, as plain values.
pub struct HeaderView {
    pub id: Seq<char>,
    pub delete_key: Seq<char>,
    pub content_type: Seq<char>,
    pub file_extension: Seq<char>,
    pub content_length: u32,
    pub uploaded_at: u64,
    pub total_chunks: u32,
}

/// What a fragment holds, as plain values.
pub struct ChunkView {
    pub parent_id: Seq<char>,
    pub index: i32,
    pub data: Seq<u8>,
}

impl View for HeaderDoc {
    type V = HeaderView;

    open spec fn view(&self) -> HeaderView {
        HeaderView {
            id: self.id@,
            delete_key: self.delete_key@,
            content_type: self.content_type@,
            file_extension: self.file_extension@,
            content_length: self.content_length,
            uploaded_at: self.uploaded_at,
            total_chunks: self.total_chunks,
        }
    }
}

impl View for ChunkDoc {
    type V = ChunkView;

    open spec fn view(&self) -> ChunkView {
        ChunkView { parent_id: self.parent_id@, index: self.index, data: self.data@ }
    }
}

impl Clone for HeaderDoc {
    fn clone(&self) -> (copy: Self)
        ensures
            copy@ == self@,
    {
        HeaderDoc {
            id: self.id.clone(),
            delete_key: self.delete_key.clone(),
            content_type: self.content_type.clone(),
            file_extension: self.file_extension.clone(),
            content_length: self.content_length,
            uploaded_at: self.uploaded_at,
            total_chunks: self.total_chunks,
        }
    }
}

/// The views of a list of fragments, in the order of the list.
pub open spec fn chunk_views(chunks: Seq<ChunkDoc>) -> Seq<ChunkView> {
    chunks.map_values(|c: ChunkDoc| c@)
}

/// Why an operation of the store failed.
#[derive(Clone, Copy, Debug, PartialEq, Eq, Structural)]
pub enum StoreError {
    /// The blob to store is empty.
    EmptyBlob,
    /// No known signature matches the blob.
    UnclassifiableContent,
    /// The requested identifier fails the grammar or is reserved.
    InvalidIdentifier,
    /// A header with the requested identifier exists.
    IdentifierTaken,
    /// No header has the identifier.
    NotFound,
    /// The header exists and its fragments are missing.
    ChunkConsistencyError,
    /// The presented secret is not the header's.
    Unauthorized,
    /// The backing store failed.
    BackingStoreFailure,
}

impl StoreError {
    /// The short name under which a client is told of the error.
    pub open spec fn code_chars(self) -> Seq<char> {
        match self {
            StoreError::EmptyBlob => "empty_body"@,
            StoreError::UnclassifiableContent => "invalid_file_type"@,
            StoreError::InvalidIdentifier => "invalid_id"@,
            StoreError::IdentifierTaken => "id_taken"@,
            StoreError::NotFound => "not_found"@,
            StoreError::ChunkConsistencyError => "chunk_error"@,
            StoreError::Unauthorized => "invalid_dkey"@,
            StoreError::BackingStoreFailure => "internal_server_error"@,
        }
    }

    /// The short name under which a client is told of the error.
    pub fn code(&self) -> (name: &'static str)
        ensures
            name@ == self.code_chars(),
    {
        match self {
            StoreError::EmptyBlob => "empty_body",
            StoreError::UnclassifiableContent => "invalid_file_type",
            StoreError::InvalidIdentifier => "invalid_id",
            StoreError::IdentifierTaken => "id_taken",
            StoreError::NotFound => "not_found",
            StoreError::ChunkConsistencyError => "chunk_error",
            StoreError::Unauthorized => "invalid_dkey",
            StoreError::BackingStoreFailure => "internal_server_error",
        }
    }
}

} // verus!
