//! Classifying a blob by its content.

use vstd::prelude::*;

verus! {

/// The type of a blob: its MIME type and the usual extension of its files.
#[derive(Debug)]
pub struct FileKind {
    pub mime_type: String,
    pub extension: String,
}

impl View for FileKind {
    type V = (Seq<char>, Seq<char>);

    /// The MIME type, then the extension.
    open spec fn view(&self) -> (Seq<char>, Seq<char>) {
        (self.mime_type@, self.extension@)
    }
}

/// The view of an optional file kind.
pub open spec fn kind_view(kind: Option<FileKind>) -> Option<(Seq<char>, Seq<char>)> {
    match kind {
        Some(k) => Some(k@),
        None => None,
    }
}

/// The MIME type and extension that `infer::get` finds for `blob`, or `None`
/// where no signature of its table matches.
pub uninterp spec fn sniffed_kind(blob: Seq<u8>) -> Option<(Seq<char>, Seq<char>)>;

/// Calls `infer::get` on `blob` and copies the MIME type and the extension of
/// the match. The crate tries its table of signatures in a fixed order on the
/// bytes alone, so the result is a function of `blob`; the table itself is not
/// stated here.
#[verifier::external_body]
fn infer_kind(blob: &[u8]) -> (kind: Option<FileKind>)
    ensures
        kind_view(kind) == sniffed_kind(blob@),
{
    match infer::get(blob) {
        Some(t) => Some(
            FileKind { mime_type: t.mime_type().to_string(), extension: t.extension().to_string() },
        ),
        None => None,
    }
}

/// Classifies `blob` by its content; `None` where nothing matches.
pub fn sniff(blob: &[u8]) -> (kind: Option<FileKind>)
    ensures
        kind_view(kind) == sniffed_kind(blob@),
{
    infer_kind(blob)
}

} // verus!
