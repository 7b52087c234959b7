//! What the library sees of the storage root, and what it asks to be done
//! there.
//!
//! A vault `<name>` is two files in the storage root: `<name>.pwd`, the
//! sealed entry store, and `<name>.meta`, the metadata record. The caller
//! reads what an operation needs and hands it over as plain values; the
//! operation answers with the [`FileAction`]s to perform, in order. An
//! operation that fails asks for nothing.

use crate::timestamp::Timestamp;
use vstd::prelude::*;

verus! {

/// What the storage root holds of a vault's metadata record.
#[derive(Debug, Clone, Copy, PartialEq, Eq, Structural)]
pub enum StoredMetadata {
    /// There is no metadata file.
    Absent,
    /// There is a metadata file, and it does not hold a record.
    Unreadable,
    /// The record that the metadata file holds.
    Present { created_at: Timestamp, last_accessed: Timestamp },
}

/// What the storage root holds of one vault.
#[derive(Debug, PartialEq, Eq)]
pub struct VaultFiles {
    /// The bytes of the content file, where there is one.
    pub content: Option<Vec<u8>>,
    pub metadata: StoredMetadata,
}

/// A [`VaultFiles`] as mathematical values.
pub struct VaultFilesView {
    pub content: Option<Seq<u8>>,
    pub metadata: StoredMetadata,
}

impl View for VaultFiles {
    type V = VaultFilesView;

    open spec fn view(&self) -> VaultFilesView {
        VaultFilesView {
            content: match self.content {
                Some(content) => Some(content@),
                None => None,
            },
            metadata: self.metadata,
        }
    }
}

/// One change to the storage root.
#[derive(Debug, PartialEq, Eq)]
pub enum FileAction {
    /// Make `bytes` the whole of the content file `file_name`.
    WriteContent { file_name: String, bytes: Vec<u8> },
    /// Make the record the whole of the metadata file `file_name`.
    WriteMetadata { file_name: String, created_at: Timestamp, last_accessed: Timestamp },
    /// Remove the file `file_name` if it is there.
    Remove { file_name: String },
    /// Give the file `from` the name `to`.
    Rename { from: String, to: String },
}

/// A [`FileAction`] as mathematical values.
pub enum FileActionView {
    WriteContent { file_name: Seq<char>, bytes: Seq<u8> },
    WriteMetadata { file_name: Seq<char>, created_at: Timestamp, last_accessed: Timestamp },
    Remove { file_name: Seq<char> },
    Rename { from: Seq<char>, to: Seq<char> },
}

impl View for FileAction {
    type V = FileActionView;

    open spec fn view(&self) -> FileActionView {
        match self {
            FileAction::WriteContent { file_name, bytes } => FileActionView::WriteContent {
                file_name: file_name@,
                bytes: bytes@,
            },
            FileAction::WriteMetadata {
                file_name,
                created_at,
                last_accessed,
            } => FileActionView::WriteMetadata {
                file_name: file_name@,
                created_at: *created_at,
                last_accessed: *last_accessed,
            },
            FileAction::Remove { file_name } => FileActionView::Remove { file_name: file_name@ },
            FileAction::Rename { from, to } => FileActionView::Rename { from: from@, to: to@ },
        }
    }
}

/// The actions of a sequence, each by its view.
pub open spec fn action_views(actions: Seq<FileAction>) -> Seq<FileActionView> {
    actions.map_values(|action: FileAction| action@)
}

/// What an operation answers: its value, and the actions that bring the
/// storage root to the state that the value describes.
#[derive(Debug)]
pub struct Outcome<T> {
    pub value: T,
    pub actions: Vec<FileAction>,
}

} // verus!
