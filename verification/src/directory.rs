//! The storage root as the operations understand it: which files it
//! holds, what a file action does to it, and what a caller sees there of a
//! vault.
//!
//! Nothing here runs. The model gives the file actions their meaning, and
//! the laws at the end say how the operations follow one another: what was
//! kept is what is read, what was created is there, what was deleted is
//! gone, and what was renamed has moved.

use crate::passwords::PasswordView;
use crate::storage::{FileActionView, StoredMetadata, VaultFilesView};
use crate::timestamp::Timestamp;
use crate::vault::{
    content_file, created_at, last_accessed, lemma_sealed_store_opens, metadata_file, opened_store,
    opens, saves, saves_sealed, sealed_store, vault_of, VaultError,
};
use crate::text::trimmed;
use crate::vault_controller::{
    create_fault, deletes, masterkey_fault, name_fault, renames, VaultControllerErrorView,
};
use vstd::prelude::*;

verus! {

/// What a file holds: bytes, or a metadata record that can be read.
pub enum FileView {
    Bytes { bytes: Seq<u8> },
    Record { created_at: Timestamp, last_accessed: Timestamp },
}

/// The storage root: what each of its files holds, by the file's name.
pub struct Directory {
    pub files: Map<Seq<char>, FileView>,
}

impl Directory {
    /// The storage root holds a file of the name.
    pub open spec fn holds(self, file_name: Seq<char>) -> bool {
        self.files.dom().contains(file_name)
    }

    /// The storage root after one action. A file that is written takes
    /// the place of one that was there; removing a file that is not there
    /// and renaming one that is not there change nothing.
    pub open spec fn after(self, action: FileActionView) -> Directory {
        match action {
            FileActionView::WriteContent { file_name, bytes } => Directory {
                files: self.files.insert(file_name, FileView::Bytes { bytes }),
            },
            FileActionView::WriteMetadata { file_name, created_at, last_accessed } => Directory {
                files: self.files.insert(file_name, FileView::Record { created_at, last_accessed }),
            },
            FileActionView::Remove { file_name } => Directory { files: self.files.remove(file_name) },
            FileActionView::Rename { from, to } => if self.holds(from) {
                Directory { files: self.files.remove(from).insert(to, self.files[from]) }
            } else {
                self
            },
        }
    }

    /// The storage root after the actions, performed in order.
    pub open spec fn after_all(self, actions: Seq<FileActionView>) -> Directory
        decreases actions.len(),
    {
        if actions.len() == 0 {
            self
        } else {
            self.after(actions[0]).after_all(actions.drop_first())
        }
    }

    /// What a caller sees of the metadata of the vault `vault_name`.
    pub open spec fn metadata_of(self, vault_name: Seq<char>) -> StoredMetadata {
        if !self.holds(metadata_file(vault_name)) {
            StoredMetadata::Absent
        } else {
            match self.files[metadata_file(vault_name)] {
                FileView::Record { created_at, last_accessed } => StoredMetadata::Present {
                    created_at,
                    last_accessed,
                },
                FileView::Bytes { bytes } => StoredMetadata::Unreadable,
            }
        }
    }

    /// `files` is what a caller may see of the vault `vault_name`: content
    /// where the content file is there, the bytes that the file holds, and
    /// the metadata.
    pub open spec fn shows(self, vault_name: Seq<char>, files: VaultFilesView) -> bool {
        &&& files.content is Some <==> self.holds(content_file(vault_name))
        &&& forall|bytes: Seq<u8>|
            self.holds(content_file(vault_name)) && self.files[content_file(vault_name)]
                == (FileView::Bytes { bytes }) ==> files.content == Some(bytes)
        &&& files.metadata == self.metadata_of(vault_name)
    }
}

/// No content file has the name of a metadata file, and the files of two
/// vaults have different names.
pub proof fn lemma_file_names(first: Seq<char>, second: Seq<char>)
    ensures
        content_file(first) != metadata_file(second),
        content_file(first) == content_file(second) <==> first == second,
        metadata_file(first) == metadata_file(second) <==> first == second,
{
    reveal_strlit(".pwd");
    reveal_strlit(".meta");
    assert(content_file(first).last() == 'd');
    if content_file(first) == content_file(second) {
        assert(first =~= content_file(first).subrange(0, first.len() as int));
        assert(second =~= content_file(second).subrange(0, second.len() as int));
    }
    if metadata_file(first) == metadata_file(second) {
        assert(first =~= metadata_file(first).subrange(0, first.len() as int));
        assert(second =~= metadata_file(second).subrange(0, second.len() as int));
    }
}

/// What is opened has its record: once the actions that opening a vault
/// asks for are performed, the metadata file holds the record that the
/// vault was opened with, which is the one that was there or, where none
/// could be read, a new one in the place of whatever the file held. No
/// other file changes.
pub proof fn lemma_opened_has_its_record(root: Directory, name: Seq<char>, now: Timestamp)
    ensures
        ({
            let stored = root.metadata_of(name);
            let after = root.after_all(opens(name, stored, now));
            &&& after.metadata_of(name) == (StoredMetadata::Present {
                created_at: created_at(stored, now),
                last_accessed: last_accessed(stored, now),
            })
            &&& forall|file_name: Seq<char>|
                file_name != metadata_file(name) ==> (after.holds(file_name) <==> root.holds(
                    file_name,
                )) && (root.holds(file_name) ==> #[trigger] after.files[file_name]
                    == root.files[file_name])
        }),
{
    reveal_with_fuel(Directory::after_all, 2);
}

/// What was kept is what is read: once the actions that keep a vault
/// with a sealed store are performed, the caller sees content that opens
/// under the key to that store, and the vault's record.
pub proof fn lemma_kept_is_read(
    root: Directory,
    actions: Seq<FileActionView>,
    name: Seq<char>,
    created: Timestamp,
    accessed: Timestamp,
    key: Seq<char>,
    entries: Seq<PasswordView>,
    files: VaultFilesView,
)
    requires
        saves_sealed(actions, vault_of(name, created, accessed), key, entries),
        root.after_all(actions).shows(name, files),
    ensures
        files.content is Some,
        opened_store(key, files.content->0) == Ok::<Seq<PasswordView>, VaultError>(entries),
        files.metadata == (StoredMetadata::Present {
            created_at: created,
            last_accessed: accessed,
        }),
{
    let vault = vault_of(name, created, accessed);
    let content = choose|content: Seq<u8>|
        sealed_store(key, entries, content) && actions == #[trigger] saves(vault, content);
    lemma_sealed_store_opens(key, entries, content);
    lemma_file_names(name, name);
    reveal_with_fuel(Directory::after_all, 3);
}

/// What was created is there: once the actions that keep a new vault are
/// performed, its content file is there, so the vault cannot be created
/// again.
pub proof fn lemma_created_is_there(
    root: Directory,
    actions: Seq<FileActionView>,
    name: Seq<char>,
    now: Timestamp,
    key: Seq<char>,
)
    requires
        saves_sealed(actions, vault_of(name, now, now), key, Seq::<PasswordView>::empty()),
    ensures
        root.after_all(actions).holds(content_file(name)),
        root.after_all(actions).holds(metadata_file(name)),
{
    reveal_with_fuel(Directory::after_all, 3);
}

/// What was created cannot be created again: once the actions that keep
/// a new vault are performed, creating a vault of that name, under
/// whatever good key, is refused because the content file is there.
pub proof fn lemma_created_is_not_created_again(
    root: Directory,
    actions: Seq<FileActionView>,
    name: Seq<char>,
    now: Timestamp,
    key: Seq<char>,
    masterkey: Seq<char>,
    confirm_masterkey: Seq<char>,
)
    requires
        saves_sealed(actions, vault_of(trimmed(name), now, now), key, Seq::<PasswordView>::empty()),
        name_fault(name) is None,
        masterkey_fault(masterkey, confirm_masterkey) is None,
    ensures
        create_fault(
            name,
            masterkey,
            confirm_masterkey,
            root.after_all(actions).holds(content_file(trimmed(name))),
        ) == Some(
            VaultControllerErrorView::VaultFileExists { file_name: content_file(trimmed(name)) },
        ),
{
    lemma_created_is_there(root, actions, trimmed(name), now, key);
}

/// What was deleted can be created: once a vault is deleted, nothing
/// stands in the way of creating a vault of its name under a good key.
pub proof fn lemma_deleted_can_be_created(
    root: Directory,
    name: Seq<char>,
    masterkey: Seq<char>,
    confirm_masterkey: Seq<char>,
)
    requires
        name_fault(name) is None,
        masterkey_fault(masterkey, confirm_masterkey) is None,
    ensures
        create_fault(
            name,
            masterkey,
            confirm_masterkey,
            root.after_all(deletes(trimmed(name))).holds(content_file(trimmed(name))),
        ) is None,
{
    lemma_deleted_is_gone(root, trimmed(name));
}

/// What was deleted is gone: once a vault is deleted neither of its files
/// is there, no other file has changed, and deleting it again changes
/// nothing.
pub proof fn lemma_deleted_is_gone(root: Directory, name: Seq<char>)
    ensures
        !root.after_all(deletes(name)).holds(content_file(name)),
        !root.after_all(deletes(name)).holds(metadata_file(name)),
        forall|file_name: Seq<char>|
            file_name != content_file(name) && file_name != metadata_file(name) ==> (
            root.after_all(deletes(name)).holds(file_name) <==> root.holds(file_name)) && (
            root.holds(file_name) ==> #[trigger] root.after_all(deletes(name)).files[file_name]
                == root.files[file_name]),
        root.after_all(deletes(name)).after_all(deletes(name)) == root.after_all(deletes(name)),
{
    reveal_with_fuel(Directory::after_all, 3);
    let gone = root.after_all(deletes(name));
    assert(gone.after_all(deletes(name)).files =~= gone.files);
}

/// What was renamed has moved: where a vault is there and no file of the
/// new name is, the actions that rename it leave the content under the
/// new name, the vault's record beside it, and nothing under the old
/// name. No other file changes.
pub proof fn lemma_renamed_has_moved(
    root: Directory,
    name: Seq<char>,
    new_name: Seq<char>,
    now: Timestamp,
)
    requires
        root.holds(content_file(name)),
        !root.holds(content_file(new_name)),
        !root.holds(metadata_file(new_name)),
    ensures
        ({
            let stored = root.metadata_of(name);
            let moved = root.after_all(renames(name, new_name, stored, now));
            &&& moved.holds(content_file(new_name))
            &&& moved.files[content_file(new_name)] == root.files[content_file(name)]
            &&& moved.metadata_of(new_name) == (StoredMetadata::Present {
                created_at: created_at(stored, now),
                last_accessed: last_accessed(stored, now),
            })
            &&& !moved.holds(content_file(name))
            &&& !moved.holds(metadata_file(name))
            &&& forall|file_name: Seq<char>|
                file_name != content_file(name) && file_name != metadata_file(name) && file_name
                    != content_file(new_name) && file_name != metadata_file(new_name) ==> (
                moved.holds(file_name) <==> root.holds(file_name)) && (root.holds(file_name)
                    ==> #[trigger] moved.files[file_name] == root.files[file_name])
        }),
{
    lemma_file_names(name, name);
    lemma_file_names(new_name, name);
    lemma_file_names(new_name, new_name);
    reveal_with_fuel(Directory::after_all, 4);
}

} // verus!
