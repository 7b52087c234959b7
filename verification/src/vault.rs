//! One vault: its two file names, its metadata record, and the cycle that
//! opens the sealed entry store, changes it and seals it again.
//!
//! A store is open only inside one operation. What is kept is always the
//! sealed form, and a content file is written whole or not at all.

use crate::cipher::{opened, sealed_with, Cipher, CipherError, SEAL_LIMIT};
use crate::encoding::{
    decode_store, encodable, encode_store, lemma_decode_encode, lemma_decoded_is_encodable,
    lemma_encode_decode, lemma_encoded_size, lemma_removed_size,
};
use crate::passwords::{
    deleted, lemma_position, position, PasswordView, Passwords, PasswordsError,
};
use crate::storage::{action_views, FileAction, FileActionView, Outcome, StoredMetadata};
use crate::text::with_extension;
use crate::timestamp::Timestamp;
use crate::vault_controller::{VaultControllerError, VaultControllerErrorView};
use vstd::prelude::*;

verus! {

/// Why a vault's content could not be opened or sealed.
#[derive(Debug, Clone, Copy, PartialEq, Eq, Structural)]
pub enum VaultError {
    /// The cipher failed; on opening, the master key is wrong or the
    /// content damaged.
    Cipher { source: CipherError },
    /// The entry store has no binary form, or the opened bytes are none.
    Passwords { source: PasswordsError },
}

/// What the user is told of `e`. A content that does not open is put down
/// to the master key, whatever the cause.
pub open spec fn vault_error_message(e: VaultError) -> Seq<char> {
    match e {
        VaultError::Cipher { source: CipherError::AuthenticationFailed } => "Incorrect master key"@,
        VaultError::Passwords {
            source: PasswordsError::IdsExhausted,
        } => "No id is left for a new password"@,
        _ => "Unexpected io error occured!"@,
    }
}

impl VaultError {
    /// What the user is told of the error.
    pub fn message(&self) -> (text: String)
        ensures
            text@ == vault_error_message(*self),
    {
        match self {
            VaultError::Cipher {
                source: CipherError::AuthenticationFailed,
            } => "Incorrect master key".to_owned(),
            VaultError::Passwords {
                source: PasswordsError::IdsExhausted,
            } => "No id is left for a new password".to_owned(),
            _ => "Unexpected io error occured!".to_owned(),
        }
    }
}

/// The name of the content file of the vault `vault_name`.
pub open spec fn content_file(vault_name: Seq<char>) -> Seq<char> {
    vault_name + ".pwd"@
}

/// The name of the metadata file of the vault `vault_name`.
pub open spec fn metadata_file(vault_name: Seq<char>) -> Seq<char> {
    vault_name + ".meta"@
}

/// The time of creation that a vault has when it is opened at `now`: the
/// one on record, or `now` where no record can be read.
pub open spec fn created_at(stored: StoredMetadata, now: Timestamp) -> Timestamp {
    match stored {
        StoredMetadata::Present { created_at, last_accessed } => created_at,
        _ => now,
    }
}

/// The time of last access that a vault has when it is opened at `now`:
/// the one on record, or `now` where no record can be read.
pub open spec fn last_accessed(stored: StoredMetadata, now: Timestamp) -> Timestamp {
    match stored {
        StoredMetadata::Present { created_at, last_accessed } => last_accessed,
        _ => now,
    }
}

/// The actions that opening a vault at `now` asks for: none where its
/// metadata record can be read, and the writing of a new record, created
/// and last accessed at `now`, where not.
pub open spec fn opens(name: Seq<char>, stored: StoredMetadata, now: Timestamp) -> Seq<
    FileActionView,
> {
    if stored is Present {
        Seq::empty()
    } else {
        seq![
            FileActionView::WriteMetadata {
                file_name: metadata_file(name),
                created_at: now,
                last_accessed: now,
            },
        ]
    }
}

/// The entry store that `content` opens to under `key`, or why it does
/// not open.
pub open spec fn opened_store(key: Seq<char>, content: Seq<u8>) -> Result<
    Seq<PasswordView>,
    VaultError,
> {
    match opened(key, content) {
        None => Err(VaultError::Cipher { source: CipherError::AuthenticationFailed }),
        Some(plain) => match decode_store(plain) {
            Some(entries) => Ok(entries),
            None => Err(VaultError::Passwords { source: PasswordsError::Malformed }),
        },
    }
}

/// `content` holds the store `entries` sealed under `key`.
pub open spec fn sealed_store(key: Seq<char>, entries: Seq<PasswordView>, content: Seq<u8>) -> bool {
    encodable(entries) && sealed_with(key, encode_store(entries), content)
}

/// A sealed store opens, under the key that sealed it, to the store that
/// was sealed.
pub proof fn lemma_sealed_store_opens(
    key: Seq<char>,
    entries: Seq<PasswordView>,
    content: Seq<u8>,
)
    requires
        sealed_store(key, entries, content),
    ensures
        opened_store(key, content) == Ok::<Seq<PasswordView>, VaultError>(entries),
{
    lemma_decode_encode(entries);
}

/// The metadata record of a vault, and the name of the file that holds it.
#[derive(Debug, PartialEq, Eq)]
pub struct VaultMetadata {
    pub file_path: String,
    pub created_at: Timestamp,
    pub last_accessed: Timestamp,
}

/// A [`VaultMetadata`] as mathematical values.
pub struct VaultMetadataView {
    pub file_path: Seq<char>,
    pub created_at: Timestamp,
    pub last_accessed: Timestamp,
}

impl View for VaultMetadata {
    type V = VaultMetadataView;

    open spec fn view(&self) -> VaultMetadataView {
        VaultMetadataView {
            file_path: self.file_path@,
            created_at: self.created_at,
            last_accessed: self.last_accessed,
        }
    }
}

impl VaultMetadata {
    /// The metadata of the vault `vault_name` opened at `now`: the record
    /// that the storage root holds or, where it holds none that can be
    /// read, a new one, created and last accessed at `now`. A new record
    /// is written at once: the actions write it over whatever the
    /// metadata file held. A record that was read asks for no action.
    pub fn new(vault_name: &str, stored: &StoredMetadata, now: Timestamp) -> (made: Outcome<
        VaultMetadata,
    >)
        ensures
            made.value@ == (VaultMetadataView {
                file_path: metadata_file(vault_name@),
                created_at: created_at(*stored, now),
                last_accessed: last_accessed(*stored, now),
            }),
            action_views(made.actions@) == opens(vault_name@, *stored, now),
    {
        let mut actions: Vec<FileAction> = Vec::new();
        let metadata = match stored {
            StoredMetadata::Present { created_at, last_accessed } => Self::of(
                vault_name,
                *created_at,
                *last_accessed,
            ),
            _ => {
                let metadata = Self::of(vault_name, now, now);
                actions.push(metadata.save_to_file());
                metadata
            },
        };
        assert(action_views(actions@) =~= opens(vault_name@, *stored, now));
        Outcome { value: metadata, actions }
    }

    /// The record of the vault `vault_name` with the given times.
    pub fn of(vault_name: &str, created_at: Timestamp, last_accessed: Timestamp) -> (metadata: Self)
        ensures
            metadata@ == (VaultMetadataView {
                file_path: metadata_file(vault_name@),
                created_at,
                last_accessed,
            }),
    {
        VaultMetadata { file_path: Self::file_path(vault_name), created_at, last_accessed }
    }

    /// The action that writes the record to its file.
    pub fn save_to_file(&self) -> (action: FileAction)
        ensures
            action@ == (FileActionView::WriteMetadata {
                file_name: self.file_path@,
                created_at: self.created_at,
                last_accessed: self.last_accessed,
            }),
    {
        FileAction::WriteMetadata {
            file_name: self.file_path.clone(),
            created_at: self.created_at,
            last_accessed: self.last_accessed,
        }
    }

    /// The action that removes the record's file, if it is there.
    pub fn delete_file(&self) -> (action: FileAction)
        ensures
            action@ == (FileActionView::Remove { file_name: self.file_path@ }),
    {
        FileAction::Remove { file_name: self.file_path.clone() }
    }

    /// The name of the metadata file of the vault `vault_name`.
    pub fn file_path(vault_name: &str) -> (file_path: String)
        ensures
            file_path@ == metadata_file(vault_name@),
    {
        with_extension(vault_name, ".meta")
    }
}

/// A vault: its name, the name of its content file, and its metadata.
#[derive(Debug, PartialEq, Eq)]
pub struct Vault {
    pub file_path: String,
    pub name: String,
    pub metadata: VaultMetadata,
}

/// A [`Vault`] as mathematical values.
pub struct VaultView {
    pub file_path: Seq<char>,
    pub name: Seq<char>,
    pub metadata: VaultMetadataView,
}

impl View for Vault {
    type V = VaultView;

    open spec fn view(&self) -> VaultView {
        VaultView { file_path: self.file_path@, name: self.name@, metadata: self.metadata@ }
    }
}

/// The vault of the given name and times, with the file names that go
/// with the name.
pub open spec fn vault_of(name: Seq<char>, created_at: Timestamp, last_accessed: Timestamp) -> VaultView {
    VaultView {
        file_path: content_file(name),
        name,
        metadata: VaultMetadataView { file_path: metadata_file(name), created_at, last_accessed },
    }
}

/// The two actions that keep a vault: its content file made `content`,
/// then its metadata record written.
pub open spec fn saves(vault: VaultView, content: Seq<u8>) -> Seq<FileActionView> {
    seq![
        FileActionView::WriteContent { file_name: vault.file_path, bytes: content },
        FileActionView::WriteMetadata {
            file_name: vault.metadata.file_path,
            created_at: vault.metadata.created_at,
            last_accessed: vault.metadata.last_accessed,
        },
    ]
}

/// `actions` keep `vault` with the store `entries` sealed under `key`.
pub open spec fn saves_sealed(
    actions: Seq<FileActionView>,
    vault: VaultView,
    key: Seq<char>,
    entries: Seq<PasswordView>,
) -> bool {
    exists|content: Seq<u8>|
        sealed_store(key, entries, content) && actions == #[trigger] saves(vault, content)
}

/// The store `entries` can be sealed: it has a binary form, and one that
/// is shorter than the cipher's limit.
pub open spec fn sealable(entries: Seq<PasswordView>) -> bool {
    encodable(entries) && encode_store(entries).len() < SEAL_LIMIT
}

/// Why the store `entries` cannot be kept: it has no binary form, or its
/// binary form is of the cipher's limit or longer and the cipher refused
/// it. A store that can be sealed is always kept.
pub open spec fn fails_to_seal(e: VaultError, entries: Seq<PasswordView>) -> bool {
    if !encodable(entries) {
        e == (VaultError::Passwords { source: PasswordsError::TooLarge })
    } else {
        !sealable(entries) && e == (VaultError::Cipher { source: CipherError::SealFailed })
    }
}

/// A store that was opened can be sealed again: its binary form is the
/// data that were opened, which are shorter than the cipher's limit.
pub proof fn lemma_opened_store_is_sealable(key: Seq<char>, content: Seq<u8>)
    requires
        opened_store(key, content) is Ok,
    ensures
        sealable(opened_store(key, content)->Ok_0),
{
    let plain = opened(key, content)->0;
    lemma_decoded_is_encodable(plain);
    lemma_encode_decode(plain);
}

/// What is left of a store that can be sealed, once an entry is deleted,
/// can be sealed.
pub proof fn lemma_deleted_is_sealable(entries: Seq<PasswordView>, id: i32)
    requires
        sealable(entries),
    ensures
        sealable(deleted(entries, id)),
{
    lemma_position(entries, id);
    let k = position(entries, id);
    if k < entries.len() {
        lemma_removed_size(entries, k);
        lemma_encoded_size(entries);
        lemma_encoded_size(entries.remove(k));
    }
}

/// The empty store can be sealed: its binary form is four bytes.
pub proof fn lemma_empty_store_is_sealable()
    ensures
        sealable(Seq::<PasswordView>::empty()),
        encode_store(Seq::<PasswordView>::empty()).len() == 4,
{
    assert(crate::encoding::encode_entries(Seq::<PasswordView>::empty()).len() == 0);
}

impl Vault {
    /// Opens the vault `name` at `now`. A vault whose content file is not
    /// there is not opened, and nothing is written for it. A vault that is
    /// there is opened with the metadata that the storage root holds or,
    /// where it holds none that can be read, with new metadata, which the
    /// actions write.
    ///
    /// `content_exists` says whether the content file of `name` is there.
    pub fn new(name: String, content_exists: bool, stored: &StoredMetadata, now: Timestamp) -> (r:
        Result<Outcome<Vault>, VaultControllerError>)
        ensures
            match r {
                Ok(opened) => {
                    &&& content_exists
                    &&& opened.value@ == vault_of(
                        name@,
                        created_at(*stored, now),
                        last_accessed(*stored, now),
                    )
                    &&& action_views(opened.actions@) == opens(name@, *stored, now)
                },
                Err(e) => !content_exists && e@ == (VaultControllerErrorView::VaultFileNotFound {
                    file_name: content_file(name@),
                }),
            },
    {
        let file_path = Self::file_path(name.as_str());
        if !content_exists {
            return Err(VaultControllerError::VaultFileNotFound { file_name: file_path });
        }
        let made = VaultMetadata::new(name.as_str(), stored, now);
        Ok(Outcome { value: Self { file_path, metadata: made.value, name }, actions: made.actions })
    }

    /// The vault `name` with the given times, and the file names that go
    /// with the name. Nothing is asked of the storage root.
    pub fn named(name: String, created_at: Timestamp, last_accessed: Timestamp) -> (vault: Self)
        ensures
            vault@ == vault_of(name@, created_at, last_accessed),
    {
        let file_path = Self::file_path(name.as_str());
        let metadata = VaultMetadata::of(name.as_str(), created_at, last_accessed);
        Self { file_path, metadata, name }
    }

    /// The name of the content file of the vault `name`.
    pub fn file_path(name: &str) -> (file_path: String)
        ensures
            file_path@ == content_file(name@),
    {
        with_extension(name, ".pwd")
    }

    /// Opens `content` under `masterkey` and decodes the entry store.
    pub fn decrypt(masterkey: &str, content: &[u8]) -> (r: Result<Passwords, VaultError>)
        ensures
            match r {
                Ok(store) => opened_store(masterkey@, content@) == Ok::<
                    Seq<PasswordView>,
                    VaultError,
                >(store@) && sealable(store@),
                Err(e) => opened_store(masterkey@, content@) == Err::<
                    Seq<PasswordView>,
                    VaultError,
                >(e),
            },
    {
        let cipher = Cipher::new(masterkey);
        let plain = match cipher.parse(content) {
            Ok(plain) => plain,
            Err(source) => {
                return Err(VaultError::Cipher { source });
            },
        };
        match Passwords::try_from_slice(plain.as_slice()) {
            Ok(store) => {
                proof {
                    lemma_opened_store_is_sealable(masterkey@, content@);
                }
                Ok(store)
            },
            Err(source) => Err(VaultError::Passwords { source }),
        }
    }

    /// Encodes the entry store and seals it under `masterkey`, which
    /// succeeds for every store that can be sealed. Two calls give
    /// different bytes; each opens to the store under the key.
    pub fn encrypt(masterkey: &str, passwords: &Passwords) -> (r: Result<Vec<u8>, VaultError>)
        ensures
            sealable(passwords@) ==> r is Ok,
            match r {
                Ok(content) => sealed_store(masterkey@, passwords@, content@),
                Err(e) => fails_to_seal(e, passwords@),
            },
    {
        let plain = match passwords.try_to_vec() {
            Ok(plain) => plain,
            Err(source) => {
                return Err(VaultError::Passwords { source });
            },
        };
        let cipher = Cipher::new(masterkey);
        match cipher.dump(plain) {
            Ok(content) => Ok(content),
            Err(source) => Err(VaultError::Cipher { source }),
        }
    }

    /// The actions that keep the vault with `content` as its sealed store.
    pub fn write_actions(&self, content: Vec<u8>) -> (actions: Vec<FileAction>)
        ensures
            action_views(actions@) == saves(self@, content@),
    {
        let mut actions: Vec<FileAction> = Vec::new();
        actions.push(FileAction::WriteContent { file_name: self.file_path.clone(), bytes: content });
        actions.push(self.metadata.save_to_file());
        actions
    }

    /// Seals the entry store under `masterkey`, and gives the actions that
    /// keep the vault with it. It succeeds for every store that can be
    /// sealed.
    pub fn save_to_file(&self, masterkey: &str, passwords: &Passwords) -> (r: Result<
        Vec<FileAction>,
        VaultError,
    >)
        ensures
            sealable(passwords@) ==> r is Ok,
            match r {
                Ok(actions) => saves_sealed(
                    action_views(actions@),
                    self@,
                    masterkey@,
                    passwords@,
                ),
                Err(e) => fails_to_seal(e, passwords@),
            },
    {
        match Self::encrypt(masterkey, passwords) {
            Ok(content) => {
                let actions = self.write_actions(content);
                Ok(actions)
            },
            Err(e) => Err(e),
        }
    }

    /// Opens `content` under the old master key and seals the same store
    /// under the new one. The call succeeds whenever the content opens;
    /// where it does not, nothing is sealed.
    pub fn update_masterkey(&self, old_masterkey: &str, new_masterkey: &str, content: &[u8]) -> (r:
        Result<Vec<FileAction>, VaultError>)
        ensures
            match r {
                Ok(actions) => opened_store(old_masterkey@, content@) matches Ok(entries)
                    && saves_sealed(action_views(actions@), self@, new_masterkey@, entries),
                Err(e) => opened_store(old_masterkey@, content@) == Err::<
                    Seq<PasswordView>,
                    VaultError,
                >(e),
            },
    {
        let passwords = match Self::decrypt(old_masterkey, content) {
            Ok(passwords) => passwords,
            Err(e) => {
                return Err(e);
            },
        };
        self.save_to_file(new_masterkey, &passwords)
    }

    /// The actions that remove the vault's files, where they are there.
    pub fn delete_file(&self) -> (actions: Vec<FileAction>)
        ensures
            action_views(actions@) == seq![
                FileActionView::Remove { file_name: self.file_path@ },
                FileActionView::Remove { file_name: self.metadata.file_path@ },
            ],
    {
        let mut actions: Vec<FileAction> = Vec::new();
        actions.push(FileAction::Remove { file_name: self.file_path.clone() });
        actions.push(self.metadata.delete_file());
        actions
    }

    /// Records an access at `now`.
    pub fn update_last_accessed(&mut self, now: Timestamp)
        ensures
            final(self)@ == (VaultView {
                metadata: VaultMetadataView { last_accessed: now, ..old(self)@.metadata },
                ..old(self)@
            }),
    {
        self.metadata.last_accessed = now;
    }
}

} // verus!
