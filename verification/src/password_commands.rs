//! The operations on the entries of one vault.
//!
//! Each opens the vault's content under the master key, changes the store,
//! seals it again and answers with all the entries that the vault now
//! holds. Content that does not open is never written over: the operation
//! fails before it asks for any change.

use crate::encoding::{encodable, entries_size, entry_size, lemma_encoded_size, utf8_len};
use crate::generator::{is_generated_secret, secret_rules};
use crate::passwords::{
    added, deleted, next_id, updated, views, Password, PasswordView, Passwords, PasswordsError,
};
use crate::storage::{action_views, FileAction, FileActionView, Outcome, VaultFiles, VaultFilesView};
use crate::text::{debug_form, quoted, sentence};
use crate::timestamp::Timestamp;
use crate::vault::{
    content_file, created_at, fails_to_seal, lemma_deleted_is_sealable, lemma_sealed_store_opens,
    metadata_file, opened_store, saves_sealed, sealable, sealed_store, vault_error_message,
    vault_of, Vault, VaultError, VaultView,
};
use crate::vault_controller::VaultControllerError;
use vstd::prelude::*;

verus! {

/// Why an operation on a vault's entries was refused or failed.
#[derive(Debug, PartialEq, Eq)]
pub enum PasswordCommandsError {
    /// The vault's content could not be opened, changed or sealed.
    Vault { source: VaultError },
    /// The content file of the vault is not there.
    VaultFileNotFound { file_name: String },
}

/// A [`PasswordCommandsError`] as mathematical values.
pub enum PasswordCommandsErrorView {
    Vault { source: VaultError },
    VaultFileNotFound { file_name: Seq<char> },
}

impl View for PasswordCommandsError {
    type V = PasswordCommandsErrorView;

    open spec fn view(&self) -> PasswordCommandsErrorView {
        match self {
            PasswordCommandsError::Vault { source } => PasswordCommandsErrorView::Vault {
                source: *source,
            },
            PasswordCommandsError::VaultFileNotFound {
                file_name,
            } => PasswordCommandsErrorView::VaultFileNotFound { file_name: file_name@ },
        }
    }
}

/// What the user is told of `e`.
pub open spec fn command_message(e: PasswordCommandsErrorView) -> Seq<char> {
    match e {
        PasswordCommandsErrorView::Vault { source } => vault_error_message(source),
        PasswordCommandsErrorView::VaultFileNotFound { file_name } => "Vault file '"@ + debug_form(
            file_name,
        ) + "' does not exist"@,
    }
}

impl PasswordCommandsError {
    /// What the user is told of the error.
    pub fn message(&self) -> (text: String)
        ensures
            text@ == command_message(self@),
    {
        match self {
            PasswordCommandsError::Vault { source } => source.message(),
            PasswordCommandsError::VaultFileNotFound { file_name } => {
                let form = quoted(file_name.as_str());
                sentence("Vault file '", form.as_str(), "' does not exist")
            },
        }
    }
}

/// Why the entries of the vault `vault_name` cannot be had: its content
/// file is missing, or the content does not open under `masterkey`.
pub open spec fn open_fault(
    vault_name: Seq<char>,
    masterkey: Seq<char>,
    content: Option<Seq<u8>>,
) -> Option<PasswordCommandsErrorView> {
    match content {
        None => Some(
            PasswordCommandsErrorView::VaultFileNotFound { file_name: content_file(vault_name) },
        ),
        Some(content) => match opened_store(masterkey, content) {
            Ok(entries) => None,
            Err(source) => Some(PasswordCommandsErrorView::Vault { source }),
        },
    }
}

/// The entries that the content holds, where it opens under `masterkey`.
pub open spec fn stored_entries(masterkey: Seq<char>, content: Option<Seq<u8>>) -> Seq<
    PasswordView,
>
    recommends
        content matches Some(bytes) && opened_store(masterkey, bytes) is Ok,
{
    opened_store(masterkey, content->0)->Ok_0
}

/// The vault `vault_name` as an operation at `now` leaves it: created
/// when its record says, or at `now` without a record, and last accessed
/// at `now`.
pub open spec fn accessed_vault(vault_name: Seq<char>, files: VaultFilesView, now: Timestamp) -> VaultView {
    vault_of(vault_name, created_at(files.metadata, now), now)
}

/// `r` is the answer of an operation that puts `after` in the place of
/// the entries of the vault: `after` and the actions that keep the vault
/// with it, or the reason why the entries cannot be had or `after` cannot
/// be kept. Where the entries can be had and `after` can be sealed, the
/// operation succeeds.
pub open spec fn answers_with(
    r: Result<Outcome<Vec<Password>>, PasswordCommandsError>,
    vault_name: Seq<char>,
    masterkey: Seq<char>,
    files: VaultFilesView,
    now: Timestamp,
    after: Seq<PasswordView>,
) -> bool {
    &&& open_fault(vault_name, masterkey, files.content) is None && sealable(after) ==> r is Ok
    &&& match r {
        Ok(changed) => {
            &&& open_fault(vault_name, masterkey, files.content) is None
            &&& views(changed.value@) == after
            &&& saves_sealed(
                action_views(changed.actions@),
                accessed_vault(vault_name, files, now),
                masterkey,
                after,
            )
        },
        Err(e) => match open_fault(vault_name, masterkey, files.content) {
            Some(fault) => e@ == fault,
            None => e@ matches PasswordCommandsErrorView::Vault { source } && fails_to_seal(
                source,
                after,
            ),
        },
    }
}

/// `r` is the answer to adding an entry with the secret `password`: that
/// of an operation that leaves the entries followed by the new one, or
/// `IdsExhausted` where no id is left for it.
pub open spec fn answers_adding(
    r: Result<Outcome<Vec<Password>>, PasswordCommandsError>,
    vault_name: Seq<char>,
    masterkey: Seq<char>,
    password: Seq<char>,
    notes: Seq<char>,
    files: VaultFilesView,
    now: Timestamp,
) -> bool {
    let entries = stored_entries(masterkey, files.content);
    if open_fault(vault_name, masterkey, files.content) is None && next_id(entries) > i32::MAX {
        r matches Err(e) && e@ == (PasswordCommandsErrorView::Vault {
            source: VaultError::Passwords { source: PasswordsError::IdsExhausted },
        })
    } else {
        answers_with(r, vault_name, masterkey, files, now, added(entries, password, notes))
    }
}

/// A generated secret takes as many bytes as it has characters, fewer
/// than 20.
pub proof fn lemma_generated_secret_is_short(secret: Seq<char>)
    requires
        is_generated_secret(secret),
    ensures
        utf8_len(secret) == secret.len(),
        utf8_len(secret) < 20,
{
    assert forall|i: int| 0 <= i < secret.len() implies '\0' <= #[trigger] secret[i]
        <= '\u{7f}' by {
        assert(secret_rules(secret.len() as usize).allows(secret[i]));
        let unit = secret[i] as u32;
        assert(0x21 <= unit <= 0x7E);
        vstd::utf8::char_u32_cast(secret[i], unit);
    }
    vstd::utf8::is_ascii_chars_encode_utf8(secret);
}

/// The first entry of a new vault is kept: where the content holds the
/// empty store sealed under the key, adding an entry whose secret and
/// notes fit their 32-bit lengths succeeds, and the vault then holds that
/// one entry, under the id 1.
pub proof fn lemma_first_entry_is_kept(
    r: Result<Outcome<Vec<Password>>, PasswordCommandsError>,
    vault_name: Seq<char>,
    masterkey: Seq<char>,
    password: Seq<char>,
    notes: Seq<char>,
    files: VaultFilesView,
    now: Timestamp,
)
    requires
        files.content matches Some(content) && sealed_store(
            masterkey,
            Seq::<PasswordView>::empty(),
            content,
        ),
        utf8_len(password) <= u32::MAX,
        utf8_len(notes) <= u32::MAX,
        answers_adding(r, vault_name, masterkey, password, notes, files, now),
    ensures
        r matches Ok(kept) && views(kept.value@) == seq![PasswordView { id: 1, password, notes }]
            && saves_sealed(
            action_views(kept.actions@),
            accessed_vault(vault_name, files, now),
            masterkey,
            seq![PasswordView { id: 1, password, notes }],
        ),
{
    let empty = Seq::<PasswordView>::empty();
    let entry = PasswordView { id: 1, password, notes };
    lemma_sealed_store_opens(masterkey, empty, files.content->0);
    assert(added(empty, password, notes) =~= seq![entry]);
    lemma_encoded_size(seq![entry]);
    assert(seq![entry].drop_first() =~= empty);
    assert(entries_size(seq![entry]) == entry_size(entry)) by {
        assert(entries_size(empty) == 0);
    }
    assert(encodable(seq![entry]));
}

/// Opens the vault at `now` and its entries under `masterkey`.
fn open_vault(vault_name: &str, masterkey: &str, files: &VaultFiles, now: Timestamp) -> (r: Result<
    (Vault, Passwords),
    PasswordCommandsError,
>)
    ensures
        match r {
            Ok((vault, store)) => {
                &&& open_fault(vault_name@, masterkey@, files@.content) is None
                &&& vault@ == accessed_vault(vault_name@, files@, now)
                &&& store@ == stored_entries(masterkey@, files@.content)
                &&& sealable(store@)
            },
            Err(e) => open_fault(vault_name@, masterkey@, files@.content) == Some(e@),
        },
{
    let opened = match Vault::new(
        vault_name.to_owned(),
        files.content.is_some(),
        &files.metadata,
        now,
    ) {
        Ok(opened) => opened,
        Err(VaultControllerError::VaultFileNotFound { file_name }) => {
            return Err(PasswordCommandsError::VaultFileNotFound { file_name });
        },
        Err(_) => unreached(),
    };
    let content = match &files.content {
        Some(content) => content,
        None => unreached(),
    };
    let store = match Vault::decrypt(masterkey, content.as_slice()) {
        Ok(store) => store,
        Err(source) => {
            return Err(PasswordCommandsError::Vault { source });
        },
    };
    // The record is written with the access, by the actions of the operation.
    let mut vault = opened.value;
    vault.update_last_accessed(now);
    Ok((vault, store))
}

/// Seals the store under `masterkey` and answers with its entries and the
/// actions that keep the vault with it.
fn keep_vault(vault: Vault, masterkey: &str, store: Passwords) -> (r: Result<
    Outcome<Vec<Password>>,
    PasswordCommandsError,
>)
    ensures
        match r {
            Ok(kept) => views(kept.value@) == store@ && saves_sealed(
                action_views(kept.actions@),
                vault@,
                masterkey@,
                store@,
            ),
            Err(e) => e@ matches PasswordCommandsErrorView::Vault { source } && fails_to_seal(
                source,
                store@,
            ),
        },
{
    match vault.save_to_file(masterkey, &store) {
        Ok(actions) => Ok(Outcome { value: store.inner, actions }),
        Err(source) => Err(PasswordCommandsError::Vault { source }),
    }
}

/// The entries of the vault `vault_name`. The content stays as it is; the
/// access is recorded at `now`.
pub fn get_passwords(vault_name: &str, masterkey: &str, files: &VaultFiles, now: Timestamp) -> (r:
    Result<Outcome<Vec<Password>>, PasswordCommandsError>)
    ensures
        match r {
            Ok(read) => {
                &&& open_fault(vault_name@, masterkey@, files@.content) is None
                &&& views(read.value@) == stored_entries(masterkey@, files@.content)
                &&& action_views(read.actions@) == seq![
                    FileActionView::WriteMetadata {
                        file_name: metadata_file(vault_name@),
                        created_at: created_at(files.metadata, now),
                        last_accessed: now,
                    },
                ]
            },
            Err(e) => open_fault(vault_name@, masterkey@, files@.content) == Some(e@),
        },
{
    let (vault, store) = match open_vault(vault_name, masterkey, files, now) {
        Ok(opened) => opened,
        Err(e) => {
            return Err(e);
        },
    };
    let mut actions: Vec<FileAction> = Vec::new();
    actions.push(vault.metadata.save_to_file());
    Ok(Outcome { value: store.inner, actions })
}

/// Adds an entry with the given secret and notes under the next id.
pub fn add_entry(
    vault_name: &str,
    masterkey: &str,
    password: String,
    notes: String,
    files: &VaultFiles,
    now: Timestamp,
) -> (r: Result<Outcome<Vec<Password>>, PasswordCommandsError>)
    ensures
        answers_adding(r, vault_name@, masterkey@, password@, notes@, files@, now),
{
    let (vault, mut store) = match open_vault(vault_name, masterkey, files, now) {
        Ok(opened) => opened,
        Err(e) => {
            return Err(e);
        },
    };
    if store.next_id().is_none() {
        return Err(
            PasswordCommandsError::Vault {
                source: VaultError::Passwords { source: PasswordsError::IdsExhausted },
            },
        );
    }
    store.add_entry(password, notes);
    keep_vault(vault, masterkey, store)
}

/// Adds an entry with the given notes under the next id. Its secret is
/// `password` where one is given, and a generated one where none is.
pub fn add_password(
    vault_name: &str,
    masterkey: &str,
    password: Option<String>,
    notes: String,
    files: &VaultFiles,
    now: Timestamp,
) -> (r: Result<Outcome<Vec<Password>>, PasswordCommandsError>)
    ensures
        match password {
            Some(password) => answers_adding(
                r,
                vault_name@,
                masterkey@,
                password@,
                notes@,
                files@,
                now,
            ),
            None => exists|secret: Seq<char>|
                is_generated_secret(secret) && #[trigger] answers_adding(
                    r,
                    vault_name@,
                    masterkey@,
                    secret,
                    notes@,
                    files@,
                    now,
                ),
        },
{
    let secret = match password {
        Some(password) => password,
        None => Passwords::generate_password(),
    };
    add_entry(vault_name, masterkey, secret, notes, files, now)
}

/// Puts the given secret and notes in the place of the entry with id
/// `id`. Where no entry has the id, the entries stay as they are.
pub fn update_password(
    vault_name: &str,
    masterkey: &str,
    id: i32,
    password: String,
    notes: String,
    files: &VaultFiles,
    now: Timestamp,
) -> (r: Result<Outcome<Vec<Password>>, PasswordCommandsError>)
    ensures
        answers_with(
            r,
            vault_name@,
            masterkey@,
            files@,
            now,
            updated(stored_entries(masterkey@, files@.content), id, password@, notes@),
        ),
{
    let (vault, mut store) = match open_vault(vault_name, masterkey, files, now) {
        Ok(opened) => opened,
        Err(e) => {
            return Err(e);
        },
    };
    store.update_password(id, password, notes);
    keep_vault(vault, masterkey, store)
}

/// Removes the entry with id `id`. Where no entry has the id, the entries
/// stay as they are. The operation succeeds whenever the entries can be
/// had: what is left of a store that was opened can be sealed.
pub fn delete_password(vault_name: &str, masterkey: &str, id: i32, files: &VaultFiles, now: Timestamp) -> (r:
    Result<Outcome<Vec<Password>>, PasswordCommandsError>)
    ensures
        open_fault(vault_name@, masterkey@, files@.content) is None ==> r is Ok,
        answers_with(
            r,
            vault_name@,
            masterkey@,
            files@,
            now,
            deleted(stored_entries(masterkey@, files@.content), id),
        ),
{
    let (vault, mut store) = match open_vault(vault_name, masterkey, files, now) {
        Ok(opened) => opened,
        Err(e) => {
            return Err(e);
        },
    };
    proof {
        lemma_deleted_is_sealable(store@, id);
    }
    store.delete_password(id);
    keep_vault(vault, masterkey, store)
}

} // verus!
