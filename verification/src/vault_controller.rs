//! The registry of vaults: the rules on names and master keys, and the
//! operations that create, list, delete, rename and re-key vaults.
//!
//! Every rule is checked before anything is asked of the storage root:
//! first the rules on the arguments, then those on what exists, and only
//! then is anything opened or sealed. A failed operation asks for no
//! change at all.

use crate::passwords::{PasswordView, Passwords};
use crate::storage::{action_views, FileAction, FileActionView, Outcome, StoredMetadata, VaultFiles};
use crate::text::{
    debug_form, decimal, decimal_text, has_boundary_white_space, has_extension, quoted, same_text,
    sentence, starts_or_ends_with_whitespace, strip_extension, trim, trimmed, without_extension,
};
use crate::timestamp::Timestamp;
use crate::vault::{
    content_file, created_at, last_accessed, lemma_empty_store_is_sealable, metadata_file,
    opened_store, opens, saves_sealed, vault_error_message, vault_of, Vault, VaultError,
    VaultMetadata, VaultView,
};
use vstd::prelude::*;

verus! {

/// The least number of characters of a master key.
pub const MIN_LENGTH: usize = 12;

/// Why a registry operation was refused or failed.
#[derive(Debug, PartialEq, Eq)]
pub enum VaultControllerError {
    /// The vault's content could not be opened or sealed.
    Vault { source: VaultError },
    /// The content file of the vault to create is already there.
    VaultFileExists { file_name: String },
    /// The content file of the vault is not there.
    VaultFileNotFound { file_name: String },
    /// A file of the vault to rename to is already there.
    RenameTargetExists { name: String },
    /// The master key has fewer characters than `min_length`.
    MasterKeyTooShort { min_length: usize },
    /// The master key starts or ends with white space.
    MasterKeySpaceAtEnds,
    /// The master key and its confirmation differ.
    ConfirmMasterKeyMismatch,
    /// The new master key is the old one.
    NewMasterKeySameValue,
    /// The name is empty once trimmed.
    VaultNameEmpty,
}

/// A [`VaultControllerError`] as mathematical values.
pub enum VaultControllerErrorView {
    Vault { source: VaultError },
    VaultFileExists { file_name: Seq<char> },
    VaultFileNotFound { file_name: Seq<char> },
    RenameTargetExists { name: Seq<char> },
    MasterKeyTooShort { min_length: usize },
    MasterKeySpaceAtEnds,
    ConfirmMasterKeyMismatch,
    NewMasterKeySameValue,
    VaultNameEmpty,
}

impl View for VaultControllerError {
    type V = VaultControllerErrorView;

    open spec fn view(&self) -> VaultControllerErrorView {
        match self {
            VaultControllerError::Vault { source } => VaultControllerErrorView::Vault {
                source: *source,
            },
            VaultControllerError::VaultFileExists {
                file_name,
            } => VaultControllerErrorView::VaultFileExists { file_name: file_name@ },
            VaultControllerError::VaultFileNotFound {
                file_name,
            } => VaultControllerErrorView::VaultFileNotFound { file_name: file_name@ },
            VaultControllerError::RenameTargetExists {
                name,
            } => VaultControllerErrorView::RenameTargetExists { name: name@ },
            VaultControllerError::MasterKeyTooShort {
                min_length,
            } => VaultControllerErrorView::MasterKeyTooShort { min_length: *min_length },
            VaultControllerError::MasterKeySpaceAtEnds => VaultControllerErrorView::MasterKeySpaceAtEnds,
            VaultControllerError::ConfirmMasterKeyMismatch => VaultControllerErrorView::ConfirmMasterKeyMismatch,
            VaultControllerError::NewMasterKeySameValue => VaultControllerErrorView::NewMasterKeySameValue,
            VaultControllerError::VaultNameEmpty => VaultControllerErrorView::VaultNameEmpty,
        }
    }
}

/// What the user is told of `e`: of a failure inside the vault no more
/// than [`vault_error_message`] says, of a refusal the rule that was
/// broken.
pub open spec fn controller_message(e: VaultControllerErrorView) -> Seq<char> {
    match e {
        VaultControllerErrorView::Vault { source } => vault_error_message(source),
        VaultControllerErrorView::VaultFileExists { file_name } => "Vault file '"@ + debug_form(
            file_name,
        ) + "' already exists"@,
        VaultControllerErrorView::VaultFileNotFound { file_name } => "Vault file '"@ + debug_form(
            file_name,
        ) + "' does not exist"@,
        VaultControllerErrorView::RenameTargetExists { name } => "Cannot rename to '"@ + name
            + "': vault already exists"@,
        VaultControllerErrorView::MasterKeyTooShort {
            min_length,
        } => "Master key must be at least "@ + decimal_text(min_length as nat)
            + " characters long"@,
        VaultControllerErrorView::MasterKeySpaceAtEnds => "Master key should not contain space in the beginning or the end"@,
        VaultControllerErrorView::ConfirmMasterKeyMismatch => "Confirm master key does not match"@,
        VaultControllerErrorView::NewMasterKeySameValue => "New master key is the same as the current master key"@,
        VaultControllerErrorView::VaultNameEmpty => "Vault name cannot be empty"@,
    }
}

impl VaultControllerError {
    /// What the user is told of the error.
    pub fn message(&self) -> (text: String)
        ensures
            text@ == controller_message(self@),
    {
        match self {
            VaultControllerError::Vault { source } => source.message(),
            VaultControllerError::VaultFileExists { file_name } => {
                let form = quoted(file_name.as_str());
                sentence("Vault file '", form.as_str(), "' already exists")
            },
            VaultControllerError::VaultFileNotFound { file_name } => {
                let form = quoted(file_name.as_str());
                sentence("Vault file '", form.as_str(), "' does not exist")
            },
            VaultControllerError::RenameTargetExists { name } => sentence(
                "Cannot rename to '",
                name.as_str(),
                "': vault already exists",
            ),
            VaultControllerError::MasterKeyTooShort { min_length } => {
                let length = decimal(*min_length);
                sentence("Master key must be at least ", length.as_str(), " characters long")
            },
            VaultControllerError::MasterKeySpaceAtEnds => "Master key should not contain space in the beginning or the end".to_owned(),
            VaultControllerError::ConfirmMasterKeyMismatch => "Confirm master key does not match".to_owned(),
            VaultControllerError::NewMasterKeySameValue => "New master key is the same as the current master key".to_owned(),
            VaultControllerError::VaultNameEmpty => "Vault name cannot be empty".to_owned(),
        }
    }
}

/// What is wrong with a vault's name: it is empty once trimmed.
pub open spec fn name_fault(name: Seq<char>) -> Option<VaultControllerErrorView> {
    if trimmed(name).len() == 0 {
        Some(VaultControllerErrorView::VaultNameEmpty)
    } else {
        None
    }
}

/// What is wrong with a master key, the first of: it differs from its
/// confirmation, it starts or ends with white space, it has fewer than 12
/// characters.
pub open spec fn masterkey_fault(masterkey: Seq<char>, confirm_masterkey: Seq<char>) -> Option<
    VaultControllerErrorView,
> {
    if masterkey != confirm_masterkey {
        Some(VaultControllerErrorView::ConfirmMasterKeyMismatch)
    } else if has_boundary_white_space(masterkey) {
        Some(VaultControllerErrorView::MasterKeySpaceAtEnds)
    } else if masterkey.len() < MIN_LENGTH {
        Some(VaultControllerErrorView::MasterKeyTooShort { min_length: MIN_LENGTH })
    } else {
        None
    }
}

/// What is wrong with a new master key: it is the old one, or it is no
/// good as a master key.
pub open spec fn new_masterkey_fault(
    old_masterkey: Seq<char>,
    new_masterkey: Seq<char>,
    confirm_masterkey: Seq<char>,
) -> Option<VaultControllerErrorView> {
    if old_masterkey == new_masterkey {
        Some(VaultControllerErrorView::NewMasterKeySameValue)
    } else {
        masterkey_fault(new_masterkey, confirm_masterkey)
    }
}

/// Why a vault cannot be created: the first of a bad name, a bad master
/// key, and a content file that is already there.
pub open spec fn create_fault(
    name: Seq<char>,
    masterkey: Seq<char>,
    confirm_masterkey: Seq<char>,
    content_exists: bool,
) -> Option<VaultControllerErrorView> {
    if name_fault(name) is Some {
        name_fault(name)
    } else if masterkey_fault(masterkey, confirm_masterkey) is Some {
        masterkey_fault(masterkey, confirm_masterkey)
    } else if content_exists {
        Some(VaultControllerErrorView::VaultFileExists { file_name: content_file(trimmed(name)) })
    } else {
        None
    }
}

/// The actions that delete a vault: both of its files removed, each where
/// it is there.
pub open spec fn deletes(name: Seq<char>) -> Seq<FileActionView> {
    seq![
        FileActionView::Remove { file_name: content_file(name) },
        FileActionView::Remove { file_name: metadata_file(name) },
    ]
}

/// Why a vault cannot be renamed: the first of a bad new name, a source
/// without content file, and a target of which a file is already there.
pub open spec fn rename_fault(
    name: Seq<char>,
    new_name: Seq<char>,
    source_exists: bool,
    target_content_exists: bool,
    target_metadata_exists: bool,
) -> Option<VaultControllerErrorView> {
    if name_fault(new_name) is Some {
        name_fault(new_name)
    } else if !source_exists {
        Some(VaultControllerErrorView::VaultFileNotFound { file_name: content_file(name) })
    } else if target_content_exists || target_metadata_exists {
        Some(VaultControllerErrorView::RenameTargetExists { name: trimmed(new_name) })
    } else {
        None
    }
}

/// The actions that rename a vault: those that open it, then both files
/// given their new names.
pub open spec fn renames(
    name: Seq<char>,
    new_name: Seq<char>,
    stored: StoredMetadata,
    now: Timestamp,
) -> Seq<FileActionView> {
    opens(name, stored, now) + seq![
        FileActionView::Rename { from: content_file(name), to: content_file(new_name) },
        FileActionView::Rename { from: metadata_file(name), to: metadata_file(new_name) },
    ]
}

/// Why a vault cannot be given a new master key, before anything is
/// sealed: the first of a bad new key, a missing content file, and
/// content that does not open under the old key.
pub open spec fn update_fault(
    name: Seq<char>,
    old_masterkey: Seq<char>,
    new_masterkey: Seq<char>,
    confirm_masterkey: Seq<char>,
    content: Option<Seq<u8>>,
) -> Option<VaultControllerErrorView> {
    if new_masterkey_fault(old_masterkey, new_masterkey, confirm_masterkey) is Some {
        new_masterkey_fault(old_masterkey, new_masterkey, confirm_masterkey)
    } else {
        match content {
            None => Some(
                VaultControllerErrorView::VaultFileNotFound { file_name: content_file(name) },
            ),
            Some(content) => match opened_store(old_masterkey, content) {
                Ok(entries) => None,
                Err(source) => Some(VaultControllerErrorView::Vault { source }),
            },
        }
    }
}

/// A vault that a scan of the storage root found: the name that its
/// content file carries, and what its metadata file holds.
#[derive(Debug, PartialEq, Eq)]
pub struct FoundVault {
    pub name: String,
    pub metadata: StoredMetadata,
}

/// A [`FoundVault`] as mathematical values.
pub struct FoundVaultView {
    pub name: Seq<char>,
    pub metadata: StoredMetadata,
}

impl View for FoundVault {
    type V = FoundVaultView;

    open spec fn view(&self) -> FoundVaultView {
        FoundVaultView { name: self.name@, metadata: self.metadata }
    }
}

/// The strings of a sequence, each by its view.
pub open spec fn texts(strings: Seq<String>) -> Seq<Seq<char>> {
    strings.map_values(|text: String| text@)
}

/// The found vaults of a sequence, each by its view.
pub open spec fn found_views(found: Seq<FoundVault>) -> Seq<FoundVaultView> {
    found.map_values(|vault: FoundVault| vault@)
}

/// The vaults of a sequence, each by its view.
pub open spec fn vault_views(vaults: Seq<Vault>) -> Seq<VaultView> {
    vaults.map_values(|vault: Vault| vault@)
}

/// The names of the vaults among the files of a listing: each file name
/// that ends in `.pwd`, without that ending, in the order of the listing.
pub open spec fn vault_names(file_names: Seq<Seq<char>>) -> Seq<Seq<char>>
    decreases file_names.len(),
{
    if file_names.len() == 0 {
        Seq::empty()
    } else {
        let before = vault_names(file_names.drop_last());
        if has_extension(file_names.last(), ".pwd"@) {
            before.push(without_extension(file_names.last(), ".pwd"@))
        } else {
            before
        }
    }
}

/// The found vaults, each opened at `now`, in the order of the listing.
pub open spec fn opened_vaults(found: Seq<FoundVaultView>, now: Timestamp) -> Seq<VaultView> {
    found.map_values(
        |vault: FoundVaultView|
            vault_of(
                vault.name,
                created_at(vault.metadata, now),
                last_accessed(vault.metadata, now),
            ),
    )
}

/// The actions that opening the found vaults asks for, one vault after
/// the other: a new metadata record, created and last accessed at `now`,
/// for each of which none can be read.
pub open spec fn regenerations(found: Seq<FoundVaultView>, now: Timestamp) -> Seq<FileActionView>
    decreases found.len(),
{
    if found.len() == 0 {
        Seq::empty()
    } else {
        regenerations(found.drop_last(), now) + opens(found.last().name, found.last().metadata, now)
    }
}

/// In a list of vaults, the vault at `i` is listed before the one at `j`:
/// it was created later, or at the same time and stands first.
pub open spec fn listed_before(vaults: Seq<VaultView>, i: int, j: int) -> bool {
    let first = vaults[i].metadata.created_at;
    let second = vaults[j].metadata.created_at;
    first.later_than(second) || (first == second && i < j)
}

/// `order` lists the places of `vaults` newest first, those created at
/// the same time in the order in which they stand.
pub open spec fn is_newest_first(order: Seq<int>, vaults: Seq<VaultView>) -> bool {
    &&& order.len() == vaults.len()
    &&& forall|k: int| 0 <= k < order.len() ==> 0 <= #[trigger] order[k] < vaults.len()
    &&& forall|k: int, l: int|
        0 <= k < l < order.len() ==> listed_before(vaults, #[trigger] order[k], #[trigger] order[l])
}

/// `listed` holds `vaults` newest first, those created at the same time
/// in the order in which they stand.
pub open spec fn lists_newest_first(listed: Seq<VaultView>, vaults: Seq<VaultView>) -> bool {
    exists|order: Seq<int>| #[trigger]
        is_newest_first(order, vaults) && listed == order.map_values(|place: int| vaults[place])
}

/// A listing holds every place once.
proof fn lemma_every_place_is_listed(order: Seq<int>, vaults: Seq<VaultView>, place: int)
    requires
        is_newest_first(order, vaults),
        0 <= place < vaults.len(),
    ensures
        order.no_duplicates(),
        exists|k: int| 0 <= k < order.len() && #[trigger] order[k] == place,
{
    broadcast use vstd::seq_lib::seq_to_set_is_finite;

    let n = vaults.len() as int;
    assert forall|i: int, j: int|
        0 <= i < order.len() && 0 <= j < order.len() && i != j implies order[i] != order[j] by {
        if i < j {
            assert(listed_before(vaults, order[i], order[j]));
        } else {
            assert(listed_before(vaults, order[j], order[i]));
        }
    }
    order.unique_seq_to_set();
    vstd::set_lib::lemma_int_range(0, n);
    let places = vstd::set_lib::set_int_range(0, n);
    assert forall|p: int| order.to_set().contains(p) implies places.contains(p) by {
        let k = choose|k: int| 0 <= k < order.len() && order[k] == p;
        assert(0 <= order[k] < n);
    }
    vstd::set_lib::lemma_subset_equality(order.to_set(), places);
    assert(places.contains(place));
    assert(order.to_set().contains(place));
    assert(order.contains(place));
}

/// Two listings of the same vaults agree up to any place.
proof fn lemma_listings_agree(first: Seq<int>, second: Seq<int>, vaults: Seq<VaultView>, k: int)
    requires
        is_newest_first(first, vaults),
        is_newest_first(second, vaults),
        0 <= k <= vaults.len(),
    ensures
        forall|j: int| 0 <= j < k ==> first[j] == second[j],
    decreases k,
{
    if k > 0 {
        lemma_listings_agree(first, second, vaults, k - 1);
        let at = k - 1;
        let a = first[at];
        let b = second[at];
        assert(0 <= a < vaults.len() && 0 <= b < vaults.len());
        lemma_every_place_is_listed(second, vaults, a);
        lemma_every_place_is_listed(first, vaults, b);
        let m = choose|m: int| 0 <= m < second.len() && #[trigger] second[m] == a;
        let l = choose|l: int| 0 <= l < first.len() && #[trigger] first[l] == b;
        if m < at {
            assert(first[m] == second[m]);
        } else if l < at {
            assert(second[l] == first[l]);
        } else if m > at && l > at {
            assert(listed_before(vaults, second[at], second[m]));
            assert(listed_before(vaults, first[at], first[l]));
        }
    }
}

/// The vaults have one listing only: newest first, those created at the
/// same time in the order in which they stand.
pub proof fn lemma_listing_is_unique(
    first: Seq<VaultView>,
    second: Seq<VaultView>,
    vaults: Seq<VaultView>,
)
    requires
        lists_newest_first(first, vaults),
        lists_newest_first(second, vaults),
    ensures
        first == second,
{
    let a = choose|order: Seq<int>| #[trigger]
        is_newest_first(order, vaults) && first == order.map_values(|place: int| vaults[place]);
    let b = choose|order: Seq<int>| #[trigger]
        is_newest_first(order, vaults) && second == order.map_values(|place: int| vaults[place]);
    lemma_listings_agree(a, b, vaults, vaults.len() as int);
}

/// Vaults that stand in the order of their creation, each created later
/// than the one before it, are listed in the reverse of that order.
pub proof fn lemma_listed_in_reverse_of_creation(listed: Seq<VaultView>, vaults: Seq<VaultView>)
    requires
        lists_newest_first(listed, vaults),
        forall|i: int, j: int|
            0 <= i < j < vaults.len() ==> (#[trigger] vaults[j]).metadata.created_at.later_than(
                (#[trigger] vaults[i]).metadata.created_at,
            ),
    ensures
        listed == vaults.reverse(),
{
    let order = choose|order: Seq<int>| #[trigger]
        is_newest_first(order, vaults) && listed == order.map_values(|place: int| vaults[place]);
    let n = vaults.len() as int;
    // A place is listed before another only if it comes after it.
    assert forall|k: int, l: int| 0 <= k < l < n implies #[trigger] order[k] > #[trigger] order[l] by {
        assert(listed_before(vaults, order[k], order[l]));
        if order[k] < order[l] {
            assert(vaults[order[l]].metadata.created_at.later_than(
                vaults[order[k]].metadata.created_at,
            ));
        }
    }
    assert forall|k: int| 0 <= k < n implies listed[k] == vaults.reverse()[k] by {
        lemma_descending_places(order, n, k);
    }
    assert(listed =~= vaults.reverse());
}

/// As many places as there are, each below their number and each smaller
/// than the one before it, are the places counted down.
proof fn lemma_descending_places(order: Seq<int>, n: int, k: int)
    requires
        order.len() == n,
        0 <= k < n,
        forall|i: int| 0 <= i < n ==> 0 <= #[trigger] order[i] < n,
        forall|i: int, j: int| 0 <= i < j < n ==> #[trigger] order[i] > #[trigger] order[j],
    ensures
        order[k] == n - 1 - k,
{
    lemma_places_from_above(order, n, k);
    lemma_places_from_below(order, n, k);
}

proof fn lemma_places_from_above(order: Seq<int>, n: int, k: int)
    requires
        order.len() == n,
        0 <= k < n,
        forall|i: int| 0 <= i < n ==> 0 <= #[trigger] order[i] < n,
        forall|i: int, j: int| 0 <= i < j < n ==> #[trigger] order[i] > #[trigger] order[j],
    ensures
        order[k] <= n - 1 - k,
    decreases k,
{
    if k > 0 {
        lemma_places_from_above(order, n, k - 1);
        assert(order[k - 1] > order[k]);
    }
}

proof fn lemma_places_from_below(order: Seq<int>, n: int, k: int)
    requires
        order.len() == n,
        0 <= k < n,
        forall|i: int| 0 <= i < n ==> 0 <= #[trigger] order[i] < n,
        forall|i: int, j: int| 0 <= i < j < n ==> #[trigger] order[i] > #[trigger] order[j],
    ensures
        order[k] >= n - 1 - k,
    decreases n - k,
{
    if k < n - 1 {
        lemma_places_from_below(order, n, k + 1);
        assert(order[k] > order[k + 1]);
    }
}

/// The registry's operations.
#[derive(Debug)]
pub struct VaultController;

impl VaultController {
    /// Creates the vault `name`, trimmed, with an empty store sealed under
    /// `masterkey`, created and last accessed at `now`. It succeeds
    /// whenever nothing is wrong with the name and the key and the content
    /// file is not there yet.
    ///
    /// `content_exists` says whether the content file of the trimmed name
    /// is there.
    pub fn create_vault(
        name: &str,
        masterkey: &str,
        confirm_masterkey: &str,
        content_exists: bool,
        now: Timestamp,
    ) -> (r: Result<Outcome<Vault>, VaultControllerError>)
        ensures
            create_fault(name@, masterkey@, confirm_masterkey@, content_exists) is None ==> r is Ok,
            match r {
                Ok(created) => {
                    &&& create_fault(name@, masterkey@, confirm_masterkey@, content_exists) is None
                    &&& created.value@ == vault_of(trimmed(name@), now, now)
                    &&& saves_sealed(
                        action_views(created.actions@),
                        created.value@,
                        masterkey@,
                        Seq::<PasswordView>::empty(),
                    )
                },
                Err(e) => create_fault(name@, masterkey@, confirm_masterkey@, content_exists)
                    == Some(e@),
            },
    {
        let trimmed_name = trim(name);
        proof {
            crate::text::lemma_trim_is_idempotent(name@);
        }
        match Self::validate_name(trimmed_name) {
            Ok(_) => {},
            Err(e) => {
                return Err(e);
            },
        }
        match Self::validate_masterkey(masterkey, confirm_masterkey) {
            Ok(_) => {},
            Err(e) => {
                return Err(e);
            },
        }
        let vault = Vault::named(trimmed_name.to_owned(), now, now);
        match Self::validate_path_not_exist(vault.file_path.as_str(), content_exists) {
            Ok(_) => {},
            Err(e) => {
                return Err(e);
            },
        }
        let passwords = Passwords::empty();
        proof {
            lemma_empty_store_is_sealable();
        }
        match vault.save_to_file(masterkey, &passwords) {
            Ok(actions) => Ok(Outcome { value: vault, actions }),
            Err(source) => Err(VaultControllerError::Vault { source }),
        }
    }

    /// The names of the vaults among the files of a listing of the
    /// storage root.
    pub fn vault_names(file_names: &Vec<String>) -> (names: Vec<String>)
        ensures
            texts(names@) == vault_names(texts(file_names@)),
    {
        let n = file_names.len();
        let mut names: Vec<String> = Vec::new();
        let mut i: usize = 0;
        while i < n
            invariant
                n == file_names@.len(),
                i <= n,
                texts(names@) == vault_names(texts(file_names@).subrange(0, i as int)),
            decreases n - i,
        {
            proof {
                let longer = texts(file_names@).subrange(0, i + 1);
                assert(longer.drop_last() =~= texts(file_names@).subrange(0, i as int));
            }
            match strip_extension(file_names[i].as_str(), ".pwd") {
                Some(name) => {
                    names.push(name.to_owned());
                },
                None => {},
            }
            i = i + 1;
        }
        assert(texts(file_names@).subrange(0, n as int) =~= texts(file_names@));
        names
    }

    /// Lists the found vaults, each opened at `now`: newest first, those
    /// created at the same time in the order of the scan. A vault of
    /// which no metadata record can be read is given a new one, which the
    /// actions write.
    pub fn list(found: &Vec<FoundVault>, now: Timestamp) -> (listed: Outcome<Vec<Vault>>)
        ensures
            lists_newest_first(
                vault_views(listed.value@),
                opened_vaults(found_views(found@), now),
            ),
            action_views(listed.actions@) == regenerations(found_views(found@), now),
    {
        let n = found.len();
        let ghost all = opened_vaults(found_views(found@), now);
        let mut vaults: Vec<Vault> = Vec::new();
        let mut actions: Vec<FileAction> = Vec::new();
        let ghost mut order: Seq<int> = Seq::empty();
        let mut i: usize = 0;
        while i < n
            invariant
                n == found@.len(),
                i <= n,
                all == opened_vaults(found_views(found@), now),
                is_newest_first(order, all.subrange(0, i as int)),
                order.len() == vaults@.len(),
                vault_views(vaults@) == order.map_values(|place: int| all[place]),
                action_views(actions@) == regenerations(
                    found_views(found@).subrange(0, i as int),
                    now,
                ),
            decreases n - i,
        {
            // A found vault has its content file.
            let opened = match Vault::new(found[i].name.clone(), true, &found[i].metadata, now) {
                Ok(opened) => opened,
                Err(_) => unreached(),
            };
            let vault = opened.value;
            let mut opening = opened.actions;
            proof {
                let longer = found_views(found@).subrange(0, i + 1);
                assert(longer.drop_last() =~= found_views(found@).subrange(0, i as int));
            }
            let ghost written = action_views(actions@);
            actions.append(&mut opening);
            assert(action_views(actions@) =~= written + opens(
                found@[i as int]@.name,
                found@[i as int]@.metadata,
                now,
            ));
            // The new vault goes before the first that was created earlier.
            let m = vaults.len();
            let mut p: usize = 0;
            while p < m && !vault.metadata.created_at.is_later_than(&vaults[p].metadata.created_at)
                invariant
                    m == vaults@.len(),
                    p <= m,
                    forall|k: int|
                        0 <= k < p ==> !vault@.metadata.created_at.later_than(
                            (#[trigger] vaults@[k])@.metadata.created_at,
                        ),
                decreases m - p,
            {
                p = p + 1;
            }
            proof {
                let shorter = all.subrange(0, i as int);
                let longer = all.subrange(0, i + 1);
                let placed = order.insert(p as int, i as int);
                let listed = vault_views(vaults@);
                assert forall|k: int, l: int| 0 <= k < l < placed.len() implies listed_before(
                    longer,
                    #[trigger] placed[k],
                    #[trigger] placed[l],
                ) by {
                    let a = if k < p { order[k] } else if k == p { i as int } else { order[k - 1] };
                    let b = if l < p { order[l] } else if l == p { i as int } else { order[l - 1] };
                    assert(placed[k] == a && placed[l] == b);
                    if k < p {
                        assert(listed[k] == all[order[k]]);
                        assert(vaults@[k]@ == listed[k]);
                    }
                    if l > p {
                        assert(listed[l - 1] == all[order[l - 1]]);
                        assert(vaults@[l - 1]@ == listed[l - 1]);
                        assert(listed[p as int] == all[order[p as int]]);
                        assert(vaults@[p as int]@ == listed[p as int]);
                        if l - 1 > p {
                            assert(listed_before(shorter, order[p as int], order[l - 1]));
                        }
                    }
                    if k != p && l != p {
                        let k0 = if k < p { k } else { k - 1 };
                        let l0 = if l < p { l } else { l - 1 };
                        assert(listed_before(shorter, order[k0], order[l0]));
                    }
                }
                let grown = vault_views(vaults@.insert(p as int, vault));
                let mapped = placed.map_values(|place: int| all[place]);
                assert forall|k: int| 0 <= k < grown.len() implies grown[k] == mapped[k] by {
                    if k < p {
                        assert(grown[k] == vaults@[k]@);
                        assert(listed[k] == all[order[k]]);
                    } else if k > p {
                        assert(grown[k] == vaults@[k - 1]@);
                        assert(listed[k - 1] == all[order[k - 1]]);
                    }
                }
                order = placed;
            }
            vaults.insert(p, vault);
            i = i + 1;
        }
        assert(all.subrange(0, n as int) =~= all);
        assert(found_views(found@).subrange(0, n as int) =~= found_views(found@));
        Outcome { value: vaults, actions }
    }

    /// The actions that delete the vault `name`: both of its files are
    /// removed where they are there, so deleting twice is deleting once.
    pub fn delete(name: &str) -> (actions: Vec<FileAction>)
        ensures
            action_views(actions@) == deletes(name@),
    {
        let mut actions: Vec<FileAction> = Vec::new();
        actions.push(FileAction::Remove { file_name: Vault::file_path(name) });
        actions.push(FileAction::Remove { file_name: VaultMetadata::file_path(name) });
        actions
    }

    /// Seals the store of the vault `name` under a new master key. The
    /// store is the one that the content opens to under the old key; the
    /// time of creation stays, and the access is recorded at `now`. It
    /// succeeds whenever nothing is wrong with the new key and the content
    /// opens under the old one.
    pub fn update_masterkey(
        name: &str,
        old_masterkey: &str,
        new_masterkey: &str,
        confirm_new_masterkey: &str,
        files: &VaultFiles,
        now: Timestamp,
    ) -> (r: Result<Vec<FileAction>, VaultControllerError>)
        ensures
            update_fault(
                name@,
                old_masterkey@,
                new_masterkey@,
                confirm_new_masterkey@,
                files@.content,
            ) is None ==> r is Ok,
            match r {
                Ok(actions) => {
                    &&& update_fault(
                        name@,
                        old_masterkey@,
                        new_masterkey@,
                        confirm_new_masterkey@,
                        files@.content,
                    ) is None
                    &&& saves_sealed(
                        action_views(actions@),
                        vault_of(name@, created_at(files.metadata, now), now),
                        new_masterkey@,
                        opened_store(old_masterkey@, files@.content->0)->Ok_0,
                    )
                },
                Err(e) => update_fault(
                    name@,
                    old_masterkey@,
                    new_masterkey@,
                    confirm_new_masterkey@,
                    files@.content,
                ) == Some(e@),
            },
    {
        match Self::validate_new_masterkey(old_masterkey, new_masterkey, confirm_new_masterkey) {
            Ok(_) => {},
            Err(e) => {
                return Err(e);
            },
        }
        let opened = match Vault::new(
            name.to_owned(),
            files.content.is_some(),
            &files.metadata,
            now,
        ) {
            Ok(opened) => opened,
            Err(e) => {
                return Err(e);
            },
        };
        let content = match &files.content {
            Some(content) => content,
            None => unreached(),
        };
        // The record is written with the access, by the actions that keep the vault.
        let mut vault = opened.value;
        vault.update_last_accessed(now);
        match vault.update_masterkey(old_masterkey, new_masterkey, content.as_slice()) {
            Ok(actions) => Ok(actions),
            Err(source) => Err(VaultControllerError::Vault { source }),
        }
    }

    /// Renames the vault `name` to `new_name`, trimmed. Nothing is asked
    /// for unless the source is there and no file of the target is.
    ///
    /// `source_exists` says whether the content file of `name` is there,
    /// `source_metadata` what its metadata file holds, and the last two
    /// whether the files of the trimmed new name are there.
    pub fn rename(
        name: &str,
        new_name: &str,
        source_exists: bool,
        source_metadata: &StoredMetadata,
        target_content_exists: bool,
        target_metadata_exists: bool,
        now: Timestamp,
    ) -> (r: Result<Outcome<Vault>, VaultControllerError>)
        ensures
            match r {
                Ok(renamed) => {
                    &&& rename_fault(
                        name@,
                        new_name@,
                        source_exists,
                        target_content_exists,
                        target_metadata_exists,
                    ) is None
                    &&& renamed.value@ == vault_of(
                        trimmed(new_name@),
                        created_at(*source_metadata, now),
                        last_accessed(*source_metadata, now),
                    )
                    &&& action_views(renamed.actions@) == renames(
                        name@,
                        trimmed(new_name@),
                        *source_metadata,
                        now,
                    )
                },
                Err(e) => rename_fault(
                    name@,
                    new_name@,
                    source_exists,
                    target_content_exists,
                    target_metadata_exists,
                ) == Some(e@),
            },
    {
        let trimmed_name = trim(new_name);
        proof {
            crate::text::lemma_trim_is_idempotent(new_name@);
        }
        match Self::validate_name(trimmed_name) {
            Ok(_) => {},
            Err(e) => {
                return Err(e);
            },
        }
        let opened = match Vault::new(name.to_owned(), source_exists, source_metadata, now) {
            Ok(opened) => opened,
            Err(e) => {
                return Err(e);
            },
        };
        let old_vault = opened.value;
        let new_vault = Vault::named(
            trimmed_name.to_owned(),
            old_vault.metadata.created_at,
            old_vault.metadata.last_accessed,
        );
        if target_content_exists || target_metadata_exists {
            return Err(VaultControllerError::RenameTargetExists { name: trimmed_name.to_owned() });
        }
        let mut actions = opened.actions;
        actions.push(
            FileAction::Rename { from: old_vault.file_path, to: new_vault.file_path.clone() },
        );
        actions.push(
            FileAction::Rename {
                from: old_vault.metadata.file_path,
                to: new_vault.metadata.file_path.clone(),
            },
        );
        Ok(Outcome { value: new_vault, actions })
    }

    /// Refuses a new master key that is the old one or no good as a
    /// master key.
    pub fn validate_new_masterkey(
        old_masterkey: &str,
        new_masterkey: &str,
        confirm_masterkey: &str,
    ) -> (r: Result<(), VaultControllerError>)
        ensures
            match r {
                Ok(_) => new_masterkey_fault(old_masterkey@, new_masterkey@, confirm_masterkey@)
                    is None,
                Err(e) => new_masterkey_fault(old_masterkey@, new_masterkey@, confirm_masterkey@)
                    == Some(e@),
            },
    {
        if same_text(old_masterkey, new_masterkey) {
            return Err(VaultControllerError::NewMasterKeySameValue);
        }
        Self::validate_masterkey(new_masterkey, confirm_masterkey)
    }

    /// Refuses a master key that differs from its confirmation, starts or
    /// ends with white space, or has fewer than 12 characters.
    pub fn validate_masterkey(masterkey: &str, confirm_masterkey: &str) -> (r: Result<
        (),
        VaultControllerError,
    >)
        ensures
            match r {
                Ok(_) => masterkey_fault(masterkey@, confirm_masterkey@) is None,
                Err(e) => masterkey_fault(masterkey@, confirm_masterkey@) == Some(e@),
            },
    {
        if !same_text(masterkey, confirm_masterkey) {
            return Err(VaultControllerError::ConfirmMasterKeyMismatch);
        }
        if starts_or_ends_with_whitespace(masterkey) {
            return Err(VaultControllerError::MasterKeySpaceAtEnds);
        }
        if masterkey.unicode_len() < MIN_LENGTH {
            return Err(VaultControllerError::MasterKeyTooShort { min_length: MIN_LENGTH });
        }
        Ok(())
    }

    /// Refuses a name that is empty once trimmed.
    pub fn validate_name(name: &str) -> (r: Result<(), VaultControllerError>)
        ensures
            match r {
                Ok(_) => name_fault(name@) is None,
                Err(e) => name_fault(name@) == Some(e@),
            },
    {
        if trim(name).unicode_len() == 0 {
            return Err(VaultControllerError::VaultNameEmpty);
        }
        Ok(())
    }

    /// Refuses a file that is already there.
    pub fn validate_path_not_exist(file_name: &str, exists: bool) -> (r: Result<
        (),
        VaultControllerError,
    >)
        ensures
            match r {
                Ok(_) => !exists,
                Err(e) => exists && e@ == (VaultControllerErrorView::VaultFileExists {
                    file_name: file_name@,
                }),
            },
    {
        if exists {
            return Err(VaultControllerError::VaultFileExists { file_name: file_name.to_owned() });
        }
        Ok(())
    }

    /// Refuses a file that is not there.
    pub fn validate_path_exist(file_name: &str, exists: bool) -> (r: Result<
        (),
        VaultControllerError,
    >)
        ensures
            match r {
                Ok(_) => exists,
                Err(e) => !exists && e@ == (VaultControllerErrorView::VaultFileNotFound {
                    file_name: file_name@,
                }),
            },
    {
        if !exists {
            return Err(VaultControllerError::VaultFileNotFound { file_name: file_name.to_owned() });
        }
        Ok(())
    }
}

} // verus!
