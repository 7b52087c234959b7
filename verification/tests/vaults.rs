use vault_core::cipher::CipherError;
use vault_core::password_commands::{
    add_entry, add_password, delete_password, get_passwords, update_password, PasswordCommandsError,
};
use vault_core::passwords::{Password, Passwords, PasswordsError};
use vault_core::storage::{FileAction, StoredMetadata, VaultFiles};
use vault_core::timestamp::Timestamp;
use vault_core::vault::{Vault, VaultError, VaultMetadata};
use vault_core::vault_controller::{FoundVault, VaultController, VaultControllerError};

/// A storage root in memory: what the files hold, in the order in which
/// they came.
#[derive(Debug, Clone, PartialEq)]
enum File {
    Content(Vec<u8>),
    Record(Timestamp, Timestamp),
    Garbage,
}

#[derive(Debug, Clone, PartialEq)]
struct Root {
    files: Vec<(String, File)>,
}

impl Root {
    fn new() -> Root {
        Root { files: Vec::new() }
    }

    fn get(&self, file_name: &str) -> Option<&File> {
        self.files.iter().find(|(name, _)| name == file_name).map(|(_, file)| file)
    }

    fn holds(&self, file_name: &str) -> bool {
        self.get(file_name).is_some()
    }

    fn put(&mut self, file_name: &str, file: File) {
        match self.files.iter_mut().find(|(name, _)| name == file_name) {
            Some(slot) => slot.1 = file,
            None => self.files.push((file_name.to_string(), file)),
        }
    }

    fn remove(&mut self, file_name: &str) {
        self.files.retain(|(name, _)| name != file_name);
    }

    fn perform(&mut self, actions: Vec<FileAction>) {
        for action in actions {
            match action {
                FileAction::WriteContent { file_name, bytes } => {
                    self.put(&file_name, File::Content(bytes))
                }
                FileAction::WriteMetadata { file_name, created_at, last_accessed } => {
                    self.put(&file_name, File::Record(created_at, last_accessed))
                }
                FileAction::Remove { file_name } => self.remove(&file_name),
                FileAction::Rename { from, to } => {
                    let file = self.get(&from).expect("the file to rename is there").clone();
                    assert!(!self.holds(&to));
                    self.remove(&from);
                    self.put(&to, file);
                }
            }
        }
    }

    fn metadata(&self, vault_name: &str) -> StoredMetadata {
        match self.get(&VaultMetadata::file_path(vault_name)) {
            None => StoredMetadata::Absent,
            Some(File::Record(created_at, last_accessed)) => {
                StoredMetadata::Present { created_at: *created_at, last_accessed: *last_accessed }
            }
            Some(_) => StoredMetadata::Unreadable,
        }
    }

    fn vault_files(&self, vault_name: &str) -> VaultFiles {
        let content = match self.get(&Vault::file_path(vault_name)) {
            Some(File::Content(bytes)) => Some(bytes.clone()),
            _ => None,
        };
        VaultFiles { content, metadata: self.metadata(vault_name) }
    }

    fn create(&mut self, name: &str, key: &str, now: Timestamp) -> Result<Vault, VaultControllerError> {
        let exists = self.holds(&Vault::file_path(name.trim()));
        let created = VaultController::create_vault(name, key, key, exists, now)?;
        self.perform(created.actions);
        Ok(created.value)
    }

    fn rename(&mut self, name: &str, new_name: &str, now: Timestamp) -> Result<Vault, VaultControllerError> {
        let target = new_name.trim();
        let renamed = VaultController::rename(
            name,
            new_name,
            self.holds(&Vault::file_path(name)),
            &self.metadata(name),
            self.holds(&Vault::file_path(target)),
            self.holds(&VaultMetadata::file_path(target)),
            now,
        )?;
        self.perform(renamed.actions);
        Ok(renamed.value)
    }

    fn list(&mut self, now: Timestamp) -> Vec<Vault> {
        let file_names: Vec<String> = self.files.iter().map(|(name, _)| name.clone()).collect();
        let found: Vec<FoundVault> = VaultController::vault_names(&file_names)
            .into_iter()
            .map(|name| FoundVault { metadata: self.metadata(&name), name })
            .collect();
        let listed = VaultController::list(&found, now);
        self.perform(listed.actions);
        listed.value
    }
}

fn at(seconds: i64) -> Timestamp {
    Timestamp { seconds, nanos: 0 }
}

fn names(vaults: &[Vault]) -> Vec<&str> {
    vaults.iter().map(|v| v.name.as_str()).collect()
}

fn wrong_key<T: std::fmt::Debug>(r: Result<T, PasswordCommandsError>) {
    match r {
        Err(PasswordCommandsError::Vault {
            source: VaultError::Cipher { source: CipherError::AuthenticationFailed },
        }) => {}
        other => panic!("not a wrong key: {:?}", other),
    }
}

#[test]
fn timestamps_are_ordered_by_seconds_then_nanos() {
    let a = Timestamp { seconds: 10, nanos: 5 };
    assert!(Timestamp { seconds: 11, nanos: 0 }.is_later_than(&a));
    assert!(Timestamp { seconds: 10, nanos: 6 }.is_later_than(&a));
    assert!(!a.is_later_than(&a));
    assert!(!Timestamp { seconds: 10, nanos: 4 }.is_later_than(&a));
    assert!(!Timestamp { seconds: 9, nanos: 999_999_999 }.is_later_than(&a));
    assert!(Timestamp { seconds: -1, nanos: 0 }.is_later_than(&Timestamp { seconds: -2, nanos: 9 }));
}

#[test]
fn now_moves_forward() {
    let first = Timestamp::now();
    let second = Timestamp::now();
    assert!(!first.is_later_than(&second));
    assert!(first.seconds > 1_600_000_000);
    assert!(first.nanos < 2_000_000_000);
}

#[test]
fn metadata_is_loaded_or_made_new() {
    let stored = StoredMetadata::Present { created_at: at(5), last_accessed: at(7) };
    let read = VaultMetadata::new("bank", &stored, at(100));
    assert_eq!(
        read.value,
        VaultMetadata { file_path: "bank.meta".to_string(), created_at: at(5), last_accessed: at(7) }
    );
    assert!(read.actions.is_empty());
    for stored in [StoredMetadata::Absent, StoredMetadata::Unreadable] {
        let made = VaultMetadata::new("bank", &stored, at(100));
        assert_eq!(
            made.value,
            VaultMetadata {
                file_path: "bank.meta".to_string(),
                created_at: at(100),
                last_accessed: at(100)
            }
        );
        assert_eq!(
            made.actions,
            vec![FileAction::WriteMetadata {
                file_name: "bank.meta".to_string(),
                created_at: at(100),
                last_accessed: at(100)
            }]
        );
    }
    assert_eq!(VaultMetadata::of("bank", at(1), at(2)), VaultMetadata {
        file_path: "bank.meta".to_string(),
        created_at: at(1),
        last_accessed: at(2)
    });
}

#[test]
fn a_new_record_takes_the_place_of_what_the_file_held() {
    let mut root = Root::new();
    root.put("v.pwd", File::Content(vec![1]));
    root.put("v.meta", File::Garbage);
    root.perform(VaultMetadata::new("v", &root.metadata("v"), at(7)).actions);
    assert_eq!(root.get("v.meta"), Some(&File::Record(at(7), at(7))));
    let before = root.clone();
    root.perform(VaultMetadata::new("v", &root.metadata("v"), at(9)).actions);
    assert_eq!(root, before);

    let mut root = Root::new();
    root.perform(VaultMetadata::new("v", &root.metadata("v"), at(3)).actions);
    assert_eq!(root.files, vec![("v.meta".to_string(), File::Record(at(3), at(3)))]);
}

#[test]
fn metadata_actions() {
    let metadata = VaultMetadata::of("bank", at(3), at(3));
    assert_eq!(
        metadata.save_to_file(),
        FileAction::WriteMetadata {
            file_name: "bank.meta".to_string(),
            created_at: at(3),
            last_accessed: at(3)
        }
    );
    assert_eq!(metadata.delete_file(), FileAction::Remove { file_name: "bank.meta".to_string() });
}

#[test]
fn vault_has_the_files_of_its_name() {
    let vault = Vault::named("bank".to_string(), at(3), at(3));
    assert_eq!(vault.name, "bank");
    assert_eq!(vault.file_path, "bank.pwd");
    assert_eq!(vault.metadata.file_path, "bank.meta");
    assert_eq!(Vault::file_path("my vault"), "my vault.pwd");
    assert_eq!(VaultMetadata::file_path("my vault"), "my vault.meta");
    assert_eq!(
        vault.delete_file(),
        vec![
            FileAction::Remove { file_name: "bank.pwd".to_string() },
            FileAction::Remove { file_name: "bank.meta".to_string() },
        ]
    );
    let mut vault = vault;
    vault.update_last_accessed(at(9));
    assert_eq!(vault.metadata.created_at, at(3));
    assert_eq!(vault.metadata.last_accessed, at(9));
}

#[test]
fn store_round_trips_through_the_sealed_form() {
    let store = Passwords {
        inner: vec![
            Password::new(1, "s3cr3t!".to_string(), "bank".to_string()),
            Password::new(4, "pässwörd".to_string(), String::new()),
        ],
    };
    let content = Vault::encrypt("password123456", &store).unwrap();
    assert_eq!(Vault::decrypt("password123456", &content), Ok(store));
}

#[test]
fn content_that_opens_to_other_bytes_is_malformed() {
    let content = vault_core::cipher::Cipher::new("password123456").dump(vec![9, 9, 9]).unwrap();
    assert_eq!(
        Vault::decrypt("password123456", &content),
        Err(VaultError::Passwords { source: PasswordsError::Malformed })
    );
    assert_eq!(
        Vault::decrypt("password123457", &content),
        Err(VaultError::Cipher { source: CipherError::AuthenticationFailed })
    );
}

#[test]
fn save_writes_content_then_metadata() {
    let vault = Vault::named("bank".to_string(), at(3), at(3));
    let store = Passwords { inner: vec![Password::new(1, "x".to_string(), "y".to_string())] };
    let actions = vault.save_to_file("password123456", &store).unwrap();
    assert_eq!(actions.len(), 2);
    match &actions[0] {
        FileAction::WriteContent { file_name, bytes } => {
            assert_eq!(file_name, "bank.pwd");
            assert_eq!(Vault::decrypt("password123456", bytes), Ok(store));
        }
        other => panic!("{:?}", other),
    }
    assert_eq!(actions[1], vault.metadata.save_to_file());
    assert_eq!(vault.write_actions(vec![1, 2])[0], FileAction::WriteContent {
        file_name: "bank.pwd".to_string(),
        bytes: vec![1, 2]
    });
}

#[test]
fn create_then_create_again_then_delete_and_create() {
    let mut root = Root::new();
    let vault = root.create("v", "masterkey123", at(1)).unwrap();
    assert_eq!(vault.name, "v");
    assert!(root.holds("v.pwd"));
    assert_eq!(root.get("v.meta"), Some(&File::Record(at(1), at(1))));
    let before = root.clone();

    assert_eq!(
        root.create("v", "anotherkey123", at(2)),
        Err(VaultControllerError::VaultFileExists { file_name: "v.pwd".to_string() })
    );
    assert_eq!(root, before);

    root.perform(VaultController::delete("v"));
    assert_eq!(root, Root::new());
    root.perform(VaultController::delete("v"));
    assert_eq!(root, Root::new());

    let again = root.create("v", "anotherkey123", at(3)).unwrap();
    assert_eq!(again.metadata.created_at, at(3));
    assert!(root.holds("v.pwd"));
}

#[test]
fn created_vault_is_empty_and_sealed_under_the_key() {
    let created = VaultController::create_vault("  bank \n", "masterkey123", "masterkey123", false, at(8)).unwrap();
    assert_eq!(created.value, Vault::named("bank".to_string(), at(8), at(8)));
    assert_eq!(created.actions.len(), 2);
    match &created.actions[0] {
        FileAction::WriteContent { file_name, bytes } => {
            assert_eq!(file_name, "bank.pwd");
            assert_eq!(Vault::decrypt("masterkey123", bytes), Ok(Passwords::empty()));
        }
        other => panic!("{:?}", other),
    }
    assert_eq!(
        created.actions[1],
        FileAction::WriteMetadata {
            file_name: "bank.meta".to_string(),
            created_at: at(8),
            last_accessed: at(8)
        }
    );
}

#[test]
fn create_checks_the_name_then_the_key_then_the_file() {
    assert_eq!(
        VaultController::create_vault("  ", "short", "other", true, at(1)).unwrap_err(),
        VaultControllerError::VaultNameEmpty
    );
    assert_eq!(
        VaultController::create_vault("v", "short", "other", true, at(1)).unwrap_err(),
        VaultControllerError::ConfirmMasterKeyMismatch
    );
    assert_eq!(
        VaultController::create_vault("v", " masterkey123", " masterkey123", true, at(1)).unwrap_err(),
        VaultControllerError::MasterKeySpaceAtEnds
    );
    assert_eq!(
        VaultController::create_vault("v", "short", "short", true, at(1)).unwrap_err(),
        VaultControllerError::MasterKeyTooShort { min_length: 12 }
    );
    assert_eq!(
        VaultController::create_vault(" v ", "masterkey123", "masterkey123", true, at(1)).unwrap_err(),
        VaultControllerError::VaultFileExists { file_name: "v.pwd".to_string() }
    );
}

#[test]
fn delete_removes_both_files() {
    assert_eq!(
        VaultController::delete("bank"),
        vec![
            FileAction::Remove { file_name: "bank.pwd".to_string() },
            FileAction::Remove { file_name: "bank.meta".to_string() },
        ]
    );
    let mut root = Root::new();
    root.put("bank.pwd", File::Content(vec![1]));
    root.put("other.pwd", File::Content(vec![2]));
    root.perform(VaultController::delete("bank"));
    assert_eq!(root.files, vec![("other.pwd".to_string(), File::Content(vec![2]))]);
}

#[test]
fn rename_to_an_existing_vault_leaves_both_untouched() {
    let mut root = Root::new();
    root.put("a.pwd", File::Content(vec![1]));
    root.put("a.meta", File::Record(at(1), at(2)));
    root.put("b.pwd", File::Content(vec![3]));
    root.put("b.meta", File::Record(at(3), at(4)));
    let before = root.clone();
    assert_eq!(
        root.rename("a", "b", at(9)),
        Err(VaultControllerError::RenameTargetExists { name: "b".to_string() })
    );
    assert_eq!(root, before);
    assert_eq!(
        root.rename("a", " b\t", at(9)),
        Err(VaultControllerError::RenameTargetExists { name: "b".to_string() })
    );
    assert_eq!(root, before);
}

#[test]
fn rename_is_refused_where_only_the_target_metadata_is_there() {
    assert_eq!(
        VaultController::rename("a", "b", true, &StoredMetadata::Absent, false, true, at(1)).unwrap_err(),
        VaultControllerError::RenameTargetExists { name: "b".to_string() }
    );
}

#[test]
fn rename_checks_the_name_then_the_source_then_the_target() {
    assert_eq!(
        VaultController::rename("a", " ", false, &StoredMetadata::Absent, true, true, at(1)).unwrap_err(),
        VaultControllerError::VaultNameEmpty
    );
    assert_eq!(
        VaultController::rename("a", "b", false, &StoredMetadata::Absent, true, true, at(1)).unwrap_err(),
        VaultControllerError::VaultFileNotFound { file_name: "a.pwd".to_string() }
    );
}

#[test]
fn rename_moves_both_files() {
    let mut root = Root::new();
    root.put("a.pwd", File::Content(vec![1]));
    root.put("a.meta", File::Record(at(1), at(2)));
    let vault = root.rename("a", "  b ", at(9)).unwrap();
    assert_eq!(
        vault,
        Vault::named("b".to_string(), at(1), at(2))
    );
    assert_eq!(root.get("b.pwd"), Some(&File::Content(vec![1])));
    assert_eq!(root.get("b.meta"), Some(&File::Record(at(1), at(2))));
    assert_eq!(root.files.len(), 2);
}

#[test]
fn rename_writes_a_record_first_where_none_can_be_read() {
    let renamed =
        VaultController::rename("a", "b", true, &StoredMetadata::Unreadable, false, false, at(9)).unwrap();
    assert_eq!(
        renamed.actions,
        vec![
            FileAction::WriteMetadata {
                file_name: "a.meta".to_string(),
                created_at: at(9),
                last_accessed: at(9)
            },
            FileAction::Rename { from: "a.pwd".to_string(), to: "b.pwd".to_string() },
            FileAction::Rename { from: "a.meta".to_string(), to: "b.meta".to_string() },
        ]
    );
    assert_eq!(renamed.value.metadata.created_at, at(9));

    let stored = StoredMetadata::Present { created_at: at(1), last_accessed: at(2) };
    let renamed = VaultController::rename("a", "b", true, &stored, false, false, at(9)).unwrap();
    assert_eq!(
        renamed.actions,
        vec![
            FileAction::Rename { from: "a.pwd".to_string(), to: "b.pwd".to_string() },
            FileAction::Rename { from: "a.meta".to_string(), to: "b.meta".to_string() },
        ]
    );
}

#[test]
fn open_needs_the_content_file_and_makes_up_for_a_lost_record() {
    for stored in [
        StoredMetadata::Absent,
        StoredMetadata::Unreadable,
        StoredMetadata::Present { created_at: at(1), last_accessed: at(2) },
    ] {
        assert_eq!(
            Vault::new("v".to_string(), false, &stored, at(1)).unwrap_err(),
            VaultControllerError::VaultFileNotFound { file_name: "v.pwd".to_string() }
        );
    }

    let stored = StoredMetadata::Present { created_at: at(1), last_accessed: at(2) };
    let opened = Vault::new("v".to_string(), true, &stored, at(9)).unwrap();
    assert_eq!(opened.value, Vault::named("v".to_string(), at(1), at(2)));
    assert_eq!(opened.value.metadata.created_at, at(1));
    assert_eq!(opened.value.metadata.last_accessed, at(2));
    assert!(opened.actions.is_empty());

    for stored in [StoredMetadata::Absent, StoredMetadata::Unreadable] {
        let opened = Vault::new("v".to_string(), true, &stored, at(9)).unwrap();
        assert_eq!(opened.value.metadata.created_at, at(9));
        assert_eq!(
            opened.actions,
            vec![FileAction::WriteMetadata {
                file_name: "v.meta".to_string(),
                created_at: at(9),
                last_accessed: at(9)
            }]
        );
    }
}

#[test]
fn vault_names_are_the_content_files_of_a_listing() {
    let listing: Vec<String> =
        ["b.pwd", "b.meta", "notes.txt", "a.pwd", ".pwd", "pwd", "c.pwd.bak", "日本.pwd"]
            .iter()
            .map(|s| s.to_string())
            .collect();
    assert_eq!(VaultController::vault_names(&listing), vec!["b", "a", "", "日本"]);
    assert!(VaultController::vault_names(&Vec::new()).is_empty());
}

#[test]
fn list_is_newest_first() {
    let mut root = Root::new();
    root.create("V1", "masterkey123", at(1)).unwrap();
    root.create("V2", "masterkey123", at(2)).unwrap();
    root.create("V3", "masterkey123", at(3)).unwrap();
    let before = root.clone();
    assert_eq!(names(&root.list(at(10))), vec!["V3", "V2", "V1"]);
    assert_eq!(root, before);
}

#[test]
fn list_orders_by_creation_whatever_the_listing() {
    let found = |name: &str, seconds: i64, nanos: u32| FoundVault {
        name: name.to_string(),
        metadata: StoredMetadata::Present {
            created_at: Timestamp { seconds, nanos },
            last_accessed: at(0),
        },
    };
    let listed = VaultController::list(
        &vec![
            found("c", 5, 1),
            found("a", 9, 0),
            found("e", 5, 1),
            found("b", 5, 2),
            found("d", -1, 0),
            found("f", 9, 0),
        ],
        at(100),
    );
    assert_eq!(names(&listed.value), vec!["a", "f", "b", "c", "e", "d"]);
    assert!(listed.actions.is_empty());
    assert!(VaultController::list(&Vec::new(), at(1)).value.is_empty());
}

#[test]
fn list_gives_a_new_record_to_a_vault_without_one() {
    let stored = StoredMetadata::Present { created_at: at(50), last_accessed: at(60) };
    let listed = VaultController::list(
        &vec![
            FoundVault { name: "lost".to_string(), metadata: StoredMetadata::Absent },
            FoundVault { name: "kept".to_string(), metadata: stored },
            FoundVault { name: "torn".to_string(), metadata: StoredMetadata::Unreadable },
        ],
        at(100),
    );
    assert_eq!(names(&listed.value), vec!["lost", "torn", "kept"]);
    assert_eq!(listed.value[0].metadata.created_at, at(100));
    assert_eq!(
        listed.actions,
        vec![
            FileAction::WriteMetadata {
                file_name: "lost.meta".to_string(),
                created_at: at(100),
                last_accessed: at(100)
            },
            FileAction::WriteMetadata {
                file_name: "torn.meta".to_string(),
                created_at: at(100),
                last_accessed: at(100)
            },
        ]
    );
}

#[test]
fn key_rotation_is_refused_before_anything_is_opened() {
    let files = VaultFiles { content: None, metadata: StoredMetadata::Absent };
    assert_eq!(
        VaultController::update_masterkey("v", "old123456789", "old123456789", "old123456789", &files, at(1)),
        Err(VaultControllerError::NewMasterKeySameValue)
    );
    assert_eq!(
        VaultController::update_masterkey("v", "old123456789", "short", "short", &files, at(1)),
        Err(VaultControllerError::MasterKeyTooShort { min_length: 12 })
    );
    assert_eq!(
        VaultController::update_masterkey("v", "old123456789", " new123456789", " new123456789", &files, at(1)),
        Err(VaultControllerError::MasterKeySpaceAtEnds)
    );
    assert_eq!(
        VaultController::update_masterkey("v", "old123456789", "new123456789", "new123456789", &files, at(1)),
        Err(VaultControllerError::VaultFileNotFound { file_name: "v.pwd".to_string() })
    );
}

#[test]
fn key_rotation_keeps_the_entries_and_the_time_of_creation() {
    let mut root = Root::new();
    root.create("v", "old123456789", at(1)).unwrap();
    let added = add_entry("v", "old123456789", "s3cr3t".to_string(), "n".to_string(), &root.vault_files("v"), at(2)).unwrap();
    root.perform(added.actions);
    let before = root.clone();

    assert_eq!(
        VaultController::update_masterkey("v", "wrong1234567", "new123456789", "new123456789", &root.vault_files("v"), at(3)),
        Err(VaultControllerError::Vault {
            source: VaultError::Cipher { source: CipherError::AuthenticationFailed }
        })
    );
    assert_eq!(root, before);

    let actions = VaultController::update_masterkey(
        "v", "old123456789", "new123456789", "new123456789", &root.vault_files("v"), at(3),
    )
    .unwrap();
    root.perform(actions);
    assert_eq!(root.get("v.meta"), Some(&File::Record(at(1), at(3))));
    wrong_key(get_passwords("v", "old123456789", &root.vault_files("v"), at(4)));
    let read = get_passwords("v", "new123456789", &root.vault_files("v"), at(4)).unwrap();
    assert_eq!(read.value, vec![Password::new(1, "s3cr3t".to_string(), "n".to_string())]);
}

#[test]
fn end_to_end() {
    let mut root = Root::new();
    root.create("bank", "password123456", at(1)).unwrap();

    let added = add_password("bank", "password123456", None, "checking".to_string(), &root.vault_files("bank"), at(2)).unwrap();
    assert_eq!(added.value.len(), 1);
    assert_eq!(added.value[0].id, 1);
    assert_eq!(added.value[0].notes, "checking");
    assert!((12..20).contains(&added.value[0].password.chars().count()));
    let entry = added.value[0].clone();
    root.perform(added.actions);
    let before = root.clone();

    wrong_key(get_passwords("bank", "wrongwrongwrong", &root.vault_files("bank"), at(3)));
    assert_eq!(root, before);

    let read = get_passwords("bank", "password123456", &root.vault_files("bank"), at(4)).unwrap();
    assert_eq!(read.value, vec![entry]);
    root.perform(read.actions);
    assert_eq!(root.get("bank.pwd"), before.get("bank.pwd"));
    assert_eq!(root.get("bank.meta"), Some(&File::Record(at(1), at(4))));
}

#[test]
fn entries_of_a_vault_that_is_not_there() {
    let files = VaultFiles { content: None, metadata: StoredMetadata::Absent };
    let missing = PasswordCommandsError::VaultFileNotFound { file_name: "v.pwd".to_string() };
    assert_eq!(get_passwords("v", "password123456", &files, at(1)).unwrap_err(), missing);
    assert_eq!(
        add_password("v", "password123456", None, String::new(), &files, at(1)).unwrap_err(),
        missing
    );
    assert_eq!(
        update_password("v", "password123456", 1, String::new(), String::new(), &files, at(1)).unwrap_err(),
        missing
    );
    assert_eq!(delete_password("v", "password123456", 1, &files, at(1)).unwrap_err(), missing);
}

#[test]
fn add_with_a_given_secret_update_and_delete() {
    let mut root = Root::new();
    root.create("v", "password123456", at(1)).unwrap();

    let out = add_password("v", "password123456", Some("mine".to_string()), "a".to_string(), &root.vault_files("v"), at(2)).unwrap();
    assert_eq!(out.value, vec![Password::new(1, "mine".to_string(), "a".to_string())]);
    root.perform(out.actions);
    let out = add_entry("v", "password123456", "yours".to_string(), "b".to_string(), &root.vault_files("v"), at(3)).unwrap();
    root.perform(out.actions);

    let before = root.clone();
    wrong_key(update_password("v", "wrongwrongwrong", 1, "x".to_string(), "y".to_string(), &root.vault_files("v"), at(4)));
    wrong_key(delete_password("v", "wrongwrongwrong", 1, &root.vault_files("v"), at(4)));
    wrong_key(add_entry("v", "wrongwrongwrong", "x".to_string(), "y".to_string(), &root.vault_files("v"), at(4)));
    assert_eq!(root, before);

    let out = update_password("v", "password123456", 1, "ours".to_string(), "aa".to_string(), &root.vault_files("v"), at(5)).unwrap();
    assert_eq!(
        out.value,
        vec![
            Password::new(1, "ours".to_string(), "aa".to_string()),
            Password::new(2, "yours".to_string(), "b".to_string()),
        ]
    );
    root.perform(out.actions);

    let out = delete_password("v", "password123456", 1, &root.vault_files("v"), at(6)).unwrap();
    assert_eq!(out.value, vec![Password::new(2, "yours".to_string(), "b".to_string())]);
    root.perform(out.actions);
    assert_eq!(root.get("v.meta"), Some(&File::Record(at(1), at(6))));

    let read = get_passwords("v", "password123456", &root.vault_files("v"), at(7)).unwrap();
    assert_eq!(read.value, vec![Password::new(2, "yours".to_string(), "b".to_string())]);
}

#[test]
fn no_entry_is_added_where_no_id_is_left() {
    let vault = Vault::named("v".to_string(), at(1), at(1));
    let full = Passwords { inner: vec![Password::new(i32::MAX, "x".to_string(), String::new())] };
    let mut root = Root::new();
    root.perform(vault.save_to_file("password123456", &full).unwrap());
    let before = root.clone();
    assert_eq!(
        add_entry("v", "password123456", "y".to_string(), String::new(), &root.vault_files("v"), at(2)).unwrap_err(),
        PasswordCommandsError::Vault {
            source: VaultError::Passwords { source: PasswordsError::IdsExhausted }
        }
    );
    assert_eq!(root, before);
}

#[test]
fn a_vault_without_record_gets_one_on_access() {
    let vault = Vault::named("v".to_string(), at(1), at(1));
    let mut root = Root::new();
    root.perform(vault.save_to_file("password123456", &Passwords::empty()).unwrap());
    root.put("v.meta", File::Garbage);
    let read = get_passwords("v", "password123456", &root.vault_files("v"), at(9)).unwrap();
    assert_eq!(
        read.actions,
        vec![FileAction::WriteMetadata {
            file_name: "v.meta".to_string(),
            created_at: at(9),
            last_accessed: at(9)
        }]
    );
}

#[test]
fn messages() {
    let wrong = VaultError::Cipher { source: CipherError::AuthenticationFailed };
    assert_eq!(wrong.message(), "Incorrect master key");
    assert_eq!(VaultControllerError::Vault { source: wrong }.message(), "Incorrect master key");
    assert_eq!(PasswordCommandsError::Vault { source: wrong }.message(), "Incorrect master key");
    for source in [
        VaultError::Cipher { source: CipherError::SealFailed },
        VaultError::Passwords { source: PasswordsError::Malformed },
        VaultError::Passwords { source: PasswordsError::TooLarge },
    ] {
        assert_eq!(source.message(), "Unexpected io error occured!");
    }
    assert_eq!(
        VaultError::Passwords { source: PasswordsError::IdsExhausted }.message(),
        "No id is left for a new password"
    );
    assert_eq!(
        VaultControllerError::VaultFileExists { file_name: "v.pwd".to_string() }.message(),
        "Vault file '\"v.pwd\"' already exists"
    );
    assert_eq!(
        VaultControllerError::VaultFileNotFound { file_name: "a\"b.pwd".to_string() }.message(),
        "Vault file '\"a\\\"b.pwd\"' does not exist"
    );
    assert_eq!(
        PasswordCommandsError::VaultFileNotFound { file_name: "v.pwd".to_string() }.message(),
        "Vault file '\"v.pwd\"' does not exist"
    );
    assert_eq!(
        VaultControllerError::RenameTargetExists { name: "b".to_string() }.message(),
        "Cannot rename to 'b': vault already exists"
    );
    assert_eq!(
        VaultControllerError::MasterKeyTooShort { min_length: 12 }.message(),
        "Master key must be at least 12 characters long"
    );
    assert_eq!(
        VaultControllerError::MasterKeySpaceAtEnds.message(),
        "Master key should not contain space in the beginning or the end"
    );
    assert_eq!(
        VaultControllerError::ConfirmMasterKeyMismatch.message(),
        "Confirm master key does not match"
    );
    assert_eq!(
        VaultControllerError::NewMasterKeySameValue.message(),
        "New master key is the same as the current master key"
    );
    assert_eq!(VaultControllerError::VaultNameEmpty.message(), "Vault name cannot be empty");
}
