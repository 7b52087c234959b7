use borsh::BorshDeserialize;
use vault_core::passwords::{Password, Passwords, PasswordsError};

fn entry(id: i32, password: &str, notes: &str) -> Password {
    Password::new(id, password.to_string(), notes.to_string())
}

fn store(entries: Vec<Password>) -> Passwords {
    Passwords { inner: entries }
}

#[test]
fn empty_store_is_a_count_of_zero() {
    assert_eq!(Passwords::empty().try_to_vec(), Ok(vec![0, 0, 0, 0]));
    assert_eq!(Passwords::try_from_slice(&[0, 0, 0, 0]), Ok(Passwords::empty()));
}

#[test]
fn one_entry_byte_for_byte() {
    let bytes = store(vec![entry(1, "pw", "note")]).try_to_vec().unwrap();
    assert_eq!(
        bytes,
        vec![
            1, 0, 0, 0, // one entry
            1, 0, 0, 0, // id 1
            2, 0, 0, 0, b'p', b'w', // secret
            4, 0, 0, 0, b'n', b'o', b't', b'e', // notes
        ]
    );
}

#[test]
fn ids_are_little_endian_twos_complement() {
    let bytes = store(vec![entry(-2, "", ""), entry(0x01020304, "", ""), entry(i32::MIN, "", "")])
        .try_to_vec()
        .unwrap();
    assert_eq!(
        bytes,
        vec![
            3, 0, 0, 0, //
            0xfe, 0xff, 0xff, 0xff, 0, 0, 0, 0, 0, 0, 0, 0, //
            4, 3, 2, 1, 0, 0, 0, 0, 0, 0, 0, 0, //
            0, 0, 0, 0x80, 0, 0, 0, 0, 0, 0, 0, 0,
        ]
    );
    let back = Passwords::try_from_slice(&bytes).unwrap();
    assert_eq!(back.inner[0].id, -2);
    assert_eq!(back.inner[1].id, 0x01020304);
    assert_eq!(back.inner[2].id, i32::MIN);
}

#[test]
fn strings_are_counted_in_bytes() {
    let bytes = store(vec![entry(7, "é€", "")]).try_to_vec().unwrap();
    assert_eq!(
        bytes,
        vec![1, 0, 0, 0, 7, 0, 0, 0, 5, 0, 0, 0, 0xc3, 0xa9, 0xe2, 0x82, 0xac, 0, 0, 0, 0]
    );
}

#[test]
fn encoding_round_trips() {
    let written = store(vec![
        entry(1, "s3cr3t!", "bank"),
        entry(3, "", "empty secret"),
        entry(-5, "pässwörd ✓", "ünïcödé\nnotes"),
        entry(i32::MAX, "x", ""),
    ]);
    let bytes = written.try_to_vec().unwrap();
    assert_eq!(Passwords::try_from_slice(&bytes), Ok(written));
}

#[test]
fn bytes_are_those_of_borsh() {
    let written = store(vec![entry(1, "s3cr3t!", "bank"), entry(-9, "pässwörd", "")]);
    let tuples: Vec<(i32, String, String)> = written
        .inner
        .iter()
        .map(|e| (e.id, e.password.clone(), e.notes.clone()))
        .collect();
    let expected = borsh::to_vec(&tuples).unwrap();
    assert_eq!(written.try_to_vec(), Ok(expected.clone()));

    let read = Vec::<(i32, String, String)>::try_from_slice(&written.try_to_vec().unwrap()).unwrap();
    assert_eq!(read, tuples);
    assert_eq!(Passwords::try_from_slice(&expected), Ok(written));
}

#[test]
fn leftover_bytes_are_malformed() {
    let mut bytes = store(vec![entry(1, "pw", "note")]).try_to_vec().unwrap();
    bytes.push(0);
    assert_eq!(Passwords::try_from_slice(&bytes), Err(PasswordsError::Malformed));
    assert_eq!(Passwords::try_from_slice(&[0, 0, 0, 0, 0]), Err(PasswordsError::Malformed));
}

#[test]
fn truncated_bytes_are_malformed() {
    let bytes = store(vec![entry(1, "pw", "note")]).try_to_vec().unwrap();
    for cut in 0..bytes.len() {
        assert_eq!(
            Passwords::try_from_slice(&bytes[..cut]),
            Err(PasswordsError::Malformed),
            "cut at {}",
            cut
        );
    }
}

#[test]
fn a_count_beyond_the_entries_is_malformed() {
    let mut bytes = store(vec![entry(1, "pw", "note")]).try_to_vec().unwrap();
    bytes[0] = 2;
    assert_eq!(Passwords::try_from_slice(&bytes), Err(PasswordsError::Malformed));
    assert_eq!(
        Passwords::try_from_slice(&[0xff, 0xff, 0xff, 0xff]),
        Err(PasswordsError::Malformed)
    );
}

#[test]
fn a_string_longer_than_the_bytes_is_malformed() {
    let bytes = vec![1, 0, 0, 0, 1, 0, 0, 0, 0xff, 0xff, 0xff, 0xff, b'p', 0, 0, 0, 0];
    assert_eq!(Passwords::try_from_slice(&bytes), Err(PasswordsError::Malformed));
}

#[test]
fn invalid_utf8_is_malformed() {
    let bytes = vec![1, 0, 0, 0, 1, 0, 0, 0, 2, 0, 0, 0, 0xc3, 0x28, 0, 0, 0, 0];
    assert_eq!(Passwords::try_from_slice(&bytes), Err(PasswordsError::Malformed));
    let bytes = vec![1, 0, 0, 0, 1, 0, 0, 0, 0, 0, 0, 0, 1, 0, 0, 0, 0xff];
    assert_eq!(Passwords::try_from_slice(&bytes), Err(PasswordsError::Malformed));
}
