//! The binary form of an entry store.
//!
//! The form is that of borsh for a vector of `(i32, String, String)`: the
//! number of entries as four little-endian bytes, then each entry as its
//! id in four little-endian bytes followed by the secret and the notes,
//! each as its length in bytes (four little-endian bytes) and its UTF-8
//! bytes. Integers and strings are written and read by borsh; this module
//! lays them out and proves that what it writes, it reads back.

use crate::passwords::{views, Password, PasswordView, Passwords, PasswordsError};
use borsh::BorshDeserialize;
use vstd::prelude::*;
use vstd::slice::slice_subrange;
use vstd::utf8::{decode_utf8, encode_utf8, valid_utf8};

verus! {

/// The four bytes of `value`, least significant first.
pub open spec fn le_u32(value: u32) -> Seq<u8> {
    seq![
        (value % 256) as u8,
        (value / 256 % 256) as u8,
        (value / 65536 % 256) as u8,
        (value / 16777216) as u8,
    ]
}

/// The number that four bytes spell, least significant first.
pub open spec fn u32_of_le(bytes: Seq<u8>) -> u32
    recommends
        bytes.len() == 4,
{
    (bytes[0] + bytes[1] * 256 + bytes[2] * 65536 + bytes[3] * 16777216) as u32
}

/// `value` as an unsigned number, in two's complement.
pub open spec fn unsigned(value: i32) -> u32 {
    if value >= 0 {
        value as u32
    } else {
        (value + 0x1_0000_0000) as u32
    }
}

/// The signed number that `value` stands for in two's complement.
pub open spec fn signed(value: u32) -> i32 {
    if value < 0x8000_0000 {
        value as i32
    } else {
        (value - 0x1_0000_0000) as i32
    }
}

/// The four bytes of `value` in two's complement, least significant first.
pub open spec fn le_i32(value: i32) -> Seq<u8> {
    le_u32(unsigned(value))
}

/// The signed number that four bytes spell, least significant first.
pub open spec fn i32_of_le(bytes: Seq<u8>) -> i32
    recommends
        bytes.len() == 4,
{
    signed(u32_of_le(bytes))
}

/// The number of bytes that `text` takes in UTF-8.
pub open spec fn utf8_len(text: Seq<char>) -> nat {
    encode_utf8(text).len()
}

/// The bytes of a string: its length in bytes, then its UTF-8 bytes.
pub open spec fn encode_string(text: Seq<char>) -> Seq<u8> {
    le_u32(utf8_len(text) as u32) + encode_utf8(text)
}

/// The bytes of one entry: id, secret, notes.
pub open spec fn encode_entry(entry: PasswordView) -> Seq<u8> {
    le_i32(entry.id) + encode_string(entry.password) + encode_string(entry.notes)
}

/// The bytes of the entries, one after the other.
pub open spec fn encode_entries(entries: Seq<PasswordView>) -> Seq<u8>
    decreases entries.len(),
{
    if entries.len() == 0 {
        Seq::empty()
    } else {
        encode_entry(entries[0]) + encode_entries(entries.drop_first())
    }
}

/// The bytes of a store: the number of entries, then the entries.
pub open spec fn encode_store(entries: Seq<PasswordView>) -> Seq<u8> {
    le_u32(entries.len() as u32) + encode_entries(entries)
}

/// The number of bytes of the binary form of one entry: its id, and each
/// of its two strings behind the four bytes of its length.
pub open spec fn entry_size(entry: PasswordView) -> nat {
    12 + utf8_len(entry.password) + utf8_len(entry.notes)
}

/// The number of bytes of the binary forms of the entries.
pub open spec fn entries_size(entries: Seq<PasswordView>) -> nat
    decreases entries.len(),
{
    if entries.len() == 0 {
        0
    } else {
        entry_size(entries[0]) + entries_size(entries.drop_first())
    }
}

/// The entry's strings are short enough for their 32-bit lengths.
pub open spec fn entry_fits(entry: PasswordView) -> bool {
    utf8_len(entry.password) <= u32::MAX && utf8_len(entry.notes) <= u32::MAX
}

/// The store has a binary form: the number of entries and the length of
/// every string fit in 32 bits.
pub open spec fn encodable(entries: Seq<PasswordView>) -> bool {
    &&& entries.len() <= u32::MAX
    &&& forall|i: int| 0 <= i < entries.len() ==> entry_fits(#[trigger] entries[i])
}

/// The string that a frame holds: the frame is four bytes of length and
/// exactly that many bytes of valid UTF-8.
pub open spec fn string_of_frame(frame: Seq<u8>) -> Option<Seq<char>> {
    if frame.len() >= 4 && frame.len() - 4 == u32_of_le(frame.subrange(0, 4)) && valid_utf8(
        frame.subrange(4, frame.len() as int),
    ) {
        Some(decode_utf8(frame.subrange(4, frame.len() as int)))
    } else {
        None
    }
}

/// The string that stands at `pos` in `bytes`, and where it ends.
pub open spec fn parse_string(bytes: Seq<u8>, pos: int) -> Option<(Seq<char>, int)> {
    if 0 <= pos && pos + 4 <= bytes.len() {
        let end = pos + 4 + u32_of_le(bytes.subrange(pos, pos + 4));
        if end <= bytes.len() {
            match string_of_frame(bytes.subrange(pos, end)) {
                Some(text) => Some((text, end)),
                None => None,
            }
        } else {
            None
        }
    } else {
        None
    }
}

/// The entry that stands at `pos` in `bytes`, and where it ends.
pub open spec fn parse_entry(bytes: Seq<u8>, pos: int) -> Option<(PasswordView, int)> {
    if 0 <= pos && pos + 4 <= bytes.len() {
        match parse_string(bytes, pos + 4) {
            Some((password, after_password)) => match parse_string(bytes, after_password) {
                Some((notes, end)) => Some(
                    (
                        PasswordView {
                            id: i32_of_le(bytes.subrange(pos, pos + 4)),
                            password,
                            notes,
                        },
                        end,
                    ),
                ),
                None => None,
            },
            None => None,
        }
    } else {
        None
    }
}

/// The `count` entries that stand at `pos` in `bytes`, and where they end.
pub open spec fn parse_entries(bytes: Seq<u8>, pos: int, count: nat) -> Option<
    (Seq<PasswordView>, int),
>
    decreases count,
{
    if count == 0 {
        Some((Seq::empty(), pos))
    } else {
        match parse_entry(bytes, pos) {
            Some((entry, next)) => match parse_entries(bytes, next, (count - 1) as nat) {
                Some((rest, end)) => Some((seq![entry] + rest, end)),
                None => None,
            },
            None => None,
        }
    }
}

/// The store that `bytes` encode: a count and that many entries, with no
/// byte left over.
pub open spec fn decode_store(bytes: Seq<u8>) -> Option<Seq<PasswordView>> {
    if bytes.len() >= 4 {
        match parse_entries(bytes, 4, u32_of_le(bytes.subrange(0, 4)) as nat) {
            Some((entries, end)) => if end == bytes.len() {
                Some(entries)
            } else {
                None
            },
            None => None,
        }
    } else {
        None
    }
}

/// Calls `borsh::to_vec` on a `u32`: its four bytes, least significant
/// first. Writing to a vector does not fail.
#[verifier::external_body]
fn borsh_u32(value: u32) -> (bytes: Vec<u8>)
    ensures
        bytes@ == le_u32(value),
{
    borsh::to_vec(&value).unwrap_or_default()
}

/// Calls `borsh::to_vec` on an `i32`: its four bytes in two's complement,
/// least significant first. Writing to a vector does not fail.
#[verifier::external_body]
fn borsh_i32(value: i32) -> (bytes: Vec<u8>)
    ensures
        bytes@ == le_i32(value),
{
    borsh::to_vec(&value).unwrap_or_default()
}

/// Calls `borsh::to_vec` on a string: the length of its UTF-8 form as a
/// `u32`, then that form. borsh refuses a length that no `u32` holds.
#[verifier::external_body]
fn borsh_string(text: &str) -> (bytes: Option<Vec<u8>>)
    ensures
        match bytes {
            Some(bytes) => utf8_len(text@) <= u32::MAX && bytes@ == encode_string(text@),
            None => utf8_len(text@) > u32::MAX,
        },
{
    borsh::to_vec(text).ok()
}

/// Calls borsh's `try_from_slice` for `u32`, which takes exactly four
/// bytes and reads them least significant first.
#[verifier::external_body]
fn borsh_read_u32(bytes: &[u8]) -> (value: Option<u32>)
    ensures
        value == if bytes@.len() == 4 {
            Some(u32_of_le(bytes@))
        } else {
            None
        },
{
    u32::try_from_slice(bytes).ok()
}

/// Calls borsh's `try_from_slice` for `i32`, which takes exactly four
/// bytes and reads them least significant first, in two's complement.
#[verifier::external_body]
fn borsh_read_i32(bytes: &[u8]) -> (value: Option<i32>)
    ensures
        value == if bytes@.len() == 4 {
            Some(i32_of_le(bytes@))
        } else {
            None
        },
{
    i32::try_from_slice(bytes).ok()
}

/// Calls borsh's `try_from_slice` for `String`, which takes a length as a
/// `u32` followed by exactly that many bytes, and refuses bytes that are
/// not valid UTF-8.
#[verifier::external_body]
fn borsh_read_string(frame: &[u8]) -> (text: Option<String>)
    ensures
        match text {
            Some(text) => string_of_frame(frame@) == Some(text@),
            None => string_of_frame(frame@) is None,
        },
{
    String::try_from_slice(frame).ok()
}

/// Four bytes spell the number that they were made from.
pub proof fn lemma_u32_round_trip(value: u32)
    ensures
        le_u32(value).len() == 4,
        u32_of_le(le_u32(value)) == value,
{
}

/// Four bytes spell the signed number that they were made from.
pub proof fn lemma_i32_round_trip(value: i32)
    ensures
        le_i32(value).len() == 4,
        i32_of_le(le_i32(value)) == value,
{
    lemma_u32_round_trip(unsigned(value));
}

/// The binary form of a store is as long as its count and its entries
/// are.
pub proof fn lemma_encoded_size(entries: Seq<PasswordView>)
    ensures
        encode_entries(entries).len() == entries_size(entries),
        encode_store(entries).len() == 4 + entries_size(entries),
    decreases entries.len(),
{
    if entries.len() > 0 {
        lemma_encoded_size(entries.drop_first());
    }
}

/// Entries without one of them take as many bytes fewer as that one
/// takes, and fit their 32-bit lengths if all of them did.
pub proof fn lemma_removed_size(entries: Seq<PasswordView>, k: int)
    requires
        0 <= k < entries.len(),
    ensures
        entries_size(entries.remove(k)) + entry_size(entries[k]) == entries_size(entries),
        encodable(entries) ==> encodable(entries.remove(k)),
    decreases entries.len(),
{
    let rest = entries.remove(k);
    if k == 0 {
        assert(rest =~= entries.drop_first());
    } else {
        assert(rest[0] == entries[0]);
        assert(rest.drop_first() =~= entries.drop_first().remove(k - 1));
        lemma_removed_size(entries.drop_first(), k - 1);
    }
    if encodable(entries) {
        assert forall|i: int| 0 <= i < rest.len() implies entry_fits(#[trigger] rest[i]) by {
            if i < k {
                assert(rest[i] == entries[i]);
            } else {
                assert(rest[i] == entries[i + 1]);
            }
        }
    }
}

/// The bytes of entries followed by one more are the bytes of the
/// entries followed by the bytes of that one.
pub proof fn lemma_encode_entries_push(entries: Seq<PasswordView>, entry: PasswordView)
    ensures
        encode_entries(entries.push(entry)) == encode_entries(entries) + encode_entry(entry),
    decreases entries.len(),
{
    let longer = entries.push(entry);
    if entries.len() == 0 {
        assert(longer.drop_first() =~= Seq::<PasswordView>::empty());
        assert(encode_entries(longer.drop_first()) =~= Seq::<u8>::empty());
        assert(encode_entries(longer) =~= encode_entry(entry));
        assert(encode_entries(entries) + encode_entry(entry) =~= encode_entry(entry));
    } else {
        assert(longer.drop_first() =~= entries.drop_first().push(entry));
        lemma_encode_entries_push(entries.drop_first(), entry);
        assert(encode_entries(longer) =~= encode_entries(entries) + encode_entry(entry));
    }
}

/// `piece` stands at `pos` in `bytes`.
pub open spec fn stands_at(bytes: Seq<u8>, pos: int, piece: Seq<u8>) -> bool {
    0 <= pos && pos + piece.len() <= bytes.len() && bytes.subrange(pos, pos + piece.len()) == piece
}

/// Where two pieces stand one after the other, each stands in its place.
proof fn lemma_stands_at_split(bytes: Seq<u8>, pos: int, first: Seq<u8>, second: Seq<u8>)
    requires
        stands_at(bytes, pos, first + second),
    ensures
        stands_at(bytes, pos, first),
        stands_at(bytes, pos + first.len(), second),
{
    let both = first + second;
    assert(bytes.subrange(pos, pos + first.len()) =~= both.subrange(0, first.len() as int));
    assert(both.subrange(0, first.len() as int) =~= first);
    assert(bytes.subrange(pos + first.len(), pos + first.len() + second.len()) =~= both.subrange(
        first.len() as int,
        both.len() as int,
    ));
    assert(both.subrange(first.len() as int, both.len() as int) =~= second);
}

/// A string is read back from where its bytes stand.
proof fn lemma_parse_string(bytes: Seq<u8>, pos: int, text: Seq<char>)
    requires
        utf8_len(text) <= u32::MAX,
        stands_at(bytes, pos, encode_string(text)),
    ensures
        encode_string(text).len() == 4 + utf8_len(text),
        parse_string(bytes, pos) == Some((text, pos + encode_string(text).len())),
{
    broadcast use vstd::utf8::encode_utf8_valid_utf8, vstd::utf8::encode_utf8_decode_utf8;

    let length = utf8_len(text) as u32;
    lemma_u32_round_trip(length);
    lemma_stands_at_split(bytes, pos, le_u32(length), encode_utf8(text));
    let end = pos + 4 + length;
    let frame = bytes.subrange(pos, end);
    assert(frame == encode_string(text));
    assert(frame.subrange(0, 4) =~= le_u32(length));
    assert(frame.subrange(4, frame.len() as int) =~= encode_utf8(text));
}

/// An entry is read back from where its bytes stand.
proof fn lemma_parse_entry(bytes: Seq<u8>, pos: int, entry: PasswordView)
    requires
        entry_fits(entry),
        stands_at(bytes, pos, encode_entry(entry)),
    ensures
        parse_entry(bytes, pos) == Some((entry, pos + encode_entry(entry).len())),
{
    let id = le_i32(entry.id);
    let password = encode_string(entry.password);
    let notes = encode_string(entry.notes);
    lemma_i32_round_trip(entry.id);
    lemma_stands_at_split(bytes, pos, id + password, notes);
    lemma_stands_at_split(bytes, pos, id, password);
    lemma_parse_string(bytes, pos + 4, entry.password);
    lemma_parse_string(bytes, pos + 4 + password.len(), entry.notes);
}

/// Entries are read back from where their bytes stand.
proof fn lemma_parse_entries(bytes: Seq<u8>, pos: int, entries: Seq<PasswordView>)
    requires
        forall|i: int| 0 <= i < entries.len() ==> entry_fits(#[trigger] entries[i]),
        stands_at(bytes, pos, encode_entries(entries)),
    ensures
        parse_entries(bytes, pos, entries.len()) == Some(
            (entries, pos + encode_entries(entries).len()),
        ),
    decreases entries.len(),
{
    if entries.len() == 0 {
        assert(entries =~= Seq::<PasswordView>::empty());
    } else {
        let first = entries[0];
        let rest = entries.drop_first();
        lemma_stands_at_split(bytes, pos, encode_entry(first), encode_entries(rest));
        lemma_parse_entry(bytes, pos, first);
        assert forall|i: int| 0 <= i < rest.len() implies entry_fits(#[trigger] rest[i]) by {
            assert(rest[i] == entries[i + 1]);
        }
        lemma_parse_entries(bytes, pos + encode_entry(first).len(), rest);
        assert(seq![first] + rest =~= entries);
    }
}

/// Decoding what was encoded gives the store back.
pub proof fn lemma_decode_encode(entries: Seq<PasswordView>)
    requires
        encodable(entries),
    ensures
        decode_store(encode_store(entries)) == Some(entries),
{
    let count = entries.len() as u32;
    let bytes = encode_store(entries);
    lemma_u32_round_trip(count);
    assert(bytes.subrange(0, 4) =~= le_u32(count));
    assert(bytes.subrange(4, bytes.len() as int) =~= encode_entries(entries));
    lemma_parse_entries(bytes, 4, entries);
}

/// A string that was read fits its 32-bit length.
proof fn lemma_parsed_string_fits(bytes: Seq<u8>, pos: int)
    requires
        parse_string(bytes, pos) is Some,
    ensures
        utf8_len((parse_string(bytes, pos)->0).0) <= u32::MAX,
{
    let end = pos + 4 + u32_of_le(bytes.subrange(pos, pos + 4));
    let frame = bytes.subrange(pos, end);
    vstd::utf8::decode_utf8_encode_utf8(frame.subrange(4, frame.len() as int));
}

/// Entries that were read fit their 32-bit lengths, and are as many as
/// were asked for.
proof fn lemma_parsed_entries_fit(bytes: Seq<u8>, pos: int, count: nat)
    requires
        parse_entries(bytes, pos, count) is Some,
    ensures
        (parse_entries(bytes, pos, count)->0).0.len() == count,
        forall|i: int|
            0 <= i < count ==> entry_fits(#[trigger] (parse_entries(bytes, pos, count)->0).0[i]),
    decreases count,
{
    if count > 0 {
        let (entry, next) = parse_entry(bytes, pos)->0;
        lemma_parsed_string_fits(bytes, pos + 4);
        let after_password = (parse_string(bytes, pos + 4)->0).1;
        lemma_parsed_string_fits(bytes, after_password);
        lemma_parsed_entries_fit(bytes, next, (count - 1) as nat);
        let rest = (parse_entries(bytes, next, (count - 1) as nat)->0).0;
        let all = (parse_entries(bytes, pos, count)->0).0;
        assert(all == seq![entry] + rest);
        assert forall|i: int| 0 <= i < count implies entry_fits(#[trigger] all[i]) by {
            if i > 0 {
                assert(all[i] == rest[i - 1]);
            }
        }
    }
}

/// A store that was decoded can be encoded.
pub proof fn lemma_decoded_is_encodable(bytes: Seq<u8>)
    requires
        decode_store(bytes) is Some,
    ensures
        encodable(decode_store(bytes)->0),
{
    lemma_parsed_entries_fit(bytes, 4, u32_of_le(bytes.subrange(0, 4)) as nat);
}

/// Four bytes are the bytes of the number that they spell.
pub proof fn lemma_bytes_round_trip(bytes: Seq<u8>)
    requires
        bytes.len() == 4,
    ensures
        le_u32(u32_of_le(bytes)) == bytes,
        le_i32(i32_of_le(bytes)) == bytes,
{
    let b0 = bytes[0] as int;
    let b1 = bytes[1] as int;
    let b2 = bytes[2] as int;
    let b3 = bytes[3] as int;
    let value = u32_of_le(bytes) as int;
    assert(value == b0 + b1 * 256 + b2 * 65536 + b3 * 16777216);
    vstd::arithmetic::div_mod::lemma_fundamental_div_mod_converse(
        value,
        256,
        b1 + b2 * 256 + b3 * 65536,
        b0,
    );
    vstd::arithmetic::div_mod::lemma_fundamental_div_mod_converse(
        value / 256,
        256,
        b2 + b3 * 256,
        b1,
    );
    vstd::arithmetic::div_mod::lemma_fundamental_div_mod_converse(
        value,
        65536,
        b2 + b3 * 256,
        b0 + b1 * 256,
    );
    vstd::arithmetic::div_mod::lemma_fundamental_div_mod_converse(b2 + b3 * 256, 256, b3, b2);
    vstd::arithmetic::div_mod::lemma_fundamental_div_mod_converse(
        value,
        16777216,
        b3,
        b0 + b1 * 256 + b2 * 65536,
    );
    assert(le_u32(u32_of_le(bytes)) =~= bytes);
}

/// A string that was read stands, in its binary form, where it was read.
proof fn lemma_parsed_string_stands(bytes: Seq<u8>, pos: int)
    requires
        parse_string(bytes, pos) is Some,
    ensures
        stands_at(bytes, pos, encode_string((parse_string(bytes, pos)->0).0)),
        (parse_string(bytes, pos)->0).1 == pos + encode_string((parse_string(bytes, pos)->0).0).len(),
{
    let end = pos + 4 + u32_of_le(bytes.subrange(pos, pos + 4));
    let frame = bytes.subrange(pos, end);
    let text = (parse_string(bytes, pos)->0).0;
    vstd::utf8::decode_utf8_encode_utf8(frame.subrange(4, frame.len() as int));
    lemma_bytes_round_trip(frame.subrange(0, 4));
    assert(encode_string(text) =~= frame);
}

/// An entry that was read stands, in its binary form, where it was read.
proof fn lemma_parsed_entry_stands(bytes: Seq<u8>, pos: int)
    requires
        parse_entry(bytes, pos) is Some,
    ensures
        stands_at(bytes, pos, encode_entry((parse_entry(bytes, pos)->0).0)),
        (parse_entry(bytes, pos)->0).1 == pos + encode_entry((parse_entry(bytes, pos)->0).0).len(),
{
    let end = (parse_entry(bytes, pos)->0).1;
    let after_password = (parse_string(bytes, pos + 4)->0).1;
    lemma_bytes_round_trip(bytes.subrange(pos, pos + 4));
    lemma_parsed_string_stands(bytes, pos + 4);
    lemma_parsed_string_stands(bytes, after_password);
    assert(bytes.subrange(pos, end) =~= bytes.subrange(pos, pos + 4) + bytes.subrange(
        pos + 4,
        after_password,
    ) + bytes.subrange(after_password, end));
}

/// Entries that were read stand, in their binary form, where they were
/// read.
proof fn lemma_parsed_entries_stand(bytes: Seq<u8>, pos: int, count: nat)
    requires
        0 <= pos <= bytes.len(),
        parse_entries(bytes, pos, count) is Some,
    ensures
        stands_at(bytes, pos, encode_entries((parse_entries(bytes, pos, count)->0).0)),
        (parse_entries(bytes, pos, count)->0).1 == pos + encode_entries(
            (parse_entries(bytes, pos, count)->0).0,
        ).len(),
    decreases count,
{
    let entries = (parse_entries(bytes, pos, count)->0).0;
    let end = (parse_entries(bytes, pos, count)->0).1;
    if count == 0 {
        assert(bytes.subrange(pos, pos) =~= encode_entries(entries));
    } else {
        let entry = (parse_entry(bytes, pos)->0).0;
        let next = (parse_entry(bytes, pos)->0).1;
        let rest = (parse_entries(bytes, next, (count - 1) as nat)->0).0;
        lemma_parsed_entry_stands(bytes, pos);
        lemma_parsed_entries_stand(bytes, next, (count - 1) as nat);
        assert(entries == seq![entry] + rest);
        assert(entries.drop_first() =~= rest);
        assert(bytes.subrange(pos, end) =~= bytes.subrange(pos, next) + bytes.subrange(next, end));
    }
}

/// Bytes that decode to a store are the binary form of that store, byte
/// for byte: no two byte strings decode to the same store.
pub proof fn lemma_encode_decode(bytes: Seq<u8>)
    requires
        decode_store(bytes) is Some,
    ensures
        encode_store(decode_store(bytes)->0) == bytes,
{
    let count = u32_of_le(bytes.subrange(0, 4));
    lemma_bytes_round_trip(bytes.subrange(0, 4));
    lemma_parsed_entries_fit(bytes, 4, count as nat);
    lemma_parsed_entries_stand(bytes, 4, count as nat);
}

/// Reads the string that stands at `pos`.
fn read_string(bytes: &[u8], pos: usize) -> (r: Option<(String, usize)>)
    requires
        pos <= bytes@.len(),
    ensures
        match r {
            Some((text, end)) => parse_string(bytes@, pos as int) == Some((text@, end as int))
                && end <= bytes@.len(),
            None => parse_string(bytes@, pos as int) is None,
        },
{
    if bytes.len() - pos < 4 {
        return None;
    }
    let length = match borsh_read_u32(slice_subrange(bytes, pos, pos + 4)) {
        Some(length) => length,
        None => unreached(),
    };
    if bytes.len() - pos - 4 < length as usize {
        return None;
    }
    let end = pos + 4 + length as usize;
    match borsh_read_string(slice_subrange(bytes, pos, end)) {
        Some(text) => Some((text, end)),
        None => None,
    }
}

/// Reads the entry that stands at `pos`.
fn read_entry(bytes: &[u8], pos: usize) -> (r: Option<(Password, usize)>)
    requires
        pos <= bytes@.len(),
    ensures
        match r {
            Some((entry, end)) => parse_entry(bytes@, pos as int) == Some((entry@, end as int))
                && end <= bytes@.len(),
            None => parse_entry(bytes@, pos as int) is None,
        },
{
    if bytes.len() - pos < 4 {
        return None;
    }
    let id = match borsh_read_i32(slice_subrange(bytes, pos, pos + 4)) {
        Some(id) => id,
        None => unreached(),
    };
    let (password, after_password) = match read_string(bytes, pos + 4) {
        Some(read) => read,
        None => {
            return None;
        },
    };
    let (notes, end) = match read_string(bytes, after_password) {
        Some(read) => read,
        None => {
            return None;
        },
    };
    Some((Password::new(id, password, notes), end))
}

impl Passwords {
    /// The binary form of the store, or `TooLarge` where it has none.
    pub fn try_to_vec(&self) -> (r: Result<Vec<u8>, PasswordsError>)
        ensures
            match r {
                Ok(bytes) => encodable(self@) && bytes@ == encode_store(self@),
                Err(e) => e == PasswordsError::TooLarge && !encodable(self@),
            },
    {
        let n = self.inner.len();
        if n > u32::MAX as usize {
            return Err(PasswordsError::TooLarge);
        }
        let mut bytes = borsh_u32(n as u32);
        let mut i: usize = 0;
        while i < n
            invariant
                n == self.inner@.len(),
                n <= u32::MAX,
                i <= n,
                bytes@ == le_u32(n as u32) + encode_entries(self@.subrange(0, i as int)),
                forall|j: int| 0 <= j < i ==> entry_fits(#[trigger] self@[j]),
            decreases n - i,
        {
            let entry = &self.inner[i];
            let mut id = borsh_i32(entry.id);
            let mut password = match borsh_string(entry.password.as_str()) {
                Some(password) => password,
                None => {
                    return Err(PasswordsError::TooLarge);
                },
            };
            let mut notes = match borsh_string(entry.notes.as_str()) {
                Some(notes) => notes,
                None => {
                    return Err(PasswordsError::TooLarge);
                },
            };
            proof {
                lemma_encode_entries_push(self@.subrange(0, i as int), self@[i as int]);
                assert(self@.subrange(0, i + 1) =~= self@.subrange(0, i as int).push(
                    self@[i as int],
                ));
            }
            bytes.append(&mut id);
            bytes.append(&mut password);
            bytes.append(&mut notes);
            i = i + 1;
        }
        assert(self@.subrange(0, n as int) =~= self@);
        Ok(bytes)
    }

    /// The store that `bytes` encode, or `Malformed` where they encode
    /// none.
    pub fn try_from_slice(bytes: &[u8]) -> (r: Result<Passwords, PasswordsError>)
        ensures
            match r {
                Ok(store) => decode_store(bytes@) == Some(store@) && encodable(store@),
                Err(e) => e == PasswordsError::Malformed && decode_store(bytes@) is None,
            },
    {
        if bytes.len() < 4 {
            return Err(PasswordsError::Malformed);
        }
        let count = match borsh_read_u32(slice_subrange(bytes, 0, 4)) {
            Some(count) => count,
            None => unreached(),
        };
        let mut inner: Vec<Password> = Vec::new();
        let mut pos: usize = 4;
        let mut i: u32 = 0;
        while i < count
            invariant
                i <= count,
                4 <= pos <= bytes@.len(),
                count == u32_of_le(bytes@.subrange(0, 4)),
                parse_entries(bytes@, 4, count as nat) == match parse_entries(
                    bytes@,
                    pos as int,
                    (count - i) as nat,
                ) {
                    Some((rest, end)) => Some((views(inner@) + rest, end)),
                    None => None,
                },
            decreases count - i,
        {
            let (entry, next) = match read_entry(bytes, pos) {
                Some(read) => read,
                None => {
                    return Err(PasswordsError::Malformed);
                },
            };
            inner.push(entry);
            pos = next;
            i = i + 1;
        }
        if pos != bytes.len() {
            return Err(PasswordsError::Malformed);
        }
        proof {
            lemma_decoded_is_encodable(bytes@);
        }
        Ok(Passwords { inner })
    }
}

} // verus!
