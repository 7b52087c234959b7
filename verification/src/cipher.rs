//! Sealing and opening byte strings under a passphrase.
//!
//! The sealed form is a cocoon container: a 60-byte prefix (header and
//! authentication tag) in front of the encrypted data. The key is the raw
//! passphrase; key derivation and authentication belong to the primitive.

use vstd::prelude::*;
use vstd::slice::slice_subrange;

verus! {

/// The size of a container's prefix: 44 bytes of header, 16 of tag.
pub const PREFIX_SIZE: usize = 60;

/// Where the header holds the length of the data, as 8 big-endian bytes.
pub const LENGTH_OFFSET: usize = 36;

/// The size of the header, which ends with the length of the data.
pub const HEADER_SIZE: usize = 44;

/// The length from which on the cipher refuses data: 64 bytes for each of
/// the 2^32 - 1 blocks that its counter can number.
pub const SEAL_LIMIT: u64 = 0x3F_FFFF_FFC0;

/// `cocoon::Error`, which the primitive returns and this module turns into
/// a [`CipherError`] without looking inside.
#[verifier::external_type_specification]
#[verifier::external_body]
pub struct ExCocoonError(cocoon::Error);

/// What `cocoon::Cocoon::parse` gives for a container under a password:
/// the data it held, or nothing where the primitive refuses the container.
pub uninterp spec fn cocoon_open(password: Seq<u8>, container: Seq<u8>) -> Option<Seq<u8>>;

/// Why sealing or opening failed.
#[derive(Debug, Clone, Copy, PartialEq, Eq, Structural)]
pub enum CipherError {
    /// The container did not open: the key is wrong, or the prefix and
    /// the data that it announces are not those that were sealed. The two
    /// are not told apart. Bytes behind the announced data are not read,
    /// so a container with bytes added at its end opens as without them.
    AuthenticationFailed,
    /// The data are of `SEAL_LIMIT` bytes or more, which the primitive
    /// does not seal.
    SealFailed,
}

/// The number that `bytes` spell, most significant byte first.
pub open spec fn big_endian(bytes: Seq<u8>) -> nat
    decreases bytes.len(),
{
    if bytes.len() == 0 {
        0
    } else {
        big_endian(bytes.drop_last()) * 256 + bytes.last() as nat
    }
}

/// The length of the data that the header of `container` announces.
pub open spec fn declared_length(container: Seq<u8>) -> nat
    recommends
        container.len() >= HEADER_SIZE,
{
    big_endian(container.subrange(LENGTH_OFFSET as int, HEADER_SIZE as int))
}

/// `container` is long enough for a prefix and for the data that its
/// header announces.
pub open spec fn framed(container: Seq<u8>) -> bool {
    container.len() >= PREFIX_SIZE && declared_length(container) <= container.len() - PREFIX_SIZE
}

/// What `container` opens to under `key`: the data that was sealed, or
/// nothing where the key is wrong or the prefix or the announced data are
/// damaged. What stands behind the announced data has no part in it. Data
/// that are opened are shorter than `SEAL_LIMIT`, as all data that were
/// sealed are.
pub open spec fn opened(key: Seq<char>, container: Seq<u8>) -> Option<Seq<u8>> {
    if framed(container) {
        match cocoon_open(vstd::utf8::encode_utf8(key), container) {
            Some(data) => if data.len() < SEAL_LIMIT {
                Some(data)
            } else {
                None
            },
            None => None,
        }
    } else {
        None
    }
}

/// `container` holds `data` sealed under `key`.
pub open spec fn sealed_with(key: Seq<char>, data: Seq<u8>, container: Seq<u8>) -> bool {
    opened(key, container) == Some(data)
}

/// Calls `cocoon::Cocoon::dump` with a vector as the writer. Whatever salt
/// and nonce the primitive draws, a container that it hands back is the
/// prefix followed by as many bytes as the data had, announces that length
/// in its header, and parses under the same password to the data. The
/// writer, a vector, does not fail, and the cipher, ChaCha20-Poly1305,
/// refuses only data of 64 bytes times 2^32 - 1 or more, so shorter data
/// are sealed.
#[verifier::external_body]
fn cocoon_dump(password: &[u8], data: Vec<u8>) -> (r: Result<Vec<u8>, cocoon::Error>)
    ensures
        data@.len() < SEAL_LIMIT ==> r is Ok,
        r matches Ok(container) ==> {
            &&& container@.len() == PREFIX_SIZE + data@.len()
            &&& declared_length(container@) == data@.len()
            &&& cocoon_open(password@, container@) == Some(data@)
        },
{
    let mut container: Vec<u8> = Vec::new();
    match cocoon::Cocoon::new(password).dump(data, &mut container) {
        Ok(()) => Ok(container),
        Err(e) => Err(e),
    }
}

/// Calls `cocoon::Cocoon::parse` with the container as the reader. The
/// primitive allocates as many bytes as the header announces before it
/// reads them, so the container must hold them.
#[verifier::external_body]
fn cocoon_parse(password: &[u8], container: &[u8]) -> (r: Result<Vec<u8>, cocoon::Error>)
    requires
        framed(container@),
    ensures
        match r {
            Ok(data) => cocoon_open(password@, container@) == Some(data@),
            Err(_) => cocoon_open(password@, container@) is None,
        },
{
    let mut reader = container;
    cocoon::Cocoon::new(password).parse(&mut reader)
}

/// A longer byte string spells at least the number of any of its prefixes.
proof fn lemma_big_endian_grows(bytes: Seq<u8>, k: int)
    requires
        0 <= k <= bytes.len(),
    ensures
        big_endian(bytes.subrange(0, k)) <= big_endian(bytes),
    decreases bytes.len() - k,
{
    if k == bytes.len() {
        assert(bytes.subrange(0, k) =~= bytes);
    } else {
        let longer = bytes.subrange(0, k + 1);
        assert(longer.drop_last() =~= bytes.subrange(0, k));
        lemma_big_endian_grows(bytes, k + 1);
    }
}

/// Whether `container` is long enough for its prefix and announced data.
pub fn is_framed(container: &[u8]) -> (b: bool)
    ensures
        b == framed(container@),
{
    if container.len() < PREFIX_SIZE {
        return false;
    }
    let room: u128 = (container.len() - PREFIX_SIZE) as u128;
    let field = slice_subrange(container, LENGTH_OFFSET, HEADER_SIZE);
    let mut length: u128 = 0;
    let mut k: usize = 0;
    while k < 8
        invariant
            PREFIX_SIZE <= container@.len() <= usize::MAX,
            room == container@.len() - PREFIX_SIZE,
            field@ == container@.subrange(LENGTH_OFFSET as int, HEADER_SIZE as int),
            k <= 8,
            length == big_endian(field@.subrange(0, k as int)),
            length <= room,
        decreases 8 - k,
    {
        proof {
            assert(field@.subrange(0, k + 1).drop_last() =~= field@.subrange(0, k as int));
        }
        length = length * 256 + field[k] as u128;
        k = k + 1;
        if length > room {
            proof {
                lemma_big_endian_grows(field@, k as int);
            }
            return false;
        }
    }
    proof {
        assert(field@.subrange(0, 8) =~= field@);
    }
    true
}

/// Seals and opens under one passphrase.
#[derive(Debug)]
pub struct Cipher {
    masterkey: String,
}

impl View for Cipher {
    type V = Seq<char>;

    /// The passphrase.
    closed spec fn view(&self) -> Seq<char> {
        self.masterkey@
    }
}

impl Cipher {
    /// A cipher under `masterkey`.
    pub fn new(masterkey: &str) -> (cipher: Self)
        ensures
            cipher@ == masterkey@,
    {
        Cipher { masterkey: masterkey.to_owned() }
    }

    /// Seals `data`, which succeeds for all data shorter than
    /// `SEAL_LIMIT` and for no other. Each call draws a fresh salt and
    /// nonce, so two containers for the same data differ; each opens to
    /// the data under the same passphrase.
    pub fn dump(&self, data: Vec<u8>) -> (r: Result<Vec<u8>, CipherError>)
        ensures
            r is Ok <==> data@.len() < SEAL_LIMIT,
            match r {
                Ok(container) => sealed_with(self@, data@, container@) && container@.len()
                    == PREFIX_SIZE + data@.len(),
                Err(e) => e == CipherError::SealFailed,
            },
    {
        if data.len() as u64 >= SEAL_LIMIT {
            return Err(CipherError::SealFailed);
        }
        match cocoon_dump(self.masterkey.as_str().as_bytes(), data) {
            Ok(container) => Ok(container),
            Err(_) => Err(CipherError::SealFailed),
        }
    }

    /// Opens `container`: the data that was sealed, or
    /// `AuthenticationFailed` for a wrong key and for a damaged prefix or
    /// damaged data alike. Bytes behind the announced data are not read.
    pub fn parse(&self, container: &[u8]) -> (r: Result<Vec<u8>, CipherError>)
        ensures
            match r {
                Ok(data) => opened(self@, container@) == Some(data@),
                Err(e) => e == CipherError::AuthenticationFailed && opened(self@, container@)
                    is None,
            },
    {
        if !is_framed(container) {
            return Err(CipherError::AuthenticationFailed);
        }
        match cocoon_parse(self.masterkey.as_str().as_bytes(), container) {
            Ok(data) => if (data.len() as u64) < SEAL_LIMIT {
                Ok(data)
            } else {
                Err(CipherError::AuthenticationFailed)
            },
            Err(_) => Err(CipherError::AuthenticationFailed),
        }
    }
}

} // verus!
