//! Random secrets for new entries.
//!
//! The characters come from the `passwords` crate's generator and the
//! length from `rand`; this module holds the rules that the generator is
//! given and what is known of every secret that it returns.

use rand::Rng;
use vstd::prelude::*;

verus! {

/// A digit, `0` to `9`.
pub open spec fn is_number(c: char) -> bool {
    0x30 <= c as u32 <= 0x39
}

/// A letter `a` to `z`.
pub open spec fn is_lowercase_letter(c: char) -> bool {
    0x61 <= c as u32 <= 0x7A
}

/// A letter `A` to `Z`.
pub open spec fn is_uppercase_letter(c: char) -> bool {
    0x41 <= c as u32 <= 0x5A
}

/// A printable ASCII character that is no digit, letter or space.
pub open spec fn is_symbol(c: char) -> bool {
    let u = c as u32;
    0x21 <= u <= 0x2F || 0x3A <= u <= 0x40 || 0x5B <= u <= 0x60 || 0x7B <= u <= 0x7E
}

/// What the generator is asked for: a length, and the kinds of characters
/// that a secret may hold or, under `strict`, must hold.
#[derive(Debug, Clone, Copy)]
pub struct PasswordRules {
    pub length: usize,
    pub numbers: bool,
    pub lowercase_letters: bool,
    pub uppercase_letters: bool,
    pub symbols: bool,
    pub spaces: bool,
    pub exclude_similar_characters: bool,
    pub strict: bool,
}

impl PasswordRules {
    /// The number of kinds of characters that the rules admit.
    pub open spec fn kinds(&self) -> nat {
        let one = |b: bool| -> nat { if b { 1nat } else { 0nat } };
        one(self.numbers) + one(self.lowercase_letters) + one(self.uppercase_letters) + one(
            self.symbols,
        ) + one(self.spaces)
    }

    /// The generator accepts the rules: a length above zero, at least one
    /// kind of characters and, under `strict`, room for one of each kind.
    pub open spec fn can_generate(&self) -> bool {
        &&& self.length > 0
        &&& self.kinds() > 0
        &&& self.strict ==> self.length >= self.kinds()
    }

    /// `c` is of a kind that the rules admit.
    pub open spec fn allows(&self, c: char) -> bool {
        ||| self.numbers && is_number(c)
        ||| self.lowercase_letters && is_lowercase_letter(c)
        ||| self.uppercase_letters && is_uppercase_letter(c)
        ||| self.symbols && is_symbol(c)
        ||| self.spaces && c == ' '
    }

    /// `secret` holds a character of every kind that the rules admit.
    pub open spec fn covers(&self, secret: Seq<char>) -> bool {
        &&& self.numbers ==> exists|i: int| 0 <= i < secret.len() && is_number(#[trigger] secret[i])
        &&& self.lowercase_letters ==> exists|i: int|
            0 <= i < secret.len() && is_lowercase_letter(#[trigger] secret[i])
        &&& self.uppercase_letters ==> exists|i: int|
            0 <= i < secret.len() && is_uppercase_letter(#[trigger] secret[i])
        &&& self.symbols ==> exists|i: int| 0 <= i < secret.len() && is_symbol(#[trigger] secret[i])
        &&& self.spaces ==> exists|i: int| 0 <= i < secret.len() && #[trigger] secret[i] == ' '
    }

    /// `secret` is one that the generator may return for the rules.
    pub open spec fn generates(&self, secret: Seq<char>) -> bool {
        &&& secret.len() == self.length
        &&& forall|i: int| 0 <= i < secret.len() ==> self.allows(#[trigger] secret[i])
        &&& self.strict ==> self.covers(secret)
    }
}

/// Calls `rand::Rng::gen_range` on the thread's generator with the range
/// from `low` up to, not including, `high`. The number is in that range;
/// an empty range makes the call panic.
#[verifier::external_body]
fn random_in_range(low: usize, high: usize) -> (n: usize)
    requires
        low < high,
    ensures
        low <= n < high,
{
    rand::thread_rng().gen_range(low..high)
}

/// Calls `passwords::PasswordGenerator::generate_one` with the rules. The
/// generator refuses a length of zero, rules without a kind of characters
/// and strict rules with more kinds than the length. A secret that it
/// returns has the length asked for, holds only characters of the kinds
/// admitted and, under `strict`, one of each kind at least.
#[verifier::external_body]
fn generate_one(rules: &PasswordRules) -> (secret: Option<String>)
    ensures
        secret is Some <==> rules.can_generate(),
        secret matches Some(s) ==> rules.generates(s@),
{
    let generator = ::passwords::PasswordGenerator {
        length: rules.length,
        numbers: rules.numbers,
        lowercase_letters: rules.lowercase_letters,
        uppercase_letters: rules.uppercase_letters,
        symbols: rules.symbols,
        spaces: rules.spaces,
        exclude_similar_characters: rules.exclude_similar_characters,
        strict: rules.strict,
    };
    generator.generate_one().ok()
}

/// The shortest secret that an entry is given.
pub const MIN_SECRET_LENGTH: usize = 12;

/// The length that no generated secret reaches.
pub const SECRET_LENGTH_LIMIT: usize = 20;

/// The rules for an entry's secret of the given length: digits, letters
/// of both cases and symbols, one of each at least, and no spaces.
pub open spec fn secret_rules(length: usize) -> PasswordRules {
    PasswordRules {
        length,
        numbers: true,
        lowercase_letters: true,
        uppercase_letters: true,
        symbols: true,
        spaces: false,
        exclude_similar_characters: false,
        strict: true,
    }
}

/// `secret` is one that [`generate_password`] may return.
pub open spec fn is_generated_secret(secret: Seq<char>) -> bool {
    &&& MIN_SECRET_LENGTH <= secret.len() < SECRET_LENGTH_LIMIT
    &&& secret_rules(secret.len() as usize).generates(secret)
}

/// A random secret of 12 to 19 characters.
pub fn generate_password() -> (secret: String)
    ensures
        is_generated_secret(secret@),
{
    let length = random_in_range(MIN_SECRET_LENGTH, SECRET_LENGTH_LIMIT);
    let rules = PasswordRules {
        length,
        numbers: true,
        lowercase_letters: true,
        uppercase_letters: true,
        symbols: true,
        spaces: false,
        exclude_similar_characters: false,
        strict: true,
    };
    match generate_one(&rules) {
        Some(secret) => secret,
        None => unreached(),
    }
}

} // verus!
