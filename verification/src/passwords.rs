//! The entry store: an ordered collection of secret entries, each with an
//! id, a secret and free-form notes.
//!
//! Ids are unique among the entries that the store holds at one time. A new
//! entry takes the largest id in the store plus one, so the id of a deleted
//! entry may come back later.

use crate::generator::{generate_password, is_generated_secret};
use vstd::prelude::*;

verus! {

/// One secret entry.
#[derive(Debug, PartialEq, Eq)]
pub struct Password {
    pub id: i32,
    pub password: String,
    pub notes: String,
}

/// What a [`Password`] holds, as mathematical values.
pub struct PasswordView {
    pub id: i32,
    pub password: Seq<char>,
    pub notes: Seq<char>,
}

impl View for Password {
    type V = PasswordView;

    open spec fn view(&self) -> PasswordView {
        PasswordView { id: self.id, password: self.password@, notes: self.notes@ }
    }
}

impl Clone for Password {
    fn clone(&self) -> (copy: Self)
        ensures
            copy == *self,
    {
        Password { id: self.id, password: self.password.clone(), notes: self.notes.clone() }
    }
}

impl Password {
    /// An entry of the given parts.
    pub fn new(id: i32, password: String, notes: String) -> (entry: Self)
        ensures
            entry.id == id,
            entry.password == password,
            entry.notes == notes,
    {
        Self { id, password, notes }
    }
}

/// Why the entry store could not do what was asked.
#[derive(Debug, Clone, Copy, PartialEq, Eq, Structural)]
pub enum PasswordsError {
    /// The bytes are not the encoding of an entry store.
    Malformed,
    /// The store has more entries, or an entry more bytes, than the
    /// encoding's 32-bit counters can say.
    TooLarge,
    /// The largest id in the store is the largest there is.
    IdsExhausted,
}

/// The entries of a sequence, each by its view.
pub open spec fn views(entries: Seq<Password>) -> Seq<PasswordView> {
    entries.map_values(|entry: Password| entry@)
}

/// No two entries of `entries` share an id.
pub open spec fn distinct_ids(entries: Seq<PasswordView>) -> bool {
    forall|i: int, j: int|
        0 <= i < j < entries.len() ==> (#[trigger] entries[i]).id != (#[trigger] entries[j]).id
}

/// Some entry of `entries` has the id `id`.
pub open spec fn has_id(entries: Seq<PasswordView>, id: i32) -> bool {
    exists|i: int| 0 <= i < entries.len() && (#[trigger] entries[i]).id == id
}

/// The largest id among `entries`, which hold at least one entry.
pub open spec fn max_id(entries: Seq<PasswordView>) -> int
    recommends
        entries.len() > 0,
    decreases entries.len(),
{
    if entries.len() <= 1 {
        entries[0].id as int
    } else {
        let before = max_id(entries.drop_last());
        if before >= entries.last().id {
            before
        } else {
            entries.last().id as int
        }
    }
}

/// The id that the next entry takes: one more than the largest, or 1 in an
/// empty store.
pub open spec fn next_id(entries: Seq<PasswordView>) -> int {
    if entries.len() == 0 {
        1
    } else {
        max_id(entries) + 1
    }
}

/// `entries` with every entry of id `id` replaced by the given secret and
/// notes, each in its place.
pub open spec fn updated(
    entries: Seq<PasswordView>,
    id: i32,
    password: Seq<char>,
    notes: Seq<char>,
) -> Seq<PasswordView> {
    Seq::new(
        entries.len(),
        |i: int|
            if entries[i].id == id {
                PasswordView { id, password, notes }
            } else {
                entries[i]
            },
    )
}

/// The place of the first entry with id `id`, or the length of `entries`
/// where there is none.
pub open spec fn position(entries: Seq<PasswordView>, id: i32) -> int
    decreases entries.len(),
{
    if entries.len() == 0 {
        0
    } else if entries[0].id == id {
        0
    } else {
        1 + position(entries.drop_first(), id)
    }
}

/// `entries` without the first entry of id `id`.
pub open spec fn deleted(entries: Seq<PasswordView>, id: i32) -> Seq<PasswordView> {
    if position(entries, id) < entries.len() {
        entries.remove(position(entries, id))
    } else {
        entries
    }
}

/// `entries` followed by a new entry under the next id.
pub open spec fn added(entries: Seq<PasswordView>, password: Seq<char>, notes: Seq<char>) -> Seq<
    PasswordView,
> {
    entries.push(PasswordView { id: next_id(entries) as i32, password, notes })
}

/// The largest id is the id of an entry, and no entry has a larger one.
pub proof fn lemma_max_id(entries: Seq<PasswordView>)
    requires
        entries.len() > 0,
    ensures
        exists|i: int| 0 <= i < entries.len() && (#[trigger] entries[i]).id == max_id(entries),
        forall|i: int| 0 <= i < entries.len() ==> (#[trigger] entries[i]).id <= max_id(entries),
    decreases entries.len(),
{
    if entries.len() <= 1 {
        assert(entries[0].id == max_id(entries));
    } else {
        let front = entries.drop_last();
        lemma_max_id(front);
        let k = choose|i: int| 0 <= i < front.len() && (#[trigger] front[i]).id == max_id(front);
        assert(front[k] == entries[k]);
        if max_id(front) >= entries.last().id {
            assert(entries[k].id == max_id(entries));
        } else {
            assert(entries[entries.len() - 1].id == max_id(entries));
        }
        assert forall|i: int| 0 <= i < entries.len() implies (#[trigger] entries[i]).id <= max_id(
            entries,
        ) by {
            if i < front.len() {
                assert(front[i] == entries[i]);
            }
        }
    }
}

/// The next id is the id of no entry.
pub proof fn lemma_next_id_is_fresh(entries: Seq<PasswordView>)
    ensures
        forall|i: int| 0 <= i < entries.len() ==> (#[trigger] entries[i]).id < next_id(entries),
{
    if entries.len() > 0 {
        lemma_max_id(entries);
    }
}

/// Where the first entry with the id stands: no entry before it has the
/// id, and it has it unless the place is the end.
pub proof fn lemma_position(entries: Seq<PasswordView>, id: i32)
    ensures
        0 <= position(entries, id) <= entries.len(),
        forall|i: int| 0 <= i < position(entries, id) ==> (#[trigger] entries[i]).id != id,
        position(entries, id) < entries.len() ==> entries[position(entries, id)].id == id,
        position(entries, id) < entries.len() <==> has_id(entries, id),
    decreases entries.len(),
{
    if entries.len() > 0 && entries[0].id != id {
        let rest = entries.drop_first();
        lemma_position(rest, id);
        assert forall|i: int| 0 <= i < position(entries, id) implies (#[trigger] entries[i]).id
            != id by {
            if i > 0 {
                assert(entries[i] == rest[i - 1]);
            }
        }
        if position(entries, id) < entries.len() {
            assert(entries[position(entries, id)] == rest[position(rest, id)]);
        }
    }
}

/// The place `k` is that of the first entry with the id, where it has the
/// id and no entry before it has.
pub proof fn lemma_position_is(entries: Seq<PasswordView>, id: i32, k: int)
    requires
        0 <= k <= entries.len(),
        forall|i: int| 0 <= i < k ==> (#[trigger] entries[i]).id != id,
        k < entries.len() ==> entries[k].id == id,
    ensures
        position(entries, id) == k,
{
    lemma_position(entries, id);
}

/// Adding an entry keeps the ids distinct: the new id is the id of no
/// entry that was there.
pub proof fn lemma_added_keeps_ids_distinct(
    entries: Seq<PasswordView>,
    password: Seq<char>,
    notes: Seq<char>,
)
    requires
        next_id(entries) <= i32::MAX,
    ensures
        !has_id(entries, next_id(entries) as i32),
        distinct_ids(entries) ==> distinct_ids(added(entries, password, notes)),
{
    lemma_next_id_is_fresh(entries);
    let after = added(entries, password, notes);
    if distinct_ids(entries) {
        assert forall|i: int, j: int| 0 <= i < j < after.len() implies (#[trigger] after[i]).id != (
        #[trigger] after[j]).id by {
            assert(after[i] == entries[i]);
            if j < entries.len() {
                assert(after[j] == entries[j]);
            }
        }
    }
}

/// Updating keeps every id in its place, and so keeps the ids distinct.
pub proof fn lemma_updated_keeps_ids_distinct(
    entries: Seq<PasswordView>,
    id: i32,
    password: Seq<char>,
    notes: Seq<char>,
)
    ensures
        updated(entries, id, password, notes).len() == entries.len(),
        forall|i: int|
            0 <= i < entries.len() ==> (#[trigger] updated(entries, id, password, notes)[i]).id
                == entries[i].id,
        distinct_ids(entries) ==> distinct_ids(updated(entries, id, password, notes)),
{
    let after = updated(entries, id, password, notes);
    if distinct_ids(entries) {
        assert forall|i: int, j: int| 0 <= i < j < after.len() implies (#[trigger] after[i]).id != (
        #[trigger] after[j]).id by {
            assert(after[i].id == entries[i].id);
            assert(after[j].id == entries[j].id);
        }
    }
}

/// Deleting keeps the ids distinct, and where they are distinct no entry
/// with the id is left.
pub proof fn lemma_deleted_keeps_ids_distinct(entries: Seq<PasswordView>, id: i32)
    ensures
        distinct_ids(entries) ==> distinct_ids(deleted(entries, id)),
        distinct_ids(entries) ==> !has_id(deleted(entries, id), id),
        !has_id(entries, id) ==> deleted(entries, id) == entries,
{
    lemma_position(entries, id);
    let k = position(entries, id);
    let after = deleted(entries, id);
    if distinct_ids(entries) && k < entries.len() {
        assert forall|i: int| 0 <= i < after.len() implies #[trigger] after[i] == entries[if i < k {
            i
        } else {
            i + 1
        }] by {}
        assert forall|i: int, j: int| 0 <= i < j < after.len() implies (#[trigger] after[i]).id != (
        #[trigger] after[j]).id by {
            let from = if i < k { i } else { i + 1 };
            let to = if j < k { j } else { j + 1 };
            assert(after[i] == entries[from] && after[j] == entries[to]);
        }
        if has_id(after, id) {
            let i = choose|i: int| 0 <= i < after.len() && (#[trigger] after[i]).id == id;
            let from = if i < k { i } else { i + 1 };
            assert(after[i] == entries[from]);
            assert(entries[from].id == entries[k].id);
        }
    }
}

/// The ordered entries of one vault.
#[derive(Debug, PartialEq, Eq)]
pub struct Passwords {
    pub inner: Vec<Password>,
}

impl View for Passwords {
    type V = Seq<PasswordView>;

    open spec fn view(&self) -> Seq<PasswordView> {
        views(self.inner@)
    }
}

impl Passwords {
    /// The store of a new vault: no entries.
    pub fn empty() -> (store: Self)
        ensures
            store@ == Seq::<PasswordView>::empty(),
    {
        let store = Passwords { inner: Vec::new() };
        store
    }

    /// A store with one entry of id 1: a generated secret as a sample.
    pub fn random_one() -> (store: Self)
        ensures
            store@.len() == 1,
            store@[0].id == 1,
            store@[0].notes == "A random example password"@,
            is_generated_secret(store@[0].password),
    {
        let password = Self::generate_password();
        let notes = "A random example password".to_owned();
        let mut inner: Vec<Password> = Vec::new();
        inner.push(Password::new(1, password, notes));
        Passwords { inner }
    }

    /// A random secret for a new entry.
    pub fn generate_password() -> (secret: String)
        ensures
            is_generated_secret(secret@),
    {
        generate_password()
    }

    /// Appends an entry with a generated secret and the given notes under
    /// the next id, and hands back a copy of it.
    pub fn add_password(&mut self, notes: String) -> (entry: Password)
        requires
            next_id(old(self)@) <= i32::MAX,
        ensures
            is_generated_secret(entry.password@),
            final(self)@ == added(old(self)@, entry.password@, notes@),
            entry@ == final(self)@.last(),
            !has_id(old(self)@, entry.id),
            distinct_ids(old(self)@) ==> distinct_ids(final(self)@),
    {
        let password = Self::generate_password();
        self.add_entry(password, notes)
    }

    /// The id that the next entry takes, or nothing where the largest id
    /// in the store is the largest there is.
    pub fn next_id(&self) -> (id: Option<i32>)
        ensures
            match id {
                Some(id) => id == next_id(self@),
                None => next_id(self@) > i32::MAX,
            },
    {
        let n = self.inner.len();
        if n == 0 {
            return Some(1);
        }
        let mut largest: i32 = self.inner[0].id;
        let mut i: usize = 1;
        while i < n
            invariant
                n == self.inner@.len(),
                1 <= i <= n,
                largest == max_id(self@.subrange(0, i as int)),
            decreases n - i,
        {
            proof {
                let longer = self@.subrange(0, i + 1);
                assert(longer.drop_last() =~= self@.subrange(0, i as int));
            }
            if self.inner[i].id > largest {
                largest = self.inner[i].id;
            }
            i = i + 1;
        }
        assert(self@.subrange(0, n as int) =~= self@);
        if largest == i32::MAX {
            None
        } else {
            Some(largest + 1)
        }
    }

    /// Puts the given secret and notes in the place of every entry with id
    /// `id`. Where no entry has the id, nothing changes.
    pub fn update_password(&mut self, id: i32, password: String, notes: String)
        ensures
            final(self)@ == updated(old(self)@, id, password@, notes@),
            distinct_ids(old(self)@) ==> distinct_ids(final(self)@),
    {
        let n = self.inner.len();
        let mut i: usize = 0;
        while i < n
            invariant
                n == self.inner@.len(),
                n == old(self).inner@.len(),
                i <= n,
                forall|j: int|
                    0 <= j < i ==> (#[trigger] self.inner@[j])@ == updated(
                        old(self)@,
                        id,
                        password@,
                        notes@,
                    )[j],
                forall|j: int| i <= j < n ==> (#[trigger] self.inner@[j]) == old(self).inner@[j],
            decreases n - i,
        {
            if self.inner[i].id == id {
                let entry = Password::new(id, password.clone(), notes.clone());
                self.inner.set(i, entry);
            }
            i = i + 1;
        }
    }

    /// Appends an entry with the given secret and notes under the next id,
    /// and hands back a copy of it.
    pub fn add_entry(&mut self, password: String, notes: String) -> (entry: Password)
        requires
            next_id(old(self)@) <= i32::MAX,
        ensures
            final(self)@ == added(old(self)@, password@, notes@),
            entry@ == final(self)@.last(),
            !has_id(old(self)@, entry.id),
            distinct_ids(old(self)@) ==> distinct_ids(final(self)@),
    {
        let id = match self.next_id() {
            Some(id) => id,
            None => unreached(),
        };
        let entry = Password::new(id, password, notes);
        let copy = entry.clone();
        self.inner.push(entry);
        proof {
            lemma_added_keeps_ids_distinct(old(self)@, password@, notes@);
        }
        copy
    }

    /// Removes the first entry with id `id`. Where no entry has the id,
    /// nothing changes.
    pub fn delete_password(&mut self, id: i32)
        ensures
            final(self)@ == deleted(old(self)@, id),
            distinct_ids(old(self)@) ==> distinct_ids(final(self)@),
            distinct_ids(old(self)@) ==> !has_id(final(self)@, id),
    {
        let n = self.inner.len();
        let mut k: usize = 0;
        while k < n && self.inner[k].id != id
            invariant
                n == self.inner@.len(),
                *self == *old(self),
                k <= n,
                forall|j: int| 0 <= j < k ==> (#[trigger] self@[j]).id != id,
            decreases n - k,
        {
            k = k + 1;
        }
        proof {
            lemma_position_is(self@, id, k as int);
        }
        if k < n {
            self.inner.remove(k);
            assert(self@ =~= old(self)@.remove(k as int));
        }
    }
}

} // verus!
