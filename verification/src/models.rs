//! The in-memory credential collection.

use vstd::prelude::*;

verus! {

/// Mathematical model of one credential entry.
pub ghost struct EntryModel {
    pub id: u32,
    pub label: Seq<char>,
    pub username: Seq<char>,
    pub secret: Seq<char>,
    pub metadata: Seq<char>,
}

/// One stored credential.  The secret is opaque plaintext to the store.
pub struct PasswordEntry {
    pub id: u32,
    pub label: String,
    pub username: String,
    pub secret: String,
    pub metadata: String,
}

impl View for PasswordEntry {
    type V = EntryModel;

    open spec fn view(&self) -> EntryModel {
        EntryModel {
            id: self.id,
            label: self.label@,
            username: self.username@,
            secret: self.secret@,
            metadata: self.metadata@,
        }
    }
}

/// The whole credential collection of one store, owned by the session and
/// always persisted wholesale.
pub struct PasswordStore {
    pub entries: Vec<PasswordEntry>,
}

impl View for PasswordStore {
    type V = Seq<EntryModel>;

    open spec fn view(&self) -> Seq<EntryModel> {
        self.entries@.map_values(|e: PasswordEntry| e@)
    }
}

/// The index of the first entry carrying `id`, if any.
pub open spec fn spec_find_index(entries: Seq<EntryModel>, id: u32) -> Option<int> {
    if exists|i: int| 0 <= i < entries.len() && entries[i].id == id {
        Some(choose|i: int|
            0 <= i < entries.len() && entries[i].id == id && forall|j: int|
                0 <= j < i ==> entries[j].id != id)
    } else {
        None
    }
}

impl PasswordStore {
    /// An empty collection.
    pub fn new() -> (r: Self)
        ensures
            r@ == Seq::<EntryModel>::empty(),
    {
        let r = PasswordStore { entries: Vec::new() };
        proof {
            assert(r@ =~= Seq::<EntryModel>::empty());
        }
        r
    }

    /// The number of entries.
    pub fn len(&self) -> (r: usize)
        ensures
            r == self@.len(),
    {
        self.entries.len()
    }

    /// Appends an entry at the end; the rest is unchanged.
    pub fn add(&mut self, entry: PasswordEntry)
        ensures
            final(self)@ == old(self)@.push(entry@),
    {
        let ghost before = self@;
        let ghost e = entry@;
        self.entries.push(entry);
        proof {
            assert(self@ =~= before.push(e));
        }
    }

    /// Removes every entry carrying `id`, keeping the order of the rest.
    pub fn remove(&mut self, id: u32)
        ensures
            final(self)@ == old(self)@.filter(|e: EntryModel| e.id != id),
    {
        let ghost before = self@;
        let mut kept: Vec<PasswordEntry> = Vec::new();
        let mut i: usize = 0;
        while i < self.entries.len()
            invariant
                i <= self.entries@.len(),
                before == self.entries@.map_values(|e: PasswordEntry| e@),
                kept@.map_values(|e: PasswordEntry| e@) == before.take(i as int).filter(
                    |e: EntryModel| e.id != id,
                ),
            decreases self.entries@.len() - i,
        {
            let ghost prefix = before.take(i as int);
            let e = self.entries[i].clone_entry();
            proof {
                reveal_with_fuel(Seq::<_>::filter, 2);
                assert(before.take(i + 1) =~= prefix.push(before[i as int]));
                assert(prefix.push(before[i as int]).drop_last() =~= prefix);
                assert(prefix.push(before[i as int]).last() == before[i as int]);
            }
            if e.id != id {
                let ghost kept_before = kept@.map_values(|e: PasswordEntry| e@);
                kept.push(e);
                proof {
                    assert(kept@.map_values(|e: PasswordEntry| e@) =~= kept_before.push(
                        before[i as int],
                    ));
                }
            }
            i = i + 1;
        }
        proof {
            assert(before.take(before.len() as int) =~= before);
        }
        self.entries = kept;
    }

    /// The first entry carrying `id`, if any.
    pub fn find(&self, id: u32) -> (r: Option<&PasswordEntry>)
        ensures
            match r {
                Some(e) => {
                    &&& spec_find_index(self@, id) is Some
                    &&& e@ == self@[spec_find_index(self@, id).unwrap()]
                    &&& e@.id == id
                },
                None => spec_find_index(self@, id) is None,
            },
    {
        let n = self.entries.len();
        let mut i: usize = 0;
        while i < n
            invariant
                i <= n,
                n == self@.len(),
                forall|j: int| 0 <= j < i ==> self@[j].id != id,
            decreases n - i,
        {
            if self.entries[i].id == id {
                proof {
                    let found = choose|k: int|
                        0 <= k < self@.len() && self@[k].id == id && forall|j: int|
                            0 <= j < k ==> self@[j].id != id;
                    assert(0 <= i < self@.len() && self@[i as int].id == id && forall|j: int|
                        0 <= j < i ==> self@[j].id != id);
                    assert(found == i as int);
                }
                return Some(&self.entries[i]);
            }
            i = i + 1;
        }
        None
    }
}

impl PasswordEntry {
    /// A field-for-field copy.
    pub fn clone_entry(&self) -> (r: Self)
        ensures
            r@ == self@,
    {
        PasswordEntry {
            id: self.id,
            label: self.label.clone(),
            username: self.username.clone(),
            secret: self.secret.clone(),
            metadata: self.metadata.clone(),
        }
    }
}

} // verus!
