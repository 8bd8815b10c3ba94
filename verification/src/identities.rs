//! The store of SSH identities, kept by host alias.
use vstd::prelude::*;

verus! {

/// One SSH identity.
#[derive(Debug, PartialEq, Eq)]
pub struct SshIdentity {
    /// The `Host` alias used in the SSH configuration.
    pub alias: String,
    /// The GitHub username that goes with the key.
    pub username: String,
    /// Path to the private key.
    pub key: String,
}

/// An [`SshIdentity`] with its texts taken as sequences of characters.
pub struct IdentityView {
    pub alias: Seq<char>,
    pub username: Seq<char>,
    pub key: Seq<char>,
}

impl View for SshIdentity {
    type V = IdentityView;

    open spec fn view(&self) -> IdentityView {
        IdentityView { alias: self.alias@, username: self.username@, key: self.key@ }
    }
}

impl Clone for SshIdentity {
    fn clone(&self) -> (copy: SshIdentity)
        ensures
            copy == *self,
    {
        SshIdentity {
            alias: self.alias.clone(),
            username: self.username.clone(),
            key: self.key.clone(),
        }
    }
}

/// The identities on record, in the order in which they came.
#[derive(Debug)]
pub struct SshIdentityFile {
    pub identity: Vec<SshIdentity>,
}

impl View for SshIdentityFile {
    type V = Seq<IdentityView>;

    open spec fn view(&self) -> Seq<IdentityView> {
        self.identity@.map_values(|entry: SshIdentity| entry@)
    }
}

impl Default for SshIdentityFile {
    fn default() -> (file: SshIdentityFile)
        ensures
            file@ == Seq::<IdentityView>::empty(),
    {
        let file = SshIdentityFile { identity: Vec::new() };
        assert(file@ =~= Seq::<IdentityView>::empty());
        file
    }
}

/// The position of the first entry for `alias`, or the number of entries where there is
/// none.
pub open spec fn entry_index(store: Seq<IdentityView>, alias: Seq<char>) -> int
    decreases store.len(),
{
    if store.len() == 0 || store[0].alias == alias {
        0
    } else {
        1 + entry_index(store.skip(1), alias)
    }
}

/// The first entry for `alias`.
pub open spec fn lookup(store: Seq<IdentityView>, alias: Seq<char>) -> Option<IdentityView> {
    let i = entry_index(store, alias);
    if i < store.len() {
        Some(store[i])
    } else {
        None
    }
}

/// What is kept on record for an alias that is already configured: the entry that is
/// there, and `fresh` only where there is none.
pub open spec fn resolved(store: Seq<IdentityView>, fresh: IdentityView) -> IdentityView {
    match lookup(store, fresh.alias) {
        Some(entry) => entry,
        None => fresh,
    }
}

/// The store with `identity` in place of the first entry for its alias, or at the end
/// where there is none.
pub open spec fn upserted(store: Seq<IdentityView>, identity: IdentityView) -> Seq<IdentityView> {
    let i = entry_index(store, identity.alias);
    if i < store.len() {
        store.update(i, identity)
    } else {
        store.push(identity)
    }
}

/// No two entries have the same alias.
pub open spec fn aliases_distinct(store: Seq<IdentityView>) -> bool {
    forall|i: int, j: int|
        0 <= i < j < store.len() ==> (#[trigger] store[i]).alias != (#[trigger] store[j]).alias
}

proof fn lemma_entry_index(store: Seq<IdentityView>, alias: Seq<char>)
    ensures
        0 <= entry_index(store, alias) <= store.len(),
        entry_index(store, alias) < store.len() ==> store[entry_index(store, alias)].alias
            == alias,
        forall|j: int| 0 <= j < entry_index(store, alias) ==> (#[trigger] store[j]).alias != alias,
    decreases store.len(),
{
    if store.len() > 0 && store[0].alias != alias {
        let rest = store.skip(1);
        lemma_entry_index(rest, alias);
        assert forall|j: int| 0 <= j < entry_index(store, alias) implies (
        #[trigger] store[j]).alias != alias by {
            if j > 0 {
                assert(store[j] == rest[j - 1]);
            }
        }
    }
}

proof fn lemma_entry_index_is(store: Seq<IdentityView>, alias: Seq<char>, i: int)
    requires
        0 <= i <= store.len(),
        i < store.len() ==> store[i].alias == alias,
        forall|j: int| 0 <= j < i ==> (#[trigger] store[j]).alias != alias,
    ensures
        entry_index(store, alias) == i,
{
    lemma_entry_index(store, alias);
    let k = entry_index(store, alias);
    if k < i {
        assert(store[k].alias != alias);
    } else if i < k {
        assert(store[i].alias != alias);
    }
}

impl SshIdentityFile {
    /// Finds the first entry for `alias`; gives the number of entries where there is none.
    pub fn position(&self, alias: &String) -> (index: usize)
        ensures
            index == entry_index(self@, alias@),
            index <= self@.len(),
    {
        let mut i: usize = 0;
        while i < self.identity.len() && self.identity[i].alias != *alias
            invariant
                i <= self.identity.len(),
                forall|j: int| 0 <= j < i ==> (#[trigger] self@[j]).alias != alias@,
            decreases self.identity.len() - i,
        {
            i += 1;
        }
        proof {
            lemma_entry_index_is(self@, alias@, i as int);
        }
        i
    }

    /// Puts `identity` on record, in place of the entry for its alias if there is one.
    pub fn upsert(&mut self, identity: SshIdentity)
        ensures
            final(self)@ == upserted(old(self)@, identity@),
    {
        let ghost before = self@;
        let i = self.position(&identity.alias);
        if i < self.identity.len() {
            self.identity.set(i, identity);
            assert(self@ =~= before.update(i as int, identity@));
        } else {
            self.identity.push(identity);
            assert(self@ =~= before.push(identity@));
        }
    }
}

/// Decides which identity to keep on record for an alias that the SSH configuration
/// already has: the entry of the store if there is one, since the configuration is left
/// as it is, and `freshly_entered` otherwise.
pub fn resolve_existing_identity(
    existing_identities: &SshIdentityFile,
    freshly_entered: SshIdentity,
) -> (kept: SshIdentity)
    ensures
        kept@ == resolved(existing_identities@, freshly_entered@),
{
    let i = existing_identities.position(&freshly_entered.alias);
    if i < existing_identities.identity.len() {
        existing_identities.identity[i].clone()
    } else {
        freshly_entered
    }
}

/// For an alias that is configured and on record, keeping the entry changes nothing in
/// the store: its key stays the one that the configuration was given.
pub proof fn law_recorded_entry_is_kept(store: Seq<IdentityView>, fresh: IdentityView)
    requires
        lookup(store, fresh.alias) is Some,
    ensures
        upserted(store, resolved(store, fresh)) == store,
{
    lemma_entry_index(store, fresh.alias);
    let i = entry_index(store, fresh.alias);
    assert(store.update(i, store[i]) =~= store);
}

/// Whichever identity is kept for an alias, it is one for that alias.
pub proof fn law_resolved_has_the_alias(store: Seq<IdentityView>, fresh: IdentityView)
    ensures
        resolved(store, fresh).alias == fresh.alias,
{
    lemma_entry_index(store, fresh.alias);
}

/// What was put on record is what is found under its alias, and what is found under any
/// other alias is what was found before.
pub proof fn law_upsert_is_keyed_by_alias(
    store: Seq<IdentityView>,
    identity: IdentityView,
    alias: Seq<char>,
)
    ensures
        lookup(upserted(store, identity), alias) == if alias == identity.alias {
            Some(identity)
        } else {
            lookup(store, alias)
        },
{
    let new = upserted(store, identity);
    let k = entry_index(store, identity.alias);
    lemma_entry_index(store, identity.alias);
    lemma_entry_index(store, alias);
    let i = entry_index(store, alias);
    if alias == identity.alias {
        lemma_entry_index_is(new, alias, k);
    } else if i < store.len() {
        lemma_entry_index_is(new, alias, i);
    } else {
        lemma_entry_index_is(new, alias, new.len() as int);
    }
}

/// Putting an identity on record leaves every other entry in its place; the store grows
/// by one entry where the alias is new and not at all where it is not.
pub proof fn law_upsert_touches_one_entry(store: Seq<IdentityView>, identity: IdentityView)
    ensures
        upserted(store, identity).len() == if lookup(store, identity.alias) is Some {
            store.len()
        } else {
            store.len() + 1
        },
        forall|i: int|
            0 <= i < store.len() && i != entry_index(store, identity.alias) ==> #[trigger] upserted(
                store,
                identity,
            )[i] == store[i],
{
    lemma_entry_index(store, identity.alias);
}

/// In a store with one entry for each alias, putting an identity on record keeps it so.
pub proof fn law_upsert_keeps_aliases_distinct(store: Seq<IdentityView>, identity: IdentityView)
    requires
        aliases_distinct(store),
    ensures
        aliases_distinct(upserted(store, identity)),
{
    lemma_entry_index(store, identity.alias);
    let k = entry_index(store, identity.alias);
    let new = upserted(store, identity);
    assert forall|i: int, j: int| 0 <= i < j < new.len() implies (#[trigger] new[i]).alias != (
    #[trigger] new[j]).alias by {
        if i < store.len() && j < store.len() {
            assert(store[i].alias != store[j].alias);
        }
    }
}

/// Putting the same identity on record a second time changes nothing.
pub proof fn law_upsert_is_idempotent(store: Seq<IdentityView>, identity: IdentityView)
    ensures
        upserted(upserted(store, identity), identity) == upserted(store, identity),
{
    let new = upserted(store, identity);
    let k = entry_index(store, identity.alias);
    lemma_entry_index(store, identity.alias);
    lemma_entry_index_is(new, identity.alias, k);
    assert(new.update(k, identity) =~= new);
}

/// The first entry for an alias is the one that counts. It is the one that is found and kept,
/// and the one that a new identity takes the place of, with all before and behind it left
/// alone; where there is none, a new identity is put last.
pub proof fn law_first_entry_counts(
    a: Seq<IdentityView>,
    entry: IdentityView,
    b: Seq<IdentityView>,
    fresh: IdentityView,
)
    requires
        forall|i: int| 0 <= i < a.len() ==> (#[trigger] a[i]).alias != fresh.alias,
        entry.alias == fresh.alias,
    ensures
        entry_index(a, fresh.alias) == a.len(),
        lookup(a, fresh.alias) is None,
        resolved(a, fresh) == fresh,
        upserted(a, fresh) == a + seq![fresh],
        entry_index(a + seq![entry] + b, fresh.alias) == a.len(),
        lookup(a + seq![entry] + b, fresh.alias) == Some(entry),
        resolved(a + seq![entry] + b, fresh) == entry,
        upserted(a + seq![entry] + b, fresh) == a + seq![fresh] + b,
{
    let store = a + seq![entry] + b;
    let k = a.len() as int;
    assert forall|j: int| 0 <= j < k implies (#[trigger] store[j]).alias != fresh.alias by {
        assert(store[j] == a[j]);
    }
    assert(store[k] == entry);
    lemma_entry_index_is(a, fresh.alias, k);
    lemma_entry_index_is(store, fresh.alias, k);
    assert(upserted(a, fresh) =~= a + seq![fresh]);
    assert(upserted(store, fresh) =~= a + seq![fresh] + b);
}

/// An identity is its three texts, and a store is its identities, in order.
pub proof fn law_store_is_its_identities(file: SshIdentityFile, i: int)
    ensures
        file@.len() == file.identity@.len(),
        0 <= i < file@.len() ==> {
            &&& file@[i].alias == file.identity@[i].alias@
            &&& file@[i].username == file.identity@[i].username@
            &&& file@[i].key == file.identity@[i].key@
        },
{
}

/// A store has one entry for each alias if no alias occurs in two places.
pub proof fn law_distinct_by_parts(a: Seq<IdentityView>, entry: IdentityView)
    ensures
        aliases_distinct(Seq::<IdentityView>::empty()),
        aliases_distinct(a + seq![entry]) <==> aliases_distinct(a) && forall|i: int|
            0 <= i < a.len() ==> (#[trigger] a[i]).alias != entry.alias,
{
    let all = a + seq![entry];
    let k = a.len() as int;
    assert(all[k] == entry);
    if aliases_distinct(all) {
        assert forall|i: int| 0 <= i < a.len() implies (#[trigger] a[i]).alias != entry.alias by {
            assert(all[i] == a[i]);
        }
        assert forall|i: int, j: int| 0 <= i < j < a.len() implies (#[trigger] a[i]).alias != (
        #[trigger] a[j]).alias by {
            assert(all[i] == a[i] && all[j] == a[j]);
        }
    }
}

} // verus!
