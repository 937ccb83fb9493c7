//! The secret store: the catalog of collections and one attribute index per
//! collection, with the operations that requests make on them.
use vstd::prelude::*;

use crate::catalog::{alias_update, default_collection_label, opt_view, Catalog};
use crate::error::{is_not_found, Error};
use crate::index::{default_secret_label, names, search_collection, selects, AttributeIndex, Attributes};
use crate::table::Table;

verus! {

/// The view of a collection's index: secret attributes and secret labels.
pub type IndexView = (Map<Seq<char>, Map<Seq<char>, Seq<char>>>, Map<Seq<char>, Seq<char>>);

/// The alias that the daemon makes sure exists at startup.
pub open spec fn default_alias() -> Seq<char> {
    "default"@
}

/// The label of the collection made at startup.
pub open spec fn default_label() -> Seq<char> {
    "Default"@
}

/// Deleting a secret twice leaves the index as deleting it once.
pub proof fn lemma_delete_secret_idempotent(secrets: Map<Seq<char>, Map<Seq<char>, Seq<char>>>, id: Seq<char>)
    ensures
        secrets.remove(id).remove(id) == secrets.remove(id),
{
    assert(secrets.remove(id).remove(id) =~= secrets.remove(id));
}

/// Collections, their labels and aliases, and their indexes.
pub struct SecretStore {
    catalog: Catalog,
    collections: Table<AttributeIndex>,
}

impl SecretStore {
    /// Collection id to label.
    pub closed spec fn labels(&self) -> Map<Seq<char>, Seq<char>> {
        self.catalog.labels()
    }

    /// Alias to collection id.
    pub closed spec fn aliases(&self) -> Map<Seq<char>, Seq<char>> {
        self.catalog.aliases()
    }

    /// Collection id to the view of its index.
    pub closed spec fn indexes(&self) -> Map<Seq<char>, IndexView> {
        self.collections@
    }

    pub closed spec fn wf(&self) -> bool {
        &&& self.catalog.wf()
        &&& self.collections.wf()
        &&& forall|c: Seq<char>| #[trigger] self.collections@.contains_key(c) ==> self.collections.value_at(c).wf()
    }

    /// A store with no collection.
    pub fn new() -> (r: Self)
        ensures
            r.wf(),
            r.labels() == Map::<Seq<char>, Seq<char>>::empty(),
            r.aliases() == Map::<Seq<char>, Seq<char>>::empty(),
            r.indexes() == Map::<Seq<char>, IndexView>::empty(),
    {
        SecretStore { catalog: Catalog::new(), collections: Table::new() }
    }

    proof fn lemma_put_back(&self, old_store: &Self, c: Seq<char>, idx: AttributeIndex)
        requires
            old_store.wf(),
            old_store.collections@.contains_key(c),
            idx.wf(),
            self.catalog == old_store.catalog,
            self.collections.wf(),
            self.collections@ == old_store.collections@.remove(c).insert(c, idx@),
            self.collections.value_at(c) == idx,
            forall|k: Seq<char>|
                k != c && old_store.collections@.contains_key(k) ==> #[trigger] self.collections.value_at(k)
                    == old_store.collections.value_at(k),
        ensures
            self.wf(),
            self.indexes() == old_store.indexes().insert(c, idx@),
    {
        assert(self.collections@ =~= old_store.collections@.insert(c, idx@));
        assert forall|k: Seq<char>| #[trigger] self.collections@.contains_key(k) implies self.collections.value_at(k).wf() by {
            if k != c {
                assert(old_store.collections@.contains_key(k));
            }
        }
    }

    /// Registers a collection found on disk, with an empty index, unless it is
    /// already known.
    pub fn add_collection(&mut self, id: String)
        requires
            old(self).wf(),
        ensures
            final(self).wf(),
            final(self).labels() == old(self).labels(),
            final(self).aliases() == old(self).aliases(),
            old(self).indexes().contains_key(id@) ==> final(self).indexes() == old(self).indexes(),
            !old(self).indexes().contains_key(id@) ==> final(self).indexes() == old(self).indexes().insert(
                id@,
                AttributeIndex::new_view(),
            ),
    {
        if self.collections.contains_key(&id) {
            return;
        }
        let ghost before = self.collections;
        let idx = AttributeIndex::new();
        self.collections.insert(id, idx);
        proof {
            assert forall|k: Seq<char>| #[trigger] self.collections@.contains_key(k) implies self.collections.value_at(k).wf() by {
                if k != id@ {
                    assert(before@.contains_key(k));
                }
            }
        }
    }

    /// The ids of the known collections.
    pub fn collections(&self) -> (r: Vec<String>)
        requires
            self.wf(),
        ensures
            forall|c: Seq<char>| #[trigger] names(r@, c) <==> self.indexes().contains_key(c),
    {
        let r = self.collections.keys();
        proof {
            self.collections.lemma_rows();
            assert forall|c: Seq<char>| #[trigger] names(r@, c) <==> self.indexes().contains_key(c) by {
                if names(r@, c) {
                    let j = choose|j: int| 0 <= j < r@.len() && #[trigger] r@[j]@ == c;
                    assert(self.collections.rows_spec()[j].0@ == c);
                }
                if self.indexes().contains_key(c) {
                    let j = choose|j: int| 0 <= j < self.collections.rows_spec().len() && #[trigger] self.collections.rows_spec()[j].0@ == c;
                    assert(r@[j]@ == c);
                }
            }
        }
        r
    }

    /// The label of collection `id`.
    pub fn get_label(&self, id: &String) -> (r: Result<String, Error>)
        requires
            self.wf(),
        ensures
            r is Ok <==> self.labels().contains_key(id@),
            r matches Ok(l) ==> l@ == self.labels()[id@],
            r matches Err(e) ==> is_not_found(e),
    {
        match self.catalog.get_label(id) {
            Some(l) => Ok(l),
            None => Err(Error::not_found()),
        }
    }

    /// Sets the label of collection `id`.
    pub fn set_label(&mut self, id: &String, label: String)
        requires
            old(self).wf(),
        ensures
            final(self).wf(),
            final(self).labels() == old(self).labels().insert(id@, label@),
            final(self).aliases() == old(self).aliases(),
            final(self).indexes() == old(self).indexes(),
    {
        self.catalog.set_label(id, label);
    }

    /// The aliases that name collection `id`.
    pub fn list_aliases_for_collection(&self, id: &String) -> (r: Vec<String>)
        requires
            self.wf(),
        ensures
            forall|a: Seq<char>|
                #[trigger] names(r@, a) <==> (self.aliases().contains_key(a) && self.aliases()[a] == id@),
    {
        self.catalog.list_aliases_for_collection(id)
    }

    /// The collection that `alias` names.
    pub fn get_alias(&self, alias: &String) -> (r: Result<String, Error>)
        requires
            self.wf(),
        ensures
            r is Ok <==> self.aliases().contains_key(alias@),
            r matches Ok(c) ==> c@ == self.aliases()[alias@],
            r matches Err(e) ==> is_not_found(e),
    {
        match self.catalog.get_alias(alias) {
            Some(c) => Ok(c),
            None => Err(Error::not_found()),
        }
    }

    /// Points `alias` at `target`, or clears it.
    pub fn set_alias(&mut self, alias: &String, target: Option<String>)
        requires
            old(self).wf(),
        ensures
            final(self).wf(),
            final(self).aliases() == alias_update(old(self).aliases(), alias@, opt_view(target)),
            final(self).labels() == old(self).labels(),
            final(self).indexes() == old(self).indexes(),
    {
        self.catalog.set_alias(alias, target);
    }

    /// Creates a collection (see `Catalog::create_collection`); a new id gets
    /// an empty index.
    pub fn create_collection(&mut self, label: Option<String>, alias: Option<String>, suffix: &String) -> (r: String)
        requires
            old(self).wf(),
        ensures
            final(self).wf(),
            ({
                let lbl = match label {
                    Some(l) => l@,
                    None => default_collection_label(),
                };
                match alias {
                    Some(a) if old(self).aliases().contains_key(a@) => {
                        &&& r@ == old(self).aliases()[a@]
                        &&& final(self).aliases() == old(self).aliases()
                        &&& final(self).labels() == if label is Some || !old(self).labels().contains_key(r@) {
                            old(self).labels().insert(r@, lbl)
                        } else {
                            old(self).labels()
                        }
                    },
                    _ => {
                        &&& r@ == crate::catalog::collection_id_of(lbl, suffix@)
                        &&& final(self).labels() == old(self).labels().insert(r@, lbl)
                        &&& alias is None ==> final(self).aliases() == old(self).aliases()
                        &&& alias matches Some(a) ==> final(self).aliases() == old(self).aliases().insert(a@, r@)
                    },
                }
            }),
            old(self).indexes().contains_key(r@) ==> final(self).indexes() == old(self).indexes(),
            !old(self).indexes().contains_key(r@) ==> final(self).indexes() == old(self).indexes().insert(
                r@,
                AttributeIndex::new_view(),
            ),
    {
        let id = self.catalog.create_collection(label, alias, suffix);
        self.add_collection(id.clone());
        id
    }

    /// Forgets collection `id`: its index, its label and the aliases that name it.
    pub fn delete_collection(&mut self, id: &String)
        requires
            old(self).wf(),
        ensures
            final(self).wf(),
            final(self).indexes() == old(self).indexes().remove(id@),
            final(self).labels() == old(self).labels().remove(id@),
            forall|a: Seq<char>|
                #[trigger] final(self).aliases().contains_key(a) <==> (old(self).aliases().contains_key(a)
                    && old(self).aliases()[a] != id@),
            forall|a: Seq<char>|
                #[trigger] final(self).aliases().contains_key(a) ==> final(self).aliases()[a]
                    == old(self).aliases()[a],
    {
        let ghost before = self.collections;
        let _ = self.collections.remove(id);
        self.catalog.delete_collection(id);
        proof {
            assert forall|k: Seq<char>| #[trigger] self.collections@.contains_key(k) implies self.collections.value_at(k).wf() by {
                assert(before@.contains_key(k));
            }
        }
    }

    /// Searches collection `id` (see `search_collection`).
    pub fn search_collection(&self, id: &String, attrs: &Attributes) -> (r: Result<Vec<String>, Error>)
        requires
            self.wf(),
            attrs.wf(),
        ensures
            r is Ok <==> self.indexes().contains_key(id@),
            r matches Err(e) ==> is_not_found(e),
            r matches Ok(found) ==> forall|s: Seq<char>|
                #[trigger] names(found@, s) <==> (self.indexes()[id@].0.contains_key(s) && selects(
                    attrs@,
                    self.indexes()[id@].0[s],
                )),
    {
        match self.collections.get(id) {
            Some(idx) => Ok(search_collection(attrs, idx)),
            None => Err(Error::not_found()),
        }
    }

    /// Searches every collection: one `(collection id, matching secret ids)`
    /// pair per collection.
    pub fn search_all_collections(&self, attrs: &Attributes) -> (r: Vec<(String, Vec<String>)>)
        requires
            self.wf(),
            attrs.wf(),
        ensures
            forall|c: Seq<char>|
                self.indexes().contains_key(c) ==> exists|i: int| 0 <= i < r@.len() && #[trigger] r@[i].0@ == c,
            forall|i: int|
                0 <= i < r@.len() ==> {
                    let c = #[trigger] r@[i].0@;
                    &&& self.indexes().contains_key(c)
                    &&& forall|s: Seq<char>|
                        #[trigger] names(r@[i].1@, s) <==> (self.indexes()[c].0.contains_key(s) && selects(
                            attrs@,
                            self.indexes()[c].0[s],
                        ))
                },
    {
        let rows = self.collections.rows();
        proof {
            self.collections.lemma_rows();
        }
        let mut out: Vec<(String, Vec<String>)> = Vec::new();
        let mut i: usize = 0;
        while i < rows.len()
            invariant
                self.wf(),
                attrs.wf(),
                i <= rows@.len(),
                rows@ == self.collections.rows_spec(),
                out@.len() == i,
                forall|j: int| 0 <= j < i ==> #[trigger] out@[j].0@ == rows@[j].0@,
                forall|j: int|
                    0 <= j < i ==> {
                        let c = #[trigger] out@[j].0@;
                        &&& self.indexes().contains_key(c)
                        &&& forall|s: Seq<char>|
                            #[trigger] names(out@[j].1@, s) <==> (self.indexes()[c].0.contains_key(s)
                                && selects(attrs@, self.indexes()[c].0[s]))
                    },
            decreases rows@.len() - i,
        {
            proof {
                self.collections.lemma_rows();
                assert(self.collections.rows_spec()[i as int] == rows@[i as int]);
                assert(self.collections@.contains_key(rows@[i as int].0@));
                assert(self.collections.value_at(rows@[i as int].0@) == rows@[i as int].1);
                assert(rows@[i as int].1@ == self.indexes()[rows@[i as int].0@]);
            }
            let found = search_collection(attrs, &rows[i].1);
            out.push((rows[i].0.clone(), found));
            i += 1;
        }
        proof {
            assert forall|c: Seq<char>|
                self.indexes().contains_key(c) implies exists|i: int| 0 <= i < out@.len() && #[trigger] out@[i].0@ == c by {
                let j = choose|j: int| 0 <= j < self.collections.rows_spec().len() && #[trigger] self.collections.rows_spec()[j].0@ == c;
                assert(out@[j].0@ == c);
            }
        }
        out
    }

    /// Stores a new secret of collection `collection` in its index. Ids are
    /// unique within a collection: an id that is already there is refused.
    pub fn create_secret(&mut self, collection: &String, id: &String, label: Option<String>, attrs: Attributes) -> (r: Result<(), Error>)
        requires
            old(self).wf(),
            attrs.wf(),
        ensures
            final(self).wf(),
            final(self).labels() == old(self).labels(),
            final(self).aliases() == old(self).aliases(),
            r is Ok <==> (old(self).indexes().contains_key(collection@)
                && !old(self).indexes()[collection@].0.contains_key(id@)),
            r is Err ==> final(self).indexes() == old(self).indexes(),
            r matches Err(e) ==> (e matches Error::IoError { not_found, .. }
                && not_found == !old(self).indexes().contains_key(collection@)),
            r is Ok ==> final(self).indexes() == old(self).indexes().insert(
                collection@,
                (
                    old(self).indexes()[collection@].0.insert(id@, attrs@),
                    old(self).indexes()[collection@].1.insert(
                        id@,
                        match label {
                            Some(l) => l@,
                            None => default_secret_label(),
                        },
                    ),
                ),
            ),
    {
        let ghost old_store = *self;
        match self.collections.remove(collection) {
            Some(mut idx) => {
                proof {
                    old_store.collections.lemma_rows();
                    assert(idx@ == old_store.collections@[collection@]);
                }
                if idx.read_secret_attrs(id).is_some() {
                    let ghost kept = idx;
                    self.collections.insert(collection.clone(), idx);
                    proof {
                        self.lemma_put_back(&old_store, collection@, kept);
                        assert(old_store.indexes().insert(collection@, kept@) =~= old_store.indexes());
                    }
                    return Err(Error::IoError { not_found: false, message: String::from_str("secret already exists") });
                }
                idx.create_secret(id, label, attrs);
                self.collections.insert(collection.clone(), idx);
                proof {
                    self.lemma_put_back(&old_store, collection@, idx);
                }
                Ok(())
            },
            None => {
                proof {
                    assert(self.collections@ =~= old_store.collections@);
                }
                Err(Error::not_found())
            },
        }
    }

    /// Gives secret `id` of collection `collection` the attributes `attrs`.
    pub fn set_secret_attrs(&mut self, collection: &String, id: &String, attrs: Attributes) -> (r: Result<(), Error>)
        requires
            old(self).wf(),
            attrs.wf(),
        ensures
            final(self).wf(),
            final(self).labels() == old(self).labels(),
            final(self).aliases() == old(self).aliases(),
            r is Ok <==> old(self).indexes().contains_key(collection@),
            r matches Err(e) ==> is_not_found(e) && final(self).indexes() == old(self).indexes(),
            r is Ok ==> final(self).indexes() == old(self).indexes().insert(
                collection@,
                (old(self).indexes()[collection@].0.insert(id@, attrs@), old(self).indexes()[collection@].1),
            ),
    {
        let ghost old_store = *self;
        match self.collections.remove(collection) {
            Some(mut idx) => {
                proof {
                    old_store.collections.lemma_rows();
                    assert(idx@ == old_store.collections@[collection@]);
                }
                idx.set_secret_attrs(id, attrs);
                self.collections.insert(collection.clone(), idx);
                proof {
                    self.lemma_put_back(&old_store, collection@, idx);
                }
                Ok(())
            },
            None => {
                proof {
                    assert(self.collections@ =~= old_store.collections@);
                }
                Err(Error::not_found())
            },
        }
    }

    /// Sets the label of secret `id` of collection `collection`.
    pub fn set_secret_label(&mut self, collection: &String, id: &String, label: String) -> (r: Result<(), Error>)
        requires
            old(self).wf(),
        ensures
            final(self).wf(),
            final(self).labels() == old(self).labels(),
            final(self).aliases() == old(self).aliases(),
            r is Ok <==> old(self).indexes().contains_key(collection@),
            r matches Err(e) ==> is_not_found(e) && final(self).indexes() == old(self).indexes(),
            r is Ok ==> final(self).indexes() == old(self).indexes().insert(
                collection@,
                (old(self).indexes()[collection@].0, old(self).indexes()[collection@].1.insert(id@, label@)),
            ),
    {
        let ghost old_store = *self;
        match self.collections.remove(collection) {
            Some(mut idx) => {
                proof {
                    old_store.collections.lemma_rows();
                    assert(idx@ == old_store.collections@[collection@]);
                }
                idx.set_secret_label(id, label);
                self.collections.insert(collection.clone(), idx);
                proof {
                    self.lemma_put_back(&old_store, collection@, idx);
                }
                Ok(())
            },
            None => {
                proof {
                    assert(self.collections@ =~= old_store.collections@);
                }
                Err(Error::not_found())
            },
        }
    }

    /// Removes secret `id` of collection `collection` from its index. A secret
    /// that is not there is no error.
    pub fn delete_secret(&mut self, collection: &String, id: &String) -> (r: Result<(), Error>)
        requires
            old(self).wf(),
        ensures
            final(self).wf(),
            final(self).labels() == old(self).labels(),
            final(self).aliases() == old(self).aliases(),
            r is Ok <==> old(self).indexes().contains_key(collection@),
            r matches Err(e) ==> is_not_found(e) && final(self).indexes() == old(self).indexes(),
            r is Ok ==> final(self).indexes() == old(self).indexes().insert(
                collection@,
                (old(self).indexes()[collection@].0.remove(id@), old(self).indexes()[collection@].1),
            ),
    {
        let ghost old_store = *self;
        match self.collections.remove(collection) {
            Some(mut idx) => {
                proof {
                    old_store.collections.lemma_rows();
                    assert(idx@ == old_store.collections@[collection@]);
                }
                idx.delete_secret(id);
                self.collections.insert(collection.clone(), idx);
                proof {
                    self.lemma_put_back(&old_store, collection@, idx);
                }
                Ok(())
            },
            None => {
                proof {
                    assert(self.collections@ =~= old_store.collections@);
                }
                Err(Error::not_found())
            },
        }
    }

    /// The attributes of secret `id` of collection `collection`.
    pub fn read_secret_attrs(&self, collection: &String, id: &String) -> (r: Result<&Attributes, Error>)
        requires
            self.wf(),
        ensures
            r is Ok <==> (self.indexes().contains_key(collection@) && self.indexes()[collection@].0.contains_key(id@)),
            r matches Ok(a) ==> a.wf() && a@ == self.indexes()[collection@].0[id@],
            r matches Err(e) ==> is_not_found(e),
    {
        match self.collections.get(collection) {
            Some(idx) => match idx.read_secret_attrs(id) {
                Some(a) => Ok(a),
                None => Err(Error::not_found()),
            },
            None => Err(Error::not_found()),
        }
    }

    /// The label of secret `id` of collection `collection`.
    pub fn get_secret_label(&self, collection: &String, id: &String) -> (r: Result<String, Error>)
        requires
            self.wf(),
        ensures
            r is Ok <==> (self.indexes().contains_key(collection@) && self.indexes()[collection@].1.contains_key(id@)),
            r matches Ok(l) ==> l@ == self.indexes()[collection@].1[id@],
            r matches Err(e) ==> is_not_found(e),
    {
        match self.collections.get(collection) {
            Some(idx) => match idx.get_secret_label(id) {
                Some(l) => Ok(l),
                None => Err(Error::not_found()),
            },
            None => Err(Error::not_found()),
        }
    }

    /// Whether the alias `default` names a collection of the store.
    pub open spec fn has_default(&self) -> bool {
        self.aliases().contains_key(default_alias()) && self.indexes().contains_key(self.aliases()[default_alias()])
    }

    /// At startup: unless the alias `default` names a collection of the
    /// store, creates a collection with label `Default` and that alias, and
    /// returns its id.
    pub fn ensure_default_collection(&mut self, suffix: &String) -> (r: Option<String>)
        requires
            old(self).wf(),
        ensures
            final(self).wf(),
            final(self).has_default(),
            old(self).has_default() ==> r is None && final(self).labels() == old(self).labels()
                && final(self).aliases() == old(self).aliases() && final(self).indexes() == old(self).indexes(),
            !old(self).has_default() ==> (r matches Some(id) && {
                &&& id@ == crate::catalog::collection_id_of(default_label(), suffix@)
                &&& final(self).aliases() == old(self).aliases().insert(default_alias(), id@)
                &&& final(self).labels() == old(self).labels().insert(id@, default_label())
                &&& final(self).indexes() == if old(self).indexes().contains_key(id@) {
                    old(self).indexes()
                } else {
                    old(self).indexes().insert(id@, AttributeIndex::new_view())
                }
            }),
    {
        let alias = String::from_str("default");
        proof {
            reveal_strlit("default");
            reveal_strlit("Default");
        }
        if let Some(target) = self.catalog.get_alias(&alias) {
            if self.collections.contains_key(&target) {
                return None;
            }
            self.catalog.set_alias(&alias, None);
        }
        let ghost before = *self;
        let id = self.create_collection(Some(String::from_str("Default")), Some(alias), suffix);
        proof {
            assert(!before.aliases().contains_key(default_alias()));
            assert(self.aliases() =~= old(self).aliases().insert(default_alias(), id@));
        }
        Some(id)
    }
}

} // verus!
