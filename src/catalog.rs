//! The global catalog: the label of each collection and the aliases that name
//! collections. An alias names one collection at a time; the aliases of a
//! collection are the keys that map to it.
use vstd::prelude::*;

use crate::index::names;
use crate::slug::{slug_of, slugify};
use crate::table::Table;
use crate::text::concat;

verus! {

/// The label a collection gets when none is given.
pub open spec fn default_collection_label() -> Seq<char> {
    "Untitled Collection"@
}

/// The id of a new collection: the slug of its label, `_`, and a random suffix.
pub open spec fn collection_id_of(label: Seq<char>, suffix: Seq<char>) -> Seq<char> {
    slug_of(label) + "_"@ + suffix
}

/// The alias table after `set_alias(alias, target)`.
pub open spec fn alias_update(
    m: Map<Seq<char>, Seq<char>>,
    alias: Seq<char>,
    target: Option<Seq<char>>,
) -> Map<Seq<char>, Seq<char>> {
    match target {
        Some(t) => m.insert(alias, t),
        None => m.remove(alias),
    }
}

/// The view of an optional string.
pub open spec fn opt_view(o: Option<String>) -> Option<Seq<char>> {
    match o {
        Some(s) => Some(s@),
        None => None,
    }
}

/// Setting an alias twice to the same target leaves the table as the first
/// call left it.
pub proof fn lemma_set_alias_idempotent(
    m: Map<Seq<char>, Seq<char>>,
    alias: Seq<char>,
    target: Option<Seq<char>>,
)
    ensures
        alias_update(alias_update(m, alias, target), alias, target) == alias_update(m, alias, target),
{
    match target {
        Some(t) => {
            assert(m.insert(alias, t).insert(alias, t) =~= m.insert(alias, t));
        },
        None => {
            assert(m.remove(alias).remove(alias) =~= m.remove(alias));
        },
    }
}

/// Labels and aliases of all collections.
pub struct Catalog {
    labels: Table<String>,
    aliases: Table<String>,
}

/// The id of a new collection with label `label` and random suffix `suffix`.
pub fn collection_id_for(label: &str, suffix: &str) -> (r: String)
    ensures
        r@ == collection_id_of(label@, suffix@),
{
    let slug = slugify(label);
    let with_sep = concat(slug.as_str(), "_");
    proof {
        reveal_strlit("_");
    }
    concat(with_sep.as_str(), suffix)
}

impl Catalog {
    /// Collection id to label.
    pub closed spec fn labels(&self) -> Map<Seq<char>, Seq<char>> {
        self.labels@
    }

    /// Alias to collection id.
    pub closed spec fn aliases(&self) -> Map<Seq<char>, Seq<char>> {
        self.aliases@
    }

    pub closed spec fn wf(&self) -> bool {
        self.labels.wf() && self.aliases.wf()
    }

    /// An empty catalog.
    pub fn new() -> (r: Self)
        ensures
            r.wf(),
            r.labels() == Map::<Seq<char>, Seq<char>>::empty(),
            r.aliases() == Map::<Seq<char>, Seq<char>>::empty(),
    {
        Catalog { labels: Table::new(), aliases: Table::new() }
    }

    /// The label of collection `id`, if it has one.
    pub fn get_label(&self, id: &String) -> (r: Option<String>)
        requires
            self.wf(),
        ensures
            opt_view(r) == (if self.labels().contains_key(id@) {
                Some(self.labels()[id@])
            } else {
                None
            }),
    {
        match self.labels.get(id) {
            Some(l) => Some(l.clone()),
            None => None,
        }
    }

    /// Sets the label of collection `id`.
    pub fn set_label(&mut self, id: &String, label: String)
        requires
            old(self).wf(),
        ensures
            final(self).wf(),
            final(self).labels() == old(self).labels().insert(id@, label@),
            final(self).aliases() == old(self).aliases(),
    {
        self.labels.insert(id.clone(), label);
    }

    /// The collection that `alias` names, if any.
    pub fn get_alias(&self, alias: &String) -> (r: Option<String>)
        requires
            self.wf(),
        ensures
            opt_view(r) == (if self.aliases().contains_key(alias@) {
                Some(self.aliases()[alias@])
            } else {
                None
            }),
    {
        match self.aliases.get(alias) {
            Some(t) => Some(t.clone()),
            None => None,
        }
    }

    /// Points `alias` at `target`, or clears it when `target` is `None`. The
    /// alias leaves the collection it named before.
    pub fn set_alias(&mut self, alias: &String, target: Option<String>)
        requires
            old(self).wf(),
        ensures
            final(self).wf(),
            final(self).aliases() == alias_update(old(self).aliases(), alias@, opt_view(target)),
            final(self).labels() == old(self).labels(),
    {
        match target {
            Some(t) => {
                self.aliases.insert(alias.clone(), t);
            },
            None => {
                let _ = self.aliases.remove(alias);
            },
        }
    }

    /// The aliases that name collection `id`.
    pub fn list_aliases_for_collection(&self, id: &String) -> (r: Vec<String>)
        requires
            self.wf(),
        ensures
            forall|a: Seq<char>|
                #[trigger] names(r@, a) <==> (self.aliases().contains_key(a) && self.aliases()[a] == id@),
    {
        let rows = self.aliases.rows();
        proof {
            self.aliases.lemma_rows();
        }
        let mut out: Vec<String> = Vec::new();
        let mut i: usize = 0;
        while i < rows.len()
            invariant
                i <= rows@.len(),
                rows@ == self.aliases.rows_spec(),
                forall|a: Seq<char>|
                    #[trigger] names(out@, a) <==> (exists|j: int|
                        0 <= j < i && #[trigger] rows@[j].0@ == a && rows@[j].1@ == id@),
            decreases rows@.len() - i,
        {
            let ghost before = out@;
            if rows[i].1 == *id {
                out.push(rows[i].0.clone());
            }
            proof {
                assert forall|a: Seq<char>|
                    #[trigger] names(out@, a) <==> (exists|j: int|
                        0 <= j < i + 1 && #[trigger] rows@[j].0@ == a && rows@[j].1@ == id@) by {
                    if names(out@, a) {
                        let j = choose|j: int| 0 <= j < out@.len() && #[trigger] out@[j]@ == a;
                        if j < before.len() {
                            assert(names(before, a));
                        } else {
                            assert(rows@[i as int].0@ == a);
                        }
                    }
                    if exists|j: int| 0 <= j < i + 1 && #[trigger] rows@[j].0@ == a && rows@[j].1@ == id@ {
                        let j = choose|j: int| 0 <= j < i + 1 && #[trigger] rows@[j].0@ == a && rows@[j].1@ == id@;
                        if j < i {
                            assert(names(before, a));
                            let m = choose|m: int| 0 <= m < before.len() && #[trigger] before[m]@ == a;
                            assert(out@[m]@ == a);
                        } else {
                            assert(out@[before.len() as int]@ == a);
                        }
                    }
                }
            }
            i += 1;
        }
        proof {
            assert forall|a: Seq<char>|
                #[trigger] names(out@, a) <==> (self.aliases().contains_key(a) && self.aliases()[a] == id@) by {
                if self.aliases().contains_key(a) && self.aliases()[a] == id@ {
                    let j = choose|j: int| 0 <= j < self.aliases.rows_spec().len() && #[trigger] self.aliases.rows_spec()[j].0@ == a;
                    assert(rows@[j].0@ == a && rows@[j].1@ == id@);
                }
            }
        }
        out
    }

    /// Creates a collection, or finds the one that `alias` already names.
    ///
    /// When `alias` names a collection, no collection is made: its label is set
    /// if a label is given or it has none, and its id is returned. Otherwise
    /// the new id is the slug of the label (or of the default label), `_` and
    /// `suffix`; the label is stored, and the alias, if given, moves to it.
    pub fn create_collection(&mut self, label: Option<String>, alias: Option<String>, suffix: &String) -> (r: String)
        requires
            old(self).wf(),
        ensures
            final(self).wf(),
            ({
                let lbl = match label {
                    Some(l) => l@,
                    None => default_collection_label(),
                };
                match alias {
                    Some(a) if old(self).aliases().contains_key(a@) => {
                        &&& r@ == old(self).aliases()[a@]
                        &&& final(self).aliases() == old(self).aliases()
                        &&& final(self).labels() == if label is Some || !old(self).labels().contains_key(r@) {
                            old(self).labels().insert(r@, lbl)
                        } else {
                            old(self).labels()
                        }
                    },
                    _ => {
                        &&& r@ == collection_id_of(lbl, suffix@)
                        &&& final(self).labels() == old(self).labels().insert(r@, lbl)
                        &&& alias is None ==> final(self).aliases() == old(self).aliases()
                        &&& alias matches Some(a) ==> final(self).aliases() == old(self).aliases().insert(a@, r@)
                    },
                }
            }),
    {
        let had_label = label.is_some();
        let lbl = match label {
            Some(l) => l,
            None => String::from_str("Untitled Collection"),
        };
        if let Some(a) = &alias {
            if let Some(existing) = self.get_alias(a) {
                if had_label || self.labels.get(&existing).is_none() {
                    self.labels.insert(existing.clone(), lbl);
                }
                return existing;
            }
        }
        let id = collection_id_for(lbl.as_str(), suffix.as_str());
        if let Some(a) = alias {
            self.aliases.insert(a, id.clone());
        }
        self.labels.insert(id.clone(), lbl);
        id
    }

    /// Forgets collection `id`: every alias that names it, and its label.
    pub fn delete_collection(&mut self, id: &String)
        requires
            old(self).wf(),
        ensures
            final(self).wf(),
            final(self).labels() == old(self).labels().remove(id@),
            forall|a: Seq<char>|
                #[trigger] final(self).aliases().contains_key(a) <==> (old(self).aliases().contains_key(a)
                    && old(self).aliases()[a] != id@),
            forall|a: Seq<char>|
                #[trigger] final(self).aliases().contains_key(a) ==> final(self).aliases()[a]
                    == old(self).aliases()[a],
    {
        let doomed = self.list_aliases_for_collection(id);
        let mut i: usize = 0;
        while i < doomed.len()
            invariant
                i <= doomed@.len(),
                self.wf(),
                self.labels == old(self).labels,
                forall|a: Seq<char>|
                    #[trigger] names(doomed@, a) <==> (old(self).aliases().contains_key(a) && old(self).aliases()[a] == id@),
                forall|a: Seq<char>|
                    #[trigger] self.aliases().contains_key(a) <==> (old(self).aliases().contains_key(a)
                        && !(exists|j: int| 0 <= j < i && #[trigger] doomed@[j]@ == a)),
                forall|a: Seq<char>|
                    #[trigger] self.aliases().contains_key(a) ==> self.aliases()[a] == old(self).aliases()[a],
            decreases doomed@.len() - i,
        {
            let ghost before = self.aliases();
            let _ = self.aliases.remove(&doomed[i]);
            proof {
                assert forall|a: Seq<char>|
                    #[trigger] self.aliases().contains_key(a) <==> (old(self).aliases().contains_key(a)
                        && !(exists|j: int| 0 <= j < i + 1 && #[trigger] doomed@[j]@ == a)) by {
                    if exists|j: int| 0 <= j < i + 1 && #[trigger] doomed@[j]@ == a {
                        let j = choose|j: int| 0 <= j < i + 1 && #[trigger] doomed@[j]@ == a;
                        if j < i {
                            assert(!before.contains_key(a));
                        }
                    } else {
                        assert(a != doomed@[i as int]@);
                    }
                }
            }
            i += 1;
        }
        proof {
            assert forall|a: Seq<char>|
                #[trigger] self.aliases().contains_key(a) <==> (old(self).aliases().contains_key(a)
                    && old(self).aliases()[a] != id@) by {
                if exists|j: int| 0 <= j < doomed@.len() && #[trigger] doomed@[j]@ == a {
                    assert(names(doomed@, a));
                }
                if old(self).aliases().contains_key(a) && old(self).aliases()[a] == id@ {
                    assert(names(doomed@, a));
                }
            }
        }
        let ghost kept = self.aliases();
        let _ = self.labels.remove(id);
        proof {
            assert(self.aliases() == kept);
        }
    }
}

} // verus!
