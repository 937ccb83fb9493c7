//! The attribute index of one collection: a forward multimap from
//! `(key, value)` to secret ids, the reverse table from a secret id to its
//! attributes, and the secrets' labels. The two attribute tables are kept
//! mutual inverses.
use vstd::prelude::*;

use crate::table::Table;

verus! {

/// Attributes of a secret: distinct keys, one value each.
pub type Attributes = Table<String>;

/// An edge of the forward multimap: `(key, value, secret id)`.
pub type Edge = (String, String, String);

/// The view of an edge.
pub open spec fn edge_view(e: Edge) -> (Seq<char>, Seq<char>, Seq<char>) {
    (e.0@, e.1@, e.2@)
}

/// Whether `edges` holds an edge whose view is `t`.
pub open spec fn holds_edge(edges: Seq<Edge>, t: (Seq<char>, Seq<char>, Seq<char>)) -> bool {
    exists|j: int| 0 <= j < edges.len() && #[trigger] edge_view(edges[j]) == t
}

/// Whether the id list `ids` names `s`.
pub open spec fn names(ids: Seq<String>, s: Seq<char>) -> bool {
    exists|j: int| 0 <= j < ids.len() && #[trigger] ids[j]@ == s
}

/// The search rule: a query selects a secret whose attributes include every
/// pair of the query; an empty query selects nothing.
pub open spec fn selects(q: Map<Seq<char>, Seq<char>>, a: Map<Seq<char>, Seq<char>>) -> bool {
    q != Map::<Seq<char>, Seq<char>>::empty() && q.submap_of(a)
}

/// The label a secret gets when none is given.
pub open spec fn default_secret_label() -> Seq<char> {
    "Untitled Secret"@
}

/// The index of one collection.
pub struct AttributeIndex {
    edges: Vec<Edge>,
    reverse: Table<Attributes>,
    labels: Table<String>,
}

impl View for AttributeIndex {
    type V = (Map<Seq<char>, Map<Seq<char>, Seq<char>>>, Map<Seq<char>, Seq<char>>);

    /// The secrets' attributes and labels.
    open spec fn view(&self) -> Self::V {
        (self.secrets(), self.labels())
    }
}

impl AttributeIndex {
    /// Secret id to attributes.
    pub closed spec fn secrets(&self) -> Map<Seq<char>, Map<Seq<char>, Seq<char>>> {
        self.reverse@
    }

    /// Secret id to label.
    pub closed spec fn labels(&self) -> Map<Seq<char>, Seq<char>> {
        self.labels@
    }

    /// The forward multimap, as a set of `(key, value, secret id)`.
    pub closed spec fn forward(&self) -> Set<(Seq<char>, Seq<char>, Seq<char>)> {
        Set::new(|t: (Seq<char>, Seq<char>, Seq<char>)| holds_edge(self.edges@, t))
    }

    /// The tables are well formed and the forward multimap is the inverse of
    /// the reverse table.
    pub closed spec fn wf(&self) -> bool {
        &&& self.reverse.wf()
        &&& self.labels.wf()
        &&& forall|s: Seq<char>| #[trigger] self.reverse@.contains_key(s) ==> self.reverse.value_at(s).wf()
        &&& forall|t: (Seq<char>, Seq<char>, Seq<char>)|
            #[trigger] holds_edge(self.edges@, t) <==> (self.reverse@.contains_key(t.2)
                && self.reverse@[t.2].contains_key(t.0) && self.reverse@[t.2][t.0] == t.1)
    }

    /// The forward multimap and the reverse table are mutual inverses:
    /// `(k, v) -> s` is an edge exactly when the attributes of `s` map `k` to `v`.
    pub proof fn lemma_mutual_inverse(&self)
        requires
            self.wf(),
        ensures
            forall|k: Seq<char>, v: Seq<char>, s: Seq<char>|
                #[trigger] self.forward().contains((k, v, s)) <==> (self.secrets().contains_key(s)
                    && self.secrets()[s].contains_key(k) && self.secrets()[s][k] == v),
    {
        assert forall|k: Seq<char>, v: Seq<char>, s: Seq<char>|
            #[trigger] self.forward().contains((k, v, s)) <==> (self.secrets().contains_key(s)
                && self.secrets()[s].contains_key(k) && self.secrets()[s][k] == v) by {
            assert(self.forward().contains((k, v, s)) == holds_edge(self.edges@, (k, v, s)));
        }
    }

    /// The view of an empty index.
    pub open spec fn new_view() -> (Map<Seq<char>, Map<Seq<char>, Seq<char>>>, Map<Seq<char>, Seq<char>>) {
        (Map::empty(), Map::empty())
    }

    /// An empty index.
    pub fn new() -> (r: Self)
        ensures
            r.wf(),
            r.secrets() == Map::<Seq<char>, Map<Seq<char>, Seq<char>>>::empty(),
            r.labels() == Map::<Seq<char>, Seq<char>>::empty(),
            r@ == Self::new_view(),
    {
        AttributeIndex { edges: Vec::new(), reverse: Table::new(), labels: Table::new() }
    }

    /// Removes every edge that points to `id`; the reverse table is untouched.
    fn drop_edges(&mut self, id: &String)
        requires
            old(self).reverse.wf(),
        ensures
            final(self).reverse == old(self).reverse,
            final(self).labels == old(self).labels,
            forall|t: (Seq<char>, Seq<char>, Seq<char>)|
                #[trigger] holds_edge(final(self).edges@, t) <==> (holds_edge(old(self).edges@, t)
                    && t.2 != id@),
    {
        let mut kept: Vec<Edge> = Vec::new();
        let mut i: usize = 0;
        while i < self.edges.len()
            invariant
                i <= self.edges@.len(),
                self.edges == old(self).edges,
                forall|t: (Seq<char>, Seq<char>, Seq<char>)|
                    #[trigger] holds_edge(kept@, t) <==> ((exists|j: int|
                        0 <= j < i && #[trigger] edge_view(self.edges@[j]) == t) && t.2 != id@),
            decreases self.edges@.len() - i,
        {
            let e = &self.edges[i];
            if !(e.2 == *id) {
                let ghost before = kept@;
                kept.push((e.0.clone(), e.1.clone(), e.2.clone()));
                proof {
                    assert forall|t: (Seq<char>, Seq<char>, Seq<char>)|
                        #[trigger] holds_edge(kept@, t) <==> ((exists|j: int|
                            0 <= j < i + 1 && #[trigger] edge_view(self.edges@[j]) == t) && t.2
                            != id@) by {
                        if holds_edge(kept@, t) {
                            let j = choose|j: int| 0 <= j < kept@.len() && #[trigger] edge_view(kept@[j]) == t;
                            if j < before.len() {
                                assert(edge_view(before[j]) == t);
                                assert(holds_edge(before, t));
                            } else {
                                assert(edge_view(self.edges@[i as int]) == t);
                            }
                        }
                        if (exists|j: int| 0 <= j < i + 1 && #[trigger] edge_view(self.edges@[j]) == t)
                            && t.2 != id@ {
                            let j = choose|j: int| 0 <= j < i + 1 && #[trigger] edge_view(self.edges@[j]) == t;
                            if j < i {
                                assert(holds_edge(before, t));
                                let m = choose|m: int| 0 <= m < before.len() && #[trigger] edge_view(before[m]) == t;
                                assert(edge_view(kept@[m]) == t);
                            } else {
                                assert(edge_view(kept@[before.len() as int]) == t);
                            }
                        }
                    }
                }
            } else {
                proof {
                    assert forall|t: (Seq<char>, Seq<char>, Seq<char>)|
                        #[trigger] holds_edge(kept@, t) <==> ((exists|j: int|
                            0 <= j < i + 1 && #[trigger] edge_view(self.edges@[j]) == t) && t.2
                            != id@) by {
                        if (exists|j: int| 0 <= j < i + 1 && #[trigger] edge_view(self.edges@[j]) == t)
                            && t.2 != id@ {
                            let j = choose|j: int| 0 <= j < i + 1 && #[trigger] edge_view(self.edges@[j]) == t;
                            assert(j < i);
                        }
                    }
                }
            }
            i += 1;
        }
        self.edges = kept;
    }

    /// Adds an edge `(k, v) -> id` for each attribute of `attrs`.
    fn add_edges(&mut self, id: &String, attrs: &Attributes)
        requires
            attrs.wf(),
        ensures
            final(self).reverse == old(self).reverse,
            final(self).labels == old(self).labels,
            forall|t: (Seq<char>, Seq<char>, Seq<char>)|
                #[trigger] holds_edge(final(self).edges@, t) <==> (holds_edge(old(self).edges@, t)
                    || (t.2 == id@ && attrs@.contains_key(t.0) && attrs@[t.0] == t.1)),
    {
        let rows = attrs.rows();
        proof {
            attrs.lemma_rows();
        }
        let mut i: usize = 0;
        while i < rows.len()
            invariant
                i <= rows@.len(),
                rows@ == attrs.rows_spec(),
                self.reverse == old(self).reverse,
                self.labels == old(self).labels,
                forall|t: (Seq<char>, Seq<char>, Seq<char>)|
                    #[trigger] holds_edge(self.edges@, t) <==> (holds_edge(old(self).edges@, t) || (
                    t.2 == id@ && exists|j: int|
                        0 <= j < i && #[trigger] rows@[j].0@ == t.0 && rows@[j].1@ == t.1)),
            decreases rows@.len() - i,
        {
            let ghost before = self.edges@;
            self.edges.push((rows[i].0.clone(), rows[i].1.clone(), id.clone()));
            proof {
                assert forall|t: (Seq<char>, Seq<char>, Seq<char>)|
                    #[trigger] holds_edge(self.edges@, t) <==> (holds_edge(old(self).edges@, t) || (
                    t.2 == id@ && exists|j: int|
                        0 <= j < i + 1 && #[trigger] rows@[j].0@ == t.0 && rows@[j].1@ == t.1)) by {
                    if holds_edge(self.edges@, t) {
                        let j = choose|j: int| 0 <= j < self.edges@.len() && #[trigger] edge_view(self.edges@[j]) == t;
                        if j < before.len() {
                            assert(edge_view(before[j]) == t);
                            assert(holds_edge(before, t));
                        } else {
                            assert(rows@[i as int].0@ == t.0);
                        }
                    }
                    if holds_edge(old(self).edges@, t) {
                        assert(holds_edge(before, t));
                        let m = choose|m: int| 0 <= m < before.len() && #[trigger] edge_view(before[m]) == t;
                        assert(edge_view(self.edges@[m]) == t);
                    }
                    if t.2 == id@ && exists|j: int|
                        0 <= j < i + 1 && #[trigger] rows@[j].0@ == t.0 && rows@[j].1@ == t.1 {
                        let j = choose|j: int|
                            0 <= j < i + 1 && #[trigger] rows@[j].0@ == t.0 && rows@[j].1@ == t.1;
                        if j < i {
                            assert(holds_edge(before, t));
                            let m = choose|m: int| 0 <= m < before.len() && #[trigger] edge_view(before[m]) == t;
                            assert(edge_view(self.edges@[m]) == t);
                        } else {
                            assert(edge_view(self.edges@[before.len() as int]) == t);
                        }
                    }
                }
            }
            i += 1;
        }
        proof {
            assert forall|t: (Seq<char>, Seq<char>, Seq<char>)|
                (exists|j: int| 0 <= j < rows@.len() && #[trigger] rows@[j].0@ == t.0 && rows@[j].1@ == t.1)
                <==> (attrs@.contains_key(t.0) && attrs@[t.0] == t.1) by {
                if attrs@.contains_key(t.0) && attrs@[t.0] == t.1 {
                    let j = choose|j: int| 0 <= j < attrs.rows_spec().len() && #[trigger] attrs.rows_spec()[j].0@ == t.0;
                    assert(rows@[j].0@ == t.0 && rows@[j].1@ == t.1);
                }
            }
        }
    }

    /// Gives secret `id` the attributes `attrs`, in place of any earlier ones:
    /// the edges of the earlier attributes go, those of the new ones come.
    pub fn set_secret_attrs(&mut self, id: &String, attrs: Attributes)
        requires
            old(self).wf(),
            attrs.wf(),
        ensures
            final(self).wf(),
            final(self).secrets() == old(self).secrets().insert(id@, attrs@),
            final(self).labels() == old(self).labels(),
    {
        self.drop_edges(id);
        let ghost mid = self.edges@;
        self.add_edges(id, &attrs);
        let ghost old_reverse = self.reverse;
        self.reverse.insert(id.clone(), attrs);
        proof {
            assert forall|s: Seq<char>| #[trigger] self.reverse@.contains_key(s) implies self.reverse.value_at(s).wf() by {
                if s != id@ {
                    assert(old_reverse@.contains_key(s));
                }
            }
            assert forall|t: (Seq<char>, Seq<char>, Seq<char>)|
                #[trigger] holds_edge(self.edges@, t) <==> (self.reverse@.contains_key(t.2)
                    && self.reverse@[t.2].contains_key(t.0) && self.reverse@[t.2][t.0] == t.1) by {
                assert(holds_edge(mid, t) <==> (holds_edge(old(self).edges@, t) && t.2 != id@));
                assert(holds_edge(old(self).edges@, t) <==> (old(self).reverse@.contains_key(t.2)
                    && old(self).reverse@[t.2].contains_key(t.0) && old(self).reverse@[t.2][t.0] == t.1));
            }
        }
    }

    /// Stores a new secret: its label (or the default one) and its attributes.
    pub fn create_secret(&mut self, id: &String, label: Option<String>, attrs: Attributes)
        requires
            old(self).wf(),
            attrs.wf(),
        ensures
            final(self).wf(),
            final(self).secrets() == old(self).secrets().insert(id@, attrs@),
            final(self).labels() == old(self).labels().insert(
                id@,
                match label {
                    Some(l) => l@,
                    None => default_secret_label(),
                },
            ),
    {
        let l = match label {
            Some(l) => l,
            None => String::from_str("Untitled Secret"),
        };
        self.labels.insert(id.clone(), l);
        self.set_secret_attrs(id, attrs);
    }

    /// Removes secret `id` and every edge its attributes implied. A secret
    /// that is not there is no error.
    pub fn delete_secret(&mut self, id: &String)
        requires
            old(self).wf(),
        ensures
            final(self).wf(),
            final(self).secrets() == old(self).secrets().remove(id@),
            final(self).labels() == old(self).labels(),
    {
        self.drop_edges(id);
        let ghost old_reverse = self.reverse;
        let _ = self.reverse.remove(id);
        proof {
            assert forall|s: Seq<char>| #[trigger] self.reverse@.contains_key(s) implies self.reverse.value_at(s).wf() by {
                assert(old_reverse@.contains_key(s));
            }
            assert forall|t: (Seq<char>, Seq<char>, Seq<char>)|
                #[trigger] holds_edge(self.edges@, t) <==> (self.reverse@.contains_key(t.2)
                    && self.reverse@[t.2].contains_key(t.0) && self.reverse@[t.2][t.0] == t.1) by {
                assert(holds_edge(old(self).edges@, t) <==> (old(self).reverse@.contains_key(t.2)
                    && old(self).reverse@[t.2].contains_key(t.0) && old(self).reverse@[t.2][t.0] == t.1));
            }
        }
    }

    /// The attributes of secret `id`, if it is there.
    pub fn read_secret_attrs(&self, id: &String) -> (r: Option<&Attributes>)
        requires
            self.wf(),
        ensures
            r is Some <==> self.secrets().contains_key(id@),
            r matches Some(a) ==> a.wf() && a@ == self.secrets()[id@],
    {
        self.reverse.get(id)
    }

    /// The label of secret `id`, if it has one.
    pub fn get_secret_label(&self, id: &String) -> (r: Option<String>)
        requires
            self.wf(),
        ensures
            r is Some <==> self.labels().contains_key(id@),
            r matches Some(l) ==> l@ == self.labels()[id@],
    {
        match self.labels.get(id) {
            Some(l) => Some(l.clone()),
            None => None,
        }
    }

    /// Sets the label of secret `id`.
    pub fn set_secret_label(&mut self, id: &String, label: String)
        requires
            old(self).wf(),
        ensures
            final(self).wf(),
            final(self).labels() == old(self).labels().insert(id@, label@),
            final(self).secrets() == old(self).secrets(),
    {
        self.labels.insert(id.clone(), label);
    }
}

/// Whether `ids` names `id`.
pub fn names_id(ids: &Vec<String>, id: &String) -> (r: bool)
    ensures
        r == names(ids@, id@),
{
    let mut i: usize = 0;
    while i < ids.len()
        invariant
            i <= ids@.len(),
            forall|j: int| 0 <= j < i ==> #[trigger] ids@[j]@ != id@,
        decreases ids@.len() - i,
    {
        if ids[i] == *id {
            proof {
                assert(ids@[i as int]@ == id@);
            }
            return true;
        }
        i += 1;
    }
    false
}

/// Whether every pair of `q` is a pair of `a`.
pub fn contains_all(a: &Attributes, q: &Attributes) -> (r: bool)
    requires
        a.wf(),
        q.wf(),
    ensures
        r == q@.submap_of(a@),
{
    let rows = q.rows();
    let mut i: usize = 0;
    while i < rows.len()
        invariant
            i <= rows@.len(),
            rows@ == q.rows_spec(),
            q.wf(),
            a.wf(),
            forall|j: int| 0 <= j < i ==> a@.contains_key(#[trigger] rows@[j].0@) && a@[rows@[j].0@] == rows@[j].1@,
        decreases rows@.len() - i,
    {
        match a.get(&rows[i].0) {
            Some(v) => {
                if !(*v == rows[i].1) {
                    proof {
                        q.lemma_rows();
                        assert(q.rows_spec()[i as int].0@ == rows@[i as int].0@);
                        assert(q@.contains_key(rows@[i as int].0@));
                    }
                    return false;
                }
            },
            None => {
                proof {
                    q.lemma_rows();
                    assert(q.rows_spec()[i as int].0@ == rows@[i as int].0@);
                    assert(q@.contains_key(rows@[i as int].0@));
                }
                return false;
            },
        }
        i += 1;
    }
    proof {
        q.lemma_rows();
        assert forall|k: Seq<char>| #[trigger] q@.contains_key(k) implies a@.contains_key(k) && q@[k] == a@[k] by {
            let j = choose|j: int| 0 <= j < q.rows_spec().len() && #[trigger] q.rows_spec()[j].0@ == k;
            assert(rows@[j].0@ == k);
        }
    }
    true
}

/// Searches one collection: the ids of the secrets whose attributes include
/// every pair of `attrs`. The candidates are the secrets that the forward
/// multimap gives for one pair of `attrs`; an empty `attrs` finds nothing.
pub fn search_collection(attrs: &Attributes, index: &AttributeIndex) -> (r: Vec<String>)
    requires
        attrs.wf(),
        index.wf(),
    ensures
        forall|s: Seq<char>|
            #[trigger] names(r@, s) <==> (index.secrets().contains_key(s) && selects(attrs@, index.secrets()[s])),
        attrs@ == Map::<Seq<char>, Seq<char>>::empty() ==> r@.len() == 0,
        forall|i: int, j: int| 0 <= i < j < r@.len() ==> #[trigger] r@[i]@ != #[trigger] r@[j]@,
{
    proof {
        attrs.lemma_rows();
    }
    let mut found: Vec<String> = Vec::new();
    if attrs.len() == 0 {
        proof {
            assert forall|s: Seq<char>| !#[trigger] names(found@, s) && !selects(attrs@, index.secrets()[s]) by {
                assert(attrs@ =~= Map::<Seq<char>, Seq<char>>::empty());
            }
        }
        return found;
    }
    let first = &attrs.rows()[0];
    proof {
        assert(attrs@.contains_key(first.0@));
        assert(attrs@ != Map::<Seq<char>, Seq<char>>::empty()) by {
            assert(!Map::<Seq<char>, Seq<char>>::empty().contains_key(first.0@));
        }
    }
    let edges = &index.edges;
    let mut i: usize = 0;
    while i < edges.len()
        invariant
            i <= edges@.len(),
            edges@ == index.edges@,
            index.wf(),
            attrs.wf(),
            attrs@.contains_key(first.0@) && attrs@[first.0@] == first.1@,
            attrs@ != Map::<Seq<char>, Seq<char>>::empty(),
            forall|a: int, b: int| 0 <= a < b < found@.len() ==> #[trigger] found@[a]@ != #[trigger] found@[b]@,
            forall|s: Seq<char>|
                #[trigger] names(found@, s) <==> ((exists|j: int|
                    0 <= j < i && #[trigger] edge_view(edges@[j]) == (first.0@, first.1@, s))
                    && attrs@.submap_of(index.reverse@[s])),
        decreases edges@.len() - i,
    {
        let e = &edges[i];
        let ghost before = found@;
        if e.0 == first.0 && e.1 == first.1 {
            proof {
                assert(holds_edge(index.edges@, edge_view(*e)));
            }
            match index.reverse.get(&e.2) {
                Some(a) => {
                    if contains_all(a, attrs) && !names_id(&found, &e.2) {
                        found.push(e.2.clone());
                    }
                },
                None => {},
            }
        }
        proof {
            assert forall|s: Seq<char>|
                #[trigger] names(found@, s) <==> ((exists|j: int|
                    0 <= j < i + 1 && #[trigger] edge_view(edges@[j]) == (first.0@, first.1@, s))
                    && attrs@.submap_of(index.reverse@[s])) by {
                if names(found@, s) {
                    let j = choose|j: int| 0 <= j < found@.len() && #[trigger] found@[j]@ == s;
                    if j < before.len() {
                        assert(names(before, s));
                    }
                }
                if names(before, s) {
                    let j = choose|j: int| 0 <= j < before.len() && #[trigger] before[j]@ == s;
                    assert(found@[j]@ == s);
                }
                if (exists|j: int| 0 <= j < i + 1 && #[trigger] edge_view(edges@[j]) == (first.0@, first.1@, s))
                    && attrs@.submap_of(index.reverse@[s]) {
                    let j = choose|j: int| 0 <= j < i + 1 && #[trigger] edge_view(edges@[j]) == (first.0@, first.1@, s);
                    if j == i && !names(before, s) {
                        assert(found@[before.len() as int]@ == s);
                    }
                }
            }
        }
        i += 1;
    }
    proof {
        assert forall|s: Seq<char>|
            #[trigger] names(found@, s) <==> (index.secrets().contains_key(s) && selects(attrs@, index.secrets()[s])) by {
            let t = (first.0@, first.1@, s);
            if index.secrets().contains_key(s) && selects(attrs@, index.secrets()[s]) {
                assert(attrs@.dom().contains(first.0@));
                assert(index.secrets()[s].contains_key(first.0@));
                assert(index.secrets()[s][first.0@] == first.1@);
                assert(holds_edge(index.edges@, t));
                let j = choose|j: int| 0 <= j < index.edges@.len() && #[trigger] edge_view(index.edges@[j]) == t;
                assert(edge_view(edges@[j]) == t);
            }
            if names(found@, s) {
                let j = choose|j: int| 0 <= j < edges@.len() && #[trigger] edge_view(edges@[j]) == t;
                assert(holds_edge(index.edges@, t));
            }
        }
    }
    found
}

} // verus!
