//! The service: the secret store and the bus object graph kept in step. Every
//! alias of the catalog whose collection is installed is mirrored in the
//! graph, and no other alias is. Each operation returns the objects that the
//! bus must install or remove.
use vstd::prelude::*;

use crate::catalog::opt_view;
use crate::error::{is_not_found, Error};
use crate::graph::{
    collection_path, doomed, objects_view, is_path_element, mirrored, path_element, path_of, without, AliasChange, Doomed, GraphObject,
    ObjectGraph, ObjectView,
};
use crate::text::{chars_are, chars_of, drop_chars, split_chars, split_spec, string_from_chars, take_chars, views_of};
use crate::index::{names, Attributes};
use crate::slug::{slug_of, slugify};
use crate::store::SecretStore;

verus! {

/// Alias `a` is mirrored exactly as the catalog says: the graph hosts
/// collection `c` at `/aliases/a` when the catalog maps `a` to `c` and `c` is
/// installed, and hosts nothing there otherwise.
pub open spec fn alias_synced(aliases: Map<Seq<char>, Seq<char>>, objects: Set<ObjectView>, a: Seq<char>) -> bool {
    forall|c: Seq<char>|
        #[trigger] objects.contains(ObjectView::AliasCollection(a, c)) <==> (aliases.contains_key(a) && aliases[a] == c
            && objects.contains(ObjectView::Collection(c)))
}

/// Every alias is mirrored as the catalog says.
pub open spec fn consistent(aliases: Map<Seq<char>, Seq<char>>, objects: Set<ObjectView>) -> bool {
    forall|a: Seq<char>| #[trigger] alias_synced(aliases, objects, a)
}

/// The alias that a `CreateCollection` request asks for: the slug of the
/// given text, none when that slug is empty.
pub open spec fn requested_alias(text: Seq<char>) -> Option<Seq<char>> {
    if slug_of(text).len() == 0 {
        None
    } else {
        Some(slug_of(text))
    }
}

/// The alias that a `CreateCollection` request asks for; an empty one (after
/// slugifying) is no alias.
pub fn alias_from_request(text: &str) -> (r: Option<String>)
    ensures
        opt_view(r) == requested_alias(text@),
{
    let s = slugify(text);
    if s.as_str().unicode_len() == 0 {
        None
    } else {
        Some(s)
    }
}

/// The start of every collection path.
pub open spec fn collection_prefix() -> Seq<char> {
    "/org/freedesktop/secrets/collection/"@
}

/// The target that a `SetAlias` path names: `/` clears the alias, the path of
/// a collection names it; any other path names nothing.
pub open spec fn alias_target_of(path: Seq<char>) -> Option<Option<Seq<char>>> {
    let p = collection_prefix();
    if path == "/"@ {
        Some(None)
    } else if path.len() > p.len() && path.subrange(0, p.len() as int) == p && is_path_element(
        path.subrange(p.len() as int, path.len() as int),
    ) {
        Some(Some(path.subrange(p.len() as int, path.len() as int)))
    } else {
        None
    }
}

/// Reads the target of a `SetAlias` request (see `alias_target_of`).
pub fn parse_alias_target(path: &str) -> (r: Option<Option<String>>)
    ensures
        match r {
            Some(t) => alias_target_of(path@) == Some(opt_view(t)),
            None => alias_target_of(path@) is None,
        },
{
    let chars = chars_of(path);
    proof {
        reveal_strlit("/");
        reveal_strlit("/org/freedesktop/secrets/collection/");
    }
    if chars_are(&chars, "/") {
        return Some(None);
    }
    let prefix = chars_of("/org/freedesktop/secrets/collection/");
    if chars.len() <= prefix.len() {
        return None;
    }
    let head = take_chars(&chars, prefix.len());
    if !chars_are(&head, "/org/freedesktop/secrets/collection/") {
        return None;
    }
    let rest = string_from_chars(&drop_chars(&chars, prefix.len()));
    if !path_element(&rest) {
        return None;
    }
    Some(Some(rest))
}

/// The root of the object paths, with its trailing separator.
pub open spec fn object_root() -> Seq<char> {
    "/org/freedesktop/secrets/"@
}

/// The collection that an object path leads to: for a collection or item
/// path, its collection; for an alias or alias item path, the collection that
/// the catalog maps the alias to.
pub open spec fn lock_collection_of(aliases: Map<Seq<char>, Seq<char>>, path: Seq<char>) -> Option<Seq<char>> {
    let root = object_root();
    if path.len() >= root.len() && path.subrange(0, root.len() as int) == root {
        let parts = split_spec(path.subrange(root.len() as int, path.len() as int), '/');
        if parts.len() == 2 || parts.len() == 3 {
            if parts[0] == "collection"@ {
                Some(parts[1])
            } else if parts[0] == "aliases"@ && aliases.contains_key(parts[1]) {
                Some(aliases[parts[1]])
            } else {
                None
            }
        } else {
            None
        }
    } else {
        None
    }
}

/// An item creation waiting for the client (interactive prompts are not
/// offered: every request completes at once).
pub struct Prompt {
    pub secret: Vec<u8>,
    pub attrs: Attributes,
    pub label: Option<String>,
    pub replace: bool,
}

/// Whether the listings name secret `s` in collection `c`.
pub open spec fn listed_item(listings: Seq<(String, Vec<String>)>, c: Seq<char>, s: Seq<char>) -> bool {
    exists|i: int, j: int|
        0 <= i < listings.len() && 0 <= j < listings[i].1@.len() && #[trigger] listings[i].0@ == c
            && #[trigger] listings[i].1@[j]@ == s
}

/// When the objects of alias `a` that host another collection are replaced
/// by objects that host `target`, the objects removed and installed are
/// exactly the graph's losses and gains.
proof fn lemma_alias_switch_diff(
    g0: Set<ObjectView>,
    g1: Set<ObjectView>,
    a: Seq<char>,
    target: Seq<char>,
)
    requires
        mirrored(g0),
        without(g0, Doomed::Alias(a)).subset_of(g1),
        forall|c: Seq<char>| #[trigger] g0.contains(ObjectView::AliasCollection(a, c)) ==> c != target,
        forall|o: ObjectView|
            #[trigger] g1.contains(o) && doomed(Doomed::Alias(a), o) ==> (o == ObjectView::AliasCollection(a, target)
                || exists|s: Seq<char>| o == ObjectView::AliasItem(a, target, s)),
    ensures
        g0.filter(|o: ObjectView| doomed(Doomed::Alias(a), o)) == g0.difference(g1),
        g1.difference(without(g0, Doomed::Alias(a))) == g1.difference(g0),
{
    assert forall|o: ObjectView| g0.contains(o) && doomed(Doomed::Alias(a), o) implies !g1.contains(o) by {
        if g1.contains(o) {
            match o {
                ObjectView::AliasItem(x, c, t) => {
                    assert(g0.contains(ObjectView::AliasCollection(x, c)));
                    if o != ObjectView::AliasCollection(a, target) {
                        let s = choose|s: Seq<char>| o == ObjectView::AliasItem(a, target, s);
                    }
                },
                _ => {},
            }
        }
    }
    assert(g0.filter(|o: ObjectView| doomed(Doomed::Alias(a), o)) =~= g0.difference(g1));
    assert(g1.difference(without(g0, Doomed::Alias(a))) =~= g1.difference(g0));
}

/// The objects of two lists together.
proof fn lemma_concat_view(a: Seq<GraphObject>, b: Seq<GraphObject>)
    ensures
        objects_view(a + b) == objects_view(a).union(objects_view(b)),
{
    assert forall|o: ObjectView| objects_view(a + b).contains(o) <==> objects_view(a).union(objects_view(b)).contains(o) by {
        if objects_view(a + b).contains(o) {
            let k = choose|k: int| 0 <= k < (a + b).len() && #[trigger] (a + b)[k]@ == o;
            if k < a.len() {
                assert(a[k]@ == o);
            } else {
                assert(b[k - a.len()]@ == o);
            }
        }
        if objects_view(a).contains(o) {
            let k = choose|k: int| 0 <= k < a.len() && #[trigger] a[k]@ == o;
            assert((a + b)[k]@ == o);
        }
        if objects_view(b).contains(o) {
            let k = choose|k: int| 0 <= k < b.len() && #[trigger] b[k]@ == o;
            assert((a + b)[k + a.len()]@ == o);
        }
    }
    assert(objects_view(a + b) =~= objects_view(a).union(objects_view(b)));
}

/// What a change did to the graph.
pub struct GraphChange {
    pub removed: Vec<GraphObject>,
    pub installed: Vec<GraphObject>,
}

/// The store and the graph of the running daemon.
pub struct Service {
    store: SecretStore,
    graph: ObjectGraph,
}

impl Service {
    /// The store.
    pub closed spec fn store_view(&self) -> SecretStore {
        self.store
    }

    /// The installed objects.
    pub closed spec fn objects(&self) -> Set<ObjectView> {
        self.graph@
    }

    pub closed spec fn wf(&self) -> bool {
        &&& self.store.wf()
        &&& self.graph.wf()
        &&& consistent(self.store.aliases(), self.graph@)
    }

    /// The store, for reading.
    pub fn store(&self) -> (r: &SecretStore)
        ensures
            *r == self.store_view(),
    {
        &self.store
    }

    /// The object graph, for reading.
    pub fn graph(&self) -> (r: &ObjectGraph)
        ensures
            r@ == self.objects(),
            self.wf() ==> r.wf(),
    {
        &self.graph
    }

    /// Installs collection `id` and the mirrors of the aliases that name it.
    /// Aliases that name other collections must already be mirrored, and
    /// those that name `id` must not host anything yet. Nothing is removed.
    fn install_collection(&mut self, id: &String) -> (r: GraphChange)
        requires
            old(self).store.wf(),
            old(self).graph.wf(),
            forall|a: Seq<char>|
                #![trigger old(self).store.aliases().contains_key(a)]
                #![trigger alias_synced(old(self).store.aliases(), old(self).graph@, a)]
                (old(self).store.aliases().contains_key(a) && old(self).store.aliases()[a] == id@ && forall|c: Seq<char>|
                    !#[trigger] old(self).graph@.contains(ObjectView::AliasCollection(a, c))) || alias_synced(
                    old(self).store.aliases(),
                    old(self).graph@,
                    a,
                ),
        ensures
            final(self).wf(),
            final(self).store == old(self).store,
            final(self).graph@.contains(ObjectView::Collection(id@)),
            forall|o: ObjectView|
                (o is Collection || o is Item) ==> (#[trigger] final(self).graph@.contains(o) <==> (old(self).graph@.contains(o)
                    || o == ObjectView::Collection(id@))),
            r.removed@.len() == 0,
            objects_view(r.installed@) == final(self).graph@.difference(old(self).graph@),
            old(self).graph@.subset_of(final(self).graph@),
    {
        let removed: Vec<GraphObject> = Vec::new();
        let mut installed = self.graph.add_collection(id);
        proof {
            assert(objects_view(installed@) =~= self.graph@.difference(old(self).graph@)) by {
                if old(self).graph@.contains(ObjectView::Collection(id@)) {
                    assert(self.graph@ =~= old(self).graph@);
                } else {
                    assert forall|o: ObjectView| objects_view(installed@).contains(o) <==> o == ObjectView::Collection(id@) by {
                        if objects_view(installed@).contains(o) {
                            let k = choose|k: int| 0 <= k < installed@.len() && #[trigger] installed@[k]@ == o;
                        }
                        if o == ObjectView::Collection(id@) {
                            assert(installed@[0]@ == o);
                        }
                    }
                }
            }
        }
        let mirrors = self.store.list_aliases_for_collection(id);
        let ghost aliases = self.store.aliases();
        let ghost g0 = old(self).graph@;
        let mut i: usize = 0;
        while i < mirrors.len()
            invariant
                self.store == old(self).store,
                aliases == self.store.aliases(),
                g0 == old(self).graph@,
                self.store.wf(),
                self.graph.wf(),
                i <= mirrors@.len(),
                self.graph@.contains(ObjectView::Collection(id@)),
                g0.subset_of(self.graph@),
                objects_view(installed@) == self.graph@.difference(g0),
                forall|a: Seq<char>| #[trigger] names(mirrors@, a) <==> (aliases.contains_key(a) && aliases[a] == id@),
                forall|o: ObjectView|
                    (o is Collection || o is Item) ==> (#[trigger] self.graph@.contains(o) <==> (g0.contains(o)
                        || o == ObjectView::Collection(id@))),
                forall|a: Seq<char>|
                    #![trigger aliases.contains_key(a)]
                    #![trigger alias_synced(aliases, self.graph@, a)]
                    (aliases.contains_key(a) && aliases[a] == id@ && !(exists|j: int| 0 <= j < i && #[trigger] mirrors@[j]@ == a)
                        && forall|c: Seq<char>| !#[trigger] self.graph@.contains(ObjectView::AliasCollection(a, c)))
                        || alias_synced(aliases, self.graph@, a),
            decreases mirrors@.len() - i,
        {
            let ghost before = self.graph@;
            let ghost ai = mirrors@[i as int]@;
            proof {
                assert(names(mirrors@, ai));
            }
            let probe = GraphObject::AliasCollection { alias: mirrors[i].clone(), collection: id.clone() };
            if !self.graph.contains(&probe) {
                proof {
                    assert(aliases.contains_key(ai));
                    assert(!alias_synced(aliases, before, ai));
                    assert(forall|c: Seq<char>| !#[trigger] before.contains(ObjectView::AliasCollection(ai, c)));
                    assert(without(before, Doomed::Alias(ai)) =~= before) by {
                        assert forall|o: ObjectView| before.contains(o) implies !doomed(Doomed::Alias(ai), o) by {
                            assert(mirrored(before));
                            match o {
                                ObjectView::AliasItem(x, c, t) => {
                                    assert(before.contains(ObjectView::AliasItem(x, c, t)));
                                    assert(before.contains(ObjectView::AliasCollection(x, c)));
                                    assert(x != ai);
                                },
                                ObjectView::AliasCollection(x, c) => {
                                    assert(before.contains(ObjectView::AliasCollection(x, c)));
                                    assert(x != ai);
                                },
                                _ => {},
                            }
                        }
                    }
                }
                match self.graph.set_alias(&mirrors[i], Some(id)) {
                    Ok(ch) => {
                        let ghost prev_installed = installed@;
                        let mut added = ch.installed;
                        let ghost added_view = added@;
                        installed.append(&mut added);
                        proof {
                            lemma_concat_view(prev_installed, added_view);
                            assert(installed@ == prev_installed + added_view);
                        }
                    },
                    Err(_) => {},
                }
                proof {
                    let g = self.graph@;
                    assert(before.subset_of(g));
                    assert(objects_view(installed@) =~= g.difference(g0));
                }
            }
            proof {
                let g = self.graph@;
                assert forall|o: ObjectView|
                    (o is Collection || o is Item) implies (#[trigger] g.contains(o) <==> before.contains(o)) by {
                    assert(!doomed(Doomed::Alias(ai), o));
                }
                assert forall|a: Seq<char>|
                    #![trigger aliases.contains_key(a)]
                    #![trigger alias_synced(aliases, g, a)]
                    (aliases.contains_key(a) && aliases[a] == id@ && !(exists|j: int| 0 <= j < i + 1 && #[trigger] mirrors@[j]@ == a)
                        && forall|c: Seq<char>| !#[trigger] g.contains(ObjectView::AliasCollection(a, c)))
                        || alias_synced(aliases, g, a) by {
                    if a == ai {
                        assert forall|c: Seq<char>|
                            #[trigger] g.contains(ObjectView::AliasCollection(a, c)) <==> (aliases.contains_key(a) && aliases[a] == c
                                && g.contains(ObjectView::Collection(c))) by {
                            if g.contains(ObjectView::AliasCollection(a, c)) && g != before {
                                assert(!without(before, Doomed::Alias(a)).contains(ObjectView::AliasCollection(a, c)));
                            }
                            if g == before && g.contains(ObjectView::AliasCollection(a, c)) {
                                assert(before.contains(ObjectView::AliasCollection(a, id@)));
                                assert(alias_synced(aliases, before, a));
                            }
                            if c == id@ {
                                assert(g.contains(ObjectView::AliasCollection(a, c)));
                            }
                        }
                    } else {
                        assert forall|c: Seq<char>|
                            g.contains(ObjectView::AliasCollection(a, c)) <==> before.contains(ObjectView::AliasCollection(a, c)) by {
                            assert(doomed(Doomed::Alias(ai), ObjectView::AliasCollection(a, c)) == (a == ai));
                        }
                        if alias_synced(aliases, before, a) {
                            assert forall|c: Seq<char>|
                                #[trigger] g.contains(ObjectView::AliasCollection(a, c)) <==> (aliases.contains_key(a) && aliases[a] == c
                                    && g.contains(ObjectView::Collection(c))) by {
                                assert(g.contains(ObjectView::Collection(c)) <==> before.contains(ObjectView::Collection(c)));
                            }
                        } else {
                            if exists|j: int| 0 <= j < i + 1 && #[trigger] mirrors@[j]@ == a {
                                let j = choose|j: int| 0 <= j < i + 1 && #[trigger] mirrors@[j]@ == a;
                                assert(j != i);
                            }
                        }
                    }
                }
            }
            i += 1;
        }
        proof {
            assert forall|a: Seq<char>| #[trigger] alias_synced(aliases, self.graph@, a) by {
                if !alias_synced(aliases, self.graph@, a) {
                    assert(aliases.contains_key(a) && aliases[a] == id@);
                    assert(names(mirrors@, a));
                    let j = choose|j: int| 0 <= j < mirrors@.len() && #[trigger] mirrors@[j]@ == a;
                }
            }
        }
        GraphChange { removed, installed }
    }

    /// Starts the service over `store`. Unless the alias `default` names a
    /// collection of the store, a collection labelled `Default` with that
    /// alias is made first (its id ends in `suffix`) and returned. Then every
    /// collection is installed with the mirrors of its aliases, then the items
    /// that `listings` gives for each collection (collection id, secret ids).
    pub fn init(store: SecretStore, listings: &Vec<(String, Vec<String>)>, suffix: &String) -> (r: (
        Service,
        GraphChange,
        Option<String>,
    ))
        requires
            store.wf(),
        ensures
            r.0.wf(),
            store.has_default() ==> r.2 is None && r.0.store_view().aliases() == store.aliases()
                && r.0.store_view().labels() == store.labels() && r.0.store_view().indexes() == store.indexes(),
            !store.has_default() ==> (r.2 matches Some(id) && {
                let s = r.0.store_view();
                &&& id@ == crate::catalog::collection_id_of(crate::store::default_label(), suffix@)
                &&& s.aliases() == store.aliases().insert(crate::store::default_alias(), id@)
                &&& s.labels() == store.labels().insert(id@, crate::store::default_label())
                &&& s.indexes() == if store.indexes().contains_key(id@) {
                    store.indexes()
                } else {
                    store.indexes().insert(id@, crate::index::AttributeIndex::new_view())
                }
            }),
            r.0.store_view().aliases().contains_key(crate::store::default_alias()),
            r.0.objects().contains(
                ObjectView::Collection(r.0.store_view().aliases()[crate::store::default_alias()]),
            ),
            r.0.objects().contains(
                ObjectView::AliasCollection(
                    crate::store::default_alias(),
                    r.0.store_view().aliases()[crate::store::default_alias()],
                ),
            ),
            forall|c: Seq<char>|
                #[trigger] r.0.objects().contains(ObjectView::Collection(c)) <==> r.0.store_view().indexes().contains_key(c),
            forall|c: Seq<char>, s: Seq<char>|
                #[trigger] r.0.objects().contains(ObjectView::Item(c, s)) <==> listed_item(listings@, c, s),
            r.1.removed@.len() == 0,
            objects_view(r.1.installed@) == r.0.objects(),
    {
        let mut store = store;
        let created = store.ensure_default_collection(suffix);
        let ghost st = store;
        let graph = ObjectGraph::new();
        let mut svc = Service { store, graph };
        let removed: Vec<GraphObject> = Vec::new();
        let mut installed: Vec<GraphObject> = Vec::new();
        proof {
            assert(objects_view(installed@) =~= svc.graph@);
            assert forall|a: Seq<char>| #[trigger] alias_synced(svc.store.aliases(), svc.graph@, a) by {}
        }
        let cols = svc.store.collections();
        let mut i: usize = 0;
        while i < cols.len()
            invariant
                svc.wf(),
                svc.store == st,
                removed@.len() == 0,
                objects_view(installed@) == svc.graph@,
                i <= cols@.len(),
                forall|c: Seq<char>| #[trigger] names(cols@, c) <==> st.indexes().contains_key(c),
                forall|c: Seq<char>|
                    #[trigger] svc.graph@.contains(ObjectView::Collection(c)) <==> exists|j: int|
                        0 <= j < i && #[trigger] cols@[j]@ == c,
                forall|c: Seq<char>, s: Seq<char>| !#[trigger] svc.graph@.contains(ObjectView::Item(c, s)),
            decreases cols@.len() - i,
        {
            let ghost before = svc.graph@;
            let ghost prev = installed@;
            let mut ch = svc.install_collection(&cols[i]);
            let ghost added = ch.installed@;
            installed.append(&mut ch.installed);
            proof {
                lemma_concat_view(prev, added);
                assert(installed@ == prev + added);
                assert(objects_view(installed@) =~= svc.graph@);
                assert forall|c: Seq<char>|
                    #[trigger] svc.graph@.contains(ObjectView::Collection(c)) <==> exists|j: int|
                        0 <= j < i + 1 && #[trigger] cols@[j]@ == c by {
                    assert(svc.graph@.contains(ObjectView::Collection(c)) <==> (before.contains(ObjectView::Collection(c))
                        || c == cols@[i as int]@));
                    if exists|j: int| 0 <= j < i + 1 && #[trigger] cols@[j]@ == c {
                        let j = choose|j: int| 0 <= j < i + 1 && #[trigger] cols@[j]@ == c;
                        if j < i {
                            assert(before.contains(ObjectView::Collection(c)));
                        }
                    }
                }
                assert forall|c: Seq<char>, s: Seq<char>| !#[trigger] svc.graph@.contains(ObjectView::Item(c, s)) by {
                    assert(svc.graph@.contains(ObjectView::Item(c, s)) <==> before.contains(ObjectView::Item(c, s)));
                }
            }
            i += 1;
        }
        proof {
            assert forall|c: Seq<char>|
                #[trigger] svc.graph@.contains(ObjectView::Collection(c)) <==> st.indexes().contains_key(c) by {
                if st.indexes().contains_key(c) {
                    assert(names(cols@, c));
                }
                if svc.graph@.contains(ObjectView::Collection(c)) {
                    let j = choose|j: int| 0 <= j < cols@.len() && #[trigger] cols@[j]@ == c;
                    assert(names(cols@, c));
                }
            }
            assert forall|c: Seq<char>, s: Seq<char>|
                #[trigger] svc.graph@.contains(ObjectView::Item(c, s)) <==> listed_item(listings@.subrange(0, 0), c, s) by {}
        }
        let mut k: usize = 0;
        while k < listings.len()
            invariant
                svc.wf(),
                svc.store == st,
                removed@.len() == 0,
                objects_view(installed@) == svc.graph@,
                k <= listings@.len(),
                forall|c: Seq<char>|
                    #[trigger] svc.graph@.contains(ObjectView::Collection(c)) <==> st.indexes().contains_key(c),
                forall|c: Seq<char>, s: Seq<char>|
                    #[trigger] svc.graph@.contains(ObjectView::Item(c, s)) <==> listed_item(
                        listings@.subrange(0, k as int),
                        c,
                        s,
                    ),
            decreases listings@.len() - k,
        {
            let c = &listings[k].0;
            let ids = &listings[k].1;
            let ghost done = listings@.subrange(0, k as int);
            let mut j: usize = 0;
            while j < ids.len()
                invariant
                    svc.wf(),
                    svc.store == st,
                    removed@.len() == 0,
                    objects_view(installed@) == svc.graph@,
                    k < listings@.len(),
                    done == listings@.subrange(0, k as int),
                    *c == listings@[k as int].0,
                    *ids == listings@[k as int].1,
                    j <= ids@.len(),
                    forall|x: Seq<char>|
                        #[trigger] svc.graph@.contains(ObjectView::Collection(x)) <==> st.indexes().contains_key(x),
                    forall|x: Seq<char>, s: Seq<char>|
                        #[trigger] svc.graph@.contains(ObjectView::Item(x, s)) <==> (listed_item(done, x, s) || (x
                            == c@ && exists|m: int| 0 <= m < j && #[trigger] ids@[m]@ == s)),
                decreases ids@.len() - j,
            {
                let ghost before = svc.graph@;
                let ghost prev = installed@;
                let mut added = svc.add_item_objects(c, &ids[j]);
                let ghost added_view = added@;
                installed.append(&mut added);
                proof {
                    lemma_concat_view(prev, added_view);
                    assert(installed@ == prev + added_view);
                    assert(objects_view(installed@) =~= svc.graph@);
                    assert forall|x: Seq<char>, s: Seq<char>|
                        #[trigger] svc.graph@.contains(ObjectView::Item(x, s)) <==> (listed_item(done, x, s) || (x
                            == c@ && exists|m: int| 0 <= m < j + 1 && #[trigger] ids@[m]@ == s)) by {
                        assert(svc.graph@.contains(ObjectView::Item(x, s)) <==> (before.contains(ObjectView::Item(x, s))
                            || (x == c@ && s == ids@[j as int]@)));
                        if x == c@ && exists|m: int| 0 <= m < j + 1 && #[trigger] ids@[m]@ == s {
                            let m = choose|m: int| 0 <= m < j + 1 && #[trigger] ids@[m]@ == s;
                            if m < j {
                                assert(before.contains(ObjectView::Item(x, s)));
                            }
                        }
                    }
                }
                j += 1;
            }
            proof {
                let next = listings@.subrange(0, k + 1);
                assert forall|x: Seq<char>, s: Seq<char>|
                    #[trigger] svc.graph@.contains(ObjectView::Item(x, s)) <==> listed_item(next, x, s) by {
                    if listed_item(next, x, s) {
                        let (a, b) = choose|a: int, b: int|
                            0 <= a < next.len() && 0 <= b < next[a].1@.len() && #[trigger] next[a].0@ == x
                                && #[trigger] next[a].1@[b]@ == s;
                        if a < k {
                            assert(done[a] == next[a]);
                            assert(listed_item(done, x, s));
                        } else {
                            assert(ids@[b]@ == s);
                        }
                    }
                    if listed_item(done, x, s) {
                        let (a, b) = choose|a: int, b: int|
                            0 <= a < done.len() && 0 <= b < done[a].1@.len() && #[trigger] done[a].0@ == x
                                && #[trigger] done[a].1@[b]@ == s;
                        assert(next[a] == done[a]);
                        assert(listed_item(next, x, s));
                    }
                    if x == c@ && exists|m: int| 0 <= m < ids@.len() && #[trigger] ids@[m]@ == s {
                        let m = choose|m: int| 0 <= m < ids@.len() && #[trigger] ids@[m]@ == s;
                        assert(next[k as int] == listings@[k as int]);
                        assert(next[k as int].0@ == x && next[k as int].1@[m]@ == s);
                        assert(listed_item(next, x, s));
                    }
                }
            }
            k += 1;
        }
        proof {
            assert(listings@.subrange(0, listings@.len() as int) =~= listings@);
        }
        proof {
            let d = crate::store::default_alias();
            let c = st.aliases()[d];
            assert(alias_synced(st.aliases(), svc.graph@, d));
            assert(svc.graph@.contains(ObjectView::Collection(c)));
        }
        (svc, GraphChange { removed, installed }, created)
    }

    /// Installs item `s` of collection `c` in the graph (see `ObjectGraph::add_item`).
    fn add_item_objects(&mut self, c: &String, s: &String) -> (installed: Vec<GraphObject>)
        requires
            old(self).wf(),
        ensures
            final(self).wf(),
            final(self).store == old(self).store,
            final(self).graph@ == old(self).graph@.union(final(self).graph@.difference(old(self).graph@)),
            final(self).graph@.contains(ObjectView::Item(c@, s@)),
            forall|o: ObjectView| #[trigger] old(self).graph@.contains(o) ==> final(self).graph@.contains(o),
            forall|o: ObjectView|
                !(o is Item || o is AliasItem) ==> (#[trigger] final(self).graph@.contains(o) <==> old(self).graph@.contains(o)),
            forall|x: Seq<char>, y: Seq<char>|
                #[trigger] final(self).graph@.contains(ObjectView::Item(x, y)) <==> (old(self).graph@.contains(
                    ObjectView::Item(x, y),
                ) || (x == c@ && y == s@)),
            !old(self).graph@.contains(ObjectView::Item(c@, s@)) ==> installed@.len() > 0 && installed@.last()@
                == ObjectView::Item(c@, s@),
            crate::graph::objects_view(installed@) == final(self).graph@.difference(old(self).graph@),
    {
        let ghost before = self.graph@;
        let installed = self.graph.add_item(c, s);
        proof {
            let g = self.graph@;
            if before.contains(ObjectView::Item(c@, s@)) {
                assert forall|o: ObjectView| #![auto] g.contains(o) implies before.contains(o) by {
                    if exists|a: Seq<char>| o == ObjectView::AliasItem(a, c@, s@) && #[trigger] before.contains(ObjectView::AliasCollection(a, c@)) {
                        let a = choose|a: Seq<char>| o == ObjectView::AliasItem(a, c@, s@) && #[trigger] before.contains(ObjectView::AliasCollection(a, c@));
                        assert(before.contains(ObjectView::Item(c@, s@)) <==> before.contains(ObjectView::AliasItem(a, c@, s@)));
                    }
                }
                assert(crate::graph::objects_view(installed@) =~= g.difference(before));
            }
            assert(g =~= before.union(g.difference(before)));
            assert forall|a: Seq<char>| #[trigger] alias_synced(self.store.aliases(), g, a) by {
                assert(alias_synced(self.store.aliases(), before, a));
                assert forall|x: Seq<char>|
                    #[trigger] g.contains(ObjectView::AliasCollection(a, x)) <==> before.contains(ObjectView::AliasCollection(a, x)) by {}
                assert forall|x: Seq<char>|
                    #[trigger] g.contains(ObjectView::Collection(x)) <==> before.contains(ObjectView::Collection(x)) by {}
            }
        }
        installed
    }

    /// `CreateCollection`: creates the collection in the store (see
    /// `SecretStore::create_collection`; the alias is the slug of
    /// `alias_text`, none when empty) and installs it unless it is installed.
    /// Returns its id and whether it was installed now.
    pub fn create_collection(&mut self, label: Option<String>, alias_text: &str, suffix: &String) -> (r: (
        String,
        bool,
        GraphChange,
    ))
        requires
            old(self).wf(),
        ensures
            final(self).wf(),
            final(self).objects().contains(ObjectView::Collection(r.0@)),
            r.1 == !old(self).objects().contains(ObjectView::Collection(r.0@)),
            objects_view(r.2.removed@) == old(self).objects().difference(final(self).objects()),
            objects_view(r.2.installed@) == final(self).objects().difference(old(self).objects()),
            forall|o: ObjectView|
                (o is Collection || o is Item) ==> (#[trigger] final(self).objects().contains(o) <==> (
                old(self).objects().contains(o) || o == ObjectView::Collection(r.0@))),
            final(self).store_view().indexes().contains_key(r.0@),
            match requested_alias(alias_text@) {
                Some(a) => {
                    &&& final(self).store_view().aliases() == old(self).store_view().aliases().insert(a, r.0@)
                    &&& old(self).store_view().aliases().contains_key(a) ==> r.0@ == old(self).store_view().aliases()[a]
                    &&& !old(self).store_view().aliases().contains_key(a) ==> r.0@ == crate::catalog::collection_id_of(
                        match label {
                            Some(l) => l@,
                            None => crate::catalog::default_collection_label(),
                        },
                        suffix@,
                    )
                },
                None => {
                    &&& final(self).store_view().aliases() == old(self).store_view().aliases()
                    &&& r.0@ == crate::catalog::collection_id_of(
                        match label {
                            Some(l) => l@,
                            None => crate::catalog::default_collection_label(),
                        },
                        suffix@,
                    )
                },
            },
            old(self).store_view().indexes().contains_key(r.0@) ==> final(self).store_view().indexes()
                == old(self).store_view().indexes(),
            !old(self).store_view().indexes().contains_key(r.0@) ==> final(self).store_view().indexes()
                == old(self).store_view().indexes().insert(r.0@, crate::index::AttributeIndex::new_view()),
            ({
                let lbl = match label {
                    Some(l) => l@,
                    None => crate::catalog::default_collection_label(),
                };
                let reused = match requested_alias(alias_text@) {
                    Some(a) => old(self).store_view().aliases().contains_key(a),
                    None => false,
                };
                if reused && !(label is Some || !old(self).store_view().labels().contains_key(r.0@)) {
                    final(self).store_view().labels() == old(self).store_view().labels()
                } else {
                    final(self).store_view().labels() == old(self).store_view().labels().insert(r.0@, lbl)
                }
            }),
    {
        let alias = alias_from_request(alias_text);
        let ghost old_aliases = self.store.aliases();
        let id = self.store.create_collection(label, alias.clone(), suffix);
        proof {
            match opt_view(alias) {
                Some(a) => {
                    if old_aliases.contains_key(a) {
                        assert(self.store.aliases() =~= old_aliases.insert(a, id@));
                    }
                },
                None => {},
            }
        }
        let probe = GraphObject::Collection { id: id.clone() };
        if !self.graph.contains(&probe) {
            let ghost g_start = self.graph@;
            let mut removed: Vec<GraphObject> = Vec::new();
            match &alias {
                Some(a) => {
                    match self.graph.set_alias(a, None) {
                        Ok(ch) => {
                            removed = ch.removed;
                        },
                        Err(_) => {},
                    }
                },
                None => {},
            }
            let ghost mid = self.graph@;
            proof {
                assert forall|o: ObjectView| !(o is AliasCollection || o is AliasItem) implies (#[trigger] mid.contains(o)
                    <==> g_start.contains(o)) by {
                    if let Some(a) = opt_view(alias) {
                        assert(!doomed(Doomed::Alias(a), o));
                    }
                }
                assert forall|x: Seq<char>|
                    #![trigger self.store.aliases().contains_key(x)]
                    #![trigger alias_synced(self.store.aliases(), mid, x)]
                    (self.store.aliases().contains_key(x) && self.store.aliases()[x] == id@ && forall|c: Seq<char>|
                        !#[trigger] mid.contains(ObjectView::AliasCollection(x, c))) || alias_synced(
                        self.store.aliases(),
                        mid,
                        x,
                    ) by {
                    assert(alias_synced(old_aliases, g_start, x));
                    if opt_view(alias) == Some(x) {
                        assert forall|c: Seq<char>| !#[trigger] mid.contains(ObjectView::AliasCollection(x, c)) by {
                            assert(doomed(Doomed::Alias(x), ObjectView::AliasCollection(x, c)));
                        }
                    } else {
                        assert forall|c: Seq<char>|
                            #[trigger] mid.contains(ObjectView::AliasCollection(x, c)) <==> (self.store.aliases().contains_key(x)
                                && self.store.aliases()[x] == c && mid.contains(ObjectView::Collection(c))) by {
                            assert(self.store.aliases().contains_key(x) == old_aliases.contains_key(x));
                            if let Some(a) = opt_view(alias) {
                                assert(doomed(Doomed::Alias(a), ObjectView::AliasCollection(x, c)) == (x == a));
                            }
                        }
                    }
                }
            }
            let ch = self.install_collection(&id);
            proof {
                let g = self.graph@;
                match opt_view(alias) {
                    Some(a) => {
                        assert(alias_synced(self.store.aliases(), g, a));
                        assert forall|c: Seq<char>| #[trigger] g_start.contains(ObjectView::AliasCollection(a, c)) implies c != id@ by {
                            assert(alias_synced(old_aliases, g_start, a));
                        }
                        assert forall|o: ObjectView|
                            #[trigger] g.contains(o) && doomed(Doomed::Alias(a), o) implies (o == ObjectView::AliasCollection(a, id@)
                                || exists|t: Seq<char>| o == ObjectView::AliasItem(a, id@, t)) by {
                            assert(mirrored(g));
                            assert(self.store.aliases()[a] == id@);
                            match o {
                                ObjectView::AliasItem(x, c, t) => {
                                    assert(g.contains(ObjectView::AliasItem(x, c, t)));
                                    assert(g.contains(ObjectView::AliasCollection(x, c)));
                                    assert(c == id@);
                                    assert(o == ObjectView::AliasItem(a, id@, t));
                                },
                                ObjectView::AliasCollection(x, c) => {
                                    assert(g.contains(ObjectView::AliasCollection(x, c)));
                                    assert(c == id@);
                                },
                                _ => {},
                            }
                        }
                        lemma_alias_switch_diff(g_start, g, a, id@);
                        assert(objects_view(ch.installed@) =~= g.difference(g_start));
                    },
                    None => {
                        assert(mid == g_start);
                        assert(objects_view(removed@) =~= g_start.difference(g));
                    },
                }
            }
            (id, true, GraphChange { removed, installed: ch.installed })
        } else {
            let mut removed: Vec<GraphObject> = Vec::new();
            let mut installed: Vec<GraphObject> = Vec::new();
            let ghost before = self.graph@;
            match &alias {
                Some(a) => {
                    let mirror = GraphObject::AliasCollection { alias: a.clone(), collection: id.clone() };
                    if self.graph.contains(&mirror) {
                        proof {
                            assert(objects_view(removed@) =~= Set::<ObjectView>::empty());
                            assert(objects_view(installed@) =~= Set::<ObjectView>::empty());
                            assert forall|x: Seq<char>| #[trigger] alias_synced(self.store.aliases(), before, x) by {
                                assert(alias_synced(old_aliases, before, x));
                                if x == a@ {
                                    assert forall|c: Seq<char>|
                                        #[trigger] before.contains(ObjectView::AliasCollection(x, c)) <==> (self.store.aliases().contains_key(x)
                                            && self.store.aliases()[x] == c && before.contains(ObjectView::Collection(c))) by {
                                        assert(mirrored(before));
                                        assert(before.contains(ObjectView::AliasCollection(x, id@)));
                                    }
                                } else {
                                    assert(self.store.aliases().contains_key(x) == old_aliases.contains_key(x));
                                }
                            }
                        }
                        return (id, false, GraphChange { removed, installed });
                    }
                    match self.graph.set_alias(a, Some(&id)) {
                        Ok(ch) => {
                            removed = ch.removed;
                            installed = ch.installed;
                        },
                        Err(_) => {},
                    }
                    proof {
                        let g = self.graph@;
                        assert forall|c: Seq<char>| #[trigger] before.contains(ObjectView::AliasCollection(a@, c)) implies c != id@ by {}
                        assert forall|o: ObjectView|
                            #[trigger] g.contains(o) && doomed(Doomed::Alias(a@), o) implies (o == ObjectView::AliasCollection(a@, id@)
                                || exists|t: Seq<char>| o == ObjectView::AliasItem(a@, id@, t)) by {
                            assert(!without(before, Doomed::Alias(a@)).contains(o));
                        }
                        lemma_alias_switch_diff(before, g, a@, id@);
                        assert forall|x: Seq<char>| #[trigger] alias_synced(self.store.aliases(), g, x) by {
                            assert(alias_synced(old_aliases, before, x));
                            assert forall|c: Seq<char>| #[trigger] g.contains(ObjectView::Collection(c)) <==> before.contains(ObjectView::Collection(c)) by {
                                assert(!doomed(Doomed::Alias(a@), ObjectView::Collection(c)));
                            }
                            if x == a@ {
                                assert forall|c: Seq<char>|
                                    #[trigger] g.contains(ObjectView::AliasCollection(x, c)) <==> (self.store.aliases().contains_key(x)
                                        && self.store.aliases()[x] == c && g.contains(ObjectView::Collection(c))) by {
                                    if g.contains(ObjectView::AliasCollection(x, c)) {
                                        assert(!without(before, Doomed::Alias(x)).contains(ObjectView::AliasCollection(x, c)));
                                    }
                                }
                            } else {
                                assert forall|c: Seq<char>|
                                    #[trigger] g.contains(ObjectView::AliasCollection(x, c)) <==> (self.store.aliases().contains_key(x)
                                        && self.store.aliases()[x] == c && g.contains(ObjectView::Collection(c))) by {
                                    assert(g.contains(ObjectView::AliasCollection(x, c)) <==> before.contains(ObjectView::AliasCollection(x, c)));
                                    assert(self.store.aliases().contains_key(x) == old_aliases.contains_key(x));
                                }
                            }
                        }
                        assert forall|o: ObjectView|
                            (o is Collection || o is Item) implies (#[trigger] g.contains(o) <==> before.contains(o)) by {
                            assert(!doomed(Doomed::Alias(a@), o));
                        }
                    }
                },
                None => {
                    proof {
                        assert(self.store.aliases() =~= old_aliases);
                        assert(objects_view(removed@) =~= Set::<ObjectView>::empty());
                        assert(objects_view(installed@) =~= Set::<ObjectView>::empty());
                    }
                },
            }
            (id, false, GraphChange { removed, installed })
        }
    }

    /// `Collection.Delete`: removes the collection's objects (canonical, its
    /// items, every alias object that hosts it) and forgets it in the store.
    pub fn delete_collection(&mut self, id: &String) -> (removed: Vec<GraphObject>)
        requires
            old(self).wf(),
        ensures
            final(self).wf(),
            final(self).objects() == without(old(self).objects(), Doomed::Collection(id@)),
            crate::graph::objects_view(removed@) == old(self).objects().filter(
                |o: ObjectView| doomed(Doomed::Collection(id@), o),
            ),
            final(self).store_view().indexes() == old(self).store_view().indexes().remove(id@),
            final(self).store_view().labels() == old(self).store_view().labels().remove(id@),
            forall|a: Seq<char>|
                #[trigger] final(self).store_view().aliases().contains_key(a) <==> (old(self).store_view().aliases().contains_key(a)
                    && old(self).store_view().aliases()[a] != id@),
    {
        let ghost before = self.graph@;
        let ghost old_aliases = self.store.aliases();
        let removed = self.graph.remove_collection(id);
        self.store.delete_collection(id);
        proof {
            let g = self.graph@;
            assert forall|x: Seq<char>| #[trigger] alias_synced(self.store.aliases(), g, x) by {
                assert(alias_synced(old_aliases, before, x));
                assert forall|c: Seq<char>|
                    #[trigger] g.contains(ObjectView::AliasCollection(x, c)) <==> (self.store.aliases().contains_key(x)
                        && self.store.aliases()[x] == c && g.contains(ObjectView::Collection(c))) by {
                    assert(g.contains(ObjectView::Collection(c)) <==> (before.contains(ObjectView::Collection(c)) && c != id@));
                    if self.store.aliases().contains_key(x) {
                        assert(self.store.aliases()[x] == old_aliases[x]);
                    }
                }
            }
        }
        removed
    }

    /// `Service.SetAlias`: points the alias named by the slug of `name` at
    /// the collection whose path is `target_path`, or clears it when the path
    /// is `/`; the store and the graph change together. A path that names no
    /// installed collection is a not-found error, and nothing changes.
    pub fn set_alias(&mut self, name: &str, target_path: &str) -> (r: Result<AliasChange, Error>)
        requires
            old(self).wf(),
        ensures
            final(self).wf(),
            r is Ok <==> match alias_target_of(target_path@) {
                Some(Some(c)) => old(self).objects().contains(ObjectView::Collection(c)),
                Some(None) => true,
                None => false,
            },
            r matches Err(e) ==> is_not_found(e) && final(self).objects() == old(self).objects()
                && final(self).store_view() == old(self).store_view(),
            r is Ok ==> final(self).store_view().aliases() == crate::catalog::alias_update(
                old(self).store_view().aliases(),
                slug_of(name@),
                alias_target_of(target_path@).unwrap(),
            ),
            r matches Ok(ch) ==> (ch.previous matches Some(p) ==> old(self).objects().contains(
                ObjectView::AliasCollection(slug_of(name@), p@),
            )),
            r matches Ok(ch) ==> (ch.previous is None ==> forall|c: Seq<char>|
                !#[trigger] old(self).objects().contains(ObjectView::AliasCollection(slug_of(name@), c))),
            r matches Ok(ch) ==> crate::graph::objects_view(ch.removed@) == old(self).objects().filter(
                |o: ObjectView| doomed(Doomed::Alias(slug_of(name@)), o),
            ),
            r matches Ok(ch) ==> crate::graph::objects_view(ch.installed@) == final(self).objects().difference(
                without(old(self).objects(), Doomed::Alias(slug_of(name@))),
            ),
            r is Ok ==> forall|o: ObjectView|
                #[trigger] final(self).objects().contains(o) <==> (without(old(self).objects(), Doomed::Alias(slug_of(name@))).contains(o)
                    || match alias_target_of(target_path@) {
                    Some(Some(c)) => o == ObjectView::AliasCollection(slug_of(name@), c) || exists|s: Seq<char>|
                        o == ObjectView::AliasItem(slug_of(name@), c, s) && #[trigger] old(self).objects().contains(
                            ObjectView::Item(c, s),
                        ),
                    _ => false,
                }),
    {
        let target = match parse_alias_target(target_path) {
            Some(t) => t,
            None => {
                return Err(Error::not_found());
            },
        };
        let alias = slugify(name);
        let ghost before = self.graph@;
        let ghost old_aliases = self.store.aliases();
        let ch = match self.graph.set_alias(&alias, target.as_ref()) {
            Ok(ch) => ch,
            Err(e) => {
                return Err(e);
            },
        };
        self.store.set_alias(&alias, target);
        proof {
            let g = self.graph@;
            assert forall|x: Seq<char>| #[trigger] alias_synced(self.store.aliases(), g, x) by {
                assert(alias_synced(old_aliases, before, x));
                assert forall|c: Seq<char>| #[trigger] g.contains(ObjectView::Collection(c)) <==> before.contains(ObjectView::Collection(c)) by {
                    assert(!doomed(Doomed::Alias(alias@), ObjectView::Collection(c)));
                }
                if x == alias@ {
                    assert forall|c: Seq<char>|
                        #[trigger] g.contains(ObjectView::AliasCollection(x, c)) <==> (self.store.aliases().contains_key(x)
                            && self.store.aliases()[x] == c && g.contains(ObjectView::Collection(c))) by {
                        if g.contains(ObjectView::AliasCollection(x, c)) {
                            assert(!without(before, Doomed::Alias(x)).contains(ObjectView::AliasCollection(x, c)));
                        }
                    }
                } else {
                    assert forall|c: Seq<char>|
                        #[trigger] g.contains(ObjectView::AliasCollection(x, c)) <==> (self.store.aliases().contains_key(x)
                            && self.store.aliases()[x] == c && g.contains(ObjectView::Collection(c))) by {
                        assert(g.contains(ObjectView::AliasCollection(x, c)) <==> before.contains(ObjectView::AliasCollection(x, c)));
                        assert(self.store.aliases().contains_key(x) == old_aliases.contains_key(x));
                    }
                }
            }
        }
        Ok(ch)
    }

    /// Stores a new item of collection `c` in the index and installs its
    /// objects (canonical path last). Fails, changing nothing, when the store
    /// does not know `c` (not found) or already has a secret `id` in it.
    pub fn add_item(&mut self, c: &String, id: &String, label: Option<String>, attrs: Attributes) -> (r: Result<
        Vec<GraphObject>,
        Error,
    >)
        requires
            old(self).wf(),
            attrs.wf(),
        ensures
            final(self).wf(),
            r is Ok <==> (old(self).store_view().indexes().contains_key(c@) && !old(self).store_view().indexes()[c@].0.contains_key(id@)),
            r matches Err(e) ==> (is_not_found(e) <==> !old(self).store_view().indexes().contains_key(c@)),
            r is Err ==> final(self).objects() == old(self).objects() && final(self).store_view().indexes()
                == old(self).store_view().indexes(),
            r is Ok ==> final(self).store_view().indexes() == old(self).store_view().indexes().insert(
                c@,
                (
                    old(self).store_view().indexes()[c@].0.insert(id@, attrs@),
                    old(self).store_view().indexes()[c@].1.insert(
                        id@,
                        match label {
                            Some(l) => l@,
                            None => crate::index::default_secret_label(),
                        },
                    ),
                ),
            ),
            r is Ok ==> final(self).objects().contains(ObjectView::Item(c@, id@)),
            r is Ok ==> forall|q: Map<Seq<char>, Seq<char>>|
                q != Map::<Seq<char>, Seq<char>>::empty() && q.submap_of(attrs@) ==> #[trigger] crate::index::selects(
                    q,
                    final(self).store_view().indexes()[c@].0[id@],
                ),
            r matches Ok(installed) ==> crate::graph::objects_view(installed@) == final(self).objects().difference(
                old(self).objects(),
            ),
            r is Ok ==> forall|x: Seq<char>, y: Seq<char>|
                #[trigger] final(self).objects().contains(ObjectView::Item(x, y)) <==> (old(self).objects().contains(
                    ObjectView::Item(x, y),
                ) || (x == c@ && y == id@)),
            r is Ok ==> forall|o: ObjectView|
                !(o is Item || o is AliasItem) ==> (#[trigger] final(self).objects().contains(o)
                    <==> old(self).objects().contains(o)),
            final(self).store_view().labels() == old(self).store_view().labels(),
            final(self).store_view().aliases() == old(self).store_view().aliases(),
    {
        match self.store.create_secret(c, id, label, attrs) {
            Ok(()) => {},
            Err(e) => {
                return Err(e);
            },
        }
        let installed = self.add_item_objects(c, id);
        Ok(installed)
    }

    /// Removes item `id` of collection `c` from the index and removes its
    /// objects. An item that is not there is no error.
    pub fn delete_item(&mut self, c: &String, id: &String) -> (r: Result<Vec<GraphObject>, Error>)
        requires
            old(self).wf(),
        ensures
            final(self).wf(),
            r is Ok <==> old(self).store_view().indexes().contains_key(c@),
            r matches Err(e) ==> is_not_found(e) && final(self).objects() == old(self).objects(),
            r matches Ok(removed) ==> crate::graph::objects_view(removed@) == old(self).objects().filter(
                |o: ObjectView| doomed(Doomed::Item(c@, id@), o),
            ),
            r is Ok ==> final(self).objects() == without(old(self).objects(), Doomed::Item(c@, id@))
                && final(self).store_view().indexes()[c@].0 == old(self).store_view().indexes()[c@].0.remove(id@),
            final(self).store_view().aliases() == old(self).store_view().aliases(),
    {
        match self.store.delete_secret(c, id) {
            Ok(()) => {},
            Err(e) => {
                return Err(e);
            },
        }
        let ghost before = self.graph@;
        let removed = self.graph.remove_item(c, id);
        proof {
            let g = self.graph@;
            assert forall|x: Seq<char>| #[trigger] alias_synced(self.store.aliases(), g, x) by {
                assert(alias_synced(self.store.aliases(), before, x));
                assert forall|y: Seq<char>|
                    #[trigger] g.contains(ObjectView::AliasCollection(x, y)) <==> before.contains(ObjectView::AliasCollection(x, y)) by {}
                assert forall|y: Seq<char>|
                    #[trigger] g.contains(ObjectView::Collection(y)) <==> before.contains(ObjectView::Collection(y)) by {}
            }
        }
        Ok(removed)
    }

    /// `Service.ReadAlias`: the path of the collection that the slug of
    /// `name` names, or `/` when it names none (or one whose id cannot be a
    /// path element).
    pub fn read_alias(&self, name: &str) -> (r: String)
        requires
            self.wf(),
        ensures
            ({
                let a = slug_of(name@);
                let aliases = self.store_view().aliases();
                if aliases.contains_key(a) && is_path_element(aliases[a]) {
                    r@ == path_of(ObjectView::Collection(aliases[a]))
                } else {
                    r@ == "/"@
                }
            }),
    {
        let alias = slugify(name);
        proof {
            reveal_strlit("/");
        }
        match self.store.get_alias(&alias) {
            Ok(c) => match collection_path(&c) {
                Some(p) => p,
                None => String::from_str("/"),
            },
            Err(_) => String::from_str("/"),
        }
    }

    /// For `CreateItem`: the secret to update in place, if `replace` is asked
    /// and some secret of collection `c` matches `attrs`; one of the matches.
    pub fn find_replacement(&self, c: &String, attrs: &Attributes, replace: bool) -> (r: Result<Option<String>, Error>)
        requires
            self.wf(),
            attrs.wf(),
        ensures
            r is Ok <==> self.store_view().indexes().contains_key(c@),
            r matches Err(e) ==> is_not_found(e),
            r matches Ok(found) ==> match found {
                Some(s) => replace && self.store_view().indexes()[c@].0.contains_key(s@) && crate::index::selects(
                    attrs@,
                    self.store_view().indexes()[c@].0[s@],
                ),
                None => !replace || forall|s: Seq<char>|
                    !(#[trigger] self.store_view().indexes()[c@].0.contains_key(s) && crate::index::selects(
                        attrs@,
                        self.store_view().indexes()[c@].0[s],
                    )),
            },
    {
        let found = match self.store.search_collection(c, attrs) {
            Ok(found) => found,
            Err(e) => {
                return Err(e);
            },
        };
        if !replace {
            return Ok(None);
        }
        if found.len() == 0 {
            proof {
                assert forall|s: Seq<char>|
                    !(#[trigger] self.store_view().indexes()[c@].0.contains_key(s) && crate::index::selects(
                        attrs@,
                        self.store_view().indexes()[c@].0[s],
                    )) by {
                    if self.store_view().indexes()[c@].0.contains_key(s) && crate::index::selects(attrs@, self.store_view().indexes()[c@].0[s]) {
                        assert(names(found@, s));
                    }
                }
            }
            return Ok(None);
        }
        proof {
            assert(names(found@, found@[0]@));
        }
        Ok(Some(found[0].clone()))
    }

    /// Sets the label of collection `id`.
    pub fn set_label(&mut self, id: &String, label: String)
        requires
            old(self).wf(),
        ensures
            final(self).wf(),
            final(self).objects() == old(self).objects(),
            final(self).store_view().labels() == old(self).store_view().labels().insert(id@, label@),
            final(self).store_view().aliases() == old(self).store_view().aliases(),
            final(self).store_view().indexes() == old(self).store_view().indexes(),
    {
        self.store.set_label(id, label);
    }

    /// Sets the label of secret `id` of collection `c`.
    pub fn set_secret_label(&mut self, c: &String, id: &String, label: String) -> (r: Result<(), Error>)
        requires
            old(self).wf(),
        ensures
            final(self).wf(),
            final(self).objects() == old(self).objects(),
            r is Ok <==> old(self).store_view().indexes().contains_key(c@),
            r matches Err(e) ==> is_not_found(e),
            r is Ok ==> final(self).store_view().indexes()[c@].1 == old(self).store_view().indexes()[c@].1.insert(id@, label@),
            final(self).store_view().aliases() == old(self).store_view().aliases(),
    {
        self.store.set_secret_label(c, id, label)
    }

    /// Gives secret `id` of collection `c` the attributes `attrs`.
    pub fn set_secret_attrs(&mut self, c: &String, id: &String, attrs: Attributes) -> (r: Result<(), Error>)
        requires
            old(self).wf(),
            attrs.wf(),
        ensures
            final(self).wf(),
            final(self).objects() == old(self).objects(),
            r is Ok <==> old(self).store_view().indexes().contains_key(c@),
            r matches Err(e) ==> is_not_found(e),
            r is Ok ==> final(self).store_view().indexes()[c@].0 == old(self).store_view().indexes()[c@].0.insert(id@, attrs@),
            final(self).store_view().aliases() == old(self).store_view().aliases(),
    {
        self.store.set_secret_attrs(c, id, attrs)
    }

    /// `Service.Lock` with passphrase forgetting: the collections that the
    /// object paths lead to (see `lock_collection_of`), one entry per path
    /// that leads to one.
    pub fn lock_targets(&self, paths: &Vec<String>) -> (r: Vec<String>)
        requires
            self.wf(),
        ensures
            forall|c: Seq<char>|
                #[trigger] names(r@, c) <==> exists|i: int|
                    0 <= i < paths@.len() && lock_collection_of(self.store_view().aliases(), #[trigger] paths@[i]@)
                        == Some(c),
    {
        let mut out: Vec<String> = Vec::new();
        let mut i: usize = 0;
        while i < paths.len()
            invariant
                self.wf(),
                i <= paths@.len(),
                forall|c: Seq<char>|
                    #[trigger] names(out@, c) <==> exists|k: int|
                        0 <= k < i && lock_collection_of(self.store_view().aliases(), #[trigger] paths@[k]@) == Some(c),
            decreases paths@.len() - i,
        {
            let ghost before = out@;
            let found = self.collection_of_path(paths[i].as_str());
            match found {
                Some(c) => {
                    out.push(c);
                },
                None => {},
            }
            proof {
                assert forall|c: Seq<char>|
                    #[trigger] names(out@, c) <==> exists|k: int|
                        0 <= k < i + 1 && lock_collection_of(self.store_view().aliases(), #[trigger] paths@[k]@) == Some(c) by {
                    if names(out@, c) {
                        let m = choose|m: int| 0 <= m < out@.len() && #[trigger] out@[m]@ == c;
                        if m < before.len() {
                            assert(names(before, c));
                        }
                    }
                    if names(before, c) {
                        let m = choose|m: int| 0 <= m < before.len() && #[trigger] before[m]@ == c;
                        assert(out@[m]@ == c);
                    }
                    if exists|k: int| 0 <= k < i + 1 && lock_collection_of(self.store_view().aliases(), #[trigger] paths@[k]@) == Some(c) {
                        let k = choose|k: int| 0 <= k < i + 1 && lock_collection_of(self.store_view().aliases(), #[trigger] paths@[k]@) == Some(c);
                        if k == i {
                            assert(out@[before.len() as int]@ == c);
                        }
                    }
                }
            }
            i += 1;
        }
        out
    }

    /// The collection that an object path leads to (see `lock_collection_of`).
    pub fn collection_of_path(&self, path: &str) -> (r: Option<String>)
        requires
            self.wf(),
        ensures
            opt_view(r) == lock_collection_of(self.store_view().aliases(), path@),
    {
        let chars = chars_of(path);
        let root = chars_of("/org/freedesktop/secrets/");
        proof {
            reveal_strlit("/org/freedesktop/secrets/");
            reveal_strlit("collection");
            reveal_strlit("aliases");
        }
        if chars.len() < root.len() {
            return None;
        }
        let head = take_chars(&chars, root.len());
        if !chars_are(&head, "/org/freedesktop/secrets/") {
            return None;
        }
        let rest = drop_chars(&chars, root.len());
        let parts = split_chars(&rest, '/');
        proof {
            assert(chars@.subrange(0, root@.len() as int) == head@);
        }
        if parts.len() != 2 && parts.len() != 3 {
            return None;
        }
        if chars_are(&parts[0], "collection") {
            Some(string_from_chars(&parts[1]))
        } else if chars_are(&parts[0], "aliases") {
            let alias = string_from_chars(&parts[1]);
            match self.store.get_alias(&alias) {
                Ok(c) => Some(c),
                Err(_) => None,
            }
        } else {
            None
        }
    }
}

/// Once a secret is stored with attributes `a`, every non-empty query made
/// of pairs of `a` (`a` itself among them) selects it.
pub proof fn lemma_stored_secret_found(
    secrets: Map<Seq<char>, Map<Seq<char>, Seq<char>>>,
    id: Seq<char>,
    a: Map<Seq<char>, Seq<char>>,
    q: Map<Seq<char>, Seq<char>>,
)
    requires
        q != Map::<Seq<char>, Seq<char>>::empty(),
        q.submap_of(a),
    ensures
        secrets.insert(id, a).contains_key(id),
        crate::index::selects(q, secrets.insert(id, a)[id]),
{
}

/// For every collection `c` installed on the bus and every alias `a` that
/// names it in the catalog, the object at `/collection/c/s` exists exactly
/// when the one at `/aliases/a/s` does, for every secret `s`.
pub proof fn lemma_alias_mirrors_catalog(svc: &Service, a: Seq<char>, c: Seq<char>, s: Seq<char>)
    requires
        svc.wf(),
        svc.store_view().aliases().contains_key(a),
        svc.store_view().aliases()[a] == c,
        svc.objects().contains(ObjectView::Collection(c)),
    ensures
        svc.objects().contains(ObjectView::AliasCollection(a, c)),
        svc.objects().contains(ObjectView::Item(c, s)) <==> svc.objects().contains(ObjectView::AliasItem(a, c, s)),
{
    assert(alias_synced(svc.store_view().aliases(), svc.objects(), a));
    assert(svc.objects().contains(ObjectView::AliasCollection(a, c)));
    assert(mirrored(svc.objects()));
}

} // verus!
