//! The bus object graph: which collection and item objects are installed at
//! their canonical paths and, for every alias, at the alias paths. Each
//! operation returns the objects to install or remove, in emission order.
use vstd::prelude::*;

use crate::error::Error;
use crate::index::names;

verus! {

/// An object of the graph, with the handle it hosts.
#[derive(Debug)]
pub enum GraphObject {
    /// `/collection/{id}`.
    Collection { id: String },
    /// `/collection/{collection}/{id}`.
    Item { collection: String, id: String },
    /// `/aliases/{alias}`, hosting collection `collection`.
    AliasCollection { alias: String, collection: String },
    /// `/aliases/{alias}/{id}`, hosting item `id` of collection `collection`.
    AliasItem { alias: String, collection: String, id: String },
}

/// The view of a graph object.
pub ghost enum ObjectView {
    Collection(Seq<char>),
    Item(Seq<char>, Seq<char>),
    AliasCollection(Seq<char>, Seq<char>),
    AliasItem(Seq<char>, Seq<char>, Seq<char>),
}

impl View for GraphObject {
    type V = ObjectView;

    open spec fn view(&self) -> ObjectView {
        match self {
            GraphObject::Collection { id } => ObjectView::Collection(id@),
            GraphObject::Item { collection, id } => ObjectView::Item(collection@, id@),
            GraphObject::AliasCollection { alias, collection } => ObjectView::AliasCollection(alias@, collection@),
            GraphObject::AliasItem { alias, collection, id } => ObjectView::AliasItem(alias@, collection@, id@),
        }
    }
}

/// Every alias mirror is complete: where alias `a` hosts collection `c`,
/// `/aliases/a/s` exists exactly when `/collection/c/s` does, hosting the same
/// item; an alias item exists only under its alias collection; and an alias
/// hosts one collection at a time.
pub open spec fn mirrored(g: Set<ObjectView>) -> bool {
    &&& forall|a: Seq<char>, c: Seq<char>, s: Seq<char>|
        g.contains(ObjectView::AliasCollection(a, c)) ==> (#[trigger] g.contains(ObjectView::Item(c, s))
            <==> #[trigger] g.contains(ObjectView::AliasItem(a, c, s)))
    &&& forall|a: Seq<char>, c: Seq<char>, s: Seq<char>|
        #[trigger] g.contains(ObjectView::AliasItem(a, c, s)) ==> g.contains(ObjectView::AliasCollection(a, c))
    &&& forall|a: Seq<char>, c1: Seq<char>, c2: Seq<char>|
        #[trigger] g.contains(ObjectView::AliasCollection(a, c1)) && #[trigger] g.contains(
            ObjectView::AliasCollection(a, c2),
        ) ==> c1 == c2
}

/// Objects that a removal takes away.
pub ghost enum Doomed {
    /// An item at its canonical path and every alias path.
    Item(Seq<char>, Seq<char>),
    /// An alias collection and its alias items.
    Alias(Seq<char>),
    /// A collection, its items, and every alias object that hosts it.
    Collection(Seq<char>),
}

pub open spec fn doomed(d: Doomed, o: ObjectView) -> bool {
    match d {
        Doomed::Item(c, s) => o == ObjectView::Item(c, s) || exists|a: Seq<char>| o == ObjectView::AliasItem(a, c, s),
        Doomed::Alias(a) => match o {
            ObjectView::AliasCollection(x, _) => x == a,
            ObjectView::AliasItem(x, _, _) => x == a,
            _ => false,
        },
        Doomed::Collection(c) => match o {
            ObjectView::Collection(x) => x == c,
            ObjectView::Item(x, _) => x == c,
            ObjectView::AliasCollection(_, x) => x == c,
            ObjectView::AliasItem(_, x, _) => x == c,
        },
    }
}

/// The graph without the objects that `d` takes away.
pub open spec fn without(g: Set<ObjectView>, d: Doomed) -> Set<ObjectView> {
    g.filter(|o: ObjectView| !doomed(d, o))
}

/// A removal keeps the mirrors complete.
pub proof fn lemma_without_mirrored(g: Set<ObjectView>, d: Doomed)
    requires
        mirrored(g),
    ensures
        mirrored(without(g, d)),
{
    let h = without(g, d);
    assert forall|a: Seq<char>, c: Seq<char>, s: Seq<char>|
        h.contains(ObjectView::AliasCollection(a, c)) implies (#[trigger] h.contains(ObjectView::Item(c, s))
        <==> #[trigger] h.contains(ObjectView::AliasItem(a, c, s))) by {
        assert(g.contains(ObjectView::Item(c, s)) <==> g.contains(ObjectView::AliasItem(a, c, s)));
        match d {
            Doomed::Item(c0, s0) => {
                if c == c0 && s == s0 {
                    assert(doomed(d, ObjectView::AliasItem(a, c, s)));
                }
            },
            _ => {},
        }
    }
    assert forall|a: Seq<char>, c: Seq<char>, s: Seq<char>|
        #[trigger] h.contains(ObjectView::AliasItem(a, c, s)) implies h.contains(ObjectView::AliasCollection(a, c)) by {
        assert(g.contains(ObjectView::AliasCollection(a, c)));
    }
}

/// The rendering of a collection id or alias in a path: the handle's id.
pub open spec fn is_path_element(s: Seq<char>) -> bool {
    s.len() > 0 && forall|i: int| 0 <= i < s.len() ==> {
        let ch = #[trigger] s[i];
        ('a' <= ch <= 'z') || ('A' <= ch <= 'Z') || ('0' <= ch <= '9') || ch == '_'
    }
}

/// The root of the service's object paths.
pub open spec fn service_root() -> Seq<char> {
    "/org/freedesktop/secrets"@
}

/// The object path of a graph object.
pub open spec fn path_of(o: ObjectView) -> Seq<char> {
    match o {
        ObjectView::Collection(c) => service_root() + "/collection/"@ + c,
        ObjectView::Item(c, s) => service_root() + "/collection/"@ + c + "/"@ + s,
        ObjectView::AliasCollection(a, _) => service_root() + "/aliases/"@ + a,
        ObjectView::AliasItem(a, _, s) => service_root() + "/aliases/"@ + a + "/"@ + s,
    }
}

/// Whether every id in the path of `o` is a valid path element.
pub open spec fn has_valid_path(o: ObjectView) -> bool {
    match o {
        ObjectView::Collection(c) => is_path_element(c),
        ObjectView::Item(c, s) => is_path_element(c) && is_path_element(s),
        ObjectView::AliasCollection(a, _) => is_path_element(a),
        ObjectView::AliasItem(a, _, s) => is_path_element(a) && is_path_element(s),
    }
}

/// Whether `s` may stand as one element of an object path.
pub fn path_element(s: &String) -> (r: bool)
    ensures
        r == is_path_element(s@),
{
    let chars = crate::text::chars_of(s.as_str());
    if chars.len() == 0 {
        return false;
    }
    let mut i: usize = 0;
    while i < chars.len()
        invariant
            chars@ == s@,
            i <= chars@.len(),
            forall|j: int| 0 <= j < i ==> {
                let ch = #[trigger] chars@[j];
                ('a' <= ch <= 'z') || ('A' <= ch <= 'Z') || ('0' <= ch <= '9') || ch == '_'
            },
        decreases chars@.len() - i,
    {
        let ch = chars[i];
        if !(('a' <= ch && ch <= 'z') || ('A' <= ch && ch <= 'Z') || ('0' <= ch && ch <= '9') || ch == '_') {
            return false;
        }
        i += 1;
    }
    true
}

fn join3(a: &str, b: &str, c: &str) -> (r: String)
    ensures
        r@ == a@ + b@ + c@,
{
    let ab = crate::text::concat(a, b);
    crate::text::concat(ab.as_str(), c)
}

/// The path of a collection, if its id is a valid path element.
pub fn collection_path(collection_id: &String) -> (r: Option<String>)
    ensures
        r is Some <==> is_path_element(collection_id@),
        r matches Some(p) ==> p@ == path_of(ObjectView::Collection(collection_id@)),
{
    proof {
        reveal_strlit("/org/freedesktop/secrets/collection/");
        reveal_strlit("/org/freedesktop/secrets");
        reveal_strlit("/collection/");
    }
    if !path_element(collection_id) {
        return None;
    }
    proof {
        assert("/org/freedesktop/secrets/collection/"@ =~= service_root() + "/collection/"@);
    }
    Some(crate::text::concat("/org/freedesktop/secrets/collection/", collection_id.as_str()))
}

/// The path of an item, if both ids are valid path elements.
pub fn secret_path(collection_id: &String, secret_id: &String) -> (r: Option<String>)
    ensures
        r is Some <==> is_path_element(collection_id@) && is_path_element(secret_id@),
        r matches Some(p) ==> p@ == path_of(ObjectView::Item(collection_id@, secret_id@)),
{
    proof {
        reveal_strlit("/org/freedesktop/secrets/collection/");
        reveal_strlit("/org/freedesktop/secrets");
        reveal_strlit("/collection/");
        reveal_strlit("/");
    }
    if !path_element(collection_id) || !path_element(secret_id) {
        return None;
    }
    proof {
        assert("/org/freedesktop/secrets/collection/"@ =~= service_root() + "/collection/"@);
    }
    let head = join3("/org/freedesktop/secrets/collection/", collection_id.as_str(), "/");
    Some(crate::text::concat(head.as_str(), secret_id.as_str()))
}

/// The path of an alias collection, if the alias is a valid path element.
pub fn alias_path(alias: &String) -> (r: Option<String>)
    ensures
        r is Some <==> is_path_element(alias@),
        r matches Some(p) ==> p@ == service_root() + "/aliases/"@ + alias@,
{
    proof {
        reveal_strlit("/org/freedesktop/secrets/aliases/");
        reveal_strlit("/org/freedesktop/secrets");
        reveal_strlit("/aliases/");
    }
    if !path_element(alias) {
        return None;
    }
    proof {
        assert("/org/freedesktop/secrets/aliases/"@ =~= service_root() + "/aliases/"@);
    }
    Some(crate::text::concat("/org/freedesktop/secrets/aliases/", alias.as_str()))
}

/// The path of an item under an alias, if both are valid path elements.
pub fn secret_alias_path(alias: &String, secret_id: &String) -> (r: Option<String>)
    ensures
        r is Some <==> is_path_element(alias@) && is_path_element(secret_id@),
        r matches Some(p) ==> p@ == service_root() + "/aliases/"@ + alias@ + "/"@ + secret_id@,
{
    proof {
        reveal_strlit("/org/freedesktop/secrets/aliases/");
        reveal_strlit("/org/freedesktop/secrets");
        reveal_strlit("/aliases/");
        reveal_strlit("/");
    }
    if !path_element(alias) || !path_element(secret_id) {
        return None;
    }
    proof {
        assert("/org/freedesktop/secrets/aliases/"@ =~= service_root() + "/aliases/"@);
    }
    let head = join3("/org/freedesktop/secrets/aliases/", alias.as_str(), "/");
    Some(crate::text::concat(head.as_str(), secret_id.as_str()))
}

/// The path of a session, if its id is a valid path element.
pub fn session_path(session_id: &String) -> (r: Option<String>)
    ensures
        r is Some <==> is_path_element(session_id@),
        r matches Some(p) ==> p@ == service_root() + "/session/"@ + session_id@,
{
    proof {
        reveal_strlit("/org/freedesktop/secrets/session/");
        reveal_strlit("/org/freedesktop/secrets");
        reveal_strlit("/session/");
    }
    if !path_element(session_id) {
        return None;
    }
    proof {
        assert("/org/freedesktop/secrets/session/"@ =~= service_root() + "/session/"@);
    }
    Some(crate::text::concat("/org/freedesktop/secrets/session/", session_id.as_str()))
}

impl GraphObject {
    /// The object path of this object, if its ids are valid path elements.
    pub fn path(&self) -> (r: Option<String>)
        ensures
            r is Some <==> has_valid_path(self@),
            r matches Some(p) ==> p@ == path_of(self@),
    {
        match self {
            GraphObject::Collection { id } => collection_path(id),
            GraphObject::Item { collection, id } => secret_path(collection, id),
            GraphObject::AliasCollection { alias, .. } => alias_path(alias),
            GraphObject::AliasItem { alias, id, .. } => secret_alias_path(alias, id),
        }
    }
}

/// The set of objects that a list holds.
pub open spec fn objects_view(v: Seq<GraphObject>) -> Set<ObjectView> {
    Set::new(|o: ObjectView| exists|i: int| 0 <= i < v.len() && #[trigger] v[i]@ == o)
}

proof fn lemma_push_view(v: Seq<GraphObject>, o: GraphObject)
    ensures
        objects_view(v.push(o)) == objects_view(v).insert(o@),
{
    let w = v.push(o);
    assert forall|x: ObjectView| objects_view(w).contains(x) <==> objects_view(v).insert(o@).contains(x) by {
        if objects_view(w).contains(x) {
            let i = choose|i: int| 0 <= i < w.len() && #[trigger] w[i]@ == x;
            if i < v.len() {
                assert(v[i]@ == x);
            }
        }
        if objects_view(v).contains(x) {
            let i = choose|i: int| 0 <= i < v.len() && #[trigger] v[i]@ == x;
            assert(w[i]@ == x);
        }
        if x == o@ {
            assert(w[v.len() as int]@ == x);
        }
    }
    assert(objects_view(w) =~= objects_view(v).insert(o@));
}

/// A copy of an object.
pub fn copy_object(o: &GraphObject) -> (r: GraphObject)
    ensures
        r@ == o@,
{
    match o {
        GraphObject::Collection { id } => GraphObject::Collection { id: id.clone() },
        GraphObject::Item { collection, id } => GraphObject::Item { collection: collection.clone(), id: id.clone() },
        GraphObject::AliasCollection { alias, collection } => GraphObject::AliasCollection {
            alias: alias.clone(),
            collection: collection.clone(),
        },
        GraphObject::AliasItem { alias, collection, id } => GraphObject::AliasItem {
            alias: alias.clone(),
            collection: collection.clone(),
            id: id.clone(),
        },
    }
}

/// Whether two objects are the same object with the same handle.
pub fn same_object(a: &GraphObject, b: &GraphObject) -> (r: bool)
    ensures
        r == (a@ == b@),
{
    match (a, b) {
        (GraphObject::Collection { id: x }, GraphObject::Collection { id: y }) => *x == *y,
        (GraphObject::Item { collection: c1, id: x }, GraphObject::Item { collection: c2, id: y }) => *c1 == *c2
            && *x == *y,
        (
            GraphObject::AliasCollection { alias: a1, collection: c1 },
            GraphObject::AliasCollection { alias: a2, collection: c2 },
        ) => *a1 == *a2 && *c1 == *c2,
        (
            GraphObject::AliasItem { alias: a1, collection: c1, id: x },
            GraphObject::AliasItem { alias: a2, collection: c2, id: y },
        ) => *a1 == *a2 && *c1 == *c2 && *x == *y,
        _ => false,
    }
}

/// What a removal takes away.
enum Removal {
    Item { collection: String, id: String },
    Alias { alias: String },
    Collection { id: String },
}

impl View for Removal {
    type V = Doomed;

    closed spec fn view(&self) -> Doomed {
        match self {
            Removal::Item { collection, id } => Doomed::Item(collection@, id@),
            Removal::Alias { alias } => Doomed::Alias(alias@),
            Removal::Collection { id } => Doomed::Collection(id@),
        }
    }
}

fn is_doomed(d: &Removal, o: &GraphObject) -> (r: bool)
    ensures
        r == doomed(d@, o@),
{
    match d {
        Removal::Item { collection, id } => match o {
            GraphObject::Item { collection: c, id: s } => *c == *collection && *s == *id,
            GraphObject::AliasItem { collection: c, id: s, alias } => {
                proof {
                    if c@ == collection@ && s@ == id@ {
                        assert(o@ == ObjectView::AliasItem(alias@, collection@, id@));
                    }
                }
                *c == *collection && *s == *id
            },
            _ => false,
        },
        Removal::Alias { alias } => match o {
            GraphObject::AliasCollection { alias: a, .. } => *a == *alias,
            GraphObject::AliasItem { alias: a, .. } => *a == *alias,
            _ => false,
        },
        Removal::Collection { id } => match o {
            GraphObject::Collection { id: c } => *c == *id,
            GraphObject::Item { collection: c, .. } => *c == *id,
            GraphObject::AliasCollection { collection: c, .. } => *c == *id,
            GraphObject::AliasItem { collection: c, .. } => *c == *id,
        },
    }
}

/// The objects installed on the bus.
pub struct ObjectGraph {
    objects: Vec<GraphObject>,
}

/// What `set_alias` changed: the objects removed and installed, and the
/// collection that the alias hosted before, if any.
pub struct AliasChange {
    pub removed: Vec<GraphObject>,
    pub installed: Vec<GraphObject>,
    pub previous: Option<String>,
}

impl View for ObjectGraph {
    type V = Set<ObjectView>;

    closed spec fn view(&self) -> Set<ObjectView> {
        objects_view(self.objects@)
    }
}

impl ObjectGraph {
    /// The alias mirrors are complete (see `mirrored`).
    pub open spec fn wf(&self) -> bool {
        mirrored(self@)
    }

    /// An empty graph.
    pub fn new() -> (r: Self)
        ensures
            r.wf(),
            r@ == Set::<ObjectView>::empty(),
    {
        let r = ObjectGraph { objects: Vec::new() };
        assert(r@ =~= Set::<ObjectView>::empty());
        r
    }

    /// Whether `o` is installed.
    pub fn contains(&self, o: &GraphObject) -> (r: bool)
        ensures
            r == self@.contains(o@),
    {
        let mut i: usize = 0;
        while i < self.objects.len()
            invariant
                i <= self.objects@.len(),
                forall|j: int| 0 <= j < i ==> #[trigger] self.objects@[j]@ != o@,
            decreases self.objects@.len() - i,
        {
            if same_object(&self.objects[i], o) {
                proof {
                    assert(self.objects@[i as int]@ == o@);
                }
                return true;
            }
            i += 1;
        }
        false
    }

    fn push(&mut self, o: GraphObject)
        ensures
            final(self)@ == old(self)@.insert(o@),
    {
        proof {
            lemma_push_view(self.objects@, o);
        }
        self.objects.push(o);
    }

    fn remove_where(&mut self, d: &Removal) -> (removed: Vec<GraphObject>)
        ensures
            final(self)@ == without(old(self)@, d@),
            objects_view(removed@) == old(self)@.filter(|o: ObjectView| doomed(d@, o)),
    {
        let mut kept: Vec<GraphObject> = Vec::new();
        let mut gone: Vec<GraphObject> = Vec::new();
        let mut i: usize = 0;
        while i < self.objects.len()
            invariant
                i <= self.objects@.len(),
                self.objects == old(self).objects,
                forall|o: ObjectView|
                    #[trigger] objects_view(kept@).contains(o) <==> ((exists|j: int|
                        0 <= j < i && #[trigger] self.objects@[j]@ == o) && !doomed(d@, o)),
                forall|o: ObjectView|
                    #[trigger] objects_view(gone@).contains(o) <==> ((exists|j: int|
                        0 <= j < i && #[trigger] self.objects@[j]@ == o) && doomed(d@, o)),
            decreases self.objects@.len() - i,
        {
            let o = copy_object(&self.objects[i]);
            let ghost before_kept = kept@;
            let ghost before_gone = gone@;
            let ghost ov = o@;
            if is_doomed(d, &o) {
                proof {
                    lemma_push_view(gone@, o);
                }
                gone.push(o);
            } else {
                proof {
                    lemma_push_view(kept@, o);
                }
                kept.push(o);
            }
            proof {
                assert forall|x: ObjectView|
                    #[trigger] objects_view(kept@).contains(x) <==> ((exists|j: int|
                        0 <= j < i + 1 && #[trigger] self.objects@[j]@ == x) && !doomed(d@, x)) by {
                    if exists|j: int| 0 <= j < i + 1 && #[trigger] self.objects@[j]@ == x {
                        let j = choose|j: int| 0 <= j < i + 1 && #[trigger] self.objects@[j]@ == x;
                        if j < i {
                            assert(objects_view(before_kept).contains(x) || doomed(d@, x));
                        }
                    }
                    if objects_view(before_kept).contains(x) {
                        let j = choose|j: int| 0 <= j < i && #[trigger] self.objects@[j]@ == x;
                        assert(0 <= j < i + 1 && self.objects@[j]@ == x);
                    }
                    if x == ov {
                        assert(self.objects@[i as int]@ == x);
                    }
                }
                assert forall|x: ObjectView|
                    #[trigger] objects_view(gone@).contains(x) <==> ((exists|j: int|
                        0 <= j < i + 1 && #[trigger] self.objects@[j]@ == x) && doomed(d@, x)) by {
                    if exists|j: int| 0 <= j < i + 1 && #[trigger] self.objects@[j]@ == x {
                        let j = choose|j: int| 0 <= j < i + 1 && #[trigger] self.objects@[j]@ == x;
                        if j < i {
                            assert(objects_view(before_gone).contains(x) || !doomed(d@, x));
                        }
                    }
                    if objects_view(before_gone).contains(x) {
                        let j = choose|j: int| 0 <= j < i && #[trigger] self.objects@[j]@ == x;
                        assert(0 <= j < i + 1 && self.objects@[j]@ == x);
                    }
                    if x == ov {
                        assert(self.objects@[i as int]@ == x);
                    }
                }
            }
            i += 1;
        }
        self.objects = kept;
        proof {
            assert(self@ =~= without(old(self)@, d@));
            assert(objects_view(gone@) =~= old(self)@.filter(|o: ObjectView| doomed(d@, o)));
        }
        gone
    }

    /// The aliases that host collection `c`.
    pub fn mirrors_of(&self, c: &String) -> (r: Vec<String>)
        ensures
            forall|a: Seq<char>| #[trigger] names(r@, a) <==> self@.contains(ObjectView::AliasCollection(a, c@)),
    {
        let mut out: Vec<String> = Vec::new();
        let mut i: usize = 0;
        while i < self.objects.len()
            invariant
                i <= self.objects@.len(),
                forall|a: Seq<char>|
                    #[trigger] names(out@, a) <==> exists|j: int|
                        0 <= j < i && #[trigger] self.objects@[j]@ == ObjectView::AliasCollection(a, c@),
            decreases self.objects@.len() - i,
        {
            let ghost before = out@;
            match &self.objects[i] {
                GraphObject::AliasCollection { alias, collection } => {
                    if *collection == *c {
                        out.push(alias.clone());
                    }
                },
                _ => {},
            }
            proof {
                assert forall|a: Seq<char>|
                    #[trigger] names(out@, a) <==> exists|j: int|
                        0 <= j < i + 1 && #[trigger] self.objects@[j]@ == ObjectView::AliasCollection(a, c@) by {
                    if names(out@, a) {
                        let k = choose|k: int| 0 <= k < out@.len() && #[trigger] out@[k]@ == a;
                        if k < before.len() {
                            assert(names(before, a));
                        } else {
                            assert(self.objects@[i as int]@ == ObjectView::AliasCollection(a, c@));
                        }
                    }
                    if exists|j: int| 0 <= j < i + 1 && #[trigger] self.objects@[j]@ == ObjectView::AliasCollection(a, c@) {
                        let j = choose|j: int| 0 <= j < i + 1 && #[trigger] self.objects@[j]@ == ObjectView::AliasCollection(a, c@);
                        if j < i {
                            assert(names(before, a));
                            let k = choose|k: int| 0 <= k < before.len() && #[trigger] before[k]@ == a;
                            assert(out@[k]@ == a);
                        } else {
                            assert(out@[before.len() as int]@ == a);
                        }
                    }
                }
            }
            i += 1;
        }
        out
    }

    /// The ids of the items of collection `c` installed at their canonical paths.
    pub fn items_of(&self, c: &String) -> (r: Vec<String>)
        ensures
            forall|s: Seq<char>| #[trigger] names(r@, s) <==> self@.contains(ObjectView::Item(c@, s)),
    {
        let mut out: Vec<String> = Vec::new();
        let mut i: usize = 0;
        while i < self.objects.len()
            invariant
                i <= self.objects@.len(),
                forall|s: Seq<char>|
                    #[trigger] names(out@, s) <==> exists|j: int|
                        0 <= j < i && #[trigger] self.objects@[j]@ == ObjectView::Item(c@, s),
            decreases self.objects@.len() - i,
        {
            let ghost before = out@;
            match &self.objects[i] {
                GraphObject::Item { collection, id } => {
                    if *collection == *c {
                        out.push(id.clone());
                    }
                },
                _ => {},
            }
            proof {
                assert forall|s: Seq<char>|
                    #[trigger] names(out@, s) <==> exists|j: int|
                        0 <= j < i + 1 && #[trigger] self.objects@[j]@ == ObjectView::Item(c@, s) by {
                    if names(out@, s) {
                        let k = choose|k: int| 0 <= k < out@.len() && #[trigger] out@[k]@ == s;
                        if k < before.len() {
                            assert(names(before, s));
                        } else {
                            assert(self.objects@[i as int]@ == ObjectView::Item(c@, s));
                        }
                    }
                    if exists|j: int| 0 <= j < i + 1 && #[trigger] self.objects@[j]@ == ObjectView::Item(c@, s) {
                        let j = choose|j: int| 0 <= j < i + 1 && #[trigger] self.objects@[j]@ == ObjectView::Item(c@, s);
                        if j < i {
                            assert(names(before, s));
                            let k = choose|k: int| 0 <= k < before.len() && #[trigger] before[k]@ == s;
                            assert(out@[k]@ == s);
                        } else {
                            assert(out@[before.len() as int]@ == s);
                        }
                    }
                }
            }
            i += 1;
        }
        out
    }

    /// Installs the canonical object of collection `id`, unless it is there.
    pub fn add_collection(&mut self, id: &String) -> (installed: Vec<GraphObject>)
        requires
            old(self).wf(),
        ensures
            final(self).wf(),
            final(self)@ == old(self)@.insert(ObjectView::Collection(id@)),
            old(self)@.contains(ObjectView::Collection(id@)) ==> installed@.len() == 0,
            !old(self)@.contains(ObjectView::Collection(id@)) ==> installed@.len() == 1 && installed@[0]@
                == ObjectView::Collection(id@),
    {
        let o = GraphObject::Collection { id: id.clone() };
        let mut installed: Vec<GraphObject> = Vec::new();
        if self.contains(&o) {
            proof {
                assert(self@.insert(o@) =~= self@);
            }
            return installed;
        }
        installed.push(copy_object(&o));
        self.push(o);
        installed
    }

    /// Installs item `s` of collection `c` at its canonical path and at the
    /// path of every alias that hosts `c`; nothing when it is already there.
    /// The alias objects come first in the returned list, the canonical one last.
    pub fn add_item(&mut self, c: &String, s: &String) -> (installed: Vec<GraphObject>)
        requires
            old(self).wf(),
        ensures
            final(self).wf(),
            forall|o: ObjectView|
                #[trigger] final(self)@.contains(o) <==> (old(self)@.contains(o) || o == ObjectView::Item(c@, s@)
                    || exists|a: Seq<char>|
                    o == ObjectView::AliasItem(a, c@, s@) && #[trigger] old(self)@.contains(
                        ObjectView::AliasCollection(a, c@),
                    )),
            old(self)@.contains(ObjectView::Item(c@, s@)) ==> installed@.len() == 0,
            !old(self)@.contains(ObjectView::Item(c@, s@)) ==> installed@.len() > 0 && installed@.last()@
                == ObjectView::Item(c@, s@) && objects_view(installed@) == final(self)@.difference(old(self)@),
    {
        let item = GraphObject::Item { collection: c.clone(), id: s.clone() };
        let mut installed: Vec<GraphObject> = Vec::new();
        if self.contains(&item) {
            proof {
                assert forall|o: ObjectView|
                    #[trigger] self@.contains(o) <==> (old(self)@.contains(o) || o == ObjectView::Item(c@, s@)
                        || exists|a: Seq<char>|
                        o == ObjectView::AliasItem(a, c@, s@) && #[trigger] old(self)@.contains(
                            ObjectView::AliasCollection(a, c@),
                        )) by {
                    if exists|a: Seq<char>|
                        o == ObjectView::AliasItem(a, c@, s@) && #[trigger] old(self)@.contains(ObjectView::AliasCollection(a, c@)) {
                        let a = choose|a: Seq<char>|
                            o == ObjectView::AliasItem(a, c@, s@) && #[trigger] old(self)@.contains(ObjectView::AliasCollection(a, c@));
                        assert(old(self)@.contains(ObjectView::Item(c@, s@)));
                    }
                }
            }
            return installed;
        }
        let mirrors = self.mirrors_of(c);
        let ghost g0 = self@;
        let mut i: usize = 0;
        while i < mirrors.len()
            invariant
                g0 == old(self)@,
                !g0.contains(ObjectView::Item(c@, s@)),
                mirrored(g0),
                i <= mirrors@.len(),
                forall|a: Seq<char>| #[trigger] names(mirrors@, a) <==> g0.contains(ObjectView::AliasCollection(a, c@)),
                forall|o: ObjectView|
                    #[trigger] self@.contains(o) <==> (g0.contains(o) || exists|j: int|
                        0 <= j < i && o == ObjectView::AliasItem(#[trigger] mirrors@[j]@, c@, s@)),
                forall|o: ObjectView|
                    #[trigger] objects_view(installed@).contains(o) <==> exists|j: int|
                        0 <= j < i && o == ObjectView::AliasItem(#[trigger] mirrors@[j]@, c@, s@),
            decreases mirrors@.len() - i,
        {
            let o = GraphObject::AliasItem { alias: mirrors[i].clone(), collection: c.clone(), id: s.clone() };
            let ghost ov = o@;
            let ghost before = self@;
            let ghost before_installed = installed@;
            let copy = copy_object(&o);
            proof {
                lemma_push_view(installed@, copy);
            }
            installed.push(copy);
            self.push(o);
            proof {
                assert(objects_view(installed@) == objects_view(before_installed).insert(ov));
                assert forall|x: ObjectView|
                    #[trigger] self@.contains(x) <==> (g0.contains(x) || exists|j: int|
                        0 <= j < i + 1 && x == ObjectView::AliasItem(#[trigger] mirrors@[j]@, c@, s@)) by {
                    if exists|j: int| 0 <= j < i + 1 && x == ObjectView::AliasItem(#[trigger] mirrors@[j]@, c@, s@) {
                        let j = choose|j: int| 0 <= j < i + 1 && x == ObjectView::AliasItem(#[trigger] mirrors@[j]@, c@, s@);
                        if j < i {
                            assert(before.contains(x));
                        }
                    }
                }
                assert forall|x: ObjectView|
                    #[trigger] objects_view(installed@).contains(x) <==> exists|j: int|
                        0 <= j < i + 1 && x == ObjectView::AliasItem(#[trigger] mirrors@[j]@, c@, s@) by {
                    if exists|j: int| 0 <= j < i + 1 && x == ObjectView::AliasItem(#[trigger] mirrors@[j]@, c@, s@) {
                        let j = choose|j: int| 0 <= j < i + 1 && x == ObjectView::AliasItem(#[trigger] mirrors@[j]@, c@, s@);
                        if j < i {
                            assert(objects_view(before_installed).contains(x));
                        }
                    }
                }
            }
            i += 1;
        }
        let ghost before = self@;
        let ghost before_installed = installed@;
        let copy = copy_object(&item);
        proof {
            lemma_push_view(installed@, copy);
        }
        installed.push(copy);
        self.push(item);
        proof {
            let g = self@;
            assert forall|o: ObjectView|
                #[trigger] g.contains(o) <==> (g0.contains(o) || o == ObjectView::Item(c@, s@)
                    || exists|a: Seq<char>|
                    o == ObjectView::AliasItem(a, c@, s@) && #[trigger] g0.contains(ObjectView::AliasCollection(a, c@))) by {
                if exists|j: int| 0 <= j < mirrors@.len() && o == ObjectView::AliasItem(#[trigger] mirrors@[j]@, c@, s@) {
                    let j = choose|j: int| 0 <= j < mirrors@.len() && o == ObjectView::AliasItem(#[trigger] mirrors@[j]@, c@, s@);
                    assert(names(mirrors@, mirrors@[j]@));
                }
                if exists|a: Seq<char>| o == ObjectView::AliasItem(a, c@, s@) && #[trigger] g0.contains(ObjectView::AliasCollection(a, c@)) {
                    let a = choose|a: Seq<char>| o == ObjectView::AliasItem(a, c@, s@) && #[trigger] g0.contains(ObjectView::AliasCollection(a, c@));
                    assert(names(mirrors@, a));
                    let j = choose|j: int| 0 <= j < mirrors@.len() && #[trigger] mirrors@[j]@ == a;
                    assert(before.contains(o));
                }
            }
            assert(mirrored(g)) by {
                assert forall|a: Seq<char>, c2: Seq<char>, s2: Seq<char>|
                    g.contains(ObjectView::AliasCollection(a, c2)) implies (#[trigger] g.contains(ObjectView::Item(c2, s2))
                    <==> #[trigger] g.contains(ObjectView::AliasItem(a, c2, s2))) by {
                    assert(g0.contains(ObjectView::AliasCollection(a, c2)));
                    assert(g0.contains(ObjectView::Item(c2, s2)) <==> g0.contains(ObjectView::AliasItem(a, c2, s2)));
                    if c2 == c@ && s2 == s@ {
                        assert(g.contains(ObjectView::AliasItem(a, c2, s2)));
                    }
                }
                assert forall|a: Seq<char>, c2: Seq<char>, s2: Seq<char>|
                    #[trigger] g.contains(ObjectView::AliasItem(a, c2, s2)) implies g.contains(ObjectView::AliasCollection(a, c2)) by {
                    if !g0.contains(ObjectView::AliasItem(a, c2, s2)) {
                        let a0 = choose|a0: Seq<char>|
                            ObjectView::AliasItem(a, c2, s2) == ObjectView::AliasItem(a0, c@, s@) && #[trigger] g0.contains(ObjectView::AliasCollection(a0, c@));
                    }
                }
                assert forall|a: Seq<char>, c1: Seq<char>, c2: Seq<char>|
                    #[trigger] g.contains(ObjectView::AliasCollection(a, c1)) && #[trigger] g.contains(
                        ObjectView::AliasCollection(a, c2),
                    ) implies c1 == c2 by {
                    assert(g0.contains(ObjectView::AliasCollection(a, c1)));
                    assert(g0.contains(ObjectView::AliasCollection(a, c2)));
                }
            }
            assert(objects_view(installed@) =~= g.difference(g0)) by {
                assert forall|x: ObjectView| objects_view(installed@).contains(x) <==> g.difference(g0).contains(x) by {
                    if objects_view(before_installed).contains(x) {
                        let j = choose|j: int| 0 <= j < mirrors@.len() && x == ObjectView::AliasItem(#[trigger] mirrors@[j]@, c@, s@);
                        assert(names(mirrors@, mirrors@[j]@));
                        assert(!g0.contains(x));
                    }
                    if g.difference(g0).contains(x) && x != ObjectView::Item(c@, s@) {
                        let a = choose|a: Seq<char>| x == ObjectView::AliasItem(a, c@, s@) && #[trigger] g0.contains(ObjectView::AliasCollection(a, c@));
                        assert(names(mirrors@, a));
                        let j = choose|j: int| 0 <= j < mirrors@.len() && #[trigger] mirrors@[j]@ == a;
                        assert(objects_view(before_installed).contains(x));
                    }
                }
            }
        }
        installed
    }

    /// Removes item `s` of collection `c` from its canonical path and every
    /// alias path.
    pub fn remove_item(&mut self, c: &String, s: &String) -> (removed: Vec<GraphObject>)
        requires
            old(self).wf(),
        ensures
            final(self).wf(),
            final(self)@ == without(old(self)@, Doomed::Item(c@, s@)),
            objects_view(removed@) == old(self)@.filter(|o: ObjectView| doomed(Doomed::Item(c@, s@), o)),
    {
        proof {
            lemma_without_mirrored(self@, Doomed::Item(c@, s@));
        }
        self.remove_where(&Removal::Item { collection: c.clone(), id: s.clone() })
    }

    /// Removes collection `c`: its canonical object, its items, and every
    /// alias object that hosts it or one of its items.
    pub fn remove_collection(&mut self, c: &String) -> (removed: Vec<GraphObject>)
        requires
            old(self).wf(),
        ensures
            final(self).wf(),
            final(self)@ == without(old(self)@, Doomed::Collection(c@)),
            objects_view(removed@) == old(self)@.filter(|o: ObjectView| doomed(Doomed::Collection(c@), o)),
    {
        proof {
            lemma_without_mirrored(self@, Doomed::Collection(c@));
        }
        self.remove_where(&Removal::Collection { id: c.clone() })
    }

    /// The collection that alias `a` hosts, if any.
    pub fn alias_target(&self, a: &String) -> (r: Option<String>)
        requires
            self.wf(),
        ensures
            r matches Some(c) ==> self@.contains(ObjectView::AliasCollection(a@, c@)),
            r is None ==> forall|c: Seq<char>| !#[trigger] self@.contains(ObjectView::AliasCollection(a@, c)),
    {
        let mut i: usize = 0;
        while i < self.objects.len()
            invariant
                i <= self.objects@.len(),
                forall|j: int|
                    0 <= j < i ==> match #[trigger] self.objects@[j]@ {
                        ObjectView::AliasCollection(x, _) => x != a@,
                        _ => true,
                    },
            decreases self.objects@.len() - i,
        {
            match &self.objects[i] {
                GraphObject::AliasCollection { alias, collection } => {
                    if *alias == *a {
                        proof {
                            assert(self.objects@[i as int]@ == ObjectView::AliasCollection(a@, collection@));
                        }
                        return Some(collection.clone());
                    }
                },
                _ => {},
            }
            i += 1;
        }
        proof {
            assert forall|c: Seq<char>| !#[trigger] self@.contains(ObjectView::AliasCollection(a@, c)) by {
                if self@.contains(ObjectView::AliasCollection(a@, c)) {
                    let j = choose|j: int| 0 <= j < self.objects@.len() && #[trigger] self.objects@[j]@ == ObjectView::AliasCollection(a@, c);
                }
            }
        }
        None
    }

    /// Points alias `a` at collection `target`, or clears it. The alias's old
    /// objects go; with a target, the alias collection and one alias item per
    /// item of the target are installed. A target that is not installed is an
    /// error, and nothing changes.
    pub fn set_alias(&mut self, a: &String, target: Option<&String>) -> (r: Result<AliasChange, Error>)
        requires
            old(self).wf(),
        ensures
            final(self).wf(),
            r is Err <==> (target matches Some(c) && !old(self)@.contains(ObjectView::Collection(c@))),
            r is Err ==> final(self)@ == old(self)@,
            r matches Err(e) ==> crate::error::is_not_found(e),
            r matches Ok(ch) ==> {
                &&& objects_view(ch.removed@) == old(self)@.filter(|o: ObjectView| doomed(Doomed::Alias(a@), o))
                &&& ch.previous matches Some(p) ==> old(self)@.contains(ObjectView::AliasCollection(a@, p@))
                &&& ch.previous is None ==> forall|c: Seq<char>|
                    !#[trigger] old(self)@.contains(ObjectView::AliasCollection(a@, c))
                &&& objects_view(ch.installed@) == final(self)@.difference(without(old(self)@, Doomed::Alias(a@)))
                &&& forall|o: ObjectView|
                    #[trigger] final(self)@.contains(o) <==> (without(old(self)@, Doomed::Alias(a@)).contains(o)
                        || match target {
                        Some(c) => o == ObjectView::AliasCollection(a@, c@) || exists|s: Seq<char>|
                            o == ObjectView::AliasItem(a@, c@, s) && #[trigger] old(self)@.contains(
                                ObjectView::Item(c@, s),
                            ),
                        None => false,
                    })
            },
    {
        if let Some(c) = target {
            if !self.contains(&GraphObject::Collection { id: c.clone() }) {
                return Err(Error::not_found());
            }
        }
        let previous = self.alias_target(a);
        proof {
            lemma_without_mirrored(self@, Doomed::Alias(a@));
        }
        let removed = self.remove_where(&Removal::Alias { alias: a.clone() });
        let ghost g1 = self@;
        let mut installed: Vec<GraphObject> = Vec::new();
        match target {
            None => {
                proof {
                    assert(objects_view(installed@) =~= self@.difference(g1));
                }
            },
            Some(c) => {
                let head = GraphObject::AliasCollection { alias: a.clone(), collection: c.clone() };
                let copy = copy_object(&head);
                proof {
                    lemma_push_view(installed@, copy);
                }
                installed.push(copy);
                self.push(head);
                let items = self.items_of(c);
                let mut i: usize = 0;
                while i < items.len()
                    invariant
                        mirrored(g1),
                        forall|x: Seq<char>| !#[trigger] g1.contains(ObjectView::AliasCollection(a@, x)),
                        forall|x: Seq<char>, z: Seq<char>| !#[trigger] g1.contains(ObjectView::AliasItem(a@, x, z)),
                        i <= items@.len(),
                        forall|s: Seq<char>| #[trigger] names(items@, s) <==> g1.contains(ObjectView::Item(c@, s)),
                        forall|o: ObjectView|
                            #[trigger] self@.contains(o) <==> (g1.contains(o) || o == ObjectView::AliasCollection(a@, c@)
                                || exists|j: int| 0 <= j < i && o == ObjectView::AliasItem(a@, c@, #[trigger] items@[j]@)),
                        forall|o: ObjectView|
                            #[trigger] objects_view(installed@).contains(o) <==> (o == ObjectView::AliasCollection(a@, c@)
                                || exists|j: int| 0 <= j < i && o == ObjectView::AliasItem(a@, c@, #[trigger] items@[j]@)),
                    decreases items@.len() - i,
                {
                    let o = GraphObject::AliasItem { alias: a.clone(), collection: c.clone(), id: items[i].clone() };
                    let ghost ov = o@;
                    let ghost before = self@;
                    let ghost before_installed = installed@;
                    let copy = copy_object(&o);
                    proof {
                        lemma_push_view(installed@, copy);
                    }
                    installed.push(copy);
                    self.push(o);
                    proof {
                        assert forall|x: ObjectView|
                            #[trigger] self@.contains(x) <==> (g1.contains(x) || x == ObjectView::AliasCollection(a@, c@)
                                || exists|j: int| 0 <= j < i + 1 && x == ObjectView::AliasItem(a@, c@, #[trigger] items@[j]@)) by {
                            if exists|j: int| 0 <= j < i + 1 && x == ObjectView::AliasItem(a@, c@, #[trigger] items@[j]@) {
                                let j = choose|j: int| 0 <= j < i + 1 && x == ObjectView::AliasItem(a@, c@, #[trigger] items@[j]@);
                                if j < i {
                                    assert(before.contains(x));
                                }
                            }
                        }
                        assert forall|x: ObjectView|
                            #[trigger] objects_view(installed@).contains(x) <==> (x == ObjectView::AliasCollection(a@, c@)
                                || exists|j: int| 0 <= j < i + 1 && x == ObjectView::AliasItem(a@, c@, #[trigger] items@[j]@)) by {
                            if exists|j: int| 0 <= j < i + 1 && x == ObjectView::AliasItem(a@, c@, #[trigger] items@[j]@) {
                                let j = choose|j: int| 0 <= j < i + 1 && x == ObjectView::AliasItem(a@, c@, #[trigger] items@[j]@);
                                if j < i {
                                    assert(objects_view(before_installed).contains(x));
                                }
                            }
                        }
                    }
                    i += 1;
                }
                proof {
                    let g = self@;
                    assert forall|o: ObjectView|
                        #[trigger] g.contains(o) <==> (g1.contains(o) || o == ObjectView::AliasCollection(a@, c@)
                            || exists|s: Seq<char>| o == ObjectView::AliasItem(a@, c@, s) && #[trigger] old(self)@.contains(ObjectView::Item(c@, s))) by {
                        if exists|j: int| 0 <= j < items@.len() && o == ObjectView::AliasItem(a@, c@, #[trigger] items@[j]@) {
                            let j = choose|j: int| 0 <= j < items@.len() && o == ObjectView::AliasItem(a@, c@, #[trigger] items@[j]@);
                            assert(names(items@, items@[j]@));
                            assert(g1.contains(ObjectView::Item(c@, items@[j]@)));
                        }
                        if exists|s: Seq<char>| o == ObjectView::AliasItem(a@, c@, s) && #[trigger] old(self)@.contains(ObjectView::Item(c@, s)) {
                            let s = choose|s: Seq<char>| o == ObjectView::AliasItem(a@, c@, s) && #[trigger] old(self)@.contains(ObjectView::Item(c@, s));
                            assert(g1.contains(ObjectView::Item(c@, s)));
                            assert(names(items@, s));
                            let j = choose|j: int| 0 <= j < items@.len() && #[trigger] items@[j]@ == s;
                        }
                    }
                    assert(mirrored(g)) by {
                        assert forall|x: Seq<char>, c2: Seq<char>, s2: Seq<char>|
                            g.contains(ObjectView::AliasCollection(x, c2)) implies (#[trigger] g.contains(ObjectView::Item(c2, s2))
                            <==> #[trigger] g.contains(ObjectView::AliasItem(x, c2, s2))) by {
                            if x == a@ {
                                assert(!g1.contains(ObjectView::AliasCollection(a@, c2)));
                                assert(c2 == c@);
                                if g.contains(ObjectView::Item(c2, s2)) {
                                    assert(g1.contains(ObjectView::Item(c2, s2)));
                                    assert(old(self)@.contains(ObjectView::Item(c2, s2)));
                                }
                                if g.contains(ObjectView::AliasItem(x, c2, s2)) {
                                    assert(!g1.contains(ObjectView::AliasItem(a@, c2, s2)));
                                }
                            } else {
                                assert(g1.contains(ObjectView::AliasCollection(x, c2)));
                                assert(g1.contains(ObjectView::Item(c2, s2)) <==> g1.contains(ObjectView::AliasItem(x, c2, s2)));
                            }
                        }
                        assert forall|x: Seq<char>, c2: Seq<char>, s2: Seq<char>|
                            #[trigger] g.contains(ObjectView::AliasItem(x, c2, s2)) implies g.contains(ObjectView::AliasCollection(x, c2)) by {
                            if x != a@ {
                                assert(g1.contains(ObjectView::AliasItem(x, c2, s2)));
                            }
                        }
                        assert forall|x: Seq<char>, c1: Seq<char>, c2: Seq<char>|
                            #[trigger] g.contains(ObjectView::AliasCollection(x, c1)) && #[trigger] g.contains(
                                ObjectView::AliasCollection(x, c2),
                            ) implies c1 == c2 by {
                            if x == a@ {
                                assert(!g1.contains(ObjectView::AliasCollection(a@, c1)));
                                assert(!g1.contains(ObjectView::AliasCollection(a@, c2)));
                            } else {
                                assert(g1.contains(ObjectView::AliasCollection(x, c1)));
                                assert(g1.contains(ObjectView::AliasCollection(x, c2)));
                            }
                        }
                    }
                    assert(objects_view(installed@) =~= g.difference(g1)) by {
                        assert forall|x: ObjectView| objects_view(installed@).contains(x) <==> g.difference(g1).contains(x) by {
                            if objects_view(installed@).contains(x) {
                                if x != ObjectView::AliasCollection(a@, c@) {
                                    let j = choose|j: int| 0 <= j < items@.len() && x == ObjectView::AliasItem(a@, c@, #[trigger] items@[j]@);
                                    assert(!g1.contains(ObjectView::AliasItem(a@, c@, items@[j]@)));
                                }
                            }
                        }
                    }
                }
            },
        }
        Ok(AliasChange { removed, installed, previous })
    }

    /// Where an event of collection `c` is signalled, in order: every alias
    /// object that hosts `c`, then the canonical object.
    pub fn signal_targets(&self, c: &String) -> (r: Vec<GraphObject>)
        ensures
            r@.len() > 0,
            r@.last()@ == ObjectView::Collection(c@),
            forall|i: int| 0 <= i < r@.len() - 1 ==> exists|a: Seq<char>|
                #[trigger] r@[i]@ == ObjectView::AliasCollection(a, c@) && self@.contains(ObjectView::AliasCollection(a, c@)),
            forall|a: Seq<char>|
                #[trigger] self@.contains(ObjectView::AliasCollection(a, c@)) ==> exists|i: int|
                    0 <= i < r@.len() - 1 && #[trigger] r@[i]@ == ObjectView::AliasCollection(a, c@),
    {
        let mirrors = self.mirrors_of(c);
        let mut out: Vec<GraphObject> = Vec::new();
        let mut i: usize = 0;
        while i < mirrors.len()
            invariant
                i <= mirrors@.len(),
                out@.len() == i,
                forall|a: Seq<char>| #[trigger] names(mirrors@, a) <==> self@.contains(ObjectView::AliasCollection(a, c@)),
                forall|j: int| 0 <= j < i ==> #[trigger] out@[j]@ == ObjectView::AliasCollection(mirrors@[j]@, c@),
            decreases mirrors@.len() - i,
        {
            out.push(GraphObject::AliasCollection { alias: mirrors[i].clone(), collection: c.clone() });
            i += 1;
        }
        out.push(GraphObject::Collection { id: c.clone() });
        proof {
            assert forall|i: int| 0 <= i < out@.len() - 1 implies exists|a: Seq<char>|
                #[trigger] out@[i]@ == ObjectView::AliasCollection(a, c@) && self@.contains(ObjectView::AliasCollection(a, c@)) by {
                assert(names(mirrors@, mirrors@[i]@));
                assert(out@[i]@ == ObjectView::AliasCollection(mirrors@[i]@, c@));
            }
            assert forall|a: Seq<char>|
                #[trigger] self@.contains(ObjectView::AliasCollection(a, c@)) implies exists|i: int|
                    0 <= i < out@.len() - 1 && #[trigger] out@[i]@ == ObjectView::AliasCollection(a, c@) by {
                assert(names(mirrors@, a));
                let j = choose|j: int| 0 <= j < mirrors@.len() && #[trigger] mirrors@[j]@ == a;
                assert(out@[j]@ == ObjectView::AliasCollection(a, c@));
            }
        }
        out
    }
}

/// For every collection `c` that alias `a` hosts and every secret `s`, the
/// object at `/collection/c/s` exists exactly when the one at `/aliases/a/s`
/// does, and both host item `s` of `c`.
pub proof fn lemma_alias_mirror(g: &ObjectGraph, a: Seq<char>, c: Seq<char>, s: Seq<char>)
    requires
        g.wf(),
        g@.contains(ObjectView::AliasCollection(a, c)),
    ensures
        g@.contains(ObjectView::Item(c, s)) <==> g@.contains(ObjectView::AliasItem(a, c, s)),
{
}

} // verus!
