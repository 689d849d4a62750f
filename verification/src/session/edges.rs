//! Relationship edges: building them from the world and diffing them against
//! the last-committed snapshot.
use std::collections::{HashMap, HashSet};

use vstd::hash_map::StringHashMap;
use vstd::hash_set::StringHashSet;
use vstd::prelude::*;
use vstd::string::*;

use crate::collections;
use crate::collections::KeySet;
use crate::db::connection;
use crate::db::connection::{EdgeDocument, EdgeModel, ErrorModel, PersistenceError};
use crate::db::shared;
use crate::session::cache;
use crate::session::state::PersistenceSession;
use crate::session::tracking::{DirtyModel, DirtyState};
use crate::session::{Entity, TypeId};
use crate::value::Value;

verus! {

broadcast use {vstd::std_specs::hash::group_hash_axioms, vstd::hash_map::group_hash_map_axioms};

/// A relationship from one entity to another, with its payload if it has one.
#[derive(Debug)]
pub struct Link {
    pub from: Entity,
    pub to: Entity,
    pub payload: Option<Value>,
}

/// What the world holds of one relationship type.
#[derive(Debug)]
pub enum RelationshipScan {
    /// The relationships of live entities.
    Links(Vec<Link>),
    /// Edges that a serializer of the application has built.
    Edges(Result<Vec<EdgeDocument>, PersistenceError>),
}

/// The GUID of an entity: its cached key, or else the key that the running
/// commit has preassigned.
pub open spec fn guid_of(
    session: PersistenceSession,
    keys: Map<Entity, String>,
    entity: Entity,
) -> Option<Seq<char>> {
    match session.cache.key_of(entity) {
        Some(key) => Some(key),
        None => cache::key_text(keys, entity),
    }
}

/// The edges of the links that start at a scanned entity, in order. A link
/// whose source or target has no GUID gives no edge.
pub open spec fn link_edges(
    session: PersistenceSession,
    name: Seq<char>,
    keys: Map<Entity, String>,
    scan: Set<Entity>,
    links: Seq<Link>,
) -> Seq<EdgeModel>
    decreases links.len(),
{
    if links.len() == 0 {
        Seq::empty()
    } else {
        let rest = link_edges(session, name, keys, scan, links.drop_last());
        let link = links.last();
        match (guid_of(session, keys, link.from), guid_of(session, keys, link.to)) {
            (Some(from), Some(to)) => if scan.contains(link.from) {
                rest.push(
                    connection::edge_between(
                        name,
                        from,
                        to,
                        connection::optional_json(link.payload),
                    ),
                )
            } else {
                rest
            },
            _ => rest,
        }
    }
}

/// The edges that the registered relationship types give, type by type. The
/// first failure in that order counts.
pub open spec fn scanned_edges(
    session: PersistenceSession,
    keys: Map<Entity, String>,
    scan: Set<Entity>,
    relationships: Seq<(TypeId, RelationshipScan)>,
) -> Result<Seq<EdgeModel>, ErrorModel>
    decreases relationships.len(),
{
    if relationships.len() == 0 {
        Ok(Seq::empty())
    } else {
        match scanned_edges(session, keys, scan, relationships.drop_last()) {
            Err(e) => Err(e),
            Ok(edges) => {
                let (type_id, found) = relationships.last();
                if !session.relationships.serializers@.contains(type_id) {
                    Ok(edges)
                } else {
                    match found {
                        RelationshipScan::Links(links) => match session.relationships.names@.name_of(
                            type_id,
                        ) {
                            Some(name) => Ok(
                                edges + link_edges(session, name, keys, scan, links@),
                            ),
                            None => Ok(edges),
                        },
                        RelationshipScan::Edges(Ok(more)) => Ok(
                            edges + connection::edge_models(more@),
                        ),
                        RelationshipScan::Edges(Err(e)) => Err(e@),
                    }
                }
            },
        }
    }
}

/// The keys of edges, each once, in the order of their first occurrence.
pub open spec fn distinct_keys(edges: Seq<EdgeModel>) -> Seq<Seq<char>>
    decreases edges.len(),
{
    if edges.len() == 0 {
        Seq::empty()
    } else {
        let rest = distinct_keys(edges.drop_last());
        if rest.contains(edges.last().key) {
            rest
        } else {
            rest.push(edges.last().key)
        }
    }
}

/// Edges by their key. Of several edges with one key the last counts.
pub open spec fn edges_by_key(edges: Seq<EdgeModel>) -> Map<Seq<char>, EdgeModel>
    decreases edges.len(),
{
    if edges.len() == 0 {
        Map::empty()
    } else {
        edges_by_key(edges.drop_last()).insert(edges.last().key, edges.last())
    }
}

/// What has to be done to the stored edges, and which are stored after that.
#[verifier::ext_equal]
pub struct EdgeDiff {
    pub upserts: Seq<EdgeModel>,
    pub deletes: Seq<Seq<char>>,
    pub snapshot: Set<Seq<char>>,
}

/// The GUIDs of scanned entities.
pub open spec fn scanned_guids(
    session: PersistenceSession,
    keys: Map<Entity, String>,
    scan: Set<Entity>,
) -> Set<Seq<char>> {
    Set::new(|guid: Seq<char>| exists|e: Entity| #[trigger]
        scan.contains(e) && guid_of(session, keys, e) == Some(guid))
}

/// True where a stored edge is left as it is: its source was not scanned.
pub open spec fn retained(key: Seq<char>, guids: Set<Seq<char>>) -> bool {
    match shared::edge_source(key) {
        Some(guid) => !guids.contains(guid),
        None => false,
    }
}

/// The keys of the edges that are there now: those retained and those found.
pub open spec fn current_keys(
    stored: Set<Seq<char>>,
    guids: Set<Seq<char>>,
    edges: Seq<EdgeModel>,
) -> Set<Seq<char>> {
    stored.filter(|k: Seq<char>| retained(k, guids)).union(edges_by_key(edges).dom())
}

/// The difference between the edges stored (in `order`) and those found for the
/// sources with these GUIDs: edges that are not stored yet are written, stored
/// edges that are neither retained nor found are deleted.
pub open spec fn edge_diff(
    order: Seq<Seq<char>>,
    guids: Set<Seq<char>>,
    edges: Seq<EdgeModel>,
) -> EdgeDiff {
    let stored = order.to_set();
    let current = current_keys(stored, guids, edges);
    EdgeDiff {
        upserts: distinct_keys(edges).filter(|k: Seq<char>| !stored.contains(k)).map_values(
            |k: Seq<char>| edges_by_key(edges)[k],
        ),
        deletes: order.filter(|k: Seq<char>| !current.contains(k)),
        snapshot: current,
    }
}

proof fn lemma_filter_take<A>(s: Seq<A>, p: spec_fn(A) -> bool, i: int)
    requires
        0 <= i < s.len(),
    ensures
        s.take(i + 1).filter(p) == if p(s[i]) {
            s.take(i).filter(p).push(s[i])
        } else {
            s.take(i).filter(p)
        },
{
    reveal(Seq::filter);
    assert(s.take(i + 1).drop_last() =~= s.take(i));
}

/// A filtered list holds the elements that pass.
pub proof fn lemma_filter_contains<A>(s: Seq<A>, p: spec_fn(A) -> bool, x: A)
    ensures
        s.filter(p).contains(x) == (s.contains(x) && p(x)),
    decreases s.len(),
{
    reveal(Seq::filter);
    if s.len() > 0 {
        let head = s.drop_last();
        lemma_filter_contains(head, p, x);
        assert(s =~= head.push(s.last()));
        let f = head.filter(p);
        if s.contains(x) {
            let j = choose|j: int| 0 <= j < s.len() && s[j] == x;
            if j < head.len() {
                assert(head[j] == x);
            }
        }
        if head.contains(x) {
            let j = choose|j: int| 0 <= j < head.len() && head[j] == x;
            assert(s[j] == x);
        }
        if p(s.last()) {
            if f.contains(x) {
                let j = choose|j: int| 0 <= j < f.len() && f[j] == x;
                assert(f.push(s.last())[j] == x);
            }
            if f.push(s.last()).contains(x) && x != s.last() {
                let j = choose|j: int|
                    0 <= j < f.push(s.last()).len() && f.push(s.last())[j] == x;
                assert(f[j] == x);
            }
            if x == s.last() {
                assert(f.push(s.last())[f.len() as int] == x);
                assert(s[s.len() - 1] == x);
            }
        }
    }
}

/// The distinct keys of edges are the keys of the edges.
pub proof fn lemma_distinct_keys(edges: Seq<EdgeModel>)
    ensures
        distinct_keys(edges).no_duplicates(),
        distinct_keys(edges).to_set() == edges_by_key(edges).dom(),
        forall|k: Seq<char>| #[trigger]
            edges_by_key(edges).dom().contains(k) ==> edges_by_key(edges)[k].key == k,
    decreases edges.len(),
{
    if edges.len() == 0 {
        assert(distinct_keys(edges).to_set() =~= edges_by_key(edges).dom());
    } else {
        let head = edges.drop_last();
        let key = edges.last().key;
        lemma_distinct_keys(head);
        let rest = distinct_keys(head);
        if rest.contains(key) {
            assert(rest.to_set().contains(key));
            assert(rest.to_set() =~= rest.to_set().insert(key));
        } else {
            collections::lemma_push_to_set(rest, key);
        }
        assert(distinct_keys(edges).to_set() =~= edges_by_key(edges).dom());
    }
}

/// After the upserts and deletions of a diff have been carried out on the
/// stored edges, exactly the edges of the new snapshot are stored.
pub proof fn law_diff_leads_to_snapshot(
    order: Seq<Seq<char>>,
    guids: Set<Seq<char>>,
    edges: Seq<EdgeModel>,
)
    ensures
        edge_diff(order, guids, edges).snapshot == order.to_set().difference(
            edge_diff(order, guids, edges).deletes.to_set(),
        ).union(edges_by_key(edge_diff(order, guids, edges).upserts).dom()),
{
    let diff = edge_diff(order, guids, edges);
    let stored = order.to_set();
    let current = current_keys(stored, guids, edges);
    let fresh = distinct_keys(edges).filter(|k: Seq<char>| !stored.contains(k));
    lemma_distinct_keys(edges);
    assert forall|i: int| 0 <= i < fresh.len() implies edges_by_key(edges).dom().contains(
        #[trigger] fresh[i],
    ) by {
        lemma_filter_contains(distinct_keys(edges), |k: Seq<char>| !stored.contains(k), fresh[i]);
        assert(fresh.contains(fresh[i]));
        assert(distinct_keys(edges).to_set().contains(fresh[i]));
    }
    lemma_by_key_of_upserts(edges, fresh);
    let after = stored.difference(diff.deletes.to_set()).union(
        edges_by_key(diff.upserts).dom(),
    );
    assert forall|k: Seq<char>| diff.snapshot.contains(k) == after.contains(k) by {
        lemma_filter_contains(order, |k: Seq<char>| !current.contains(k), k);
        lemma_filter_contains(distinct_keys(edges), |k: Seq<char>| !stored.contains(k), k);
        assert(diff.deletes.to_set().contains(k) == diff.deletes.contains(k));
        assert(stored.contains(k) == order.contains(k));
        assert(distinct_keys(edges).to_set().contains(k) == distinct_keys(edges).contains(k));
        assert(fresh.to_set().contains(k) == fresh.contains(k));
    }
    assert(diff.snapshot =~= after);
}

/// The keys of the upserted edges are those chosen for it.
proof fn lemma_by_key_of_upserts(edges: Seq<EdgeModel>, chosen: Seq<Seq<char>>)
    requires
        forall|k: Seq<char>| #[trigger]
            edges_by_key(edges).dom().contains(k) ==> edges_by_key(edges)[k].key == k,
        forall|i: int|
            0 <= i < chosen.len() ==> edges_by_key(edges).dom().contains(#[trigger] chosen[i]),
    ensures
        edges_by_key(chosen.map_values(|k: Seq<char>| edges_by_key(edges)[k])).dom()
            == chosen.to_set(),
    decreases chosen.len(),
{
    let mapped = chosen.map_values(|k: Seq<char>| edges_by_key(edges)[k]);
    if chosen.len() == 0 {
        assert(edges_by_key(mapped).dom() =~= chosen.to_set());
    } else {
        let head = chosen.drop_last();
        assert forall|i: int| 0 <= i < head.len() implies edges_by_key(edges).dom().contains(
            #[trigger] head[i],
        ) by {
            assert(head[i] == chosen[i]);
        }
        lemma_by_key_of_upserts(edges, head);
        assert(mapped.drop_last() =~= head.map_values(|k: Seq<char>| edges_by_key(edges)[k]));
        assert(edges_by_key(edges).dom().contains(chosen[chosen.len() - 1]));
        assert(mapped.last().key == chosen.last());
        assert(head.push(chosen.last()) =~= chosen);
        collections::lemma_push_to_set(head, chosen.last());
    }
}

/// Diffing again after a diff has been carried out finds nothing to do.
pub proof fn law_diff_is_settled(
    order: Seq<Seq<char>>,
    guids: Set<Seq<char>>,
    edges: Seq<EdgeModel>,
    stored: Seq<Seq<char>>,
)
    requires
        stored.to_set() == edge_diff(order, guids, edges).snapshot,
    ensures
        edge_diff(stored, guids, edges).upserts == Seq::<EdgeModel>::empty(),
        edge_diff(stored, guids, edges).deletes == Seq::<Seq<char>>::empty(),
        edge_diff(stored, guids, edges).snapshot == stored.to_set(),
{
    let again = edge_diff(stored, guids, edges);
    let keep = stored.to_set();
    let current = current_keys(keep, guids, edges);
    let fresh = distinct_keys(edges).filter(|k: Seq<char>| !keep.contains(k));
    lemma_distinct_keys(edges);
    assert(current =~= keep);
    assert(fresh.len() == 0) by {
        if fresh.len() > 0 {
            lemma_filter_contains(distinct_keys(edges), |k: Seq<char>| !keep.contains(k), fresh[0]);
            assert(fresh.contains(fresh[0]));
            assert(distinct_keys(edges).to_set().contains(fresh[0]));
        }
    }
    assert(again.upserts =~= Seq::empty());
    assert(again.deletes.len() == 0) by {
        if again.deletes.len() > 0 {
            lemma_filter_contains(
                stored,
                |k: Seq<char>| !current.contains(k),
                again.deletes[0],
            );
            assert(again.deletes.contains(again.deletes[0]));
            assert(keep.contains(again.deletes[0]));
        }
    }
    assert(again.deletes =~= Seq::empty());
}

/// A diff deletes a stored edge exactly where its source was scanned (or the key
/// names no source) and the edge was not found again.
pub proof fn law_diff_deletes_lost_edges(
    order: Seq<Seq<char>>,
    guids: Set<Seq<char>>,
    edges: Seq<EdgeModel>,
    key: Seq<char>,
)
    ensures
        edge_diff(order, guids, edges).deletes.contains(key) == (order.contains(key) && !retained(
            key,
            guids,
        ) && !edges_by_key(edges).dom().contains(key)),
{
    let stored = order.to_set();
    let current = current_keys(stored, guids, edges);
    lemma_filter_contains(order, |k: Seq<char>| !current.contains(k), key);
    assert(stored.contains(key) == order.contains(key));
}

/// Edges gathered by key. A later edge replaces an earlier one of the same key.
struct EdgeTable {
    edges: Vec<EdgeDocument>,
    index: StringHashMap<usize>,
}

/// The keys of edge documents, in order.
spec fn document_keys(edges: Seq<EdgeDocument>) -> Seq<Seq<char>> {
    edges.map_values(|e: EdgeDocument| e.key@)
}

impl EdgeTable {
    /// Holds the edges of `all`, by key, in the order of their first occurrence.
    spec fn gathers(&self, all: Seq<EdgeModel>) -> bool {
        &&& document_keys(self.edges@) == distinct_keys(all)
        &&& forall|i: int|
            0 <= i < self.edges@.len() ==> (#[trigger] self.edges@[i])@ == edges_by_key(
                all,
            )[self.edges@[i].key@]
        &&& forall|k: Seq<char>| #[trigger]
            self.index@.dom().contains(k) <==> distinct_keys(all).contains(k)
        &&& forall|k: Seq<char>| #[trigger]
            self.index@.dom().contains(k) ==> self.index@[k] < self.edges@.len() && self.edges@[
            self.index@[k] as int].key@ == k
    }

    fn new() -> (r: Self)
        ensures
            r.gathers(Seq::empty()),
    {
        let r = EdgeTable { edges: Vec::new(), index: StringHashMap::new() };
        assert(document_keys(r.edges@) =~= Seq::empty());
        r
    }

    fn insert(&mut self, edge: EdgeDocument, Ghost(all): Ghost<Seq<EdgeModel>>)
        requires
            old(self).gathers(all),
        ensures
            final(self).gathers(all.push(edge@)),
    {
        let ghost before = *self;
        let ghost more = all.push(edge@);
        proof {
            assert(more.drop_last() =~= all);
            lemma_distinct_keys(all);
        }
        let found: Option<usize> = match self.index.get(edge.key.as_str()) {
            Some(i) => Some(*i),
            None => None,
        };
        match found {
            Some(i) => {
                self.edges.set(i, edge);
                assert(document_keys(self.edges@) =~= document_keys(before.edges@));
                assert forall|j: int| 0 <= j < self.edges@.len() implies (
                #[trigger] self.edges@[j])@ == edges_by_key(more)[self.edges@[j].key@] by {
                    if j != i {
                        assert(distinct_keys(all)[j] == before.edges@[j].key@);
                        assert(distinct_keys(all)[i as int] == edge.key@);
                    }
                }
            },
            None => {
                self.index.insert(edge.key.clone(), self.edges.len());
                self.edges.push(edge);
                assert(document_keys(self.edges@) =~= distinct_keys(all).push(edge.key@));
                assert forall|j: int| 0 <= j < self.edges@.len() implies (
                #[trigger] self.edges@[j])@ == edges_by_key(more)[self.edges@[j].key@] by {
                    if j < before.edges@.len() {
                        assert(distinct_keys(all)[j] == before.edges@[j].key@);
                        assert(distinct_keys(all).contains(before.edges@[j].key@));
                    }
                }
                assert forall|k: Seq<char>| #[trigger]
                    self.index@.dom().contains(k) <==> distinct_keys(more).contains(k) by {
                    let keys = distinct_keys(all);
                    if keys.contains(k) {
                        let j = choose|j: int| 0 <= j < keys.len() && keys[j] == k;
                        assert(keys.push(edge.key@)[j] == k);
                    }
                    if k == edge.key@ {
                        assert(keys.push(edge.key@)[keys.len() as int] == k);
                    }
                    assert(before.index@.dom().contains(k) <==> keys.contains(k));
                }
                assert forall|k: Seq<char>| #[trigger]
                    self.index@.dom().contains(k) implies self.index@[k] < self.edges@.len()
                    && self.edges@[self.index@[k] as int].key@ == k by {
                    if k != edge.key@ {
                        assert(before.index@.dom().contains(k));
                    }
                }
            },
        }
    }
}

impl PersistenceSession {
    /// The GUID of an entity: its cached key, or else the key that the running
    /// commit has preassigned.
    pub fn guid_for(&self, keys: &HashMap<Entity, String>, entity: Entity) -> (r: Option<String>)
        ensures
            match r {
                Some(guid) => guid_of(*self, keys@, entity) == Some(guid@),
                None => guid_of(*self, keys@, entity) is None,
            },
    {
        match self.entity_key(entity) {
            Some(key) => Some(key.clone()),
            None => match keys.get(&entity) {
                Some(key) => Some(key.clone()),
                None => None,
            },
        }
    }

    /// The edges of the links that start at a scanned entity.
    ///
    /// A link between entities that have no GUID yet is left out.
    pub fn relationship_edges(
        &self,
        name: &str,
        keys: &HashMap<Entity, String>,
        scan_sources: &HashSet<Entity>,
        links: &Vec<Link>,
    ) -> (edges: Vec<EdgeDocument>)
        ensures
            connection::edge_models(edges@) == link_edges(
                *self,
                name@,
                keys@,
                scan_sources@,
                links@,
            ),
    {
        let mut edges: Vec<EdgeDocument> = Vec::new();
        let mut i: usize = 0;
        assert(connection::edge_models(edges@) =~= Seq::empty());
        while i < links.len()
            invariant
                i <= links@.len(),
                connection::edge_models(edges@) == link_edges(
                    *self,
                    name@,
                    keys@,
                    scan_sources@,
                    links@.take(i as int),
                ),
            decreases links@.len() - i,
        {
            let ghost before = edges@;
            assert(links@.take(i + 1).drop_last() =~= links@.take(i as int));
            assert(links@.take(i + 1).last() == links@[i as int]);
            if scan_sources.contains(&links[i].from) {
                let from_guid: Option<String> = self.guid_for(keys, links[i].from);
                let to_guid: Option<String> = self.guid_for(keys, links[i].to);
                match (from_guid, to_guid) {
                    (Some(from_guid), Some(to_guid)) => {
                        let edge = EdgeDocument {
                            key: EdgeDocument::make_key(name, from_guid.as_str(), to_guid.as_str()),
                            relationship_type: name.to_owned(),
                            from_guid,
                            to_guid,
                            payload: match &links[i].payload {
                                Some(payload) => Some(payload.clone()),
                                None => None,
                            },
                        };
                        edges.push(edge);
                        assert(connection::edge_models(edges@) =~= connection::edge_models(
                            before,
                        ).push(edge@));
                    },
                    _ => {},
                }
            }
            i = i + 1;
        }
        assert(links@.take(i as int) =~= links@);
        edges
    }
}

proof fn lemma_scanned_edges_fail(
    session: PersistenceSession,
    keys: Map<Entity, String>,
    scan: Set<Entity>,
    relationships: Seq<(TypeId, RelationshipScan)>,
    k: int,
)
    requires
        0 <= k <= relationships.len(),
        scanned_edges(session, keys, scan, relationships.take(k)) is Err,
    ensures
        scanned_edges(session, keys, scan, relationships) == scanned_edges(
            session,
            keys,
            scan,
            relationships.take(k),
        ),
    decreases relationships.len(),
{
    if k < relationships.len() {
        assert(relationships.drop_last().take(k) =~= relationships.take(k));
        lemma_scanned_edges_fail(session, keys, scan, relationships.drop_last(), k);
    } else {
        assert(relationships.take(k) =~= relationships);
    }
}

impl EdgeTable {
    /// Gathers a list of edges.
    fn insert_all(&mut self, edges: &Vec<EdgeDocument>, Ghost(all): Ghost<Seq<EdgeModel>>)
        requires
            old(self).gathers(all),
        ensures
            final(self).gathers(all + connection::edge_models(edges@)),
    {
        let ghost models = connection::edge_models(edges@);
        let mut i: usize = 0;
        assert(all + models.take(0) =~= all);
        while i < edges.len()
            invariant
                i <= edges@.len(),
                models == connection::edge_models(edges@),
                self.gathers(all + models.take(i as int)),
            decreases edges@.len() - i,
        {
            self.insert(edges[i].clone(), Ghost(all + models.take(i as int)));
            assert((all + models.take(i as int)).push(models[i as int]) =~= all + models.take(
                i + 1,
            ));
            i = i + 1;
        }
        assert(models.take(i as int) =~= models);
    }
}

impl PersistenceSession {
    /// Gathers the edges that the registered relationship types give.
    fn gather_edges(
        &self,
        keys: &HashMap<Entity, String>,
        scan: &HashSet<Entity>,
        relationships: &Vec<(TypeId, RelationshipScan)>,
    ) -> (r: Result<EdgeTable, PersistenceError>)
        ensures
            match r {
                Ok(table) => match scanned_edges(*self, keys@, scan@, relationships@) {
                    Ok(all) => table.gathers(all),
                    Err(_) => false,
                },
                Err(e) => scanned_edges(*self, keys@, scan@, relationships@) == Err::<
                    Seq<EdgeModel>,
                    _,
                >(e@),
            },
    {
        let mut table: EdgeTable = EdgeTable::new();
        let ghost mut all = Seq::<EdgeModel>::empty();
        let mut i: usize = 0;
        while i < relationships.len()
            invariant
                i <= relationships@.len(),
                scanned_edges(*self, keys@, scan@, relationships@.take(i as int)) == Ok::<
                    _,
                    ErrorModel,
                >(all),
                table.gathers(all),
            decreases relationships@.len() - i,
        {
            proof {
                assert(relationships@.take(i + 1).drop_last() =~= relationships@.take(i as int));
                assert(relationships@.take(i + 1).last() == relationships@[i as int]);
            }
            if self.relationships.serializers.contains(&relationships[i].0) {
                match &relationships[i].1 {
                    RelationshipScan::Links(links) => match self.relationship_type_name(
                        relationships[i].0,
                    ) {
                        Some(name) => {
                            let edges: Vec<EdgeDocument> = self.relationship_edges(
                                name.as_str(),
                                keys,
                                scan,
                                links,
                            );
                            table.insert_all(&edges, Ghost(all));
                            proof {
                                all = all + connection::edge_models(edges@);
                            }
                        },
                        None => {},
                    },
                    RelationshipScan::Edges(Ok(edges)) => {
                        table.insert_all(edges, Ghost(all));
                        proof {
                            all = all + connection::edge_models(edges@);
                        }
                    },
                    RelationshipScan::Edges(Err(e)) => {
                        proof {
                            lemma_scanned_edges_fail(*self, keys@, scan@, relationships@, i + 1);
                        }
                        return Err(e.clone());
                    },
                }
            }
            i = i + 1;
        }
        assert(relationships@.take(i as int) =~= relationships@);
        Ok(table)
    }

    /// The GUIDs of scanned entities.
    fn scan_guids(&self, keys: &HashMap<Entity, String>, scan: &HashSet<Entity>) -> (guids:
        StringHashSet)
        ensures
            guids@ == scanned_guids(*self, keys@, scan@),
    {
        let entities: Vec<Entity> = collections::members(scan);
        let mut guids: StringHashSet = StringHashSet::new();
        let mut i: usize = 0;
        assert(guids@ =~= scanned_guids(*self, keys@, entities@.take(0).to_set()));
        while i < entities.len()
            invariant
                i <= entities@.len(),
                guids@ == scanned_guids(*self, keys@, entities@.take(i as int).to_set()),
            decreases entities@.len() - i,
        {
            let ghost before = guids@;
            let ghost done = entities@.take(i as int).to_set();
            let entity: Entity = entities[i];
            match self.guid_for(keys, entity) {
                Some(guid) => {
                    guids.insert(guid);
                },
                None => {},
            }
            proof {
                collections::lemma_take_to_set(entities@, i as int);
                let next = entities@.take(i + 1).to_set();
                assert forall|g: Seq<char>| guids@.contains(g) == scanned_guids(
                    *self,
                    keys@,
                    next,
                ).contains(g) by {
                    if before.contains(g) {
                        let e = choose|e: Entity| #[trigger]
                            done.contains(e) && guid_of(*self, keys@, e) == Some(g);
                        assert(next.contains(e));
                    }
                    if guid_of(*self, keys@, entity) == Some(g) {
                        assert(next.contains(entity));
                    }
                    if scanned_guids(*self, keys@, next).contains(g) {
                        let e = choose|e: Entity| #[trigger]
                            next.contains(e) && guid_of(*self, keys@, e) == Some(g);
                        if e != entity {
                            assert(done.contains(e));
                        }
                    }
                }
                assert(guids@ =~= scanned_guids(*self, keys@, next));
            }
            i = i + 1;
        }
        assert(entities@.take(i as int) =~= entities@);
        guids
    }

    /// The difference between the stored edges and those gathered.
    fn diff_edges(
        &self,
        guids: &StringHashSet,
        table: &EdgeTable,
        Ghost(all): Ghost<Seq<EdgeModel>>,
    ) -> (r: (Vec<EdgeDocument>, Vec<String>, KeySet))
        requires
            self.cache.edge_snapshot.wf(),
            table.gathers(all),
        ensures
            r.2.wf(),
            edge_diff(self.cache.edge_snapshot.order(), guids@, all) == (EdgeDiff {
                upserts: connection::edge_models(r.0@),
                deletes: collections::texts(r.1@),
                snapshot: r.2@,
            }),
    {
        let stored: &KeySet = &self.cache.edge_snapshot;
        let ghost order = stored.order();
        let ghost diff = edge_diff(order, guids@, all);
        proof {
            stored.lemma_order();
            lemma_distinct_keys(all);
        }
        let count: usize = stored.len();

        // What is there now: the stored edges of sources that were not scanned ...
        let mut current: KeySet = KeySet::new();
        let mut i: usize = 0;
        assert(current@ =~= order.take(0).to_set().filter(|k: Seq<char>| retained(k, guids@)));
        while i < count
            invariant
                i <= count,
                count == order.len(),
                order == stored.order(),
                current.wf(),
                current@ == order.take(i as int).to_set().filter(
                    |k: Seq<char>| retained(k, guids@),
                ),
            decreases count - i,
        {
            let key: &String = stored.get(i);
            let keep: bool = match shared::edge_source_guid(key.as_str()) {
                Some(guid) => !guids.contains(guid),
                None => false,
            };
            if keep {
                current.insert(key.clone());
            }
            proof {
                collections::lemma_take_to_set(order, i as int);
                assert(current@ =~= order.take(i + 1).to_set().filter(
                    |k: Seq<char>| retained(k, guids@),
                ));
            }
            i = i + 1;
        }
        assert(order.take(i as int) =~= order);

        // ... and the edges found. Those that are not stored yet are written.
        let ghost keys = distinct_keys(all);
        let ghost kept = current@;
        let ghost fresh = |k: Seq<char>| !order.to_set().contains(k);
        let mut upserts: Vec<EdgeDocument> = Vec::new();
        let mut j: usize = 0;
        proof {
            assert(keys.take(0) =~= Seq::empty());
            reveal(Seq::filter);
            assert(connection::edge_models(upserts@) =~= keys.take(0).filter(fresh).map_values(
                |k: Seq<char>| edges_by_key(all)[k],
            ));
            assert(current@ =~= kept.union(keys.take(0).to_set()));
        }
        while j < table.edges.len()
            invariant
                j <= table.edges@.len(),
                keys == distinct_keys(all),
                table.gathers(all),
                order.to_set() == stored@,
                fresh == (|k: Seq<char>| !order.to_set().contains(k)),
                connection::edge_models(upserts@) == keys.take(j as int).filter(fresh).map_values(
                    |k: Seq<char>| edges_by_key(all)[k],
                ),
                current.wf(),
                current@ == kept.union(keys.take(j as int).to_set()),
            decreases table.edges@.len() - j,
        {
            let edge: &EdgeDocument = &table.edges[j];
            let ghost before = upserts@;
            assert(keys[j as int] == edge.key@) by {
                assert(document_keys(table.edges@)[j as int] == edge.key@);
            }
            if !stored.contains(edge.key.as_str()) {
                upserts.push(edge.clone());
                assert(connection::edge_models(upserts@) =~= connection::edge_models(before).push(
                    edge@,
                ));
            }
            current.insert(edge.key.clone());
            proof {
                lemma_filter_take(keys, fresh, j as int);
                collections::lemma_take_to_set(keys, j as int);
                let pick = |k: Seq<char>| edges_by_key(all)[k];
                assert(connection::edge_models(upserts@) =~= keys.take(j + 1).filter(
                    fresh,
                ).map_values(pick));
                assert(current@ =~= kept.union(keys.take(j + 1).to_set()));
            }
            j = j + 1;
        }
        proof {
            assert(document_keys(table.edges@).len() == table.edges@.len());
            assert(keys.take(j as int) =~= keys);
            assert(current@ =~= diff.snapshot);
            assert(connection::edge_models(upserts@) =~= diff.upserts);
        }

        // Stored edges that are no longer there are deleted.
        let ghost lost = |k: Seq<char>| !diff.snapshot.contains(k);
        let mut deletes: Vec<String> = Vec::new();
        let mut n: usize = 0;
        proof {
            assert(order.take(0) =~= Seq::empty());
            reveal(Seq::filter);
            assert(collections::texts(deletes@) =~= order.take(0).filter(lost));
        }
        while n < count
            invariant
                n <= count,
                count == order.len(),
                order == stored.order(),
                current@ == diff.snapshot,
                lost == (|k: Seq<char>| !diff.snapshot.contains(k)),
                collections::texts(deletes@) == order.take(n as int).filter(lost),
            decreases count - n,
        {
            let key: &String = stored.get(n);
            let ghost before = deletes@;
            if !current.contains(key.as_str()) {
                deletes.push(key.clone());
                assert(collections::texts(deletes@) =~= collections::texts(before).push(key@));
            }
            proof {
                lemma_filter_take(order, lost, n as int);
            }
            n = n + 1;
        }
        assert(order.take(n as int) =~= order);
        assert(collections::texts(deletes@) =~= diff.deletes);
        (upserts, deletes, current)
    }
}

/// Every edge made of links starts at a scanned entity and has the key of its
/// type and endpoints.
pub proof fn law_link_edges_start_at_scanned_entities(
    session: PersistenceSession,
    name: Seq<char>,
    keys: Map<Entity, String>,
    scan: Set<Entity>,
    links: Seq<Link>,
    i: int,
)
    requires
        0 <= i < link_edges(session, name, keys, scan, links).len(),
    ensures
        scanned_guids(session, keys, scan).contains(
            link_edges(session, name, keys, scan, links)[i].from_guid,
        ),
        ({
            let edge = link_edges(session, name, keys, scan, links)[i];
            edge == connection::edge_between(name, edge.from_guid, edge.to_guid, edge.payload)
        }),
    decreases links.len(),
{
    if links.len() > 0 {
        let head = links.drop_last();
        let rest = link_edges(session, name, keys, scan, head);
        if i < rest.len() {
            law_link_edges_start_at_scanned_entities(session, name, keys, scan, head, i);
        } else {
            let link = links.last();
            assert(scan.contains(link.from));
        }
    }
}

/// An edge made of links is never taken for one of a source that was not
/// scanned, where neither its type nor its source's GUID holds a `:`: once its
/// link is gone, the next scan of the source deletes it.
pub proof fn law_link_edges_are_not_retained(
    session: PersistenceSession,
    name: Seq<char>,
    keys: Map<Entity, String>,
    scan: Set<Entity>,
    links: Seq<Link>,
    i: int,
)
    requires
        0 <= i < link_edges(session, name, keys, scan, links).len(),
        !name.contains(':'),
        !link_edges(session, name, keys, scan, links)[i].from_guid.contains(':'),
    ensures
        !retained(
            link_edges(session, name, keys, scan, links)[i].key,
            scanned_guids(session, keys, scan),
        ),
{
    let edge = link_edges(session, name, keys, scan, links)[i];
    law_link_edges_start_at_scanned_entities(session, name, keys, scan, links, i);
    shared::law_edge_source_of_edge_key(name, edge.from_guid, edge.to_guid);
}

/// The payload of a loaded relationship, which a relationship with a payload
/// cannot do without.
pub fn required_payload(payload: Option<Value>) -> (r: Result<Value, PersistenceError>)
    ensures
        match (payload, r) {
            (Some(value), Ok(out)) => out == value,
            (None, Err(e)) => e@ == ErrorModel::General("Missing relationship payload"@),
            _ => false,
        },
{
    match payload {
        Some(value) => Ok(value),
        None => Err(PersistenceError::new("Missing relationship payload")),
    }
}

/// True where a commit has to look at edges: relationship types are registered,
/// and relationships changed or entities were despawned.
pub open spec fn edges_dirty(session: PersistenceSession, dirty: DirtyModel) -> bool {
    &&& session.relationships.serializers@ != Set::<TypeId>::empty()
    &&& dirty.relationships != Set::<Entity>::empty() || dirty.despawned_entities != Set::<
        Entity,
    >::empty()
}

/// The entities whose edges a commit looks at.
pub open spec fn scan_sources(dirty: DirtyModel) -> Set<Entity> {
    dirty.relationships.union(dirty.despawned_entities)
}

/// What a commit does to the stored edges.
pub open spec fn edge_changes(
    session: PersistenceSession,
    relationships: Seq<(TypeId, RelationshipScan)>,
    keys: Map<Entity, String>,
    dirty: DirtyModel,
) -> Result<EdgeDiff, ErrorModel> {
    if edges_dirty(session, dirty) {
        match scanned_edges(session, keys, scan_sources(dirty), relationships) {
            Err(e) => Err(e),
            Ok(edges) => Ok(
                edge_diff(
                    session.cache.edge_snapshot.order(),
                    scanned_guids(session, keys, scan_sources(dirty)),
                    edges,
                ),
            ),
        }
    } else {
        Ok(
            EdgeDiff {
                upserts: Seq::empty(),
                deletes: Seq::empty(),
                snapshot: session.cache.edge_snapshot@,
            },
        )
    }
}

impl PersistenceSession {
    /// What a commit does to the stored edges: the edges to write, the keys of
    /// those to delete, and the keys of all that are stored after that.
    pub fn change_edges(
        &self,
        relationships: &Vec<(TypeId, RelationshipScan)>,
        keys: &HashMap<Entity, String>,
        dirty: &DirtyState,
    ) -> (r: Result<(Vec<EdgeDocument>, Vec<String>, KeySet), PersistenceError>)
        requires
            self.cache.edge_snapshot.wf(),
        ensures
            match r {
                Ok((upserts, deletes, snapshot)) => {
                    &&& snapshot.wf()
                    &&& edge_changes(*self, relationships@, keys@, dirty@) == Ok::<_, ErrorModel>(
                        EdgeDiff {
                            upserts: connection::edge_models(upserts@),
                            deletes: collections::texts(deletes@),
                            snapshot: snapshot@,
                        },
                    )
                },
                Err(e) => edge_changes(*self, relationships@, keys@, dirty@) == Err::<
                    EdgeDiff,
                    _,
                >(e@),
            },
    {
        let has_relationships: bool = !self.relationships.serializers.is_empty();
        let has_dirty: bool = !dirty.dirty_relationship_entities.is_empty()
            || !dirty.despawned_entities.is_empty();
        if !(has_relationships && has_dirty) {
            let upserts: Vec<EdgeDocument> = Vec::new();
            let deletes: Vec<String> = Vec::new();
            assert(connection::edge_models(upserts@) =~= Seq::empty());
            assert(collections::texts(deletes@) =~= Seq::empty());
            return Ok((upserts, deletes, self.cache.edge_snapshot.clone()));
        }
        let mut scan: HashSet<Entity> = collections::copy_set(&dirty.dirty_relationship_entities);
        collections::extend_set(&mut scan, &dirty.despawned_entities);
        let guids: StringHashSet = self.scan_guids(keys, &scan);
        let table: EdgeTable = match self.gather_edges(keys, &scan, relationships) {
            Ok(table) => table,
            Err(e) => {
                return Err(e);
            },
        };
        let ghost all = scanned_edges(*self, keys@, scan@, relationships@)->Ok_0;
        Ok(self.diff_edges(&guids, &table, Ghost(all)))
    }
}

} // verus!
