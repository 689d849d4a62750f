//! What becomes of relationship edges in a commit.
use std::collections::HashMap;

use vstd::prelude::*;
use vstd::string::*;

use crate::collections::KeySet;
use crate::db::connection;
use crate::db::connection::{EdgeDocument, EdgeModel, ErrorModel, PersistenceError};
use crate::db::shared;
use crate::session::edges;
use crate::session::edges::{Link, RelationshipScan};
use crate::session::state::PersistenceSession;
use crate::session::tracking::{DirtyModel, DirtyState};
use crate::session::{Entity, TypeId};
use crate::value::Value;

verus! {

/// The GUID of an entity is its cached key, and only where it has none the key
/// that the running commit has preassigned.
pub open spec fn has_guid(
    session: PersistenceSession,
    keys: Map<Entity, String>,
    entity: Entity,
    guid: Seq<char>,
) -> bool {
    if session.cache.entity_keys@.dom().contains(entity) {
        guid == session.cache.entity_keys@[entity]@
    } else {
        keys.dom().contains(entity) && guid == keys[entity]@
    }
}

/// A link that starts at a scanned entity gives that edge.
pub open spec fn link_gives(
    session: PersistenceSession,
    keys: Map<Entity, String>,
    scan: Set<Entity>,
    name: Seq<char>,
    link: Link,
    edge: EdgeModel,
) -> bool {
    &&& scan.contains(link.from)
    &&& has_guid(session, keys, link.from, edge.from_guid)
    &&& has_guid(session, keys, link.to, edge.to_guid)
    &&& edge.relationship_type == name
    &&& edge.key == name + ":"@ + edge.from_guid + ":"@ + edge.to_guid
    &&& match link.payload {
        Some(payload) => edge.payload == Some(payload@),
        None => edge.payload is None,
    }
}

/// What the world holds of one relationship type gives that edge, where the type
/// is registered.
pub open spec fn entry_gives(
    session: PersistenceSession,
    keys: Map<Entity, String>,
    scan: Set<Entity>,
    entry: (TypeId, RelationshipScan),
    edge: EdgeModel,
) -> bool {
    &&& session.relationships.serializers@.contains(entry.0)
    &&& match entry.1 {
        RelationshipScan::Links(links) => {
            &&& session.relationships.names.type_id_to_name@.dom().contains(entry.0)
            &&& exists|j: int|
                0 <= j < links@.len() && link_gives(
                    session,
                    keys,
                    scan,
                    session.relationships.names.type_id_to_name@[entry.0]@,
                    #[trigger] links@[j],
                    edge,
                )
        },
        RelationshipScan::Edges(Ok(list)) => exists|j: int|
            0 <= j < list@.len() && (#[trigger] list@[j])@ == edge,
        RelationshipScan::Edges(Err(_)) => false,
    }
}

/// One of the relationship types gives that edge.
pub open spec fn edge_found(
    session: PersistenceSession,
    keys: Map<Entity, String>,
    scan: Set<Entity>,
    relationships: Seq<(TypeId, RelationshipScan)>,
    edge: EdgeModel,
) -> bool {
    exists|i: int|
        0 <= i < relationships.len() && entry_gives(
            session,
            keys,
            scan,
            #[trigger] relationships[i],
            edge,
        )
}

/// One of the relationship types gives an edge with that key.
pub open spec fn key_found(
    session: PersistenceSession,
    keys: Map<Entity, String>,
    scan: Set<Entity>,
    relationships: Seq<(TypeId, RelationshipScan)>,
    key: Seq<char>,
) -> bool {
    exists|edge: EdgeModel| #[trigger]
        edge_found(session, keys, scan, relationships, edge) && edge.key == key
}

/// The serializer of a registered relationship type failed with that error.
pub open spec fn entry_fails(
    session: PersistenceSession,
    entry: (TypeId, RelationshipScan),
    error: ErrorModel,
) -> bool {
    &&& session.relationships.serializers@.contains(entry.0)
    &&& entry.1 matches RelationshipScan::Edges(Err(e)) && e@ == error
}

/// The key is made of `prefix`, a colon and `guid`, and may go on after another
/// colon; neither of the two holds a colon.
pub open spec fn split_as(
    key: Seq<char>,
    prefix: Seq<char>,
    guid: Seq<char>,
    rest: Seq<char>,
) -> bool {
    &&& !prefix.contains(':')
    &&& !guid.contains(':')
    &&& key == prefix + ":"@ + guid || key == prefix + ":"@ + guid + ":"@ + rest
}

/// The second part of an edge key: the GUID of the edge's source.
pub open spec fn starts_at(key: Seq<char>, guid: Seq<char>) -> bool {
    exists|prefix: Seq<char>, rest: Seq<char>| #[trigger] split_as(key, prefix, guid, rest)
}

/// A stored edge is left alone: its source is not among the scanned entities.
pub open spec fn left_alone(
    session: PersistenceSession,
    keys: Map<Entity, String>,
    scan: Set<Entity>,
    key: Seq<char>,
) -> bool {
    exists|guid: Seq<char>| #[trigger]
        starts_at(key, guid) && forall|e: Entity|
            scan.contains(e) ==> !(#[trigger] has_guid(session, keys, e, guid))
}

/// The entities whose edges are looked at: those whose relationships changed and
/// those that are gone.
pub open spec fn looked_at(dirty: DirtyModel) -> Set<Entity> {
    Set::new(
        |e: Entity| dirty.relationships.contains(e) || dirty.despawned_entities.contains(e),
    )
}

/// Edges are looked at: a relationship type is registered, and there is an entity
/// to look at.
pub open spec fn looks_at_edges(session: PersistenceSession, dirty: DirtyModel) -> bool {
    &&& exists|t: TypeId| #[trigger] session.relationships.serializers@.contains(t)
    &&& exists|e: Entity| #[trigger] looked_at(dirty).contains(e)
}

/// What is done to the stored edges leads to exactly those that are there: the
/// ones found, and the ones of sources that were not looked at. An edge is
/// written exactly where it was found and was not stored, and deleted exactly
/// where it was stored and is not there any more. Nothing changes where no
/// edges are looked at.
pub open spec fn edges_are_right(
    session: PersistenceSession,
    relationships: Seq<(TypeId, RelationshipScan)>,
    keys: Map<Entity, String>,
    dirty: DirtyModel,
    upserts: Seq<EdgeModel>,
    deletes: Seq<Seq<char>>,
    snapshot: Set<Seq<char>>,
) -> bool {
    let scan = looked_at(dirty);
    let stored = session.cache.edge_snapshot@;
    if looks_at_edges(session, dirty) {
        &&& forall|key: Seq<char>| #[trigger]
            snapshot.contains(key) <==> key_found(session, keys, scan, relationships, key) || (
            stored.contains(key) && left_alone(session, keys, scan, key))
        &&& forall|edge: EdgeModel| #[trigger]
            upserts.contains(edge) ==> edge_found(session, keys, scan, relationships, edge)
                && !stored.contains(edge.key)
        &&& forall|key: Seq<char>| #[trigger]
            key_found(session, keys, scan, relationships, key) && !stored.contains(key)
                ==> exists|i: int| 0 <= i < upserts.len() && (#[trigger] upserts[i]).key == key
        &&& forall|i: int, j: int|
            0 <= i < j < upserts.len() ==> (#[trigger] upserts[i]).key != (
            #[trigger] upserts[j]).key
        &&& forall|key: Seq<char>| #[trigger]
            deletes.contains(key) <==> stored.contains(key) && !key_found(
                session,
                keys,
                scan,
                relationships,
                key,
            ) && !left_alone(session, keys, scan, key)
        &&& deletes.no_duplicates()
    } else {
        upserts.len() == 0 && deletes.len() == 0 && snapshot == stored
    }
}

/// The GUID of an entity is the one it has.
pub proof fn lemma_guid(session: PersistenceSession, keys: Map<Entity, String>, entity: Entity)
    ensures
        forall|guid: Seq<char>| #[trigger]
            has_guid(session, keys, entity, guid) <==> edges::guid_of(session, keys, entity)
                == Some(guid),
{
}

/// The edges of links are those that the links give.
pub proof fn lemma_link_edges(
    session: PersistenceSession,
    name: Seq<char>,
    keys: Map<Entity, String>,
    scan: Set<Entity>,
    links: Seq<Link>,
    edge: EdgeModel,
)
    ensures
        edges::link_edges(session, name, keys, scan, links).contains(edge) <==> exists|j: int|
            0 <= j < links.len() && link_gives(
                session,
                keys,
                scan,
                name,
                #[trigger] links[j],
                edge,
            ),
    decreases links.len(),
{
    broadcast use vstd::seq_lib::group_seq_properties;

    if links.len() > 0 {
        let head = links.drop_last();
        let link = links.last();
        lemma_link_edges(session, name, keys, scan, head, edge);
        lemma_guid(session, keys, link.from);
        lemma_guid(session, keys, link.to);
        assert(links[links.len() - 1] == link);
        let rest = edges::link_edges(session, name, keys, scan, head);
        let all = edges::link_edges(session, name, keys, scan, links);
        assert forall|j: int| 0 <= j < head.len() implies head[j] == links[j] by {}
        if exists|j: int|
            0 <= j < head.len() && link_gives(
                session,
                keys,
                scan,
                name,
                #[trigger] head[j],
                edge,
            ) {
            let j = choose|j: int|
                0 <= j < head.len() && link_gives(
                    session,
                    keys,
                    scan,
                    name,
                    #[trigger] head[j],
                    edge,
                );
            assert(links[j] == head[j]);
        }
        if exists|j: int|
            0 <= j < links.len() && link_gives(
                session,
                keys,
                scan,
                name,
                #[trigger] links[j],
                edge,
            ) {
            let j = choose|j: int|
                0 <= j < links.len() && link_gives(
                    session,
                    keys,
                    scan,
                    name,
                    #[trigger] links[j],
                    edge,
                );
            if j < head.len() {
                assert(head[j] == links[j]);
            }
        }
        match (edges::guid_of(session, keys, link.from), edges::guid_of(session, keys, link.to)) {
            (Some(from), Some(to)) => {
                let made = connection::edge_between(
                    name,
                    from,
                    to,
                    connection::optional_json(link.payload),
                );
                if scan.contains(link.from) {
                    assert(all == rest.push(made));
                    assert(link_gives(session, keys, scan, name, link, made));
                    assert(link_gives(session, keys, scan, name, link, edge) ==> edge == made);
                }
            },
            _ => {},
        }
    }
}

proof fn lemma_scanned_edges(
    session: PersistenceSession,
    keys: Map<Entity, String>,
    scan: Set<Entity>,
    relationships: Seq<(TypeId, RelationshipScan)>,
    edge: EdgeModel,
)
    ensures
        match edges::scanned_edges(session, keys, scan, relationships) {
            Ok(all) => {
                &&& all.contains(edge) <==> edge_found(session, keys, scan, relationships, edge)
                &&& forall|i: int, e: ErrorModel|
                    0 <= i < relationships.len() ==> !(#[trigger] entry_fails(
                        session,
                        relationships[i],
                        e,
                    ))
            },
            Err(e) => exists|i: int|
                0 <= i < relationships.len() && entry_fails(session, #[trigger] relationships[i], e),
        },
    decreases relationships.len(),
{
    broadcast use vstd::seq_lib::group_seq_properties;

    if relationships.len() > 0 {
        let head = relationships.drop_last();
        let entry = relationships.last();
        lemma_scanned_edges(session, keys, scan, head, edge);
        assert(relationships[relationships.len() - 1] == entry);
        assert forall|i: int| 0 <= i < head.len() implies head[i] == relationships[i] by {}
        if edge_found(session, keys, scan, head, edge) {
            let i = choose|i: int|
                0 <= i < head.len() && entry_gives(session, keys, scan, #[trigger] head[i], edge);
            assert(relationships[i] == head[i]);
        }
        if edge_found(session, keys, scan, relationships, edge) {
            let i = choose|i: int|
                0 <= i < relationships.len() && entry_gives(
                    session,
                    keys,
                    scan,
                    #[trigger] relationships[i],
                    edge,
                );
            if i < head.len() {
                assert(head[i] == relationships[i]);
            }
        }
        match entry.1 {
            RelationshipScan::Links(links) => {
                match session.relationships.names@.name_of(entry.0) {
                    Some(name) => {
                        lemma_link_edges(session, name, keys, scan, links@, edge);
                    },
                    None => {},
                }
            },
            RelationshipScan::Edges(Ok(list)) => {
                let models = connection::edge_models(list@);
                if models.contains(edge) {
                    let j = choose|j: int| 0 <= j < models.len() && models[j] == edge;
                    assert(list@[j]@ == edge);
                }
                if exists|j: int| 0 <= j < list@.len() && (#[trigger] list@[j])@ == edge {
                    let j = choose|j: int| 0 <= j < list@.len() && (#[trigger] list@[j])@ == edge;
                    assert(models[j] == edge);
                }
            },
            RelationshipScan::Edges(Err(e)) => {
                if session.relationships.serializers@.contains(entry.0) {
                    assert(entry_fails(session, entry, e@));
                }
            },
        }
        match edges::scanned_edges(session, keys, scan, head) {
            Err(e) => {
                let i = choose|i: int|
                    0 <= i < head.len() && entry_fails(session, #[trigger] head[i], e);
                assert(relationships[i] == head[i]);
            },
            Ok(_) => {
                assert forall|i: int, e: ErrorModel|
                    0 <= i < head.len() implies !(#[trigger] entry_fails(
                    session,
                    relationships[i],
                    e,
                )) by {
                    assert(!entry_fails(session, head[i], e));
                }
            },
        }
    }
}

/// The source of an edge key is its second part.
pub proof fn lemma_starts_at(key: Seq<char>, guid: Seq<char>)
    ensures
        starts_at(key, guid) <==> shared::edge_source(key) == Some(guid),
{
    reveal_strlit(":");
    shared::lemma_cut(key, ':');
    let i = shared::cut(key, ':') as int;
    if shared::edge_source(key) == Some(guid) {
        let prefix = key.take(i);
        let tail = key.skip(i + 1);
        shared::lemma_cut(tail, ':');
        let j = shared::cut(tail, ':') as int;
        assert(!prefix.contains(':')) by {
            assert forall|k: int| 0 <= k < prefix.len() implies prefix[k] != ':' by {
                assert(prefix[k] == key[k]);
            }
        }
        assert(!guid.contains(':')) by {
            assert forall|k: int| 0 <= k < guid.len() implies guid[k] != ':' by {
                assert(guid[k] == tail[k]);
            }
        }
        if j == tail.len() {
            assert(key =~= prefix + ":"@ + guid);
            assert(split_as(key, prefix, guid, Seq::empty()));
        } else {
            let rest = tail.skip(j + 1);
            assert(key =~= prefix + ":"@ + guid + ":"@ + rest);
            assert(split_as(key, prefix, guid, rest));
        }
    }
    if starts_at(key, guid) {
        let (prefix, rest) = choose|prefix: Seq<char>, rest: Seq<char>| #[trigger]
            split_as(key, prefix, guid, rest);
        let at = prefix.len() as int;
        assert forall|k: int| 0 <= k < at implies key[k] != ':' by {
            assert(key[k] == prefix[k]);
        }
        assert(key[at] == ':');
        shared::lemma_cut_is(key, ':', at);
        let tail = key.skip(at + 1);
        assert forall|k: int| 0 <= k < guid.len() implies tail[k] != ':' by {
            assert(tail[k] == guid[k]);
        }
        if key == prefix + ":"@ + guid {
            assert(tail =~= guid);
        } else {
            assert(tail =~= guid + ":"@ + rest);
            assert(tail[guid.len() as int] == ':');
        }
        shared::lemma_cut_is(tail, ':', guid.len() as int);
        assert(tail.take(guid.len() as int) =~= guid);
    }
}

proof fn lemma_left_alone(
    session: PersistenceSession,
    keys: Map<Entity, String>,
    scan: Set<Entity>,
    key: Seq<char>,
)
    ensures
        left_alone(session, keys, scan, key) <==> edges::retained(
            key,
            edges::scanned_guids(session, keys, scan),
        ),
{
    let guids = edges::scanned_guids(session, keys, scan);
    assert forall|guid: Seq<char>| guids.contains(guid) <==> !(forall|e: Entity|
        scan.contains(e) ==> !(#[trigger] has_guid(session, keys, e, guid))) by {
        assert forall|e: Entity| #[trigger]
            has_guid(session, keys, e, guid) == (edges::guid_of(session, keys, e) == Some(
                guid,
            )) by {
            lemma_guid(session, keys, e);
        }
        if guids.contains(guid) {
            let e = choose|e: Entity| #[trigger]
                scan.contains(e) && edges::guid_of(session, keys, e) == Some(guid);
            assert(has_guid(session, keys, e, guid));
        }
    }
    match shared::edge_source(key) {
        Some(guid) => {
            lemma_starts_at(key, guid);
        },
        None => {},
    }
    if left_alone(session, keys, scan, key) {
        let guid = choose|guid: Seq<char>| #[trigger]
            starts_at(key, guid) && forall|e: Entity|
                scan.contains(e) ==> !(#[trigger] has_guid(session, keys, e, guid));
        lemma_starts_at(key, guid);
    }
}

/// The edges by key: of several edges with one key the last counts.
pub proof fn law_last_edge_of_a_key_counts(all: Seq<EdgeModel>, i: int)
    requires
        0 <= i < all.len(),
        forall|j: int| i < j < all.len() ==> (#[trigger] all[j]).key != all[i].key,
    ensures
        edges::edges_by_key(all).dom().contains(all[i].key),
        edges::edges_by_key(all)[all[i].key] == all[i],
    decreases all.len(),
{
    if i < all.len() - 1 {
        let head = all.drop_last();
        assert(all[all.len() - 1].key != all[i].key);
        assert forall|j: int| i < j < head.len() implies (#[trigger] head[j]).key
            != head[i].key by {
            assert(all[j].key != all[i].key);
        }
        law_last_edge_of_a_key_counts(head, i);
    }
}

proof fn lemma_by_key(all: Seq<EdgeModel>, key: Seq<char>)
    ensures
        edges::edges_by_key(all).dom().contains(key) <==> exists|edge: EdgeModel| #[trigger]
            all.contains(edge) && edge.key == key,
        edges::edges_by_key(all).dom().contains(key) ==> all.contains(
            edges::edges_by_key(all)[key],
        ) && edges::edges_by_key(all)[key].key == key,
    decreases all.len(),
{
    broadcast use vstd::seq_lib::group_seq_properties;

    if all.len() > 0 {
        let head = all.drop_last();
        lemma_by_key(head, key);
        assert(all =~= head.push(all.last()));
        assert(all[all.len() - 1] == all.last());
        assert(all.contains(all.last()));
        assert forall|edge: EdgeModel|
            #![trigger all.contains(edge)]
            #![trigger head.contains(edge)]
            all.contains(edge) == (head.contains(edge) || edge == all.last()) by {
            assert(head.push(all.last()).contains(edge) == (head.contains(edge) || edge
                == all.last()));
        }
        if edges::edges_by_key(all).dom().contains(key) {
            assert(all.contains(edges::edges_by_key(all)[key]));
        }
    }
}

proof fn lemma_filter_no_duplicates<A>(s: Seq<A>, p: spec_fn(A) -> bool)
    requires
        s.no_duplicates(),
    ensures
        s.filter(p).no_duplicates(),
    decreases s.len(),
{
    reveal(Seq::filter);
    if s.len() > 0 {
        let head = s.drop_last();
        lemma_filter_no_duplicates(head, p);
        edges::lemma_filter_contains(head, p, s.last());
        assert(!head.contains(s.last()));
        let f = head.filter(p);
        if p(s.last()) {
            assert forall|i: int, j: int|
                0 <= i < f.push(s.last()).len() && 0 <= j < f.push(s.last()).len() && i
                    != j implies f.push(s.last())[i] != f.push(s.last())[j] by {
                if i == f.len() {
                    assert(f.contains(f[j]));
                } else if j == f.len() {
                    assert(f.contains(f[i]));
                }
            }
        }
    }
}

/// The difference between stored and found edges, edge by edge.
proof fn lemma_edge_diff(
    order: Seq<Seq<char>>,
    guids: Set<Seq<char>>,
    all: Seq<EdgeModel>,
)
    requires
        order.no_duplicates(),
    ensures
        ({
            let diff = edges::edge_diff(order, guids, all);
            &&& forall|edge: EdgeModel| #[trigger]
                diff.upserts.contains(edge) ==> all.contains(edge) && !order.contains(edge.key)
            &&& forall|edge: EdgeModel| #[trigger]
                all.contains(edge) && !order.contains(edge.key) ==> exists|written: EdgeModel|
                    #[trigger]
                    diff.upserts.contains(written) && written.key == edge.key
            &&& forall|i: int, j: int|
                0 <= i < j < diff.upserts.len() ==> (#[trigger] diff.upserts[i]).key != (
                #[trigger] diff.upserts[j]).key
            &&& diff.deletes.no_duplicates()
            &&& forall|key: Seq<char>| #[trigger]
                diff.deletes.contains(key) <==> order.contains(key) && !diff.snapshot.contains(key)
            &&& forall|key: Seq<char>| #[trigger]
                diff.snapshot.contains(key) <==> (order.contains(key) && edges::retained(
                    key,
                    guids,
                )) || exists|edge: EdgeModel| #[trigger] all.contains(edge) && edge.key == key
        }),
{
    let diff = edges::edge_diff(order, guids, all);
    let stored = order.to_set();
    let current = edges::current_keys(stored, guids, all);
    let fresh_key = |k: Seq<char>| !stored.contains(k);
    let gone = |k: Seq<char>| !current.contains(k);
    let fresh = edges::distinct_keys(all).filter(fresh_key);
    edges::lemma_distinct_keys(all);
    lemma_filter_no_duplicates(edges::distinct_keys(all), fresh_key);
    lemma_filter_no_duplicates(order, gone);
    assert forall|k: Seq<char>| #[trigger]
        fresh.contains(k) <==> edges::edges_by_key(all).dom().contains(k) && !order.contains(
            k,
        ) by {
        edges::lemma_filter_contains(edges::distinct_keys(all), fresh_key, k);
        assert(edges::distinct_keys(all).to_set().contains(k) == edges::distinct_keys(
            all,
        ).contains(k));
    }
    assert(diff.upserts.len() == fresh.len());
    assert forall|i: int| 0 <= i < fresh.len() implies #[trigger] diff.upserts[i]
        == edges::edges_by_key(all)[fresh[i]] && diff.upserts[i].key == fresh[i] && all.contains(
        diff.upserts[i],
    ) && !order.contains(fresh[i]) by {
        assert(fresh.contains(fresh[i]));
        lemma_by_key(all, fresh[i]);
    }
    assert forall|edge: EdgeModel| #[trigger] diff.upserts.contains(edge) implies all.contains(edge)
        && !order.contains(edge.key) by {
        let i = choose|i: int| 0 <= i < diff.upserts.len() && diff.upserts[i] == edge;
        assert(diff.upserts[i] == edges::edges_by_key(all)[fresh[i]]);
    }
    assert forall|edge: EdgeModel| #[trigger]
        all.contains(edge) && !order.contains(edge.key) implies exists|written: EdgeModel|
        #[trigger]
        diff.upserts.contains(written) && written.key == edge.key by {
        lemma_by_key(all, edge.key);
        assert(fresh.contains(edge.key));
        let i = choose|i: int| 0 <= i < fresh.len() && fresh[i] == edge.key;
        assert(diff.upserts[i].key == edge.key);
        assert(diff.upserts.contains(diff.upserts[i]));
    }
    assert forall|key: Seq<char>| #[trigger]
        diff.deletes.contains(key) <==> order.contains(key) && !diff.snapshot.contains(key) by {
        edges::lemma_filter_contains(order, gone, key);
    }
    assert forall|key: Seq<char>| #[trigger]
        diff.snapshot.contains(key) <==> (order.contains(key) && edges::retained(key, guids))
            || exists|edge: EdgeModel| #[trigger] all.contains(edge) && edge.key == key by {
        lemma_by_key(all, key);
    }
}

/// What a commit does to the stored edges is right.
pub proof fn lemma_edge_changes(
    session: PersistenceSession,
    relationships: Seq<(TypeId, RelationshipScan)>,
    keys: Map<Entity, String>,
    dirty: DirtyModel,
)
    requires
        session.cache.edge_snapshot.wf(),
    ensures
        match edges::edge_changes(session, relationships, keys, dirty) {
            Ok(diff) => {
                &&& edges_are_right(
                    session,
                    relationships,
                    keys,
                    dirty,
                    diff.upserts,
                    diff.deletes,
                    diff.snapshot,
                )
                &&& looks_at_edges(session, dirty) ==> forall|i: int, e: ErrorModel|
                    0 <= i < relationships.len() ==> !(#[trigger] entry_fails(
                        session,
                        relationships[i],
                        e,
                    ))
            },
            Err(e) => looks_at_edges(session, dirty) && exists|i: int|
                0 <= i < relationships.len() && entry_fails(session, #[trigger] relationships[i], e),
        },
{
    let scan = edges::scan_sources(dirty);
    session.cache.edge_snapshot.lemma_order();
    let order = session.cache.edge_snapshot.order();
    let stored = session.cache.edge_snapshot@;
    assert(scan =~= looked_at(dirty));
    if session.relationships.serializers@ != Set::<TypeId>::empty() {
        if forall|t: TypeId| !session.relationships.serializers@.contains(t) {
            assert(session.relationships.serializers@ =~= Set::empty());
        }
    }
    if forall|e: Entity| !looked_at(dirty).contains(e) {
        assert forall|e: Entity| !dirty.relationships.contains(e)
            && !dirty.despawned_entities.contains(e) by {
            assert(!looked_at(dirty).contains(e));
        }
        assert(dirty.relationships =~= Set::empty());
        assert(dirty.despawned_entities =~= Set::empty());
    } else {
        let e = choose|e: Entity| looked_at(dirty).contains(e);
        assert(dirty.relationships.contains(e) || dirty.despawned_entities.contains(e));
    }
    assert(edges::edges_dirty(session, dirty) == looks_at_edges(session, dirty));
    if looks_at_edges(session, dirty) {
        lemma_scanned_edges(session, keys, scan, relationships, arbitrary());
        match edges::scanned_edges(session, keys, scan, relationships) {
            Ok(all) => {
                let guids = edges::scanned_guids(session, keys, scan);
                let diff = edges::edge_diff(order, guids, all);
                lemma_edge_diff(order, guids, all);
                assert forall|edge: EdgeModel| #[trigger]
                    all.contains(edge) <==> edge_found(
                        session,
                        keys,
                        scan,
                        relationships,
                        edge,
                    ) by {
                    lemma_scanned_edges(session, keys, scan, relationships, edge);
                }
                assert forall|key: Seq<char>|
                    #![trigger order.contains(key)]
                    #![trigger stored.contains(key)]
                    order.contains(key) == stored.contains(key) by {
                    assert(order.to_set().contains(key) == order.contains(key));
                }
                assert forall|key: Seq<char>| #[trigger]
                    key_found(session, keys, scan, relationships, key) <==> exists|edge: EdgeModel|
                    #[trigger]
                    all.contains(edge) && edge.key == key by {
                    if key_found(session, keys, scan, relationships, key) {
                        let edge = choose|edge: EdgeModel| #[trigger]
                            edge_found(session, keys, scan, relationships, edge) && edge.key == key;
                        assert(all.contains(edge));
                    }
                    if exists|edge: EdgeModel| #[trigger] all.contains(edge) && edge.key == key {
                        let edge = choose|edge: EdgeModel| #[trigger]
                            all.contains(edge) && edge.key == key;
                        assert(edge_found(session, keys, scan, relationships, edge));
                    }
                }
                assert forall|key: Seq<char>| #[trigger]
                    key_found(session, keys, scan, relationships, key) && !stored.contains(
                        key,
                    ) implies exists|i: int|
                    0 <= i < diff.upserts.len() && (#[trigger] diff.upserts[i]).key == key by {
                    let edge = choose|edge: EdgeModel| #[trigger]
                        edge_found(session, keys, scan, relationships, edge) && edge.key == key;
                    assert(all.contains(edge));
                    assert(!order.contains(edge.key));
                    let written = choose|written: EdgeModel| #[trigger]
                        diff.upserts.contains(written) && written.key == edge.key;
                    let i = choose|i: int| 0 <= i < diff.upserts.len() && diff.upserts[i] == written;
                    assert(diff.upserts[i].key == key);
                }
                assert forall|key: Seq<char>| #[trigger]
                    left_alone(session, keys, scan, key) <==> edges::retained(key, guids) by {
                    lemma_left_alone(session, keys, scan, key);
                }
                assert forall|key: Seq<char>| #[trigger]
                    diff.snapshot.contains(key) <==> key_found(
                        session,
                        keys,
                        scan,
                        relationships,
                        key,
                    ) || (stored.contains(key) && left_alone(session, keys, scan, key)) by {}
            },
            Err(_) => {},
        }
    }
}

/// The edges that a commit writes and deletes, and the snapshot that it leads to,
/// are those that the world calls for: see [`edges_are_right`].
pub proof fn law_edge_changes_are_right(
    session: &PersistenceSession,
    relationships: &Vec<(TypeId, RelationshipScan)>,
    keys: &HashMap<Entity, String>,
    dirty: &DirtyState,
    r: Result<(Vec<EdgeDocument>, Vec<String>, KeySet), PersistenceError>,
)
    requires
        session.cache.edge_snapshot.wf(),
        call_ensures(
            PersistenceSession::change_edges,
            (session, relationships, keys, dirty),
            r,
        ),
    ensures
        match r {
            Ok((upserts, deletes, snapshot)) => edges_are_right(
                *session,
                relationships@,
                keys@,
                dirty@,
                upserts@.map_values(|e: EdgeDocument| e@),
                deletes@.map_values(|k: String| k@),
                snapshot@,
            ),
            Err(e) => looks_at_edges(*session, dirty@) && exists|i: int|
                0 <= i < relationships@.len() && entry_fails(
                    *session,
                    #[trigger] relationships@[i],
                    e@,
                ),
        },
        looks_at_edges(*session, dirty@) && (exists|i: int, e: ErrorModel|
            0 <= i < relationships@.len() && #[trigger] entry_fails(
                *session,
                relationships@[i],
                e,
            )) ==> r is Err,
{
    lemma_edge_changes(*session, relationships@, keys@, dirty@);
    match r {
        Ok((upserts, deletes, snapshot)) => {
            assert(upserts@.map_values(|e: EdgeDocument| e@) =~= connection::edge_models(upserts@));
            assert(deletes@.map_values(|k: String| k@) =~= crate::collections::texts(deletes@));
        },
        Err(_) => {},
    }
}

/// The edges of a list of links, link by link: every link from a scanned source
/// between entities with a GUID gives its edge, and nothing else does.
pub proof fn law_links_give_their_edges(
    session: &PersistenceSession,
    name: &str,
    keys: &HashMap<Entity, String>,
    scan: &std::collections::HashSet<Entity>,
    links: &Vec<Link>,
    r: Vec<EdgeDocument>,
    edge: EdgeModel,
)
    requires
        call_ensures(
            PersistenceSession::relationship_edges,
            (session, name, keys, scan, links),
            r,
        ),
    ensures
        r@.map_values(|e: EdgeDocument| e@).contains(edge) <==> exists|j: int|
            0 <= j < links@.len() && link_gives(
                *session,
                keys@,
                scan@,
                name@,
                #[trigger] links@[j],
                edge,
            ),
{
    assert(r@.map_values(|e: EdgeDocument| e@) =~= connection::edge_models(r@));
    lemma_link_edges(*session, name@, keys@, scan@, links@, edge);
}

/// The GUID of an entity is the one it has, and none where it has none.
pub proof fn law_guid_is_the_entitys(
    session: &PersistenceSession,
    keys: &HashMap<Entity, String>,
    entity: Entity,
    r: Option<String>,
)
    requires
        call_ensures(PersistenceSession::guid_for, (session, keys, entity), r),
    ensures
        forall|guid: Seq<char>| #[trigger]
            has_guid(*session, keys@, entity, guid) <==> r is Some && r->0@ == guid,
{
}

/// A missing payload is an error, and a payload that is there is handed on.
pub proof fn law_missing_payload_is_an_error(
    payload: Option<Value>,
    r: Result<Value, PersistenceError>,
)
    requires
        call_ensures(edges::required_payload, (payload,), r),
    ensures
        payload matches Some(value) ==> r == Ok::<Value, PersistenceError>(value),
        payload is None ==> r is Err && r->Err_0@ == ErrorModel::General(
            "Missing relationship payload"@,
        ),
{
}

} // verus!
