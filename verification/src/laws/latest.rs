//! Which edge is written where several have one key.
use std::collections::{HashMap, HashSet};

use vstd::prelude::*;
use vstd::string::*;

use crate::collections::KeySet;
use crate::db::connection;
use crate::db::connection::{EdgeDocument, EdgeModel, PersistenceError};
use crate::laws;
use crate::session::edges;
use crate::session::edges::{Link, RelationshipScan};
use crate::session::state::PersistenceSession;
use crate::session::tracking::DirtyState;
use crate::session::{Entity, TypeId};

verus! {

/// What is at place `j` of a registered relationship type gives that edge.
pub open spec fn gives_at(
    session: PersistenceSession,
    keys: Map<Entity, String>,
    scan: Set<Entity>,
    entry: (TypeId, RelationshipScan),
    j: int,
    edge: EdgeModel,
) -> bool {
    &&& session.relationships.serializers@.contains(entry.0)
    &&& match entry.1 {
        RelationshipScan::Links(links) => {
            &&& session.relationships.names.type_id_to_name@.dom().contains(entry.0)
            &&& 0 <= j < links@.len()
            &&& laws::edges::link_gives(
                session,
                keys,
                scan,
                session.relationships.names.type_id_to_name@[entry.0]@,
                links@[j],
                edge,
            )
        },
        RelationshipScan::Edges(Ok(list)) => 0 <= j < list@.len() && list@[j]@ == edge,
        RelationshipScan::Edges(Err(_)) => false,
    }
}

/// No edge with that key comes after place `j` of relationship type `i`.
pub open spec fn none_later(
    session: PersistenceSession,
    keys: Map<Entity, String>,
    scan: Set<Entity>,
    relationships: Seq<(TypeId, RelationshipScan)>,
    i: int,
    j: int,
    key: Seq<char>,
) -> bool {
    forall|a: int, b: int, edge: EdgeModel|
        0 <= a < relationships.len() && (a > i || (a == i && b > j)) && #[trigger] gives_at(
            session,
            keys,
            scan,
            relationships[a],
            b,
            edge,
        ) ==> edge.key != key
}

/// The edge is in the list, and no edge with its key comes after it.
pub open spec fn is_latest(all: Seq<EdgeModel>, edge: EdgeModel) -> bool {
    exists|p: int| #[trigger] latest_at(all, edge, p)
}

/// The edge is at place `p`, and no edge with its key comes after that.
pub open spec fn latest_at(all: Seq<EdgeModel>, edge: EdgeModel, p: int) -> bool {
    &&& 0 <= p < all.len()
    &&& all[p] == edge
    &&& forall|q: int| p < q < all.len() ==> (#[trigger] all[q]).key != edge.key
}

proof fn lemma_latest_then(all: Seq<EdgeModel>, more: Seq<EdgeModel>, edge: EdgeModel)
    requires
        is_latest(all, edge),
        forall|q: int| 0 <= q < more.len() ==> (#[trigger] more[q]).key != edge.key,
    ensures
        is_latest(all + more, edge),
{
    let p = choose|p: int| #[trigger] latest_at(all, edge, p);
    let whole = all + more;
    assert forall|q: int| p < q < whole.len() implies (#[trigger] whole[q]).key != edge.key by {
        if q < all.len() {
            assert(whole[q] == all[q]);
        } else {
            assert(whole[q] == more[q - all.len()]);
        }
    }
    assert(latest_at(whole, edge, p));
}

proof fn lemma_latest_of_rest(all: Seq<EdgeModel>, more: Seq<EdgeModel>, edge: EdgeModel)
    requires
        is_latest(more, edge),
    ensures
        is_latest(all + more, edge),
{
    let p = choose|p: int| #[trigger] latest_at(more, edge, p);
    let whole = all + more;
    assert forall|q: int| p + all.len() < q < whole.len() implies (#[trigger] whole[q]).key
        != edge.key by {
        assert(whole[q] == more[q - all.len()]);
    }
    assert(latest_at(whole, edge, p + all.len()));
}

proof fn lemma_latest_link(
    session: PersistenceSession,
    name: Seq<char>,
    keys: Map<Entity, String>,
    scan: Set<Entity>,
    links: Seq<Link>,
    j: int,
    edge: EdgeModel,
)
    requires
        0 <= j < links.len(),
        laws::edges::link_gives(session, keys, scan, name, links[j], edge),
        forall|b: int, other: EdgeModel|
            j < b < links.len() && #[trigger] laws::edges::link_gives(
                session,
                keys,
                scan,
                name,
                links[b],
                other,
            ) ==> other.key != edge.key,
    ensures
        is_latest(edges::link_edges(session, name, keys, scan, links), edge),
    decreases links.len(),
{
    let head = links.drop_last();
    let n = links.len() - 1;
    let link = links.last();
    let rest = edges::link_edges(session, name, keys, scan, head);
    let all = edges::link_edges(session, name, keys, scan, links);
    laws::edges::lemma_guid(session, keys, link.from);
    laws::edges::lemma_guid(session, keys, link.to);
    assert(links[n] == link);
    if j < n {
        assert(head[j] == links[j]);
        assert forall|b: int, other: EdgeModel|
            j < b < head.len() && #[trigger] laws::edges::link_gives(
                session,
                keys,
                scan,
                name,
                head[b],
                other,
            ) implies other.key != edge.key by {
            assert(head[b] == links[b]);
            assert(laws::edges::link_gives(session, keys, scan, name, links[b], other));
        }
        lemma_latest_link(session, name, keys, scan, head, j, edge);
        match (edges::guid_of(session, keys, link.from), edges::guid_of(session, keys, link.to)) {
            (Some(from), Some(to)) => {
                if scan.contains(link.from) {
                    let made = connection::edge_between(
                        name,
                        from,
                        to,
                        connection::optional_json(link.payload),
                    );
                    assert(laws::edges::link_gives(session, keys, scan, name, links[n], made));
                    assert(all =~= rest + seq![made]);
                    lemma_latest_then(rest, seq![made], edge);
                }
            },
            _ => {},
        }
    } else {
        let made = connection::edge_between(
            name,
            edge.from_guid,
            edge.to_guid,
            connection::optional_json(link.payload),
        );
        assert(edges::guid_of(session, keys, link.from) == Some(edge.from_guid));
        assert(edges::guid_of(session, keys, link.to) == Some(edge.to_guid));
        assert(edge == made);
        assert(all == rest.push(made));
        assert(latest_at(all, edge, rest.len() as int));
    }
}

proof fn lemma_latest_scanned(
    session: PersistenceSession,
    keys: Map<Entity, String>,
    scan: Set<Entity>,
    relationships: Seq<(TypeId, RelationshipScan)>,
    i: int,
    j: int,
    edge: EdgeModel,
)
    requires
        0 <= i < relationships.len(),
        gives_at(session, keys, scan, relationships[i], j, edge),
        none_later(session, keys, scan, relationships, i, j, edge.key),
        edges::scanned_edges(session, keys, scan, relationships) is Ok,
    ensures
        is_latest(edges::scanned_edges(session, keys, scan, relationships)->Ok_0, edge),
    decreases relationships.len(),
{
    let head = relationships.drop_last();
    let n = relationships.len() - 1;
    let entry = relationships.last();
    let all = edges::scanned_edges(session, keys, scan, relationships)->Ok_0;
    let rest = edges::scanned_edges(session, keys, scan, head)->Ok_0;
    assert(relationships[n] == entry);
    if i < n {
        assert(head[i] == relationships[i]);
        assert forall|a: int, b: int, other: EdgeModel|
            0 <= a < head.len() && (a > i || (a == i && b > j)) && #[trigger] gives_at(
                session,
                keys,
                scan,
                head[a],
                b,
                other,
            ) implies other.key != edge.key by {
            assert(head[a] == relationships[a]);
            assert(gives_at(session, keys, scan, relationships[a], b, other));
        }
        lemma_latest_scanned(session, keys, scan, head, i, j, edge);
    }
    if session.relationships.serializers@.contains(entry.0) {
        match entry.1 {
            RelationshipScan::Links(links) => {
                match session.relationships.names@.name_of(entry.0) {
                    Some(name) => {
                        let more = edges::link_edges(session, name, keys, scan, links@);
                        assert(all == rest + more);
                        if i < n {
                            assert forall|q: int| 0 <= q < more.len() implies (
                            #[trigger] more[q]).key != edge.key by {
                                laws::edges::lemma_link_edges(
                                    session,
                                    name,
                                    keys,
                                    scan,
                                    links@,
                                    more[q],
                                );
                                assert(more.contains(more[q]));
                                let b = choose|b: int|
                                    0 <= b < links@.len() && laws::edges::link_gives(
                                        session,
                                        keys,
                                        scan,
                                        name,
                                        #[trigger] links@[b],
                                        more[q],
                                    );
                                assert(gives_at(session, keys, scan, relationships[n], b, more[q]));
                            }
                            lemma_latest_then(rest, more, edge);
                        } else {
                            assert forall|b: int, other: EdgeModel|
                                j < b < links@.len() && #[trigger] laws::edges::link_gives(
                                    session,
                                    keys,
                                    scan,
                                    name,
                                    links@[b],
                                    other,
                                ) implies other.key != edge.key by {
                                assert(gives_at(session, keys, scan, relationships[n], b, other));
                            }
                            lemma_latest_link(session, name, keys, scan, links@, j, edge);
                            lemma_latest_of_rest(rest, more, edge);
                        }
                    },
                    None => {},
                }
            },
            RelationshipScan::Edges(Ok(list)) => {
                let more = connection::edge_models(list@);
                assert(all == rest + more);
                assert forall|q: int| 0 <= q < more.len() && (i < n || q > j) implies (
                #[trigger] more[q]).key != edge.key by {
                    assert(gives_at(session, keys, scan, relationships[n], q, more[q]));
                }
                if i < n {
                    lemma_latest_then(rest, more, edge);
                } else {
                    assert(latest_at(more, edge, j));
                    lemma_latest_of_rest(rest, more, edge);
                }
            },
            RelationshipScan::Edges(Err(_)) => {},
        }
    }
}

/// Where several edges with one key are found, the last of them is written: in the
/// order of the relationship types, and in each of them in the order of its links
/// or edges.
pub proof fn law_latest_edge_is_written(
    session: &PersistenceSession,
    relationships: &Vec<(TypeId, RelationshipScan)>,
    keys: &HashMap<Entity, String>,
    dirty: &DirtyState,
    upserts: Vec<EdgeDocument>,
    deletes: Vec<String>,
    snapshot: KeySet,
    i: int,
    j: int,
    edge: EdgeModel,
)
    requires
        session.cache.edge_snapshot.wf(),
        call_ensures(
            PersistenceSession::change_edges,
            (session, relationships, keys, dirty),
            Ok::<(Vec<EdgeDocument>, Vec<String>, KeySet), PersistenceError>(
                (upserts, deletes, snapshot),
            ),
        ),
        laws::edges::looks_at_edges(*session, dirty@),
        0 <= i < relationships@.len(),
        gives_at(
            *session,
            keys@,
            laws::edges::looked_at(dirty@),
            relationships@[i],
            j,
            edge,
        ),
        none_later(
            *session,
            keys@,
            laws::edges::looked_at(dirty@),
            relationships@,
            i,
            j,
            edge.key,
        ),
        !session.cache.edge_snapshot@.contains(edge.key),
    ensures
        exists|k: int| 0 <= k < upserts@.len() && (#[trigger] upserts@[k])@ == edge,
{
    let scan = edges::scan_sources(dirty@);
    assert(scan =~= laws::edges::looked_at(dirty@));
    session.cache.edge_snapshot.lemma_order();
    let order = session.cache.edge_snapshot.order();
    let stored = order.to_set();
    let t = choose|t: TypeId| #[trigger] session.relationships.serializers@.contains(t);
    let e = choose|e: Entity| #[trigger] laws::edges::looked_at(dirty@).contains(e);
    assert(session.relationships.serializers@.contains(t));
    assert(dirty@.relationships.contains(e) || dirty@.despawned_entities.contains(e));
    assert(edges::edges_dirty(*session, dirty@));
    lemma_latest_scanned(*session, keys@, scan, relationships@, i, j, edge);
    let all = edges::scanned_edges(*session, keys@, scan, relationships@)->Ok_0;
    let p = choose|p: int| #[trigger] latest_at(all, edge, p);
    laws::edges::law_last_edge_of_a_key_counts(all, p);
    edges::lemma_distinct_keys(all);
    let fresh_key = |k: Seq<char>| !stored.contains(k);
    let fresh = edges::distinct_keys(all).filter(fresh_key);
    edges::lemma_filter_contains(edges::distinct_keys(all), fresh_key, edge.key);
    assert(edges::distinct_keys(all).to_set().contains(edge.key));
    assert(fresh.contains(edge.key));
    let k = choose|k: int| 0 <= k < fresh.len() && fresh[k] == edge.key;
    let written = connection::edge_models(upserts@);
    assert(written == fresh.map_values(|k: Seq<char>| edges::edges_by_key(all)[k]));
    assert(written[k] == edge);
    assert(written.len() == fresh.len());
    assert(written =~= shown(upserts@));
    assert(shown(upserts@)[k] == upserts@[k]@);
}

/// Edge `i` comes from the link at place `at[i]`; the places go up, and every link
/// that gives an edge has one.
pub open spec fn follows_links(
    session: PersistenceSession,
    name: Seq<char>,
    keys: Map<Entity, String>,
    scan: Set<Entity>,
    links: Seq<Link>,
    made: Seq<EdgeModel>,
    at: Seq<int>,
) -> bool {
    &&& at.len() == made.len()
    &&& forall|i: int|
        0 <= i < at.len() ==> 0 <= #[trigger] at[i] < links.len() && laws::edges::link_gives(
            session,
            keys,
            scan,
            name,
            links[at[i]],
            made[i],
        )
    &&& forall|i: int, j: int| 0 <= i < j < at.len() ==> #[trigger] at[i] < #[trigger] at[j]
    &&& forall|b: int, edge: EdgeModel|
        0 <= b < links.len() && #[trigger] laws::edges::link_gives(
            session,
            keys,
            scan,
            name,
            links[b],
            edge,
        ) ==> at.contains(b)
}

proof fn lemma_follows_links(
    session: PersistenceSession,
    name: Seq<char>,
    keys: Map<Entity, String>,
    scan: Set<Entity>,
    links: Seq<Link>,
) -> (at: Seq<int>)
    ensures
        follows_links(
            session,
            name,
            keys,
            scan,
            links,
            edges::link_edges(session, name, keys, scan, links),
            at,
        ),
    decreases links.len(),
{
    if links.len() == 0 {
        Seq::empty()
    } else {
        let head = links.drop_last();
        let n = links.len() - 1;
        let link = links.last();
        let before = lemma_follows_links(session, name, keys, scan, head);
        let rest = edges::link_edges(session, name, keys, scan, head);
        let all = edges::link_edges(session, name, keys, scan, links);
        laws::edges::lemma_guid(session, keys, link.from);
        laws::edges::lemma_guid(session, keys, link.to);
        assert(links[n] == link);
        let gives = scan.contains(link.from) && edges::guid_of(session, keys, link.from) is Some
            && edges::guid_of(session, keys, link.to) is Some;
        let at = if gives {
            before.push(n)
        } else {
            before
        };
        assert forall|i: int| 0 <= i < at.len() implies 0 <= #[trigger] at[i] < links.len()
            && laws::edges::link_gives(session, keys, scan, name, links[at[i]], all[i]) by {
            if i < before.len() {
                assert(at[i] == before[i]);
                assert(head[before[i]] == links[before[i]]);
                assert(all[i] == rest[i]);
            }
        }
        assert forall|i: int, j: int| 0 <= i < j < at.len() implies #[trigger] at[i]
            < #[trigger] at[j] by {
            if j < before.len() {
                assert(before[i] < before[j]);
            } else {
                assert(before[i] < head.len());
            }
        }
        assert forall|b: int, edge: EdgeModel|
            0 <= b < links.len() && #[trigger] laws::edges::link_gives(
                session,
                keys,
                scan,
                name,
                links[b],
                edge,
            ) implies at.contains(b) by {
            if b < n {
                assert(head[b] == links[b]);
                assert(laws::edges::link_gives(session, keys, scan, name, head[b], edge));
                let i = choose|i: int| 0 <= i < before.len() && before[i] == b;
                assert(at[i] == b);
            } else {
                assert(at[before.len() as int] == b);
            }
        }
        at
    }
}

/// The contents of edges.
pub open spec fn shown(list: Seq<EdgeDocument>) -> Seq<EdgeModel> {
    list.map_values(|e: EdgeDocument| e@)
}

/// The edges of links come in the order of the links, one for each link that gives
/// one.
pub proof fn law_edges_follow_their_links(
    session: &PersistenceSession,
    name: &str,
    keys: &HashMap<Entity, String>,
    scan: &HashSet<Entity>,
    links: &Vec<Link>,
    r: Vec<EdgeDocument>,
)
    requires
        call_ensures(
            PersistenceSession::relationship_edges,
            (session, name, keys, scan, links),
            r,
        ),
    ensures
        exists|at: Seq<int>| #[trigger]
            follows_links(
                *session,
                name@,
                keys@,
                scan@,
                links@,
                shown(r@),
                at,
            ),
{
    assert(shown(r@) =~= connection::edge_models(r@));
    let at = lemma_follows_links(*session, name@, keys@, scan@, links@);
    assert(follows_links(
        *session,
        name@,
        keys@,
        scan@,
        links@,
        shown(r@),
        at,
    ));
}

} // verus!
