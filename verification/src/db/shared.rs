//! What database backends share: edge keys, query text, grouped operations and
//! the check of a batch's outcome.
use vstd::hash_set::StringHashSet;
use vstd::prelude::*;
use vstd::string::*;

use crate::collections;
use crate::db::connection::{
    DocumentKind, EdgeDocument, EdgeModel, ErrorModel, OperationModel, PersistenceError,
    TransactionOperation,
};
use crate::text;
use crate::value::{Json, Number, Object, Value};

verus! {

/// Tracks store/collection names that have already passed DDL ensure checks.
pub struct EnsuredStores {
    names: StringHashSet,
}

impl View for EnsuredStores {
    type V = Set<Seq<char>>;

    closed spec fn view(&self) -> Set<Seq<char>> {
        self.names@
    }
}

impl Default for EnsuredStores {
    fn default() -> (r: Self)
        ensures
            r@ == Set::<Seq<char>>::empty(),
    {
        EnsuredStores { names: StringHashSet::new() }
    }
}

impl EnsuredStores {
    /// True where `name` has been marked.
    pub fn is_ensured(&self, name: &str) -> (b: bool)
        ensures
            b == self@.contains(name@),
    {
        self.names.contains(name)
    }

    /// Marks `name`, and leaves every other name as it was.
    pub fn mark_ensured(&mut self, name: String)
        ensures
            final(self)@ == old(self)@.insert(name@),
    {
        self.names.insert(name);
    }
}

/// `value` with each single quote doubled.
pub open spec fn escaped(value: Seq<char>) -> Seq<char>
    decreases value.len(),
{
    if value.len() == 0 {
        Seq::empty()
    } else if value.last() == '\'' {
        escaped(value.drop_last()).push('\'').push('\'')
    } else {
        escaped(value.drop_last()).push(value.last())
    }
}

/// Escape a SQL string literal embedded in a query fragment.
pub fn escape_sql_literal(value: &str) -> (r: String)
    ensures
        r@ == escaped(value@),
{
    let mut r: String = String::new();
    for c in it: value.chars()
        invariant
            it.seq() == value@,
            r@ == escaped(value@.take(it.index())),
            it.index() == it.seq().len() ==> r@ == escaped(value@),
    {
        assert(value@.take(it.index() + 1).drop_last() =~= value@.take(it.index()));
        assert(value@.take(it.index() + 1).last() == c);
        if c == '\'' {
            r.push('\'');
            r.push('\'');
        } else {
            r.push(c);
        }
        assert(it.index() + 1 == value@.len() ==> value@.take(it.index() + 1) =~= value@);
    }
    r
}

/// What a SQL string literal with that body denotes: a doubled quote stands for
/// one quote. `None` where a quote stands alone and so would end the literal.
pub open spec fn literal_value(body: Seq<char>) -> Option<Seq<char>>
    decreases body.len(),
{
    if body.len() == 0 {
        Some(Seq::empty())
    } else if body.last() == '\'' {
        if body.len() >= 2 && body[body.len() - 2] == '\'' {
            match literal_value(body.drop_last().drop_last()) {
                Some(v) => Some(v.push('\'')),
                None => None,
            }
        } else {
            None
        }
    } else {
        match literal_value(body.drop_last()) {
            Some(v) => Some(v.push(body.last())),
            None => None,
        }
    }
}

/// An escaped text put between quotes denotes the text: no quote in it ends
/// the literal, and nothing of the text is lost.
pub proof fn law_escaped_literal_denotes_value(value: Seq<char>)
    ensures
        literal_value(escaped(value)) == Some(value),
    decreases value.len(),
{
    if value.len() > 0 {
        let head = value.drop_last();
        law_escaped_literal_denotes_value(head);
        let e = escaped(value);
        if value.last() == '\'' {
            assert(e.drop_last().drop_last() =~= escaped(head));
        } else {
            assert(e.drop_last() =~= escaped(head));
        }
        assert(head.push(value.last()) =~= value);
    }
}

/// The number of single quotes in a text.
pub open spec fn quote_count(value: Seq<char>) -> nat
    decreases value.len(),
{
    if value.len() == 0 {
        0
    } else if value.last() == '\'' {
        quote_count(value.drop_last()) + 1
    } else {
        quote_count(value.drop_last())
    }
}

/// Escaping makes a text longer by one character for each quote in it.
pub proof fn law_escaped_length(value: Seq<char>)
    ensures
        escaped(value).len() == value.len() + quote_count(value),
    decreases value.len(),
{
    if value.len() > 0 {
        law_escaped_length(value.drop_last());
    }
}

/// Texts can be escaped piece by piece.
pub proof fn law_escaped_concatenation(a: Seq<char>, b: Seq<char>)
    ensures
        escaped(a + b) == escaped(a) + escaped(b),
    decreases b.len(),
{
    if b.len() == 0 {
        assert(a + b =~= a);
    } else {
        law_escaped_concatenation(a, b.drop_last());
        assert((a + b).drop_last() =~= a + b.drop_last());
        assert((a + b).last() == b.last());
    }
    assert(escaped(a + b) =~= escaped(a) + escaped(b));
}

/// In an escaped text quotes stand in runs of even length: from `i` to before
/// `j` there are only quotes, and none next to them.
pub proof fn law_escaped_quotes_are_paired(value: Seq<char>, i: int, j: int)
    requires
        0 <= i <= j <= escaped(value).len(),
        forall|k: int| i <= k < j ==> #[trigger] escaped(value)[k] == '\'',
        i > 0 ==> escaped(value)[i - 1] != '\'',
        j < escaped(value).len() ==> escaped(value)[j] != '\'',
    ensures
        (j - i) % 2 == 0,
    decreases value.len(),
{
    if value.len() > 0 && i < j {
        let head = escaped(value.drop_last());
        let all = escaped(value);
        assert forall|k: int| 0 <= k < head.len() implies head[k] == all[k] by {}
        if value.last() == '\'' && j == all.len() {
            assert(all[head.len() as int] == '\'');
            if i < head.len() {
                law_escaped_quotes_are_paired(value.drop_last(), i, head.len() as int);
            }
        } else {
            assert(all[all.len() - 1] == value.last());
            if value.last() == '\'' {
                assert(all[head.len() as int] == '\'');
            }
            law_escaped_quotes_are_paired(value.drop_last(), i, j);
        }
    }
}

/// The place of the first `c` in `s`, or the length of `s` where there is none.
pub open spec fn cut(s: Seq<char>, c: char) -> nat
    decreases s.len(),
{
    if s.len() == 0 || s[0] == c {
        0
    } else {
        1 + cut(s.skip(1), c)
    }
}

/// The cut is where the first `c` stands.
pub proof fn lemma_cut(s: Seq<char>, c: char)
    ensures
        cut(s, c) <= s.len(),
        forall|j: int| 0 <= j < cut(s, c) ==> s[j] != c,
        cut(s, c) < s.len() ==> s[cut(s, c) as int] == c,
    decreases s.len(),
{
    if s.len() > 0 && s[0] != c {
        lemma_cut(s.skip(1), c);
        assert forall|j: int| 0 <= j < cut(s, c) implies s[j] != c by {
            if j > 0 {
                assert(s.skip(1)[j - 1] != c);
            }
        }
    }
}

/// Where the first `c` stands is the cut.
pub proof fn lemma_cut_is(s: Seq<char>, c: char, i: int)
    requires
        0 <= i <= s.len(),
        i < s.len() ==> s[i] == c,
        forall|j: int| 0 <= j < i ==> s[j] != c,
    ensures
        cut(s, c) == i,
{
    lemma_cut(s, c);
}

/// The part of an edge key between its first `:` and the next one (or the end);
/// `None` for a text without `:`.
pub open spec fn edge_source(key: Seq<char>) -> Option<Seq<char>> {
    let i = cut(key, ':') as int;
    if i == key.len() {
        None
    } else {
        let rest = key.skip(i + 1);
        Some(rest.take(cut(rest, ':') as int))
    }
}

/// Extract the source GUID from a deterministic edge key `{type}:{from}:{to}`.
pub fn edge_source_guid(key: &str) -> (r: Option<&str>)
    ensures
        match r {
            Some(guid) => edge_source(key@) == Some(guid@),
            None => edge_source(key@) is None,
        },
{
    let n: usize = key.unicode_len();
    let mut first: usize = n;
    let mut second: usize = n;
    let mut pos: usize = 0;
    for c in it: key.chars()
        invariant
            it.seq() == key@,
            n == key@.len(),
            pos == it.index(),
            pos <= n,
            first == n ==> second == n && (forall|j: int| 0 <= j < pos ==> key@[j] != ':'),
            first < n ==> {
                &&& first < pos
                &&& key@[first as int] == ':'
                &&& forall|j: int| 0 <= j < first ==> key@[j] != ':'
            },
            second < n ==> {
                &&& first < second < pos
                &&& key@[second as int] == ':'
                &&& forall|j: int| first < j < second ==> key@[j] != ':'
            },
            second == n ==> forall|j: int| first < j < pos ==> key@[j] != ':',
            second <= n,
            first <= n,
    {
        if c == ':' {
            if first == n {
                first = pos;
            } else if second == n {
                second = pos;
            }
        }
        pos = pos + 1;
    }
    proof {
        lemma_cut_is(key@, ':', first as int);
    }
    if first == n {
        return None;
    }
    proof {
        let rest = key@.skip(first + 1);
        assert forall|j: int| 0 <= j < second - first - 1 implies rest[j] != ':' by {
            assert(key@[first + 1 + j] != ':');
        }
        lemma_cut_is(rest, ':', second - first - 1);
        assert(rest.take(second - first - 1) =~= key@.subrange(first + 1, second as int));
    }
    Some(key.substring_char(first + 1, second))
}

/// The source GUID of an edge key is the `from` that the key was made of,
/// where neither the relationship type nor `from` holds a `:`.
pub proof fn law_edge_source_of_edge_key(
    relationship_type: Seq<char>,
    from: Seq<char>,
    to: Seq<char>,
)
    requires
        !relationship_type.contains(':'),
        !from.contains(':'),
    ensures
        edge_source(crate::db::connection::edge_key(relationship_type, from, to)) == Some(from),
{
    reveal_strlit(":");
    let key = crate::db::connection::edge_key(relationship_type, from, to);
    let i = relationship_type.len() as int;
    assert forall|j: int| 0 <= j < i implies key[j] != ':' by {
        assert(key[j] == relationship_type[j]);
    }
    assert(key[i] == ':');
    lemma_cut_is(key, ':', i);
    let rest = key.skip(i + 1);
    assert(rest =~= from + ":"@ + to);
    assert forall|j: int| 0 <= j < from.len() implies rest[j] != ':' by {
        assert(rest[j] == from[j]);
    }
    lemma_cut_is(rest, ':', from.len() as int);
    assert(rest.take(from.len() as int) =~= from);
}

/// Edge keys tell edges apart: where neither types nor sources hold a `:`, two
/// edges have the same key only if type, source and target are the same.
pub proof fn law_edge_key_injective(
    type1: Seq<char>,
    from1: Seq<char>,
    to1: Seq<char>,
    type2: Seq<char>,
    from2: Seq<char>,
    to2: Seq<char>,
)
    requires
        !type1.contains(':'),
        !from1.contains(':'),
        !type2.contains(':'),
        !from2.contains(':'),
        crate::db::connection::edge_key(type1, from1, to1) == crate::db::connection::edge_key(
            type2,
            from2,
            to2,
        ),
    ensures
        type1 == type2,
        from1 == from2,
        to1 == to2,
{
    reveal_strlit(":");
    let key = crate::db::connection::edge_key(type1, from1, to1);
    law_edge_source_of_edge_key(type1, from1, to1);
    law_edge_source_of_edge_key(type2, from2, to2);
    assert forall|j: int| 0 <= j < type1.len() implies key[j] != ':' by {
        assert(key[j] == type1[j]);
    }
    assert forall|j: int| 0 <= j < type2.len() implies key[j] != ':' by {
        assert(key[j] == type2[j]);
    }
    lemma_cut_is(key, ':', type1.len() as int);
    lemma_cut_is(key, ':', type2.len() as int);
    assert(type1 =~= key.take(type1.len() as int));
    assert(type2 =~= key.take(type2.len() as int));
    let tail = type1.len() + from1.len() + 2;
    assert(to1 =~= key.skip(tail as int));
    assert(to2 =~= key.skip(tail as int));
}

/// What level `i` of the traversal starts from: the given GUIDs, or the targets
/// of the level before.
pub open spec fn bfs_frontier(i: nat) -> Seq<char> {
    if i == 0 {
        "@from_guids"@
    } else {
        "UNIQUE(l"@ + text::decimal((i - 1) as nat) + "[*].to_guid)"@
    }
}

/// The `LET` binding of level `i`.
pub open spec fn bfs_level(i: nat) -> Seq<char> {
    "LET l"@ + text::decimal(i)
        + " = (FOR e IN @@col\n  FILTER LENGTH(@types) == 0 OR e.relationship_type IN @types\n  FILTER e.from_guid IN "@
        + bfs_frontier(i)
        + "\n  FILTER LENGTH(@to_guids) == 0 OR e.to_guid IN @to_guids\n  RETURN { key: e._key, relationship_type: e.relationship_type, from_guid: e.from_guid, to_guid: e.to_guid, payload: e.payload })"@
}

/// The bindings of the first `n` levels, each followed by a line break.
pub open spec fn bfs_levels(n: nat) -> Seq<char>
    decreases n,
{
    if n == 0 {
        Seq::empty()
    } else {
        bfs_levels((n - 1) as nat) + bfs_level((n - 1) as nat) + "\n"@
    }
}

/// The names of the first `n` levels, separated by commas.
pub open spec fn bfs_level_names(n: nat) -> Seq<char>
    decreases n,
{
    if n == 0 {
        Seq::empty()
    } else if n == 1 {
        "l"@ + text::decimal(0)
    } else {
        bfs_level_names((n - 1) as nat) + ", l"@ + text::decimal((n - 1) as nat)
    }
}

/// The query that visits `depth` levels of edges; empty for depth zero.
pub open spec fn bfs_query(depth: nat) -> Seq<char> {
    if depth == 0 {
        Seq::empty()
    } else {
        bfs_levels(depth) + "FOR edge IN FLATTEN(["@ + bfs_level_names(depth) + "]) RETURN edge"@
    }
}

/// Build a single-query Arango BFS AQL that unrolls `depth` levels via LET bindings.
pub fn build_arango_edge_bfs_aql(depth: usize) -> (query: String)
    ensures
        query@ == bfs_query(depth as nat),
{
    if depth == 0 {
        return String::new();
    }
    let mut query: String = String::new();
    let mut names: String = String::new();
    let mut frontier: String = "@from_guids".to_owned();
    let mut i: usize = 0;
    while i < depth
        invariant
            i <= depth,
            query@ == bfs_levels(i as nat),
            names@ == bfs_level_names(i as nat),
            frontier@ == bfs_frontier(i as nat),
        decreases depth - i,
    {
        let number: String = text::decimal_string(i);
        query.append("LET l");
        query.append(number.as_str());
        query.append(
            " = (FOR e IN @@col\n  FILTER LENGTH(@types) == 0 OR e.relationship_type IN @types\n  FILTER e.from_guid IN ",
        );
        query.append(frontier.as_str());
        query.append(
            "\n  FILTER LENGTH(@to_guids) == 0 OR e.to_guid IN @to_guids\n  RETURN { key: e._key, relationship_type: e.relationship_type, from_guid: e.from_guid, to_guid: e.to_guid, payload: e.payload })",
        );
        query.append("\n");
        assert(query@ =~= bfs_levels(i as nat) + bfs_level(i as nat) + "\n"@);
        if i == 0 {
            names.append("l");
            assert(names@ =~= "l"@);
        } else {
            names.append(", l");
        }
        names.append(number.as_str());
        frontier = "UNIQUE(l".to_owned();
        frontier.append(number.as_str());
        frontier.append("[*].to_guid)");
        i = i + 1;
    }
    query.append("FOR edge IN FLATTEN([");
    query.append(names.as_str());
    query.append("]) RETURN edge");
    query
}

/// Document CRUD operations for a single document kind (entity or resource).
#[derive(Debug)]
pub struct DocumentOperations {
    pub creates: Vec<Value>,
    /// `{ key_field: key, "expected": version, "patch": patch }`
    pub updates: Vec<Value>,
    /// `{ key_field: key, "expected": version }`
    pub deletes: Vec<Value>,
}

/// Edge upserts and deletes extracted from a transaction's operations.
#[derive(Debug)]
pub struct EdgeOperations {
    pub upserts: Vec<EdgeDocument>,
    pub deletes: Vec<String>,
}

/// Transaction operations grouped by kind so each database backend can process
/// them in whatever order / batching strategy it needs.
#[derive(Debug)]
pub struct GroupedOperations {
    pub entities: DocumentOperations,
    pub resources: DocumentOperations,
    pub edges: EdgeOperations,
}

/// The contents of the documents that operations of one kind create, in order.
pub open spec fn creates_of(ops: Seq<OperationModel>, kind: DocumentKind) -> Seq<Json>
    decreases ops.len(),
{
    if ops.len() == 0 {
        Seq::empty()
    } else {
        let rest = creates_of(ops.drop_last(), kind);
        match ops.last() {
            OperationModel::Create { kind: k, data, .. } if k == kind => rest.push(data),
            _ => rest,
        }
    }
}

/// The object `{ key_field: key, "expected": version, "patch": patch }`.
pub open spec fn update_object(
    key_field: Seq<char>,
    key: Seq<char>,
    expected: u64,
    patch: Json,
) -> Json {
    Json::Object(
        Map::empty().insert(key_field, Json::String(key)).insert(
            "expected"@,
            Json::Number(Number::PosInt(expected)),
        ).insert("patch"@, patch),
    )
}

/// The object `{ key_field: key, "expected": version }`.
pub open spec fn delete_object(key_field: Seq<char>, key: Seq<char>, expected: u64) -> Json {
    Json::Object(
        Map::empty().insert(key_field, Json::String(key)).insert(
            "expected"@,
            Json::Number(Number::PosInt(expected)),
        ),
    )
}

/// The updates of one kind, in order.
pub open spec fn updates_of(
    ops: Seq<OperationModel>,
    kind: DocumentKind,
    key_field: Seq<char>,
) -> Seq<Json>
    decreases ops.len(),
{
    if ops.len() == 0 {
        Seq::empty()
    } else {
        let rest = updates_of(ops.drop_last(), kind, key_field);
        match ops.last() {
            OperationModel::Update { kind: k, key, expected, patch, .. } if k == kind => rest.push(
                update_object(key_field, key, expected, patch),
            ),
            _ => rest,
        }
    }
}

/// The deletions of one kind, in order.
pub open spec fn deletes_of(
    ops: Seq<OperationModel>,
    kind: DocumentKind,
    key_field: Seq<char>,
) -> Seq<Json>
    decreases ops.len(),
{
    if ops.len() == 0 {
        Seq::empty()
    } else {
        let rest = deletes_of(ops.drop_last(), kind, key_field);
        match ops.last() {
            OperationModel::Delete { kind: k, key, expected, .. } if k == kind => rest.push(
                delete_object(key_field, key, expected),
            ),
            _ => rest,
        }
    }
}

/// The edges that operations upsert, in order.
pub open spec fn upserts_of(ops: Seq<OperationModel>) -> Seq<EdgeModel>
    decreases ops.len(),
{
    if ops.len() == 0 {
        Seq::empty()
    } else {
        let rest = upserts_of(ops.drop_last());
        match ops.last() {
            OperationModel::UpsertEdges { edges, .. } => rest + edges,
            _ => rest,
        }
    }
}

/// The keys of the edges that operations delete, in order.
pub open spec fn edge_deletes_of(ops: Seq<OperationModel>) -> Seq<Seq<char>>
    decreases ops.len(),
{
    if ops.len() == 0 {
        Seq::empty()
    } else {
        let rest = edge_deletes_of(ops.drop_last());
        match ops.last() {
            OperationModel::DeleteEdges { keys, .. } => rest + keys,
            _ => rest,
        }
    }
}

impl DocumentOperations {
    /// Holds exactly the documents of one kind that `ops` creates, updates and
    /// deletes, each in the order of the operations.
    pub open spec fn groups(
        &self,
        ops: Seq<OperationModel>,
        kind: DocumentKind,
        key_field: Seq<char>,
    ) -> bool {
        &&& crate::value::array_of(self.creates@) == creates_of(ops, kind)
        &&& crate::value::array_of(self.updates@) == updates_of(ops, kind, key_field)
        &&& crate::value::array_of(self.deletes@) == deletes_of(ops, kind, key_field)
    }

    fn empty() -> (r: Self)
        ensures
            forall|kind: DocumentKind, key_field: Seq<char>|
                r.groups(Seq::empty(), kind, key_field),
    {
        let r = DocumentOperations {
            creates: Vec::new(),
            updates: Vec::new(),
            deletes: Vec::new(),
        };
        assert(crate::value::array_of(r.creates@) =~= Seq::empty());
        assert(crate::value::array_of(r.updates@) =~= Seq::empty());
        assert(crate::value::array_of(r.deletes@) =~= Seq::empty());
        r
    }
}

impl EdgeOperations {
    /// Holds exactly the edges that `ops` upserts and deletes, in order.
    pub open spec fn groups(&self, ops: Seq<OperationModel>) -> bool {
        &&& crate::db::connection::edge_models(self.upserts@) == upserts_of(ops)
        &&& collections::texts(self.deletes@) == edge_deletes_of(ops)
    }
}

proof fn lemma_array_push(items: Seq<Value>, v: Value)
    ensures
        crate::value::array_of(items.push(v)) == crate::value::array_of(items).push(v@),
{
    assert(crate::value::array_of(items.push(v)) =~= crate::value::array_of(items).push(v@));
}

fn update_document(key_field: &str, key: String, expected: u64, patch: Value) -> (v: Value)
    ensures
        v@ == update_object(key_field@, key@, expected, patch@),
{
    let mut obj: Object = Object::new();
    obj.insert(key_field.to_owned(), Value::String(key));
    obj.insert("expected".to_owned(), Value::Number(Number::PosInt(expected)));
    obj.insert("patch".to_owned(), patch);
    Value::Object(obj)
}

fn delete_document(key_field: &str, key: String, expected: u64) -> (v: Value)
    ensures
        v@ == delete_object(key_field@, key@, expected),
{
    let mut obj: Object = Object::new();
    obj.insert(key_field.to_owned(), Value::String(key));
    obj.insert("expected".to_owned(), Value::Number(Number::PosInt(expected)));
    Value::Object(obj)
}

impl GroupedOperations {
    /// Sorts operations by what they change. Within each group the order of the
    /// operations is kept.
    pub fn from_operations(operations: Vec<TransactionOperation>, key_field: &str) -> (r: Self)
        ensures
            r.entities.groups(
                crate::db::connection::operation_models(operations@),
                DocumentKind::Entity,
                key_field@,
            ),
            r.resources.groups(
                crate::db::connection::operation_models(operations@),
                DocumentKind::Resource,
                key_field@,
            ),
            r.edges.groups(crate::db::connection::operation_models(operations@)),
    {
        let ghost all = crate::db::connection::operation_models(operations@);
        let mut entities: DocumentOperations = DocumentOperations::empty();
        let mut resources: DocumentOperations = DocumentOperations::empty();
        let mut edges: EdgeOperations = EdgeOperations {
            upserts: Vec::new(),
            deletes: Vec::new(),
        };
        assert(all.take(0) =~= Seq::empty());
        assert(crate::db::connection::edge_models(edges.upserts@) =~= Seq::empty());
        assert(collections::texts(edges.deletes@) =~= Seq::empty());
        for op in it: operations
            invariant
                it.seq() == operations@,
                all == crate::db::connection::operation_models(operations@),
                entities.groups(all.take(it.index()), DocumentKind::Entity, key_field@),
                resources.groups(all.take(it.index()), DocumentKind::Resource, key_field@),
                edges.groups(all.take(it.index())),
                it.index() == it.seq().len() ==> all.take(it.index()) == all,
        {
            let ghost next = all.take(it.index() + 1);
            assert(next.drop_last() =~= all.take(it.index()));
            assert(next.last() == op@);
            match op {
                TransactionOperation::CreateDocument { kind, data, .. } => match kind {
                    DocumentKind::Entity => {
                        proof {
                            lemma_array_push(entities.creates@, data);
                        }
                        entities.creates.push(data);
                    },
                    DocumentKind::Resource => {
                        proof {
                            lemma_array_push(resources.creates@, data);
                        }
                        resources.creates.push(data);
                    },
                },
                TransactionOperation::UpdateDocument {
                    kind,
                    key,
                    expected_current_version,
                    patch,
                    ..
                } => {
                    let obj: Value = update_document(
                        key_field,
                        key,
                        expected_current_version,
                        patch,
                    );
                    match kind {
                        DocumentKind::Entity => {
                            proof {
                                lemma_array_push(entities.updates@, obj);
                            }
                            entities.updates.push(obj);
                        },
                        DocumentKind::Resource => {
                            proof {
                                lemma_array_push(resources.updates@, obj);
                            }
                            resources.updates.push(obj);
                        },
                    }
                },
                TransactionOperation::DeleteDocument {
                    kind,
                    key,
                    expected_current_version,
                    ..
                } => {
                    let obj: Value = delete_document(key_field, key, expected_current_version);
                    match kind {
                        DocumentKind::Entity => {
                            proof {
                                lemma_array_push(entities.deletes@, obj);
                            }
                            entities.deletes.push(obj);
                        },
                        DocumentKind::Resource => {
                            proof {
                                lemma_array_push(resources.deletes@, obj);
                            }
                            resources.deletes.push(obj);
                        },
                    }
                },
                TransactionOperation::UpsertEdges { edges: more, .. } => {
                    let mut more: Vec<EdgeDocument> = more;
                    let ghost before = edges.upserts@;
                    let ghost added = more@;
                    edges.upserts.append(&mut more);
                    assert(crate::db::connection::edge_models(edges.upserts@)
                        =~= crate::db::connection::edge_models(before)
                        + crate::db::connection::edge_models(added));
                },
                TransactionOperation::DeleteEdges { keys: more, .. } => {
                    let mut more: Vec<String> = more;
                    let ghost before = edges.deletes@;
                    let ghost added = more@;
                    edges.deletes.append(&mut more);
                    assert(collections::texts(edges.deletes@) =~= collections::texts(before)
                        + collections::texts(added));
                },
            }
            assert(it.index() + 1 == all.len() ==> next =~= all);
        }
        GroupedOperations { entities, resources, edges }
    }
}

/// The number of operations on edges.
pub open spec fn edge_operation_count(ops: Seq<OperationModel>) -> nat
    decreases ops.len(),
{
    if ops.len() == 0 {
        0
    } else {
        edge_operation_count(ops.drop_last()) + if ops.last() is UpsertEdges
            || ops.last() is DeleteEdges {
            1nat
        } else {
            0nat
        }
    }
}

/// Grouping makes nothing up: the documents created, updated and deleted of both
/// kinds together with the operations on edges are as many as the operations.
pub proof fn law_grouping_adds_nothing(ops: Seq<OperationModel>, key_field: Seq<char>)
    ensures
        creates_of(ops, DocumentKind::Entity).len() + creates_of(ops, DocumentKind::Resource).len()
            + updates_of(ops, DocumentKind::Entity, key_field).len() + updates_of(
            ops,
            DocumentKind::Resource,
            key_field,
        ).len() + deletes_of(ops, DocumentKind::Entity, key_field).len() + deletes_of(
            ops,
            DocumentKind::Resource,
            key_field,
        ).len() + edge_operation_count(ops) == ops.len(),
    decreases ops.len(),
{
    if ops.len() > 0 {
        law_grouping_adds_nothing(ops.drop_last(), key_field);
    }
}

/// What `op` asks for stands in its group.
pub open spec fn is_grouped(
    op: OperationModel,
    ops: Seq<OperationModel>,
    key_field: Seq<char>,
) -> bool {
    match op {
        OperationModel::Create { kind, data, .. } => creates_of(ops, kind).contains(data),
        OperationModel::Update { kind, key, expected, patch, .. } => updates_of(
            ops,
            kind,
            key_field,
        ).contains(update_object(key_field, key, expected, patch)),
        OperationModel::Delete { kind, key, expected, .. } => deletes_of(
            ops,
            kind,
            key_field,
        ).contains(delete_object(key_field, key, expected)),
        OperationModel::UpsertEdges { edges, .. } => forall|j: int|
            0 <= j < edges.len() ==> upserts_of(ops).contains(#[trigger] edges[j]),
        OperationModel::DeleteEdges { keys, .. } => forall|j: int|
            0 <= j < keys.len() ==> edge_deletes_of(ops).contains(#[trigger] keys[j]),
    }
}

/// Grouping loses nothing: what every operation asks for stands in its group.
pub proof fn law_grouping_loses_nothing(
    ops: Seq<OperationModel>,
    key_field: Seq<char>,
    i: int,
)
    requires
        0 <= i < ops.len(),
    ensures
        is_grouped(ops[i], ops, key_field),
    decreases ops.len(),
{
    broadcast use vstd::seq_lib::group_seq_properties;

    let head = ops.drop_last();
    if i < head.len() {
        law_grouping_loses_nothing(head, key_field, i);
        assert(head[i] == ops[i]);
    }
}

/// Operations can be grouped list by list: the groups of two lists put one after
/// the other are the groups of the first followed by those of the second.
pub proof fn law_grouping_of_concatenation(
    a: Seq<OperationModel>,
    b: Seq<OperationModel>,
    kind: DocumentKind,
    key_field: Seq<char>,
)
    ensures
        creates_of(a + b, kind) == creates_of(a, kind) + creates_of(b, kind),
        updates_of(a + b, kind, key_field) == updates_of(a, kind, key_field) + updates_of(
            b,
            kind,
            key_field,
        ),
        deletes_of(a + b, kind, key_field) == deletes_of(a, kind, key_field) + deletes_of(
            b,
            kind,
            key_field,
        ),
        upserts_of(a + b) == upserts_of(a) + upserts_of(b),
        edge_deletes_of(a + b) == edge_deletes_of(a) + edge_deletes_of(b),
    decreases b.len(),
{
    if b.len() == 0 {
        assert(a + b =~= a);
    } else {
        law_grouping_of_concatenation(a, b.drop_last(), kind, key_field);
        assert((a + b).drop_last() =~= a + b.drop_last());
        assert((a + b).last() == b.last());
    }
    assert(creates_of(a + b, kind) =~= creates_of(a, kind) + creates_of(b, kind));
    assert(updates_of(a + b, kind, key_field) =~= updates_of(a, kind, key_field) + updates_of(
        b,
        kind,
        key_field,
    ));
    assert(deletes_of(a + b, kind, key_field) =~= deletes_of(a, kind, key_field) + deletes_of(
        b,
        kind,
        key_field,
    ));
    assert(upserts_of(a + b) =~= upserts_of(a) + upserts_of(b));
    assert(edge_deletes_of(a + b) =~= edge_deletes_of(a) + edge_deletes_of(b));
}

/// The texts of the field `key_field` of those documents that have it as a
/// string, in order.
pub open spec fn keys_in(docs: Seq<Json>, key_field: Seq<char>) -> Seq<Seq<char>>
    decreases docs.len(),
{
    if docs.len() == 0 {
        Seq::empty()
    } else {
        let rest = keys_in(docs.drop_last(), key_field);
        match crate::value::text_field_of(docs.last(), key_field) {
            Some(key) => rest.push(key),
            None => rest,
        }
    }
}

/// Extracts the value of `key_field` as a String from each JSON object in `values`.
pub fn extract_keys(values: &[Value], key_field: &str) -> (keys: Vec<String>)
    ensures
        collections::texts(keys@) == keys_in(crate::value::array_of(values@), key_field@),
{
    let ghost docs = crate::value::array_of(values@);
    let mut keys: Vec<String> = Vec::new();
    let mut i: usize = 0;
    assert(collections::texts(keys@) =~= Seq::empty());
    while i < values.len()
        invariant
            i <= values@.len(),
            docs == crate::value::array_of(values@),
            collections::texts(keys@) == keys_in(docs.take(i as int), key_field@),
        decreases values@.len() - i,
    {
        let ghost before = keys@;
        assert(docs.take(i + 1).drop_last() =~= docs.take(i as int));
        match values[i].get(key_field) {
            Some(field) => match field.as_str() {
                Some(key) => {
                    keys.push(key.to_owned());
                    assert(collections::texts(keys@) =~= collections::texts(before).push(key@));
                },
                None => {},
            },
            None => {},
        }
        i = i + 1;
    }
    assert(docs.take(i as int) =~= docs);
    keys
}

/// The keys of the documents of one kind that operations update, in order.
pub open spec fn updated_keys(ops: Seq<OperationModel>, kind: DocumentKind) -> Seq<Seq<char>>
    decreases ops.len(),
{
    if ops.len() == 0 {
        Seq::empty()
    } else {
        let rest = updated_keys(ops.drop_last(), kind);
        match ops.last() {
            OperationModel::Update { kind: k, key, .. } if k == kind => rest.push(key),
            _ => rest,
        }
    }
}

/// The keys of the documents of one kind that operations delete, in order.
pub open spec fn deleted_keys(ops: Seq<OperationModel>, kind: DocumentKind) -> Seq<Seq<char>>
    decreases ops.len(),
{
    if ops.len() == 0 {
        Seq::empty()
    } else {
        let rest = deleted_keys(ops.drop_last(), kind);
        match ops.last() {
            OperationModel::Delete { kind: k, key, .. } if k == kind => rest.push(key),
            _ => rest,
        }
    }
}

/// The keys that [`extract_keys`] finds in the grouped updates and deletions
/// are the keys of the operations, in order. A key field named like one of the
/// other two fields is overwritten by it.
pub proof fn law_grouped_keys_are_operation_keys(
    ops: Seq<OperationModel>,
    kind: DocumentKind,
    key_field: Seq<char>,
)
    requires
        key_field != "expected"@,
        key_field != "patch"@,
    ensures
        keys_in(updates_of(ops, kind, key_field), key_field) == updated_keys(ops, kind),
        keys_in(deletes_of(ops, kind, key_field), key_field) == deleted_keys(ops, kind),
    decreases ops.len(),
{
    if ops.len() > 0 {
        let head = ops.drop_last();
        law_grouped_keys_are_operation_keys(head, kind, key_field);
        match ops.last() {
            OperationModel::Update { kind: k, key, expected, patch, .. } if k == kind => {
                let docs = updates_of(ops, kind, key_field);
                assert(docs.drop_last() =~= updates_of(head, kind, key_field));
                assert(crate::value::text_field_of(docs.last(), key_field) == Some(key));
            },
            OperationModel::Delete { kind: k, key, expected, .. } if k == kind => {
                let docs = deletes_of(ops, kind, key_field);
                assert(docs.drop_last() =~= deletes_of(head, kind, key_field));
                assert(crate::value::text_field_of(docs.last(), key_field) == Some(key));
            },
            _ => {},
        }
    }
}

/// What a batch of operations does to the documents it names.
#[derive(Clone, Copy, Debug, PartialEq, Eq, Structural)]
pub enum OperationType {
    Update,
    Delete,
}

impl OperationType {
    /// The word that stands for the operation in a message.
    pub open spec fn word(self) -> Seq<char> {
        match self {
            OperationType::Update => "Update"@,
            OperationType::Delete => "Delete"@,
        }
    }

    /// The word that stands for the operation in a message.
    pub fn as_str(&self) -> (s: &'static str)
        ensures
            s@ == self.word(),
    {
        match self {
            OperationType::Update => "Update",
            OperationType::Delete => "Delete",
        }
    }
}

/// True where `key` is the first of the requested keys that was not processed.
pub open spec fn first_missing(
    requested: Seq<Seq<char>>,
    processed: Seq<Seq<char>>,
    key: Seq<char>,
) -> bool {
    exists|i: int|
        {
            &&& 0 <= i < requested.len()
            &&& #[trigger] requested[i] == key
            &&& !processed.contains(key)
            &&& forall|j: int| 0 <= j < i ==> processed.contains(#[trigger] requested[j])
        }
}

fn contains_text(list: &Vec<String>, key: &String) -> (b: bool)
    ensures
        b == collections::texts(list@).contains(key@),
{
    let mut i: usize = 0;
    while i < list.len()
        invariant
            i <= list@.len(),
            forall|j: int| 0 <= j < i ==> collections::texts(list@)[j] != key@,
        decreases list@.len() - i,
    {
        if list[i] == *key {
            assert(collections::texts(list@)[i as int] == key@);
            return true;
        }
        i = i + 1;
    }
    false
}

/// Every requested key was processed.
pub open spec fn all_processed(requested: Seq<Seq<char>>, processed: Seq<Seq<char>>) -> bool {
    forall|i: int| 0 <= i < requested.len() ==> processed.contains(#[trigger] requested[i])
}

/// Checks if all requested operations succeeded and returns appropriate error.
///
/// They did where every requested key was processed and as many keys were
/// processed as requested. Otherwise the error names the first requested key
/// that was not processed, or the batch where every key was.
pub fn check_operation_success(
    requested: Vec<String>,
    processed: Vec<String>,
    operation_type: &OperationType,
    collection: &str,
) -> (r: Result<(), PersistenceError>)
    ensures
        r is Ok <==> processed@.len() == requested@.len() && all_processed(
            collections::texts(requested@),
            collections::texts(processed@),
        ),
        match r {
            Ok(()) => true,
            Err(e) => match e@ {
                ErrorModel::Conflict(key) => first_missing(
                    collections::texts(requested@),
                    collections::texts(processed@),
                    key,
                ),
                ErrorModel::General(message) => {
                    &&& all_processed(
                        collections::texts(requested@),
                        collections::texts(processed@),
                    )
                    &&& message == operation_type.word() + " conflict ("@ + collection@ + ")"@
                },
            },
        },
{
    let mut i: usize = 0;
    while i < requested.len()
        invariant
            i <= requested@.len(),
            forall|j: int|
                0 <= j < i ==> collections::texts(processed@).contains(
                    #[trigger] collections::texts(requested@)[j],
                ),
        decreases requested@.len() - i,
    {
        if !contains_text(&processed, &requested[i]) {
            assert(collections::texts(requested@)[i as int] == requested@[i as int]@);
            return Err(PersistenceError::Conflict { key: requested[i].clone() });
        }
        i = i + 1;
    }
    if processed.len() != requested.len() {
        let mut message: String = operation_type.as_str().to_owned();
        message.append(" conflict (");
        message.append(collection);
        message.append(")");
        return Err(PersistenceError::General(message));
    }
    Ok(())
}

/// A batch in which a requested operation did not succeed is refused, whatever
/// else was processed, and there is a first such key for the error to name.
pub proof fn law_lost_operation_is_noticed(
    requested: Seq<Seq<char>>,
    processed: Seq<Seq<char>>,
    key: Seq<char>,
)
    requires
        requested.contains(key),
        !processed.contains(key),
    ensures
        !all_processed(requested, processed),
        exists|missing: Seq<char>| #[trigger] first_missing(requested, processed, missing),
{
    let at = choose|i: int| 0 <= i < requested.len() && requested[i] == key;
    assert(!processed.contains(requested[at]));
    lemma_first_missing(requested, processed, at);
}

proof fn lemma_first_missing(requested: Seq<Seq<char>>, processed: Seq<Seq<char>>, at: int)
    requires
        0 <= at < requested.len(),
        !processed.contains(requested[at]),
    ensures
        exists|missing: Seq<char>| #[trigger] first_missing(requested, processed, missing),
    decreases at,
{
    if forall|j: int| 0 <= j < at ==> processed.contains(#[trigger] requested[j]) {
        assert(first_missing(requested, processed, requested[at]));
    } else {
        let j = choose|j: int| 0 <= j < at && !processed.contains(#[trigger] requested[j]);
        lemma_first_missing(requested, processed, j);
    }
}

} // verus!
