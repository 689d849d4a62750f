//! Documents, edges, transaction operations and errors.
use vstd::prelude::*;
use vstd::string::*;

use crate::collections;
use crate::value::{Json, Number, Object, Value};

verus! {

/// Field of a document that holds its metadata object.
pub const BEVY_PERSISTENCE_DATABASE_METADATA_FIELD: &'static str = "bevy_persistence_database_metadata";

/// Field of the metadata object that holds the document's version.
pub const BEVY_PERSISTENCE_DATABASE_VERSION_FIELD: &'static str = "version";

/// Field of the metadata object that holds the document's kind.
pub const BEVY_PERSISTENCE_DATABASE_BEVY_TYPE_FIELD: &'static str = "bevy_type";

/// What a document stands for.
#[derive(Clone, Copy, Debug, PartialEq, Eq, Structural)]
pub enum DocumentKind {
    Entity,
    Resource,
}

impl DocumentKind {
    /// The word that stands for the kind in a stored document.
    pub open spec fn word(self) -> Seq<char> {
        match self {
            DocumentKind::Entity => "entity"@,
            DocumentKind::Resource => "resource"@,
        }
    }

    /// The word that stands for the kind in a stored document.
    pub fn as_str(&self) -> (s: &'static str)
        ensures
            s@ == self.word(),
    {
        match self {
            DocumentKind::Entity => "entity",
            DocumentKind::Resource => "resource",
        }
    }
}

/// Why a persistence operation failed.
#[derive(Debug)]
pub enum PersistenceError {
    General(String),
    Conflict { key: String },
}

/// The mathematical content of a [`PersistenceError`].
#[verifier::ext_equal]
pub enum ErrorModel {
    General(Seq<char>),
    Conflict(Seq<char>),
}

impl View for PersistenceError {
    type V = ErrorModel;

    open spec fn view(&self) -> ErrorModel {
        match self {
            PersistenceError::General(message) => ErrorModel::General(message@),
            PersistenceError::Conflict { key } => ErrorModel::Conflict(key@),
        }
    }
}

impl PersistenceError {
    /// A general error with that message.
    pub fn new(message: &str) -> (e: Self)
        ensures
            e@ == ErrorModel::General(message@),
    {
        PersistenceError::General(message.to_owned())
    }
}

impl Clone for PersistenceError {
    fn clone(&self) -> (r: Self)
        ensures
            r@ == self@,
    {
        match self {
            PersistenceError::General(message) => PersistenceError::General(message.clone()),
            PersistenceError::Conflict { key } => PersistenceError::Conflict { key: key.clone() },
        }
    }
}

/// One stored relationship between two entities.
#[derive(Debug)]
pub struct EdgeDocument {
    pub key: String,
    pub relationship_type: String,
    pub from_guid: String,
    pub to_guid: String,
    pub payload: Option<Value>,
}

/// The mathematical content of an [`EdgeDocument`].
#[verifier::ext_equal]
pub struct EdgeModel {
    pub key: Seq<char>,
    pub relationship_type: Seq<char>,
    pub from_guid: Seq<char>,
    pub to_guid: Seq<char>,
    pub payload: Option<Json>,
}

/// The content of an optional value.
pub open spec fn optional_json(v: Option<Value>) -> Option<Json> {
    match v {
        Some(v) => Some(v@),
        None => None,
    }
}

impl View for EdgeDocument {
    type V = EdgeModel;

    open spec fn view(&self) -> EdgeModel {
        EdgeModel {
            key: self.key@,
            relationship_type: self.relationship_type@,
            from_guid: self.from_guid@,
            to_guid: self.to_guid@,
            payload: optional_json(self.payload),
        }
    }
}

/// The key `{type}:{from}:{to}` of an edge.
pub open spec fn edge_key(relationship_type: Seq<char>, from: Seq<char>, to: Seq<char>) -> Seq<
    char,
> {
    relationship_type + ":"@ + from + ":"@ + to
}

/// The edge of type `relationship_type` from `from` to `to`, under its key.
pub open spec fn edge_between(
    relationship_type: Seq<char>,
    from: Seq<char>,
    to: Seq<char>,
    payload: Option<Json>,
) -> EdgeModel {
    EdgeModel {
        key: edge_key(relationship_type, from, to),
        relationship_type,
        from_guid: from,
        to_guid: to,
        payload,
    }
}

impl EdgeDocument {
    /// The key `{type}:{from}:{to}`: the same endpoints always give the same key.
    pub fn make_key(relationship_type: &str, from_guid: &str, to_guid: &str) -> (key: String)
        ensures
            key@ == edge_key(relationship_type@, from_guid@, to_guid@),
    {
        let mut key: String = relationship_type.to_owned();
        key.append(":");
        key.append(from_guid);
        key.append(":");
        key.append(to_guid);
        key
    }
}

impl Clone for EdgeDocument {
    fn clone(&self) -> (r: Self)
        ensures
            r@ == self@,
    {
        EdgeDocument {
            key: self.key.clone(),
            relationship_type: self.relationship_type.clone(),
            from_guid: self.from_guid.clone(),
            to_guid: self.to_guid.clone(),
            payload: match &self.payload {
                Some(v) => Some(v.clone()),
                None => None,
            },
        }
    }
}

/// One step of a database transaction.
#[derive(Debug)]
pub enum TransactionOperation {
    CreateDocument { store: String, kind: DocumentKind, data: Value },
    UpdateDocument {
        store: String,
        kind: DocumentKind,
        key: String,
        expected_current_version: u64,
        patch: Value,
    },
    DeleteDocument {
        store: String,
        kind: DocumentKind,
        key: String,
        expected_current_version: u64,
    },
    UpsertEdges { store: String, edges: Vec<EdgeDocument> },
    DeleteEdges { store: String, keys: Vec<String> },
}

/// The mathematical content of a [`TransactionOperation`].
#[verifier::ext_equal]
pub enum OperationModel {
    Create { store: Seq<char>, kind: DocumentKind, data: Json },
    Update { store: Seq<char>, kind: DocumentKind, key: Seq<char>, expected: u64, patch: Json },
    Delete { store: Seq<char>, kind: DocumentKind, key: Seq<char>, expected: u64 },
    UpsertEdges { store: Seq<char>, edges: Seq<EdgeModel> },
    DeleteEdges { store: Seq<char>, keys: Seq<Seq<char>> },
}

/// The contents of a list of edges, in order.
pub open spec fn edge_models(edges: Seq<EdgeDocument>) -> Seq<EdgeModel> {
    edges.map_values(|e: EdgeDocument| e@)
}

impl View for TransactionOperation {
    type V = OperationModel;

    open spec fn view(&self) -> OperationModel {
        match self {
            TransactionOperation::CreateDocument { store, kind, data } => OperationModel::Create {
                store: store@,
                kind: *kind,
                data: data@,
            },
            TransactionOperation::UpdateDocument {
                store,
                kind,
                key,
                expected_current_version,
                patch,
            } => OperationModel::Update {
                store: store@,
                kind: *kind,
                key: key@,
                expected: *expected_current_version,
                patch: patch@,
            },
            TransactionOperation::DeleteDocument { store, kind, key, expected_current_version } =>
                OperationModel::Delete {
                store: store@,
                kind: *kind,
                key: key@,
                expected: *expected_current_version,
            },
            TransactionOperation::UpsertEdges { store, edges } => OperationModel::UpsertEdges {
                store: store@,
                edges: edge_models(edges@),
            },
            TransactionOperation::DeleteEdges { store, keys } => OperationModel::DeleteEdges {
                store: store@,
                keys: collections::texts(keys@),
            },
        }
    }
}

/// The contents of a list of operations, in order.
pub open spec fn operation_models(ops: Seq<TransactionOperation>) -> Seq<OperationModel> {
    ops.map_values(|op: TransactionOperation| op@)
}

/// The metadata object of a document: its version and its kind.
pub open spec fn metadata(kind: DocumentKind, version: u64) -> Json {
    Json::Object(
        Map::empty().insert(
            BEVY_PERSISTENCE_DATABASE_VERSION_FIELD@,
            Json::Number(Number::PosInt(version)),
        ).insert(BEVY_PERSISTENCE_DATABASE_BEVY_TYPE_FIELD@, Json::String(kind.word())),
    )
}

/// `fields` with the metadata of a document of that kind and version.
pub open spec fn with_metadata(
    fields: Map<Seq<char>, Json>,
    kind: DocumentKind,
    version: u64,
) -> Map<Seq<char>, Json> {
    fields.insert(BEVY_PERSISTENCE_DATABASE_METADATA_FIELD@, metadata(kind, version))
}

/// Writes the metadata of a document of that kind and version into `data`.
pub fn insert_meta(data: &mut Object, kind: DocumentKind, version: u64)
    ensures
        final(data)@ == with_metadata(old(data)@, kind, version),
{
    let mut meta: Object = Object::new();
    meta.insert(
        BEVY_PERSISTENCE_DATABASE_VERSION_FIELD.to_owned(),
        Value::Number(Number::PosInt(version)),
    );
    meta.insert(
        BEVY_PERSISTENCE_DATABASE_BEVY_TYPE_FIELD.to_owned(),
        Value::String(kind.as_str().to_owned()),
    );
    data.insert(BEVY_PERSISTENCE_DATABASE_METADATA_FIELD.to_owned(), Value::Object(meta));
}

/// The version that a document's metadata gives.
pub open spec fn version_of(doc: Json) -> Option<u64> {
    match crate::value::field_of(doc, BEVY_PERSISTENCE_DATABASE_METADATA_FIELD@) {
        Some(meta) => match crate::value::field_of(meta, BEVY_PERSISTENCE_DATABASE_VERSION_FIELD@) {
            Some(v) => crate::value::unsigned_of(v),
            None => None,
        },
        None => None,
    }
}

/// The version that a document's metadata gives; `None` where it gives none.
pub fn read_version(doc: &Value) -> (r: Option<u64>)
    ensures
        r == version_of(doc@),
{
    match doc.get(BEVY_PERSISTENCE_DATABASE_METADATA_FIELD) {
        Some(meta) => match meta.get(BEVY_PERSISTENCE_DATABASE_VERSION_FIELD) {
            Some(v) => v.as_u64(),
            None => None,
        },
        None => None,
    }
}

/// Reading the version of a document gives back what [`insert_meta`] wrote.
pub proof fn law_metadata_reads_back(
    fields: Map<Seq<char>, Json>,
    kind: DocumentKind,
    version: u64,
)
    ensures
        version_of(Json::Object(with_metadata(fields, kind, version))) == Some(version),
{
    reveal_strlit("version");
    reveal_strlit("bevy_type");
    assert(BEVY_PERSISTENCE_DATABASE_VERSION_FIELD@.len()
        != BEVY_PERSISTENCE_DATABASE_BEVY_TYPE_FIELD@.len());
}

} // verus!
