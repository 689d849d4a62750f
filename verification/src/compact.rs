//! Compact binary encoding for large values stored inside JSON documents.
//!
//! Backend documents (Arango / Postgres JSON) are still JSON, but naively
//! serializing large arrays as JSON number trees can OOM or blow document size
//! limits. This module zstd-compresses and base64-wraps the postcard bytes of a
//! value into a small JSON envelope.
//!
//! Values come in as postcard bytes, and as a function that writes or reads
//! plain JSON where that is needed: which bytes a type gives is its own affair.
use base64::Engine;

use vstd::prelude::*;
use vstd::string::*;

use crate::value::{Json, Object, Value};

verus! {

/// Envelope version written into JSON documents.
pub const ENCODING: &'static str = "postcard+zstd-v1";

/// Default zstd compression level (speed / ratio trade-off for persistence).
pub const DEFAULT_ZSTD_LEVEL: i32 = 3;

/// Default postcard-size threshold above which session serializers use the
/// compact envelope instead of naive JSON (`256 KiB`).
pub const DEFAULT_COMPACT_THRESHOLD_BYTES: usize = 256 * 1024;

/// The envelope that holds a compact value in a JSON document.
#[derive(Debug)]
pub struct CompactEnvelope {
    pub encoding: String,
    /// Base64(zstd(postcard(T))).
    pub payload: String,
}

/// Errors from compact encode / decode helpers.
#[derive(Debug, Clone, PartialEq, Eq)]
pub struct CompactError(pub String);

impl View for CompactError {
    type V = Seq<char>;

    open spec fn view(&self) -> Seq<char> {
        self.0@
    }
}

impl CompactError {
    /// The error whose message is `prefix` followed by `detail`.
    fn because(prefix: &str, detail: &str) -> (e: Self)
        ensures
            e@ == prefix@ + detail@,
    {
        let mut message: String = prefix.to_owned();
        message.append(detail);
        CompactError(message)
    }
}

/// The frame that [`zstd::encode_all`] writes for these bytes at that level.
pub uninterp spec fn zstd_encoded(raw: Seq<u8>, level: i32) -> Seq<u8>;

/// What the zstd frames in these bytes hold; `None` where the bytes are no
/// zstd frames.
pub uninterp spec fn zstd_decoded(compressed: Seq<u8>) -> Option<Seq<u8>>;

/// `zstd::encode_all`: compresses bytes into one zstd frame. The frame is
/// determined by the bytes and the level, and it holds the bytes. A level out
/// of range counts as the nearest one, and zero as the default. The call succeeds
/// on all bytes at every level; that memory for the compressor can be had is
/// taken for granted, as it is for every allocation.
#[verifier::external_body]
fn zstd_encode(raw: &[u8], level: i32) -> (r: Result<Vec<u8>, String>)
    ensures
        match r {
            Ok(compressed) => {
                &&& compressed@ == zstd_encoded(raw@, level)
                &&& zstd_decoded(compressed@) == Some(raw@)
            },
            Err(_) => false,
        },
{
    zstd::encode_all(raw, level).map_err(|e| e.to_string())
}

/// `zstd::decode_all`: decompresses zstd frames. It succeeds exactly on bytes
/// that are zstd frames, with what they hold. Nothing is said of which message
/// an error has. That memory for the decompressor can be had is taken for
/// granted, as it is for every allocation.
#[verifier::external_body]
fn zstd_decode(compressed: &[u8]) -> (r: Result<Vec<u8>, String>)
    ensures
        match r {
            Ok(raw) => zstd_decoded(compressed@) == Some(raw@),
            Err(_) => zstd_decoded(compressed@) is None,
        },
{
    zstd::decode_all(compressed).map_err(|e| e.to_string())
}

/// The padded standard Base64 text of these bytes.
pub uninterp spec fn base64_encoded(bytes: Seq<u8>) -> Seq<char>;

/// The bytes that a text stands for in padded standard Base64, or what is wrong
/// with a text that is no such text.
pub uninterp spec fn base64_decoded(text: Seq<char>) -> Result<Seq<u8>, Seq<char>>;

/// `base64::engine::general_purpose::STANDARD.encode`: the standard Base64 text
/// of bytes, from which they can be read back. Panics, as any allocation does,
/// where memory for the text cannot be had.
#[verifier::external_body]
fn base64_encode(bytes: &[u8]) -> (text: String)
    ensures
        text@ == base64_encoded(bytes@),
        base64_decoded(text@) is Ok && base64_decoded(text@)->Ok_0 == bytes@,
{
    base64::engine::general_purpose::STANDARD.encode(bytes)
}

/// `base64::engine::general_purpose::STANDARD.decode`: the bytes that a standard
/// Base64 text stands for, or the message of the error, both determined by the
/// text.
#[verifier::external_body]
fn base64_decode(text: &str) -> (r: Result<Vec<u8>, String>)
    ensures
        match r {
            Ok(bytes) => base64_decoded(text@) is Ok && base64_decoded(text@)->Ok_0 == bytes@,
            Err(e) => base64_decoded(text@) is Err && base64_decoded(text@)->Err_0 == e@,
        },
{
    base64::engine::general_purpose::STANDARD.decode(text.as_bytes()).map_err(|e| e.to_string())
}

/// True when `value` is (or contains) a compact envelope (`encoding` + `payload`).
pub open spec fn is_envelope(value: Json) -> bool {
    &&& crate::value::text_field_of(value, "encoding"@) == Some(ENCODING@)
    &&& crate::value::text_field_of(value, "payload"@) is Some
}

/// True when `value` is (or contains) a compact envelope (`encoding` + `payload`).
///
/// Extra document fields (keys, BPD metadata) are ignored.
pub fn is_compact_envelope(value: &Value) -> (b: bool)
    ensures
        b == is_envelope(value@),
{
    let encoding: bool = match value.get("encoding") {
        Some(field) => match field.as_str() {
            Some(text) => text.eq(ENCODING),
            None => false,
        },
        None => false,
    };
    let payload: bool = match value.get("payload") {
        Some(field) => field.as_str().is_some(),
        None => false,
    };
    encoding && payload
}

/// The JSON document of an envelope with that payload.
pub open spec fn envelope_document(payload: Seq<char>) -> Json {
    Json::Object(
        Map::empty().insert("encoding"@, Json::String(ENCODING@)).insert(
            "payload"@,
            Json::String(payload),
        ),
    )
}

/// The outcome of a compression as a payload: its Base64 text, or the error.
pub fn payload_of_compressed(compressed: Result<Vec<u8>, String>) -> (r: Result<
    String,
    CompactError,
>)
    ensures
        match (compressed, r) {
            (Ok(bytes), Ok(payload)) => {
                &&& payload@ == base64_encoded(bytes@)
                &&& base64_decoded(payload@) is Ok
                &&& base64_decoded(payload@)->Ok_0 == bytes@
            },
            (Err(e), Err(error)) => error@ == "zstd encode: "@ + e@,
            _ => false,
        },
{
    match compressed {
        Ok(bytes) => Ok(base64_encode(bytes.as_slice())),
        Err(e) => Err(CompactError::because("zstd encode: ", e.as_str())),
    }
}

/// The payload that postcard bytes give at that level.
pub open spec fn payload_text(raw: Seq<u8>, level: i32) -> Seq<char> {
    base64_encoded(zstd_encoded(raw, level))
}

/// `message` is `prefix` followed by some detail.
pub open spec fn says(message: Seq<char>, prefix: Seq<char>) -> bool {
    message.len() >= prefix.len() && message.take(prefix.len() as int) == prefix
}

proof fn lemma_says(prefix: Seq<char>, detail: Seq<char>)
    ensures
        says(prefix + detail, prefix),
{
    assert((prefix + detail).take(prefix.len() as int) =~= prefix);
}

/// zstd + base64 for already-postcarded bytes (avoids a second postcard pass).
///
/// Every list of bytes has a payload.
pub fn encode_postcard_bytes(raw: &[u8], zstd_level: i32) -> (r: Result<String, CompactError>)
    ensures
        match r {
            Ok(payload) => {
                &&& payload@ == payload_text(raw@, zstd_level)
                &&& payload_bytes(payload@) == Some(raw@)
            },
            Err(_) => false,
        },
{
    payload_of_compressed(zstd_encode(raw, zstd_level))
}

/// zstd + base64 of the outcome of postcard, which may have failed.
pub fn encode_with_level(postcard: Result<Vec<u8>, String>, zstd_level: i32) -> (r: Result<
    String,
    CompactError,
>)
    ensures
        match (postcard, r) {
            (Ok(raw), Ok(payload)) => {
                &&& payload@ == payload_text(raw@, zstd_level)
                &&& payload_bytes(payload@) == Some(raw@)
            },
            (Err(e), Err(error)) => error@ == "postcard encode: "@ + e@,
            _ => false,
        },
{
    match postcard {
        Ok(raw) => encode_postcard_bytes(raw.as_slice(), zstd_level),
        Err(e) => Err(CompactError::because("postcard encode: ", e.as_str())),
    }
}

/// Like [`encode_with_level`] at the default level: a payload string (no envelope).
pub fn encode(postcard: Result<Vec<u8>, String>) -> (r: Result<String, CompactError>)
    ensures
        match (postcard, r) {
            (Ok(raw), Ok(payload)) => {
                &&& payload@ == payload_text(raw@, DEFAULT_ZSTD_LEVEL)
                &&& payload_bytes(payload@) == Some(raw@)
            },
            (Err(e), Err(error)) => error@ == "postcard encode: "@ + e@,
            _ => false,
        },
{
    encode_with_level(postcard, DEFAULT_ZSTD_LEVEL)
}

/// The postcard bytes that a payload holds; `None` where it holds none.
pub open spec fn payload_bytes(payload: Seq<char>) -> Option<Seq<u8>> {
    match base64_decoded(payload) {
        Ok(compressed) => zstd_decoded(compressed),
        Err(_) => None,
    }
}

/// The outcome of a decompression: the bytes, or the error.
pub fn bytes_of_decompressed(raw: Result<Vec<u8>, String>) -> (r: Result<Vec<u8>, CompactError>)
    ensures
        match (raw, r) {
            (Ok(bytes), Ok(out)) => out == bytes,
            (Err(e), Err(error)) => error@ == "zstd decode: "@ + e@,
            _ => false,
        },
{
    match raw {
        Ok(bytes) => Ok(bytes),
        Err(e) => Err(CompactError::because("zstd decode: ", e.as_str())),
    }
}

/// The postcard bytes of a payload: inverse of [`encode_postcard_bytes`].
///
/// A payload that is no Base64 text is refused as such, and one whose bytes are
/// no zstd frames as such.
pub fn decode_payload(payload: &str) -> (r: Result<Vec<u8>, CompactError>)
    ensures
        match (base64_decoded(payload@), r) {
            (Ok(_), Ok(raw)) => payload_bytes(payload@) == Some(raw@),
            (Ok(_), Err(error)) => {
                &&& payload_bytes(payload@) is None
                &&& says(error@, "zstd decode: "@)
            },
            (Err(e), Err(error)) => error@ == "base64 decode: "@ + e,
            (Err(_), Ok(_)) => false,
        },
{
    match base64_decode(payload) {
        Ok(compressed) => {
            let raw: Result<Vec<u8>, String> = zstd_decode(compressed.as_slice());
            proof {
                if raw is Err {
                    lemma_says("zstd decode: "@, raw->Err_0@);
                }
            }
            bytes_of_decompressed(raw)
        },
        Err(e) => Err(CompactError::because("base64 decode: ", e.as_str())),
    }
}

/// Inverse of [`encode`]: reads a value from the postcard bytes of a payload.
pub fn decode<T, P: FnOnce(Vec<u8>) -> Result<T, String>>(payload: &str, from_postcard: P) -> (r:
    Result<T, CompactError>)
    requires
        forall|raw: Vec<u8>| #[trigger] from_postcard.requires((raw,)),
    ensures
        decoded_by(payload@, from_postcard, r),
{
    read_decoded(decode_payload(payload), from_postcard)
}

/// What a reader makes of decoded postcard bytes; an earlier error is passed on.
pub fn read_decoded<T, P: FnOnce(Vec<u8>) -> Result<T, String>>(
    decoded: Result<Vec<u8>, CompactError>,
    from_postcard: P,
) -> (r: Result<T, CompactError>)
    requires
        decoded matches Ok(raw) ==> from_postcard.requires((raw,)),
    ensures
        match decoded {
            Ok(raw) => read_by(raw, from_postcard, r),
            Err(error) => r is Err && r->Err_0 == error,
        },
{
    match decoded {
        Ok(raw) => match from_postcard(raw) {
            Ok(value) => Ok(value),
            Err(e) => Err(CompactError::because("postcard decode: ", e.as_str())),
        },
        Err(error) => Err(error),
    }
}

/// `r` is what that reader may make of postcard bytes: its answer is passed on.
pub open spec fn read_by<T, P: FnOnce(Vec<u8>) -> Result<T, String>>(
    raw: Vec<u8>,
    from_postcard: P,
    r: Result<T, CompactError>,
) -> bool {
    exists|answer: Result<T, String>| #[trigger]
        from_postcard.ensures((raw,), answer) && match (answer, r) {
            (Ok(value), Ok(out)) => out == value,
            (Err(e), Err(error)) => error@ == "postcard decode: "@ + e@,
            _ => false,
        }
}

/// `r` is what reading a payload with that reader may give: the reader gets the
/// postcard bytes of the payload, and its answer is passed on. A payload that
/// does not give bytes is refused before.
pub open spec fn decoded_by<T, P: FnOnce(Vec<u8>) -> Result<T, String>>(
    payload: Seq<char>,
    from_postcard: P,
    r: Result<T, CompactError>,
) -> bool {
    match (base64_decoded(payload), payload_bytes(payload)) {
        (Err(e), _) => r is Err && r->Err_0@ == "base64 decode: "@ + e,
        (Ok(_), None) => r is Err && says(r->Err_0@, "zstd decode: "@),
        (Ok(_), Some(bytes)) => exists|raw: Vec<u8>|
            raw@ == bytes && #[trigger] read_by(raw, from_postcard, r),
    }
}

/// `r` is what storing a value may give: a compact envelope where its postcard
/// bytes exceed the threshold, otherwise the plain JSON that `to_json` gives.
pub open spec fn persisted_by<J: FnOnce() -> Result<Value, String>>(
    postcard: Result<Vec<u8>, String>,
    threshold_bytes: usize,
    to_json: J,
    r: Result<Value, CompactError>,
) -> bool {
    match postcard {
        Err(e) => r is Err && r->Err_0@ == "postcard encode: "@ + e@,
        Ok(raw) => if raw@.len() > threshold_bytes {
            match r {
                Ok(value) => {
                    &&& value@ == envelope_document(payload_text(raw@, DEFAULT_ZSTD_LEVEL))
                    &&& payload_bytes(payload_text(raw@, DEFAULT_ZSTD_LEVEL)) == Some(raw@)
                },
                Err(_) => false,
            }
        } else {
            exists|answer: Result<Value, String>| #[trigger]
                to_json.ensures((), answer) && match (answer, r) {
                    (Ok(json), Ok(value)) => value == json,
                    (Err(e), Err(error)) => error@ == "json encode: "@ + e@,
                    _ => false,
                }
        },
    }
}

/// The JSON document of an envelope with that payload; an earlier error is
/// passed on.
pub fn document_of_payload(payload: Result<String, CompactError>) -> (r: Result<
    Value,
    CompactError,
>)
    ensures
        match (payload, r) {
            (Ok(payload), Ok(value)) => value@ == envelope_document(payload@),
            (Err(error), Err(out)) => out == error,
            _ => false,
        },
{
    match payload {
        Ok(payload) => {
            let mut envelope: Object = Object::new();
            envelope.insert("encoding".to_owned(), Value::String(ENCODING.to_owned()));
            envelope.insert("payload".to_owned(), Value::String(payload));
            Ok(Value::Object(envelope))
        },
        Err(error) => Err(error),
    }
}

/// Build a JSON [`Value`] for persistence: compact envelope when postcard size
/// exceeds `threshold_bytes`, otherwise the plain JSON that `to_json` gives.
pub fn to_persist_value<J: FnOnce() -> Result<Value, String>>(
    postcard: Result<Vec<u8>, String>,
    threshold_bytes: usize,
    to_json: J,
) -> (r: Result<Value, CompactError>)
    requires
        to_json.requires(()),
    ensures
        persisted_by(postcard, threshold_bytes, to_json, r),
{
    let raw: Vec<u8> = match postcard {
        Ok(raw) => raw,
        Err(e) => {
            return Err(CompactError::because("postcard encode: ", e.as_str()));
        },
    };
    if raw.len() > threshold_bytes {
        document_of_payload(encode_postcard_bytes(raw.as_slice(), DEFAULT_ZSTD_LEVEL))
    } else {
        match to_json() {
            Ok(value) => Ok(value),
            Err(e) => Err(CompactError::because("json encode: ", e.as_str())),
        }
    }
}

/// `r` is what loading a stored value may give: the payload of an envelope goes
/// to one reader, any other value as it is to the other.
pub open spec fn restored_by<
    T,
    P: FnOnce(Vec<u8>) -> Result<T, String>,
    J: FnOnce(Value) -> Result<T, String>,
>(value: Value, from_postcard: P, from_json: J, r: Result<T, CompactError>) -> bool {
    if is_envelope(value@) {
        decoded_by(crate::value::text_field_of(value@, "payload"@)->0, from_postcard, r)
    } else {
        exists|answer: Result<T, String>| #[trigger]
            from_json.ensures((value,), answer) && match (answer, r) {
                (Ok(read), Ok(out)) => out == read,
                (Err(e), Err(error)) => error@ == "json decode: "@ + e@,
                _ => false,
            }
    }
}

/// Inverse of [`to_persist_value`]: compact envelope or plain JSON document body.
pub fn from_persist_value<
    T,
    P: FnOnce(Vec<u8>) -> Result<T, String>,
    J: FnOnce(Value) -> Result<T, String>,
>(value: Value, from_postcard: P, from_json: J) -> (r: Result<T, CompactError>)
    requires
        forall|raw: Vec<u8>| #[trigger] from_postcard.requires((raw,)),
        from_json.requires((value,)),
    ensures
        restored_by(value, from_postcard, from_json, r),
{
    if is_compact_envelope(&value) {
        let payload: &str = value.get("payload").unwrap().as_str().unwrap();
        decode(payload, from_postcard)
    } else {
        match from_json(value) {
            Ok(read) => Ok(read),
            Err(e) => Err(CompactError::because("json decode: ", e.as_str())),
        }
    }
}

/// The versioned envelope with that payload; an earlier error is passed on.
pub fn envelope_of_payload(payload: Result<String, CompactError>) -> (r: Result<
    CompactEnvelope,
    CompactError,
>)
    ensures
        match (payload, r) {
            (Ok(payload), Ok(envelope)) => {
                &&& envelope.encoding@ == ENCODING@
                &&& envelope.payload == payload
            },
            (Err(error), Err(out)) => out == error,
            _ => false,
        },
{
    match payload {
        Ok(payload) => Ok(CompactEnvelope { encoding: ENCODING.to_owned(), payload }),
        Err(error) => Err(error),
    }
}

/// Wraps the outcome of postcard as a versioned compact envelope.
pub fn to_envelope(postcard: Result<Vec<u8>, String>) -> (r: Result<CompactEnvelope, CompactError>)
    ensures
        match (postcard, r) {
            (Ok(raw), Ok(envelope)) => {
                &&& envelope.encoding@ == ENCODING@
                &&& envelope.payload@ == payload_text(raw@, DEFAULT_ZSTD_LEVEL)
                &&& payload_bytes(envelope.payload@) == Some(raw@)
            },
            (Err(e), Err(error)) => error@ == "postcard encode: "@ + e@,
            _ => false,
        },
{
    envelope_of_payload(encode(postcard))
}

/// A text between quotes, with the escapes that Rust's `Debug` writes.
pub uninterp spec fn debug_quoted(text: Seq<char>) -> Seq<char>;

/// `format!` with `{:?}` on a string: the text between quotes, with escapes.
#[verifier::external_body]
fn quoted(text: &str) -> (r: String)
    ensures
        r@ == debug_quoted(text@),
{
    format!("{:?}", text)
}

/// `r` is what reading an envelope may give: its payload goes to the reader, and
/// an envelope of another encoding is refused.
pub open spec fn unwrapped_by<T, P: FnOnce(Vec<u8>) -> Result<T, String>>(
    envelope: CompactEnvelope,
    from_postcard: P,
    r: Result<T, CompactError>,
) -> bool {
    if envelope.encoding@ == ENCODING@ {
        decoded_by(envelope.payload@, from_postcard, r)
    } else {
        r is Err && r->Err_0@ == "unsupported compact persist encoding "@ + debug_quoted(
            envelope.encoding@,
        )
    }
}

/// Reads a value from a versioned compact envelope. An envelope of another
/// encoding is refused.
pub fn from_envelope<T, P: FnOnce(Vec<u8>) -> Result<T, String>>(
    envelope: &CompactEnvelope,
    from_postcard: P,
) -> (r: Result<T, CompactError>)
    requires
        forall|raw: Vec<u8>| #[trigger] from_postcard.requires((raw,)),
    ensures
        unwrapped_by(*envelope, from_postcard, r),
{
    if !envelope.encoding.as_str().eq(ENCODING) {
        let encoding: String = quoted(envelope.encoding.as_str());
        return Err(
            CompactError::because("unsupported compact persist encoding ", encoding.as_str()),
        );
    }
    decode(envelope.payload.as_str(), from_postcard)
}

/// Newtype that always serde-encodes `T` via the compact envelope.
///
/// Prefer the session threshold path for normal types; use this only when a
/// value must always be compact regardless of size.
#[derive(Clone, Copy, Debug, Default, PartialEq, Eq, PartialOrd, Ord, Hash)]
pub struct CompactJson<T>(pub T);

impl<T> CompactJson<T> {
    /// Wraps a value.
    pub fn new(value: T) -> (r: Self)
        ensures
            r.0 == value,
    {
        CompactJson(value)
    }

    /// The wrapped value.
    pub fn into_inner(self) -> (value: T)
        ensures
            value == self.0,
    {
        self.0
    }
}

impl<T> std::ops::Deref for CompactJson<T> {
    type Target = T;

    fn deref(&self) -> (r: &T)
        ensures
            *r == self.0,
    {
        &self.0
    }
}

impl<T> From<T> for CompactJson<T> {
    fn from(value: T) -> (r: Self) {
        CompactJson(value)
    }
}

impl<T> vstd::std_specs::convert::FromSpecImpl<T> for CompactJson<T> {
    open spec fn obeys_from_spec() -> bool {
        true
    }

    open spec fn from_spec(value: T) -> Self {
        CompactJson(value)
    }
}

/// An envelope document is recognised, and its payload is found in it.
pub proof fn law_envelope_is_recognised(payload: Seq<char>)
    ensures
        is_envelope(envelope_document(payload)),
        crate::value::text_field_of(envelope_document(payload), "payload"@) == Some(payload),
{
    reveal_strlit("encoding");
    reveal_strlit("payload");
    assert("encoding"@.len() != "payload"@.len());
}

/// Extra document fields are ignored: a field of another name makes no
/// difference to whether a document is an envelope, nor to its payload.
pub proof fn law_envelope_ignores_other_fields(
    fields: Map<Seq<char>, Json>,
    name: Seq<char>,
    value: Json,
)
    requires
        name != "encoding"@,
        name != "payload"@,
    ensures
        is_envelope(Json::Object(fields.insert(name, value))) == is_envelope(Json::Object(fields)),
        crate::value::text_field_of(Json::Object(fields.insert(name, value)), "payload"@)
            == crate::value::text_field_of(Json::Object(fields), "payload"@),
{
}

/// A compact document that was given a key and metadata for storage is still
/// recognised, and its payload is the one written.
pub proof fn law_stored_envelope_keeps_payload(
    payload: Seq<char>,
    key_field: Seq<char>,
    key: Seq<char>,
    kind: crate::db::connection::DocumentKind,
    version: u64,
)
    requires
        key_field != "encoding"@,
        key_field != "payload"@,
    ensures
        ({
            let stored = Json::Object(
                crate::db::connection::with_metadata(
                    envelope_document(payload)->Object_0.insert(key_field, Json::String(key)),
                    kind,
                    version,
                ),
            );
            is_envelope(stored) && crate::value::text_field_of(stored, "payload"@) == Some(payload)
        }),
{
    reveal_strlit("encoding");
    reveal_strlit("payload");
    reveal_strlit("bevy_persistence_database_metadata");
    let fields = envelope_document(payload)->Object_0;
    law_envelope_is_recognised(payload);
    law_envelope_ignores_other_fields(fields, key_field, Json::String(key));
    let metadata = crate::db::connection::BEVY_PERSISTENCE_DATABASE_METADATA_FIELD;
    assert(metadata@.len() == 34);
    law_envelope_ignores_other_fields(
        fields.insert(key_field, Json::String(key)),
        metadata@,
        crate::db::connection::metadata(kind, version),
    );
}

/// The reader makes `value` of these bytes, whatever else it does.
pub open spec fn reads_as<T, P: FnOnce(Vec<u8>) -> Result<T, String>>(
    from_postcard: P,
    bytes: Seq<u8>,
    value: T,
) -> bool {
    forall|raw: Vec<u8>, answer: Result<T, String>| #[trigger]
        from_postcard.ensures((raw,), answer) && raw@ == bytes ==> answer == Ok::<T, String>(value)
}

/// A compact value reads back what was written: the reader gets the very bytes
/// that the payload was made of, and what it makes of them is the result.
pub proof fn law_compact_value_reads_back<T, P: FnOnce(Vec<u8>) -> Result<T, String>>(
    payload: Seq<char>,
    bytes: Seq<u8>,
    from_postcard: P,
    r: Result<T, CompactError>,
)
    requires
        payload_bytes(payload) == Some(bytes),
        decoded_by(payload, from_postcard, r),
    ensures
        exists|raw: Vec<u8>| raw@ == bytes && #[trigger] read_by(raw, from_postcard, r),
        forall|value: T| #[trigger]
            reads_as(from_postcard, bytes, value) ==> r == Ok::<T, CompactError>(value),
{
}

/// An envelope reads back the value that was wrapped in it.
pub proof fn law_envelope_reads_back<T, P: FnOnce(Vec<u8>) -> Result<T, String>>(
    envelope: CompactEnvelope,
    bytes: Seq<u8>,
    from_postcard: P,
    value: T,
    r: Result<T, CompactError>,
)
    requires
        envelope.encoding@ == ENCODING@,
        payload_bytes(envelope.payload@) == Some(bytes),
        reads_as(from_postcard, bytes, value),
        unwrapped_by(envelope, from_postcard, r),
    ensures
        r == Ok::<T, CompactError>(value),
{
}

/// What is stored is loaded again, compact or plain: where the value's postcard
/// bytes and its plain JSON are read as the value, storing it succeeds whatever
/// the threshold, and loading what was stored gives the value. A plain JSON that
/// looks like an envelope would be taken for one.
pub proof fn law_persisted_value_reads_back<
    T,
    W: FnOnce() -> Result<Value, String>,
    P: FnOnce(Vec<u8>) -> Result<T, String>,
    J: FnOnce(Value) -> Result<T, String>,
>(
    value: T,
    raw: Vec<u8>,
    threshold_bytes: usize,
    to_json: W,
    stored: Result<Value, CompactError>,
    from_postcard: P,
    from_json: J,
    r: Result<T, CompactError>,
)
    requires
        reads_as(from_postcard, raw@, value),
        forall|answer: Result<Value, String>| #[trigger]
            to_json.ensures((), answer) ==> answer is Ok && !is_envelope(answer->Ok_0@),
        forall|json: Value, answer: Result<T, String>|
            to_json.ensures((), Ok::<Value, String>(json)) && #[trigger] from_json.ensures(
                (json,),
                answer,
            ) ==> answer == Ok::<T, String>(value),
        persisted_by(Ok::<Vec<u8>, String>(raw), threshold_bytes, to_json, stored),
        stored matches Ok(json) ==> restored_by(json, from_postcard, from_json, r),
    ensures
        stored is Ok,
        r == Ok::<T, CompactError>(value),
{
    if raw@.len() > threshold_bytes {
        law_envelope_is_recognised(payload_text(raw@, DEFAULT_ZSTD_LEVEL));
    }
}

/// A compact value is loaded again from a document that got a further field,
/// such as its key, after it was written.
pub proof fn law_keyed_compact_value_reads_back<
    T,
    W: FnOnce() -> Result<Value, String>,
    P: FnOnce(Vec<u8>) -> Result<T, String>,
    J: FnOnce(Value) -> Result<T, String>,
>(
    value: T,
    raw: Vec<u8>,
    threshold_bytes: usize,
    to_json: W,
    stored: Result<Value, CompactError>,
    name: Seq<char>,
    extra: Json,
    document: Value,
    from_postcard: P,
    from_json: J,
    r: Result<T, CompactError>,
)
    requires
        raw@.len() > threshold_bytes,
        name != "encoding"@,
        name != "payload"@,
        reads_as(from_postcard, raw@, value),
        persisted_by(Ok::<Vec<u8>, String>(raw), threshold_bytes, to_json, stored),
        stored matches Ok(json) ==> document@ == Json::Object(
            json@->Object_0.insert(name, extra),
        ),
        restored_by(document, from_postcard, from_json, r),
    ensures
        is_envelope(document@),
        r == Ok::<T, CompactError>(value),
{
    let payload = payload_text(raw@, DEFAULT_ZSTD_LEVEL);
    law_envelope_is_recognised(payload);
    law_envelope_ignores_other_fields(envelope_document(payload)->Object_0, name, extra);
}

} // verus!
