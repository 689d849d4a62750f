//! Compact encoding of large values.
use base64::engine::general_purpose::STANDARD;
use base64::Engine;
use bevy::prelude::{Resource, World};
use bevy_persistence_database::compact::{
    bytes_of_decompressed, decode, decode_payload, document_of_payload, encode,
    encode_postcard_bytes, encode_with_level, envelope_of_payload, from_envelope,
    from_persist_value, is_compact_envelope, payload_of_compressed, read_decoded, to_envelope,
    to_persist_value, CompactEnvelope, CompactError,
    CompactJson, DEFAULT_COMPACT_THRESHOLD_BYTES, DEFAULT_ZSTD_LEVEL, ENCODING,
};
use bevy_persistence_database::session::prepare_commit::serialized_field;
use bevy_persistence_database::session::PersistenceSession;
use bevy_persistence_database::value::{Number, Object, Value};
use serde::ser::SerializeStruct;
use serde::{Deserialize, Serialize};

#[derive(Debug, Clone, PartialEq)]
struct Sample {
    name: String,
    values: Vec<f32>,
}

impl serde::Serialize for Sample {
    fn serialize<S: serde::Serializer>(&self, serializer: S) -> Result<S::Ok, S::Error> {
        let mut state = serializer.serialize_struct("Sample", 2)?;
        state.serialize_field("name", &self.name)?;
        state.serialize_field("values", &self.values)?;
        state.end()
    }
}

struct SampleVisitor;

impl<'de> serde::de::Visitor<'de> for SampleVisitor {
    type Value = Sample;

    fn expecting(&self, f: &mut std::fmt::Formatter) -> std::fmt::Result {
        f.write_str("a sample")
    }

    fn visit_seq<A: serde::de::SeqAccess<'de>>(self, mut seq: A) -> Result<Sample, A::Error> {
        let name = seq.next_element()?.ok_or_else(|| missing("name"))?;
        let values = seq.next_element()?.ok_or_else(|| missing("values"))?;
        Ok(Sample { name, values })
    }

    fn visit_map<A: serde::de::MapAccess<'de>>(self, mut map: A) -> Result<Sample, A::Error> {
        let mut name = None;
        let mut values = None;
        while let Some(key) = map.next_key::<String>()? {
            match key.as_str() {
                "name" => name = Some(map.next_value()?),
                "values" => values = Some(map.next_value()?),
                _ => {
                    let _: serde::de::IgnoredAny = map.next_value()?;
                }
            }
        }
        Ok(Sample {
            name: name.ok_or_else(|| missing("name"))?,
            values: values.ok_or_else(|| missing("values"))?,
        })
    }
}

fn missing<E: serde::de::Error>(field: &'static str) -> E {
    E::missing_field(field)
}

impl<'de> serde::Deserialize<'de> for Sample {
    fn deserialize<D: serde::Deserializer<'de>>(deserializer: D) -> Result<Self, D::Error> {
        deserializer.deserialize_struct("Sample", &["name", "values"], SampleVisitor)
    }
}

fn postcard_of<T: serde::Serialize>(value: &T) -> Result<Vec<u8>, String> {
    postcard::to_allocvec(value).map_err(|e| e.to_string())
}

fn from_postcard(raw: Vec<u8>) -> Result<Sample, String> {
    postcard::from_bytes(&raw).map_err(|e| e.to_string())
}

fn from_json(value: Value) -> Result<Sample, String> {
    serde_json::from_value(to_serde(&value)).map_err(|e| e.to_string())
}

fn to_json<T: serde::Serialize>(value: &T) -> Result<Value, String> {
    serde_json::to_value(value).map(|v| from_serde(&v)).map_err(|e| e.to_string())
}

fn to_serde(value: &Value) -> serde_json::Value {
    match value {
        Value::Null => serde_json::Value::Null,
        Value::Bool(b) => serde_json::Value::Bool(*b),
        Value::Number(Number::PosInt(n)) => serde_json::Value::from(*n),
        Value::Number(Number::NegInt(n)) => serde_json::Value::from(*n),
        Value::Number(Number::Float(bits)) => serde_json::Value::from(f64::from_bits(*bits)),
        Value::String(s) => serde_json::Value::String(s.clone()),
        Value::Array(items) => serde_json::Value::Array(items.iter().map(to_serde).collect()),
        Value::Object(o) => serde_json::Value::Object(
            o.entries.iter().map(|(k, v)| (k.clone(), to_serde(v))).collect(),
        ),
    }
}

fn from_serde(value: &serde_json::Value) -> Value {
    match value {
        serde_json::Value::Null => Value::Null,
        serde_json::Value::Bool(b) => Value::Bool(*b),
        serde_json::Value::Number(n) => Value::Number(match (n.as_u64(), n.as_i64()) {
            (Some(n), _) => Number::PosInt(n),
            (None, Some(n)) => Number::NegInt(n),
            _ => Number::Float(n.as_f64().unwrap().to_bits()),
        }),
        serde_json::Value::String(s) => Value::String(s.clone()),
        serde_json::Value::Array(items) => Value::Array(items.iter().map(from_serde).collect()),
        serde_json::Value::Object(map) => {
            let mut o = Object::new();
            for (k, v) in map {
                o.insert(k.clone(), from_serde(v));
            }
            Value::Object(o)
        }
    }
}

#[test]
fn encode_decode_round_trips_arbitrary_struct() {
    let original = Sample {
        name: "grid".into(),
        values: (0..1000).map(|i| i as f32 * 0.01).collect(),
    };
    let payload = encode(postcard_of(&original)).expect("encode");
    let restored: Sample = decode(&payload, from_postcard).expect("decode");
    assert_eq!(restored, original);
}

#[test]
fn serde_envelope_is_versioned_and_smaller_than_naive_json() {
    let original = Sample { name: "big".into(), values: vec![0.25; 2000] };
    let envelope = to_envelope(postcard_of(&original)).expect("compact serialize");
    let mut fields = serde_json::Map::new();
    fields.insert("encoding".into(), envelope.encoding.clone().into());
    fields.insert("payload".into(), envelope.payload.clone().into());
    let compact = serde_json::to_vec(&fields).expect("envelope json");
    let naive = serde_json::to_vec(&original).expect("naive json");
    let value: serde_json::Value = serde_json::from_slice(&compact).expect("parse envelope");
    assert_eq!(value["encoding"], ENCODING);
    assert!(
        compact.len() * 4 < naive.len(),
        "compact {} should be much smaller than naive {}",
        compact.len(),
        naive.len()
    );

    let wrapped = CompactJson(original.clone());
    let envelope = to_envelope(postcard_of(&wrapped.0)).unwrap();
    let back: CompactJson<Sample> =
        CompactJson::new(from_envelope(&envelope, from_postcard).unwrap());
    assert_eq!(*back, original);
}

#[test]
fn rejects_unknown_encoding_tag() {
    let bad = CompactEnvelope { encoding: "unknown-v0".into(), payload: "AAAA".into() };
    let err = from_envelope(&bad, from_postcard).unwrap_err();
    assert!(
        err.0.contains("unsupported compact persist encoding"),
        "unexpected error: {err:?}"
    );
    assert_eq!(err.0, "unsupported compact persist encoding \"unknown-v0\"");
}

#[test]
fn to_persist_value_keeps_small_values_as_json() {
    let original = Sample { name: "tiny".into(), values: vec![1.0] };
    let value = to_persist_value(
        postcard_of(&original),
        DEFAULT_COMPACT_THRESHOLD_BYTES,
        || to_json(&original),
    )
    .unwrap();
    assert!(!is_compact_envelope(&value));
    assert_eq!(from_persist_value(value, from_postcard, from_json).unwrap(), original);
}

#[test]
fn to_persist_value_compacts_when_over_threshold() {
    let original = Sample { name: "big".into(), values: vec![0.5; 5000] };
    let value = to_persist_value(postcard_of(&original), 64, || to_json(&original)).unwrap();
    assert!(is_compact_envelope(&value));
    // Document metadata may sit alongside the envelope on disk.
    let mut with_meta = value.clone();
    if let Value::Object(fields) = &mut with_meta {
        fields.insert("_key".into(), Value::String("Sample".into()));
    }
    assert!(is_compact_envelope(&with_meta));
    assert_eq!(from_persist_value(with_meta, from_postcard, from_json).unwrap(), original);
}

#[derive(Clone, PartialEq, Debug)]
struct BigRes {
    values: Vec<f32>,
}

impl Resource for BigRes {}

impl serde::Serialize for BigRes {
    fn serialize<S: serde::Serializer>(&self, serializer: S) -> Result<S::Ok, S::Error> {
        self.values.serialize(serializer)
    }
}

impl<'de> serde::Deserialize<'de> for BigRes {
    fn deserialize<D: serde::Deserializer<'de>>(deserializer: D) -> Result<Self, D::Error> {
        Vec::deserialize(deserializer).map(|values| BigRes { values })
    }
}

#[test]
fn resource_serializer_compacts_when_over_threshold() {
    let mut world = World::new();
    world.insert_resource(BigRes { values: vec![0.25; 5000] });
    let mut session = PersistenceSession::new().with_compact_threshold(64);
    session.register_resource_named(1, "BigRes");

    let big = world.resource::<BigRes>();
    let encoded = to_persist_value(
        postcard_of(big),
        session.compact_threshold_bytes(),
        || to_json(big),
    );
    let (name, value) =
        serialized_field("BigRes", Some(encoded)).expect("serialized").expect("present");
    assert_eq!(name, "BigRes");
    assert!(is_compact_envelope(&value));

    let mut loaded = World::new();
    if session.hydrate_resource(&name) {
        let read = |raw: Vec<u8>| -> Result<BigRes, String> {
            postcard::from_bytes(&raw).map_err(|e| e.to_string())
        };
        let never = |_: Value| -> Result<BigRes, String> { Err("not compact".to_string()) };
        loaded.insert_resource(from_persist_value(value, read, never).unwrap());
    }
    assert_eq!(loaded.resource::<BigRes>().values.len(), 5000);
}

#[test]
fn threshold_is_exclusive() {
    let json = || Ok(Value::Null);
    let at = to_persist_value(Ok(vec![7; 10]), 10, json).unwrap();
    assert!(matches!(at, Value::Null));
    let over = to_persist_value(Ok(vec![7; 11]), 10, json).unwrap();
    assert!(is_compact_envelope(&over));
}

#[test]
fn payload_bytes_round_trip_at_every_level() {
    let raw: Vec<u8> = (0..5000u32).map(|i| (i % 251) as u8).collect();
    for level in [-7, 0, 1, DEFAULT_ZSTD_LEVEL, 19] {
        let payload = encode_postcard_bytes(&raw, level).unwrap();
        assert_ne!(payload.as_bytes(), raw.as_slice());
        assert_eq!(decode_payload(&payload).unwrap(), raw);
    }
    let empty = encode_postcard_bytes(&[], DEFAULT_ZSTD_LEVEL).unwrap();
    assert_eq!(decode_payload(&empty).unwrap(), Vec::<u8>::new());
}

#[test]
fn payload_is_base64_of_the_compressed_bytes() {
    assert_eq!(payload_of_compressed(Ok(vec![0, 1, 2, 255])).unwrap(), "AAEC/w==");
    assert_eq!(payload_of_compressed(Ok(vec![])).unwrap(), "");
    let err = payload_of_compressed(Err("out of memory".to_string())).unwrap_err();
    assert_eq!(err, CompactError("zstd encode: out of memory".to_string()));
}

#[test]
fn decode_errors_name_their_step() {
    let err = decode_payload("not base64!").unwrap_err();
    let reason = STANDARD.decode("not base64!").unwrap_err().to_string();
    assert_eq!(err.0, format!("base64 decode: {reason}"));
    // Base64, but no zstd frame.
    let err = decode_payload("AAEC/w==").unwrap_err();
    assert!(err.0.starts_with("zstd decode: "), "{err:?}");
    let err = bytes_of_decompressed(Err("bad frame".to_string())).unwrap_err();
    assert_eq!(err.0, "zstd decode: bad frame");
    assert_eq!(bytes_of_decompressed(Ok(vec![3])).unwrap(), vec![3]);
    let payload = encode_postcard_bytes(&[1], DEFAULT_ZSTD_LEVEL).unwrap();
    let refuse = |_: Vec<u8>| -> Result<u8, String> { Err("no".to_string()) };
    assert_eq!(decode(&payload, refuse).unwrap_err().0, "postcard decode: no");
}

#[test]
fn encode_errors_name_their_step() {
    let failed = || Err("no bytes".to_string());
    assert_eq!(encode(failed()).unwrap_err().0, "postcard encode: no bytes");
    assert_eq!(encode_with_level(failed(), 1).unwrap_err().0, "postcard encode: no bytes");
    assert_eq!(to_envelope(failed()).unwrap_err().0, "postcard encode: no bytes");
    let err = to_persist_value(failed(), 10, || Ok(Value::Null)).unwrap_err();
    assert_eq!(err.0, "postcard encode: no bytes");
    let err = to_persist_value(Ok(vec![]), 10, || Err("nan".to_string())).unwrap_err();
    assert_eq!(err.0, "json encode: nan");
    let err = from_persist_value(
        Value::Null,
        |_: Vec<u8>| Ok(1u8),
        |_: Value| Err("wrong".to_string()),
    )
    .unwrap_err();
    assert_eq!(err.0, "json decode: wrong");
}

#[test]
fn only_envelopes_are_recognised() {
    let envelope = |encoding: Value, payload: Value| {
        let mut o = Object::new();
        o.insert("encoding".to_string(), encoding);
        o.insert("payload".to_string(), payload);
        Value::Object(o)
    };
    let text = |s: &str| Value::String(s.to_string());
    assert!(is_compact_envelope(&envelope(text(ENCODING), text(""))));
    assert!(!is_compact_envelope(&envelope(text("other"), text(""))));
    assert!(!is_compact_envelope(&envelope(text(ENCODING), Value::Null)));
    assert!(!is_compact_envelope(&envelope(Value::Null, text(""))));
    assert!(!is_compact_envelope(&text(ENCODING)));
}

#[test]
fn compact_json_wraps_and_unwraps() {
    let wrapped = CompactJson::new(5u8);
    assert_eq!(*wrapped, 5);
    assert_eq!(wrapped.into_inner(), 5);
    let from: CompactJson<u8> = 6u8.into();
    assert_eq!(from, CompactJson(6));
}

#[test]
fn steps_after_the_outside_calls_pass_errors_on() {
    let error = || CompactError("earlier".to_string());
    let reader = |raw: Vec<u8>| -> Result<usize, String> { Ok(raw.len()) };
    assert_eq!(read_decoded(Ok(vec![1, 2, 3]), reader), Ok(3));
    assert_eq!(read_decoded(Err(error()), reader), Err(error()));

    let document = document_of_payload(Ok("abc".to_string())).unwrap();
    assert!(is_compact_envelope(&document));
    assert_eq!(document.get("payload").and_then(|v| v.as_str()), Some("abc"));
    assert_eq!(document_of_payload(Err(error())).unwrap_err(), error());

    let envelope = envelope_of_payload(Ok("abc".to_string())).unwrap();
    assert_eq!(envelope.encoding, ENCODING);
    assert_eq!(envelope.payload, "abc");
    assert_eq!(envelope_of_payload(Err(error())).unwrap_err(), error());
}
