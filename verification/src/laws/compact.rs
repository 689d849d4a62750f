//! Compact values: when they are used, what they hold, and how they are read.
use vstd::prelude::*;
use vstd::string::*;

use crate::compact;
use crate::compact::{
    decode, decode_payload, encode, encode_postcard_bytes, encode_with_level, from_envelope,
    from_persist_value, is_compact_envelope, to_envelope, to_persist_value, CompactEnvelope,
    CompactError, CompactJson, DEFAULT_ZSTD_LEVEL,
};
use crate::laws::load;
use crate::value::{Json, Value};

verus! {

/// The document says that it is a compact value with that payload.
pub open spec fn is_compact(doc: Json, payload: Seq<char>) -> bool {
    &&& load::has_field(doc, "encoding"@, Json::String("postcard+zstd-v1"@))
    &&& load::has_field(doc, "payload"@, Json::String(payload))
}

/// The payload is the Base64 text of zstd frames that hold these bytes.
pub open spec fn payload_holds(payload: Seq<char>, bytes: Seq<u8>) -> bool {
    &&& compact::base64_decoded(payload) is Ok
    &&& compact::zstd_decoded(compact::base64_decoded(payload)->Ok_0) == Some(bytes)
}

/// The payload is made of these bytes at that level.
pub open spec fn payload_made_of(payload: Seq<char>, bytes: Seq<u8>, level: i32) -> bool {
    &&& payload == compact::base64_encoded(compact::zstd_encoded(bytes, level))
    &&& payload_holds(payload, bytes)
}

/// A document is taken for a compact value exactly where it says so and has a
/// payload.
pub proof fn law_envelope_says_so(value: &Value, b: bool)
    requires
        call_ensures(is_compact_envelope, (value,), b),
    ensures
        b <==> exists|payload: Seq<char>| #[trigger] is_compact(value@, payload),
{
    if b {
        let payload = crate::value::text_field_of(value@, "payload"@)->0;
        assert(is_compact(value@, payload));
    }
}

/// Bytes are encoded at the level asked for, the default one where none is; what
/// postcard could not write is refused.
pub proof fn law_bytes_are_encoded(
    raw: &[u8],
    postcard: Result<Vec<u8>, String>,
    level: i32,
    r: Result<String, CompactError>,
    wrapped: Result<CompactEnvelope, CompactError>,
)
    ensures
        call_ensures(encode_postcard_bytes, (raw, level), r) ==> r is Ok && payload_made_of(
            r->Ok_0@,
            raw@,
            level,
        ),
        call_ensures(encode_with_level, (postcard, level), r) ==> match postcard {
            Ok(bytes) => r is Ok && payload_made_of(r->Ok_0@, bytes@, level),
            Err(e) => r is Err && r->Err_0@ == "postcard encode: "@ + e@,
        },
        call_ensures(encode, (postcard,), r) ==> match postcard {
            Ok(bytes) => r is Ok && payload_made_of(r->Ok_0@, bytes@, 3),
            Err(e) => r is Err && r->Err_0@ == "postcard encode: "@ + e@,
        },
        call_ensures(to_envelope, (postcard,), wrapped) ==> match postcard {
            Ok(bytes) => wrapped is Ok && wrapped->Ok_0.encoding@ == "postcard+zstd-v1"@
                && payload_made_of(wrapped->Ok_0.payload@, bytes@, 3),
            Err(e) => wrapped is Err && wrapped->Err_0@ == "postcard encode: "@ + e@,
        },
{
}

/// A payload gives the bytes it holds, and is refused exactly where it holds none.
pub proof fn law_payload_gives_its_bytes(payload: &str, r: Result<Vec<u8>, CompactError>)
    requires
        call_ensures(decode_payload, (payload,), r),
    ensures
        forall|bytes: Seq<u8>| #[trigger]
            payload_holds(payload@, bytes) ==> r is Ok && r->Ok_0@ == bytes,
        r matches Ok(raw) ==> payload_holds(payload@, raw@),
{
}

/// A value is stored compact exactly where its postcard bytes exceed the
/// threshold, with those bytes in its payload; otherwise as the plain JSON that
/// its type gives.
pub proof fn law_large_values_are_compact<J: FnOnce() -> Result<Value, String>>(
    postcard: Result<Vec<u8>, String>,
    threshold: usize,
    to_json: J,
    r: Result<Value, CompactError>,
)
    requires
        call_ensures(to_persist_value::<J>, (postcard, threshold, to_json), r),
    ensures
        match postcard {
            Err(e) => r is Err && r->Err_0@ == "postcard encode: "@ + e@,
            Ok(raw) => {
                &&& raw@.len() > threshold ==> r is Ok && exists|payload: Seq<char>| #[trigger]
                    is_compact(r->Ok_0@, payload) && payload_made_of(payload, raw@, 3)
                &&& raw@.len() <= threshold ==> exists|answer: Result<Value, String>| #[trigger]
                    to_json.ensures((), answer) && match answer {
                        Ok(json) => r is Ok && r->Ok_0 == json,
                        Err(e) => r is Err && r->Err_0@ == "json encode: "@ + e@,
                    }
            },
        },
{
    match postcard {
        Ok(raw) => {
            if raw@.len() > threshold {
                let payload = compact::payload_text(raw@, DEFAULT_ZSTD_LEVEL);
                compact::law_envelope_is_recognised(payload);
                assert(is_compact(r->Ok_0@, payload));
            } else {
                let answer = choose|answer: Result<Value, String>| #[trigger]
                    to_json.ensures((), answer) && match (answer, r) {
                        (Ok(json), Ok(value)) => value == json,
                        (Err(e), Err(error)) => error@ == "json encode: "@ + e@,
                        _ => false,
                    };
                assert(to_json.ensures((), answer));
            }
        },
        Err(_) => {},
    }
}

/// Where a value's postcard bytes and plain JSON are both read as the value, what
/// is stored is loaded again as the value, at every threshold. A plain JSON that
/// says that it is a compact value would be taken for one.
pub proof fn law_stored_value_is_loaded<
    T,
    W: FnOnce() -> Result<Value, String>,
    P: FnOnce(Vec<u8>) -> Result<T, String>,
    J: FnOnce(Value) -> Result<T, String>,
>(
    value: T,
    raw: Vec<u8>,
    threshold: usize,
    to_json: W,
    stored: Result<Value, CompactError>,
    from_postcard: P,
    from_json: J,
    r: Result<T, CompactError>,
)
    requires
        forall|bytes: Vec<u8>, answer: Result<T, String>| #[trigger]
            from_postcard.ensures((bytes,), answer) && bytes@ == raw@ ==> answer == Ok::<T, String>(
                value,
            ),
        forall|answer: Result<Value, String>| #[trigger]
            to_json.ensures((), answer) ==> answer is Ok && !exists|payload: Seq<char>| #[trigger]
                is_compact(answer->Ok_0@, payload),
        forall|json: Value, answer: Result<T, String>|
            to_json.ensures((), Ok::<Value, String>(json)) && #[trigger] from_json.ensures(
                (json,),
                answer,
            ) ==> answer == Ok::<T, String>(value),
        call_ensures(
            to_persist_value::<W>,
            (Ok::<Vec<u8>, String>(raw), threshold, to_json),
            stored,
        ),
        stored matches Ok(json) ==> call_ensures(
            from_persist_value::<T, P, J>,
            (json, from_postcard, from_json),
            r,
        ),
    ensures
        stored is Ok,
        r == Ok::<T, CompactError>(value),
{
    assert forall|answer: Result<Value, String>| #[trigger]
        to_json.ensures((), answer) implies answer is Ok && !compact::is_envelope(
        answer->Ok_0@,
    ) by {
        if compact::is_envelope(answer->Ok_0@) {
            let payload = crate::value::text_field_of(answer->Ok_0@, "payload"@)->0;
            assert(is_compact(answer->Ok_0@, payload));
        }
    }
    assert(compact::reads_as(from_postcard, raw@, value));
    compact::law_persisted_value_reads_back(
        value,
        raw,
        threshold,
        to_json,
        stored,
        from_postcard,
        from_json,
        r,
    );
}

/// Loading a stored value: a compact one goes to the postcard reader with the bytes
/// of its payload, any other one as it is to the JSON reader.
pub proof fn law_loaded_value_goes_to_its_reader<
    T,
    P: FnOnce(Vec<u8>) -> Result<T, String>,
    J: FnOnce(Value) -> Result<T, String>,
>(
    stored: Value,
    from_postcard: P,
    from_json: J,
    r: Result<T, CompactError>,
    payload: Seq<char>,
    bytes: Seq<u8>,
)
    requires
        call_ensures(from_persist_value::<T, P, J>, (stored, from_postcard, from_json), r),
    ensures
        is_compact(stored@, payload) && payload_holds(payload, bytes) ==> exists|
            raw: Vec<u8>,
            answer: Result<T, String>,
        |
            raw@ == bytes && #[trigger] from_postcard.ensures((raw,), answer) && match answer {
                Ok(value) => r == Ok::<T, CompactError>(value),
                Err(e) => r is Err && r->Err_0@ == "postcard decode: "@ + e@,
            },
        (forall|p: Seq<char>| !(#[trigger] is_compact(stored@, p))) ==> exists|
            answer: Result<T, String>,
        | #[trigger]
            from_json.ensures((stored,), answer) && match answer {
                Ok(value) => r == Ok::<T, CompactError>(value),
                Err(e) => r is Err && r->Err_0@ == "json decode: "@ + e@,
            },
{
    if is_compact(stored@, payload) && payload_holds(payload, bytes) {
        assert(compact::is_envelope(stored@));
        assert(compact::payload_bytes(payload) == Some(bytes));
        let raw = choose|raw: Vec<u8>|
            raw@ == bytes && #[trigger] compact::read_by(raw, from_postcard, r);
        let answer = choose|answer: Result<T, String>| #[trigger]
            from_postcard.ensures((raw,), answer) && match (answer, r) {
                (Ok(value), Ok(out)) => out == value,
                (Err(e), Err(error)) => error@ == "postcard decode: "@ + e@,
                _ => false,
            };
        assert(from_postcard.ensures((raw,), answer));
    }
    if forall|p: Seq<char>| !(#[trigger] is_compact(stored@, p)) {
        if compact::is_envelope(stored@) {
            assert(is_compact(stored@, crate::value::text_field_of(stored@, "payload"@)->0));
        }
        let answer = choose|answer: Result<T, String>| #[trigger]
            from_json.ensures((stored,), answer) && match (answer, r) {
                (Ok(read), Ok(out)) => out == read,
                (Err(e), Err(error)) => error@ == "json decode: "@ + e@,
                _ => false,
            };
        assert(from_json.ensures((stored,), answer));
    }
}

/// An envelope of another encoding is refused by name; one of this encoding is read
/// from the bytes of its payload.
pub proof fn law_envelope_is_read<T, P: FnOnce(Vec<u8>) -> Result<T, String>>(
    envelope: &CompactEnvelope,
    from_postcard: P,
    r: Result<T, CompactError>,
    bytes: Seq<u8>,
    value: T,
)
    requires
        call_ensures(from_envelope::<T, P>, (envelope, from_postcard), r),
    ensures
        envelope.encoding@ != "postcard+zstd-v1"@ ==> r is Err && r->Err_0@
            == "unsupported compact persist encoding "@ + compact::debug_quoted(
            envelope.encoding@,
        ),
        envelope.encoding@ == "postcard+zstd-v1"@ && payload_holds(envelope.payload@, bytes) && (
        forall|raw: Vec<u8>, answer: Result<T, String>| #[trigger]
            from_postcard.ensures((raw,), answer) && raw@ == bytes ==> answer == Ok::<T, String>(
                value,
            )) ==> r == Ok::<T, CompactError>(value),
{
    if envelope.encoding@ == "postcard+zstd-v1"@ && payload_holds(envelope.payload@, bytes) {
        assert(compact::payload_bytes(envelope.payload@) == Some(bytes));
    }
}

/// A payload is decoded by the reader from the bytes that it holds.
pub proof fn law_payload_is_decoded<T, P: FnOnce(Vec<u8>) -> Result<T, String>>(
    payload: &str,
    from_postcard: P,
    r: Result<T, CompactError>,
    bytes: Seq<u8>,
    value: T,
)
    requires
        call_ensures(decode::<T, P>, (payload, from_postcard), r),
        payload_holds(payload@, bytes),
        forall|raw: Vec<u8>, answer: Result<T, String>| #[trigger]
            from_postcard.ensures((raw,), answer) && raw@ == bytes ==> answer == Ok::<T, String>(
                value,
            ),
    ensures
        r == Ok::<T, CompactError>(value),
{
    assert(compact::payload_bytes(payload@) == Some(bytes));
}

/// A wrapped value comes out as it went in.
pub proof fn law_wrapped_value_comes_out<T>(value: T, wrapped: CompactJson<T>, out: T)
    requires
        call_ensures(CompactJson::<T>::new, (value,), wrapped),
        call_ensures(CompactJson::<T>::into_inner, (wrapped,), out),
    ensures
        out == value,
{
}

/// The steps of encoding and decoding pass on what they are given: bytes in their
/// form, and an error as it is or with the name of its step before it.
pub proof fn law_steps_pass_on_what_they_are_given(
    bytes: Result<Vec<u8>, String>,
    encoded: Result<String, CompactError>,
    decoded: Result<Vec<u8>, CompactError>,
    document: Result<Value, CompactError>,
    envelope: Result<CompactEnvelope, CompactError>,
)
    ensures
        call_ensures(compact::payload_of_compressed, (bytes,), encoded) ==> match bytes {
            Ok(b) => encoded is Ok && encoded->Ok_0@ == compact::base64_encoded(b@),
            Err(e) => encoded is Err && encoded->Err_0@ == "zstd encode: "@ + e@,
        },
        call_ensures(compact::bytes_of_decompressed, (bytes,), decoded) ==> match bytes {
            Ok(b) => decoded is Ok && decoded->Ok_0@ == b@,
            Err(e) => decoded is Err && decoded->Err_0@ == "zstd decode: "@ + e@,
        },
        call_ensures(compact::document_of_payload, (encoded,), document) ==> match encoded {
            Ok(payload) => document is Ok && is_compact(document->Ok_0@, payload@),
            Err(e) => document is Err && document->Err_0@ == e@,
        },
        call_ensures(compact::envelope_of_payload, (encoded,), envelope) ==> match encoded {
            Ok(payload) => envelope is Ok && envelope->Ok_0.encoding@ == "postcard+zstd-v1"@
                && envelope->Ok_0.payload@ == payload@,
            Err(e) => envelope is Err && envelope->Err_0@ == e@,
        },
{
    match encoded {
        Ok(payload) => {
            compact::law_envelope_is_recognised(payload@);
        },
        Err(_) => {},
    }
}

/// The document of an envelope has no fields but its two.
pub proof fn law_envelope_has_two_fields(
    payload: Result<String, CompactError>,
    document: Result<Value, CompactError>,
    name: Seq<char>,
    value: Json,
)
    requires
        call_ensures(compact::document_of_payload, (payload,), document),
        document is Ok,
        load::has_field(document->Ok_0@, name, value),
    ensures
        name == "encoding"@ || name == "payload"@,
{
}

} // verus!
