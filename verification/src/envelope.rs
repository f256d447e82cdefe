//! The request and response envelopes, the payload model, and the uniform
//! success/error response shapes.

use crate::text::str_eq;
use vstd::prelude::*;
use vstd::string::StringExecFns;

verus! {

/// One payload field as the dispatcher sees it: either a string, or a value
/// of some other shape that no command accepts.
pub enum FieldValue {
    Str(String),
    Other,
}

/// A named payload field.
pub struct PayloadField {
    pub name: String,
    pub value: FieldValue,
}

/// The structured payload of a request: named fields. Only string fields are
/// ever read; anything else counts as missing.
pub struct Payload {
    pub fields: Vec<PayloadField>,
}

impl View for Payload {
    type V = Seq<(Seq<char>, Option<Seq<char>>)>;

    open spec fn view(&self) -> Seq<(Seq<char>, Option<Seq<char>>)> {
        self.fields@.map_values(
            |f: PayloadField|
                (
                    f.name@,
                    match f.value {
                        FieldValue::Str(s) => Some(s@),
                        FieldValue::Other => None,
                    },
                ),
        )
    }
}

/// Identifies the caller of a request.
pub struct IpcMeta {
    pub source: String,
}

/// A request envelope.
pub struct IpcRequest {
    pub id: String,
    pub cmd: String,
    pub payload: Payload,
    pub meta: IpcMeta,
}

/// The closed error taxonomy.
#[derive(Clone, Copy, PartialEq, Eq, Structural, Debug)]
pub enum ErrorCode {
    InvalidRequest,
    FsError,
    Unsupported,
}

/// The error half of a response.
pub struct IpcError {
    pub code: ErrorCode,
    pub message: String,
}

/// Command-specific success data.
pub enum IpcData {
    Exists { exists: bool },
    Text { text: String },
    Entries { entries: Vec<String> },
    Value { value: Option<String> },
    SetOk,
}

/// A response envelope: the request id echoed back, and exactly one of
/// `data` (on success) or `error` (on failure).
pub struct IpcResponse {
    pub id: String,
    pub ok: bool,
    pub data: Option<IpcData>,
    pub error: Option<IpcError>,
}

/// The envelope shape every response has: `data` is present iff `ok`, and
/// `error` is present iff not.
pub open spec fn envelope_shape_ok(r: IpcResponse) -> bool {
    &&& (r.data is Some) == r.ok
    &&& (r.error is Some) == !r.ok
}

/// An error response with the given id, code and message.
pub open spec fn is_error_response(
    r: IpcResponse,
    id: Seq<char>,
    code: ErrorCode,
    msg: Seq<char>,
) -> bool {
    &&& envelope_shape_ok(r)
    &&& r.id@ == id
    &&& !r.ok
    &&& (r.error matches Some(e) && e.code == code && e.message@ == msg)
}

/// A success response with the given id and data.
pub open spec fn is_ok_response(r: IpcResponse, id: Seq<char>, data: IpcData) -> bool {
    &&& envelope_shape_ok(r)
    &&& r.id@ == id
    &&& r.ok
    &&& r.data == Some(data)
}

/// A client-error response.
pub fn invalid_request(id: &str, message: &str) -> (r: IpcResponse)
    ensures
        is_error_response(r, id@, ErrorCode::InvalidRequest, message@),
{
    IpcResponse {
        id: id.to_owned(),
        ok: false,
        data: None,
        error: Some(IpcError { code: ErrorCode::InvalidRequest, message: message.to_owned() }),
    }
}

/// A filesystem-failure response.
pub fn fs_error(id: &str, message: &str) -> (r: IpcResponse)
    ensures
        is_error_response(r, id@, ErrorCode::FsError, message@),
{
    IpcResponse {
        id: id.to_owned(),
        ok: false,
        data: None,
        error: Some(IpcError { code: ErrorCode::FsError, message: message.to_owned() }),
    }
}

/// An unknown-command response.
pub fn unsupported(id: &str, message: &str) -> (r: IpcResponse)
    ensures
        is_error_response(r, id@, ErrorCode::Unsupported, message@),
{
    IpcResponse {
        id: id.to_owned(),
        ok: false,
        data: None,
        error: Some(IpcError { code: ErrorCode::Unsupported, message: message.to_owned() }),
    }
}

/// A success response carrying the given data.
pub fn ok_response(id: &str, data: IpcData) -> (r: IpcResponse)
    ensures
        is_ok_response(r, id@, data),
{
    IpcResponse { id: id.to_owned(), ok: true, data: Some(data), error: None }
}

/// The value of the first field named `name`, if that field holds a string.
pub open spec fn payload_lookup(
    fields: Seq<(Seq<char>, Option<Seq<char>>)>,
    name: Seq<char>,
) -> Option<Seq<char>>
    decreases fields.len(),
{
    if fields.len() == 0 {
        None
    } else if fields[0].0 == name {
        fields[0].1
    } else {
        payload_lookup(fields.drop_first(), name)
    }
}

/// The message reported when a payload field is missing or not a string.
pub open spec fn missing_field_message(name: Seq<char>) -> Seq<char> {
    "missing or invalid field: "@ + name
}

proof fn lemma_payload_lookup_skip(
    fields: Seq<(Seq<char>, Option<Seq<char>>)>,
    name: Seq<char>,
    i: int,
)
    requires
        0 <= i < fields.len(),
        fields[i].0 != name,
        payload_lookup(fields, name) == payload_lookup(fields.skip(i), name),
    ensures
        payload_lookup(fields, name) == payload_lookup(fields.skip(i + 1), name),
{
    assert(fields.skip(i).len() == fields.len() - i);
    assert(fields.skip(i)[0] == fields[i]);
    assert(fields.skip(i).drop_first() =~= fields.skip(i + 1));
}

/// Read the string payload field `key`, or report it missing or invalid.
pub fn get_payload_str(payload: &Payload, key: &str) -> (r: Result<String, String>)
    ensures
        match payload_lookup(payload@, key@) {
            Some(v) => r matches Ok(s) && s@ == v,
            None => r matches Err(m) && m@ == missing_field_message(key@),
        },
{
    let n = payload.fields.len();
    let mut i: usize = 0;
    proof {
        assert(payload@.skip(0) =~= payload@);
    }
    while i < n
        invariant
            i <= n,
            n == payload.fields@.len(),
            n == payload@.len(),
            payload_lookup(payload@, key@) == payload_lookup(payload@.skip(i as int), key@),
        decreases n - i,
    {
        let field = &payload.fields[i];
        proof {
            assert(payload@[i as int] == (
                field.name@,
                match field.value {
                    FieldValue::Str(s) => Some(s@),
                    FieldValue::Other => None,
                },
            ));
            assert(payload@.skip(i as int)[0] == payload@[i as int]);
            assert(payload@.skip(i as int).len() == payload@.len() - i);
        }
        if str_eq(field.name.as_str(), key) {
            match &field.value {
                FieldValue::Str(s) => {
                    return Ok(s.clone());
                },
                FieldValue::Other => {
                    return Err("missing or invalid field: ".to_owned().concat(key));
                },
            }
        }
        proof {
            lemma_payload_lookup_skip(payload@, key@, i as int);
        }
        i = i + 1;
    }
    proof {
        assert(payload@.skip(i as int).len() == 0);
    }
    Err("missing or invalid field: ".to_owned().concat(key))
}

} // verus!
