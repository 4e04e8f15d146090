//! Wire requests and responses and their archived form.

use vstd::prelude::*;

use crate::archive::{
    is_refused, is_short, padded8, refused, short, stored_bytes, stored_len, REACH,
};
use crate::text::byte_len;

verus! {

/// Wire request.
#[derive(Debug, Clone)]
pub struct WireRequest {
    pub id: u64,
    pub op: u8,
    pub namespace: String,
    pub key: String,
    pub payload: Vec<u8>,
}

/// The contents of a [`WireRequest`].
pub struct RequestFields {
    pub id: u64,
    pub op: u8,
    pub namespace: Seq<char>,
    pub key: Seq<char>,
    pub payload: Seq<u8>,
}

impl View for WireRequest {
    type V = RequestFields;

    open spec fn view(&self) -> RequestFields {
        RequestFields {
            id: self.id,
            op: self.op,
            namespace: self.namespace@,
            key: self.key@,
            payload: self.payload@,
        }
    }
}

/// Wire response.
#[derive(Debug, Clone)]
pub struct WireResponse {
    pub id: u64,
    pub status: u8,
    pub op: u8,
    pub payload: Vec<u8>,
    pub message: String,
}

/// The contents of a [`WireResponse`].
pub struct ResponseFields {
    pub id: u64,
    pub status: u8,
    pub op: u8,
    pub payload: Seq<u8>,
    pub message: Seq<char>,
}

impl View for WireResponse {
    type V = ResponseFields;

    open spec fn view(&self) -> ResponseFields {
        ResponseFields {
            id: self.id,
            status: self.status,
            op: self.op,
            payload: self.payload@,
            message: self.message@,
        }
    }
}

/// A message could not be archived or read back.
#[derive(Debug)]
pub enum CodecError {
    /// Serialization failed.
    Encode(String),
    /// Deserialization failed.
    Decode(String),
}

/// The displayed text of a codec error.
pub open spec fn codec_error_text(error: CodecError) -> Seq<char> {
    match error {
        CodecError::Encode(source) => "codec encode: "@ + source@,
        CodecError::Decode(source) => "codec decode: "@ + source@,
    }
}

impl CodecError {
    /// The error in words.
    pub fn to_text(&self) -> (text: String)
        ensures
            text@ == codec_error_text(*self),
    {
        let mut text = String::new();
        match self {
            CodecError::Encode(source) => {
                text.push_str("codec encode: ");
                text.push_str(source);
            },
            CodecError::Decode(source) => {
                text.push_str("codec decode: ");
                text.push_str(source);
            },
        }
        assert(text@ =~= codec_error_text(*self));
        text
    }
}

/// Whether the texts of a request are short enough for an archive.
pub open spec fn request_short(request: RequestFields) -> bool {
    is_short(request.namespace) && is_short(request.key)
}

/// Whether a text of a request is refused as too long.
pub open spec fn request_refused(request: RequestFields) -> bool {
    is_refused(request.namespace) || is_refused(request.key)
}

/// Whether the fields of an archived request reach what they refer to. The
/// namespace, the key and the payload stand one after the other from the start,
/// and their fields 12, 20 and 28 bytes into the message that follows.
pub open spec fn request_reaches(request: RequestFields) -> bool {
    let key = stored_len(request.namespace);
    let payload = key + stored_len(request.key);
    let message = padded8(payload + request.payload.len());
    &&& stored_len(request.namespace) > 0 ==> message + 12 <= REACH
    &&& stored_len(request.key) > 0 ==> message + 20 <= REACH + key
    &&& message + 28 <= REACH + payload
}

/// Whether a request can be archived or is refused for a text. What is left is
/// too large for the offsets of an archive.
pub open spec fn request_fits(request: RequestFields) -> bool {
    request_refused(request) || (request_short(request) && request_reaches(request))
}

/// Whether the fields of an archived response reach what they refer to. The
/// payload and the message text stand one after the other from the start, and
/// their fields 12 and 20 bytes into the message that follows.
pub open spec fn response_reaches(response: ResponseFields) -> bool {
    let text = response.payload.len();
    let message = padded8(text + stored_len(response.message));
    &&& message + 12 <= REACH
    &&& stored_len(response.message) > 0 ==> message + 20 <= REACH + text
}

/// Whether a response can be archived or is refused for its text. What is left is
/// too large for the offsets of an archive.
pub open spec fn response_fits(response: ResponseFields) -> bool {
    is_refused(response.message) || (is_short(response.message) && response_reaches(response))
}

/// The archive that rkyv writes for a request, if it can hold it.
pub uninterp spec fn request_archive(request: RequestFields) -> Option<Seq<u8>>;

/// The request that rkyv reads from an archive, if the archive is valid.
pub uninterp spec fn request_archived(bytes: Seq<u8>) -> Option<RequestFields>;

/// The archive that rkyv writes for a response, if it can hold it.
pub uninterp spec fn response_archive(response: ResponseFields) -> Option<Seq<u8>>;

/// The response that rkyv reads from an archive, if the archive is valid.
pub uninterp spec fn response_archived(bytes: Seq<u8>) -> Option<ResponseFields>;

/// `rkyv::to_bytes` on the request's fields as a tuple, which has the archived
/// layout of a struct with those fields. It fails on a text that is too long for
/// an archive and on nothing else. The bytes depend on the fields alone, and
/// reading them back gives the fields. Nothing is said of the error text. Where
/// a field does not reach what it refers to, the call panics or writes a wrong
/// offset, hence the bound.
#[verifier::external_body]
fn rkyv_write_request(request: &WireRequest) -> (bytes: Result<Vec<u8>, String>)
    requires
        request_fits(request@),
    ensures
        match bytes {
            Ok(b) => request_short(request@) && request_archive(request@) == Some(b@)
                && request_archived(b@) == Some(request@),
            Err(_) => !request_short(request@) && request_archive(request@) is None,
        },
{
    let r = request.clone();
    match rkyv::to_bytes::<rkyv::rancor::Error>(&(r.id, r.op, r.namespace, r.key, r.payload)) {
        Ok(bytes) => Ok(bytes.to_vec()),
        Err(err) => Err(format!("{err}")),
    }
}

/// `rkyv::from_bytes` on an aligned copy of the bytes, into the request's
/// fields. The result depends on the bytes alone; nothing is said of the error
/// text.
#[verifier::external_body]
fn rkyv_read_request(bytes: &[u8]) -> (request: Result<WireRequest, String>)
    ensures
        request matches Ok(r) ==> request_archived(bytes@) == Some(r@),
        request is Err ==> request_archived(bytes@) is None,
{
    let mut aligned: rkyv::util::AlignedVec<16> = rkyv::util::AlignedVec::new();
    aligned.extend_from_slice(bytes);
    match rkyv::from_bytes::<(u64, u8, String, String, Vec<u8>), rkyv::rancor::Error>(&aligned) {
        Ok((id, op, namespace, key, payload)) => Ok(WireRequest { id, op, namespace, key, payload }),
        Err(err) => Err(format!("{err}")),
    }
}

/// `rkyv::to_bytes` on the response's fields as a tuple, which has the archived
/// layout of a struct with those fields. It fails on a text that is too long for
/// an archive and on nothing else. The bytes depend on the fields alone, and
/// reading them back gives the fields. Nothing is said of the error text. Where
/// a field does not reach what it refers to, the call panics or writes a wrong
/// offset, hence the bound.
#[verifier::external_body]
fn rkyv_write_response(response: &WireResponse) -> (bytes: Result<Vec<u8>, String>)
    requires
        response_fits(response@),
    ensures
        match bytes {
            Ok(b) => is_short(response.message@) && response_archive(response@) == Some(b@)
                && response_archived(b@) == Some(response@),
            Err(_) => !is_short(response.message@) && response_archive(response@) is None,
        },
{
    let r = response.clone();
    match rkyv::to_bytes::<rkyv::rancor::Error>(&(r.id, r.status, r.op, r.payload, r.message)) {
        Ok(bytes) => Ok(bytes.to_vec()),
        Err(err) => Err(format!("{err}")),
    }
}

/// `rkyv::from_bytes` on an aligned copy of the bytes, into the response's
/// fields. The result depends on the bytes alone; nothing is said of the error
/// text.
#[verifier::external_body]
fn rkyv_read_response(bytes: &[u8]) -> (response: Result<WireResponse, String>)
    ensures
        response matches Ok(r) ==> response_archived(bytes@) == Some(r@),
        response is Err ==> response_archived(bytes@) is None,
{
    let mut aligned: rkyv::util::AlignedVec<16> = rkyv::util::AlignedVec::new();
    aligned.extend_from_slice(bytes);
    match rkyv::from_bytes::<(u64, u8, u8, Vec<u8>, String), rkyv::rancor::Error>(&aligned) {
        Ok((id, status, op, payload, message)) => Ok(WireResponse { id, status, op, payload, message }),
        Err(err) => Err(format!("{err}")),
    }
}

impl WireRequest {
    /// Whether the request can be archived or is refused for a text.
    pub fn fits(&self) -> (fits: bool)
        ensures
            fits == request_fits(self@),
    {
        if refused(self.namespace.as_str()) || refused(self.key.as_str()) {
            return true;
        }
        if !short(self.namespace.as_str()) || !short(self.key.as_str()) {
            return false;
        }
        let namespace: u128 = stored_bytes(self.namespace.as_str()) as u128;
        let key: u128 = stored_bytes(self.key.as_str()) as u128;
        let message: u128 = (namespace + key + self.payload.len() as u128 + 7) / 8 * 8;
        let reach: u128 = REACH as u128;
        (namespace == 0 || message + 12 <= reach) && (key == 0 || message + 20 <= reach
            + namespace) && message + 28 <= reach + namespace + key
    }

    /// Archive the request; only a namespace or a key that is too long makes it
    /// fail. What it returns decodes to the same request.
    pub fn encode(&self) -> (encoded: Result<Vec<u8>, CodecError>)
        requires
            request_fits(self@),
        ensures
            match encoded {
                Ok(bytes) => request_archive(self@) == Some(bytes@) && request_archived(bytes@)
                    == Some(self@),
                Err(error) => error is Encode && request_archive(self@) is None,
            },
            encoded is Ok <==> request_short(self@),
    {
        match rkyv_write_request(self) {
            Ok(bytes) => Ok(bytes),
            Err(source) => Err(CodecError::Encode(source)),
        }
    }

    /// Read an archived request.
    pub fn decode(bytes: &[u8]) -> (decoded: Result<WireRequest, CodecError>)
        ensures
            match decoded {
                Ok(request) => request_archived(bytes@) == Some(request@),
                Err(error) => error is Decode && request_archived(bytes@) is None,
            },
    {
        match rkyv_read_request(bytes) {
            Ok(request) => Ok(request),
            Err(source) => Err(CodecError::Decode(source)),
        }
    }
}

impl WireResponse {
    /// Whether the response can be archived or is refused for its text.
    pub fn fits(&self) -> (fits: bool)
        ensures
            fits == response_fits(self@),
    {
        if refused(self.message.as_str()) {
            return true;
        }
        if !short(self.message.as_str()) {
            return false;
        }
        let text: u128 = stored_bytes(self.message.as_str()) as u128;
        let payload: u128 = self.payload.len() as u128;
        let message: u128 = (payload + text + 7) / 8 * 8;
        let reach: u128 = REACH as u128;
        message + 12 <= reach && (text == 0 || message + 20 <= reach + payload)
    }

    /// Archive the response; only a message that is too long makes it fail. What
    /// it returns decodes to the same response.
    pub fn encode(&self) -> (encoded: Result<Vec<u8>, CodecError>)
        requires
            response_fits(self@),
        ensures
            match encoded {
                Ok(bytes) => response_archive(self@) == Some(bytes@) && response_archived(bytes@)
                    == Some(self@),
                Err(error) => error is Encode && response_archive(self@) is None,
            },
            encoded is Ok <==> is_short(self.message@),
    {
        match rkyv_write_response(self) {
            Ok(bytes) => Ok(bytes),
            Err(source) => Err(CodecError::Encode(source)),
        }
    }

    /// Read an archived response.
    pub fn decode(bytes: &[u8]) -> (decoded: Result<WireResponse, CodecError>)
        ensures
            match decoded {
                Ok(response) => response_archived(bytes@) == Some(response@),
                Err(error) => error is Decode && response_archived(bytes@) is None,
            },
    {
        match rkyv_read_response(bytes) {
            Ok(response) => Ok(response),
            Err(source) => Err(CodecError::Decode(source)),
        }
    }
}

/// Every request of at most a gibibyte can be archived, and every response.
pub proof fn common_messages_fit(request: RequestFields, response: ResponseFields)
    requires
        byte_len(request.namespace) + byte_len(request.key) + request.payload.len() < 0x4000_0000,
        byte_len(response.message) + response.payload.len() < 0x4000_0000,
    ensures
        request_fits(request) && request_short(request),
        response_fits(response) && is_short(response.message),
{
}

} // verus!
