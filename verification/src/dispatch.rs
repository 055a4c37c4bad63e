//! The dispatcher: classify the source of an inbound message, decode its
//! payload on the matching transport, run the store operation, and shape the
//! reply for the transport it arrived on.

use vstd::prelude::*;

use crate::base64::{b64_encode, b64_of};
use crate::codec::{
    decode_http, decode_native, encode_http, encode_native, http_body, http_status, native_json,
    req_of_bytes, ImgServerRequest, ImgServerResponse, RequestModel, ResponseModel,
};
use crate::store::ImageStore;
use crate::text::dec_seq;

verus! {

/// What the caller must do with a handled message: answer over HTTP, answer
/// on the native channel, or send nothing and log the error.
#[derive(Debug, PartialEq, Eq)]
pub enum Reply {
    RespondHttp { status: u16, body: String },
    RespondNative { body: String },
    NoReply { error: String },
}

/// The mathematical form of a reply.
pub enum ReplyModel {
    Http { status: u16, body: Seq<char> },
    Native { body: Seq<char> },
    Nothing { error: Seq<char> },
}

impl View for Reply {
    type V = ReplyModel;

    open spec fn view(&self) -> ReplyModel {
        match self {
            Reply::RespondHttp { status, body } => ReplyModel::Http {
                status: *status,
                body: body@,
            },
            Reply::RespondNative { body } => ReplyModel::Native { body: body@ },
            Reply::NoReply { error } => ReplyModel::Nothing { error: error@ },
        }
    }
}

/// The process address of the host's HTTP front door.
pub open spec fn http_server_address() -> Seq<char> {
    "http-server:distro:sys"@
}

pub open spec fn not_found_msg() -> Seq<char> {
    "image not found"@
}

pub open spec fn no_blob_msg() -> Seq<char> {
    "Failed to get blob"@
}

pub open spec fn bad_request_msg() -> Seq<char> {
    "failed to parse request"@
}

pub open spec fn exhausted_msg() -> Seq<char> {
    "identifier space exhausted"@
}

/// Serving a get against mapping `m`: the base64 text of the stored bytes,
/// or the not-found error.
pub open spec fn get_outcome(m: Map<Seq<char>, Seq<u8>>, id: Seq<char>) -> Result<
    Seq<char>,
    Seq<char>,
> {
    if m.contains_key(id) {
        Ok(b64_of(m[id]))
    } else {
        Err(not_found_msg())
    }
}

/// Serving an upload against mapping `m` with counter `next`: the result
/// handed back, the new mapping, and the new counter.
pub open spec fn upload_outcome(m: Map<Seq<char>, Seq<u8>>, next: u64, data: Seq<u8>) -> (
    Result<Seq<char>, Seq<char>>,
    Map<Seq<char>, Seq<u8>>,
    u64,
) {
    if next < u64::MAX {
        (
            Ok(dec_seq(next as nat)),
            m.insert(dec_seq(next as nat), data),
            (next + 1) as u64,
        )
    } else {
        (Err(exhausted_msg()), m, next)
    }
}

/// One HTTP-sourced message: a missing blob fails the message; a recognized
/// get is served; anything else counts as an upload of the blob bytes.
pub open spec fn http_step(blob: Option<Seq<u8>>, m: Map<Seq<char>, Seq<u8>>, next: u64) -> (
    ReplyModel,
    Map<Seq<char>, Seq<u8>>,
    u64,
) {
    match blob {
        None => (ReplyModel::Nothing { error: no_blob_msg() }, m, next),
        Some(data) => match req_of_bytes(data) {
            Some(RequestModel::GetImage(id)) => {
                let res = get_outcome(m, id);
                (ReplyModel::Http { status: http_status(res), body: http_body(res) }, m, next)
            },
            _ => {
                let (res, m2, n2) = upload_outcome(m, next, data);
                (ReplyModel::Http { status: http_status(res), body: http_body(res) }, m2, n2)
            },
        },
    }
}

/// One native message: a payload that is no recognized request fails the
/// message; an upload stores the blob bytes; a get is served.
pub open spec fn native_step(
    body: Seq<u8>,
    blob: Option<Seq<u8>>,
    m: Map<Seq<char>, Seq<u8>>,
    next: u64,
) -> (ReplyModel, Map<Seq<char>, Seq<u8>>, u64) {
    match req_of_bytes(body) {
        None => (ReplyModel::Nothing { error: bad_request_msg() }, m, next),
        Some(RequestModel::UploadImage) => match blob {
            None => (
                ReplyModel::Native {
                    body: native_json(ResponseModel::UploadImage(Err(no_blob_msg()))),
                },
                m,
                next,
            ),
            Some(data) => {
                let (res, m2, n2) = upload_outcome(m, next, data);
                (ReplyModel::Native { body: native_json(ResponseModel::UploadImage(res)) }, m2, n2)
            },
        },
        Some(RequestModel::GetImage(id)) => (
            ReplyModel::Native {
                body: native_json(ResponseModel::GetImage(get_outcome(m, id))),
            },
            m,
            next,
        ),
    }
}

/// One inbound message, whichever transport delivered it: the source address
/// decides the path.
pub open spec fn dispatch_step(
    source: Seq<char>,
    body: Seq<u8>,
    blob: Option<Seq<u8>>,
    m: Map<Seq<char>, Seq<u8>>,
    next: u64,
) -> (ReplyModel, Map<Seq<char>, Seq<u8>>, u64) {
    if source == http_server_address() {
        http_step(blob, m, next)
    } else {
        native_step(body, blob, m, next)
    }
}

/// The byte contents an optional blob carries.
pub open spec fn opt_bytes(blob: Option<Vec<u8>>) -> Option<Seq<u8>> {
    match blob {
        Some(v) => Some(v@),
        None => None,
    }
}

/// Serves a get: the stored bytes as base64, or the not-found error.
pub fn get_img(id: &String, state: &ImageStore) -> (r: Result<String, String>)
    requires
        state.wf(),
    ensures
        (match r {
            Ok(s) => Ok(s@),
            Err(e) => Err(e@),
        }) == get_outcome(state@, id@),
{
    match state.get(id) {
        Some(bytes) => Ok(b64_encode(&bytes)),
        None => Err(String::from_str("image not found")),
    }
}

/// Serves an upload: stores the bytes and hands back the fresh identifier.
pub fn upload_img(state: &mut ImageStore, data: Vec<u8>) -> (r: Result<String, String>)
    requires
        old(state).wf(),
    ensures
        final(state).wf(),
        ({
            let (res, m2, n2) = upload_outcome(old(state)@, old(state).next_id, data@);
            &&& (match r {
                Ok(s) => Ok(s@),
                Err(e) => Err(e@),
            }) == res
            &&& final(state)@ == m2
            &&& final(state).next_id == n2
        }),
{
    match state.upload(data) {
        Ok(id) => Ok(id),
        Err(_) => Err(String::from_str("identifier space exhausted")),
    }
}

/// Handles a message delivered by the HTTP front door: the payload is the
/// out-of-band blob; without one the message fails and no reply is sent.
pub fn handle_http_server_request(blob: Option<Vec<u8>>, state: &mut ImageStore) -> (r: Reply)
    requires
        old(state).wf(),
    ensures
        final(state).wf(),
        ({
            let (rep, m2, n2) = http_step(opt_bytes(blob), old(state)@, old(state).next_id);
            &&& r@ == rep
            &&& final(state)@ == m2
            &&& final(state).next_id == n2
        }),
{
    match blob {
        None => Reply::NoReply { error: String::from_str("Failed to get blob") },
        Some(data) => {
            let req = decode_http(&data);
            match req {
                ImgServerRequest::GetImage(id) => {
                    let res = get_img(&id, state);
                    let (status, body) = encode_http(&res);
                    Reply::RespondHttp { status, body }
                },
                ImgServerRequest::UploadImage => {
                    let res = upload_img(state, data);
                    let (status, body) = encode_http(&res);
                    Reply::RespondHttp { status, body }
                },
            }
        },
    }
}

/// Handles a message from the native channel: the body is the request; the
/// blob, if any, carries the bytes of an upload.
pub fn handle_kinode_request(body: &Vec<u8>, blob: Option<Vec<u8>>, state: &mut ImageStore) -> (r:
    Reply)
    requires
        old(state).wf(),
    ensures
        final(state).wf(),
        ({
            let (rep, m2, n2) = native_step(
                body@,
                opt_bytes(blob),
                old(state)@,
                old(state).next_id,
            );
            &&& r@ == rep
            &&& final(state)@ == m2
            &&& final(state).next_id == n2
        }),
{
    match decode_native(body) {
        Err(_) => Reply::NoReply { error: String::from_str("failed to parse request") },
        Ok(ImgServerRequest::UploadImage) => {
            match blob {
                None => {
                    let resp = ImgServerResponse::UploadImage(
                        Err(String::from_str("Failed to get blob")),
                    );
                    Reply::RespondNative { body: encode_native(&resp) }
                },
                Some(data) => {
                    let res = upload_img(state, data);
                    let resp = ImgServerResponse::UploadImage(res);
                    Reply::RespondNative { body: encode_native(&resp) }
                },
            }
        },
        Ok(ImgServerRequest::GetImage(id)) => {
            let res = get_img(&id, state);
            let resp = ImgServerResponse::GetImage(res);
            Reply::RespondNative { body: encode_native(&resp) }
        },
    }
}

/// Handles one inbound request: the source process address picks the
/// transport, the payload is decoded and served, and the reply is shaped
/// for the same transport.
pub fn handle_request(
    source_process: &String,
    body: &Vec<u8>,
    blob: Option<Vec<u8>>,
    state: &mut ImageStore,
) -> (r: Reply)
    requires
        old(state).wf(),
    ensures
        final(state).wf(),
        ({
            let (rep, m2, n2) = dispatch_step(
                source_process@,
                body@,
                opt_bytes(blob),
                old(state)@,
                old(state).next_id,
            );
            &&& r@ == rep
            &&& final(state)@ == m2
            &&& final(state).next_id == n2
        }),
{
    if *source_process == String::from_str("http-server:distro:sys") {
        handle_http_server_request(blob, state)
    } else {
        handle_kinode_request(body, blob, state)
    }
}

/// Handles one inbound message of either kind: a request is dispatched; a
/// response is acknowledged and discarded, since this process never issues
/// requests of its own.
pub fn handle_message(
    is_request: bool,
    source_process: &String,
    body: &Vec<u8>,
    blob: Option<Vec<u8>>,
    state: &mut ImageStore,
) -> (r: Option<Reply>)
    requires
        old(state).wf(),
    ensures
        final(state).wf(),
        !is_request ==> r is None && *final(state) == *old(state),
        is_request ==> ({
            let (rep, m2, n2) = dispatch_step(
                source_process@,
                body@,
                opt_bytes(blob),
                old(state)@,
                old(state).next_id,
            );
            &&& r matches Some(reply) && reply@ == rep
            &&& final(state)@ == m2
            &&& final(state).next_id == n2
        }),
{
    if is_request {
        Some(handle_request(source_process, body, blob, state))
    } else {
        None
    }
}

} // verus!
