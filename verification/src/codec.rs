//! The request codec: classifying an inbound byte payload as an upload or a
//! get-by-identifier request, and rendering results back as JSON text.
//!
//! Requests are JSON with the two accepted shapes
//! `{"UploadImage": null}` (or the bare string `"UploadImage"`) and
//! `{"GetImage": "<identifier>"}`, with whitespace allowed between tokens.
//! String contents may be printable ASCII and the usual single-character
//! escapes.

use vstd::prelude::*;

use crate::text::push_char;

verus! {

/// A typed inbound request.
#[derive(Debug, PartialEq, Eq)]
pub enum ImgServerRequest {
    UploadImage,
    GetImage(String),
}

/// The mathematical form of a request.
pub enum RequestModel {
    UploadImage,
    GetImage(Seq<char>),
}

impl View for ImgServerRequest {
    type V = RequestModel;

    open spec fn view(&self) -> RequestModel {
        match self {
            ImgServerRequest::UploadImage => RequestModel::UploadImage,
            ImgServerRequest::GetImage(id) => RequestModel::GetImage(id@),
        }
    }
}

/// A typed reply, mirroring the request it answers.
#[derive(Debug, PartialEq, Eq)]
pub enum ImgServerResponse {
    UploadImage(Result<String, String>),
    GetImage(Result<String, String>),
}

/// The mathematical form of a reply.
pub enum ResponseModel {
    UploadImage(Result<Seq<char>, Seq<char>>),
    GetImage(Result<Seq<char>, Seq<char>>),
}

impl View for ImgServerResponse {
    type V = ResponseModel;

    open spec fn view(&self) -> ResponseModel {
        match self {
            ImgServerResponse::UploadImage(res) => ResponseModel::UploadImage(
                match res {
                    Ok(s) => Ok(s@),
                    Err(e) => Err(e@),
                },
            ),
            ImgServerResponse::GetImage(res) => ResponseModel::GetImage(
                match res {
                    Ok(s) => Ok(s@),
                    Err(e) => Err(e@),
                },
            ),
        }
    }
}

/// Why a native payload was rejected.
#[derive(Debug, PartialEq, Eq)]
pub enum DecodeError {
    MalformedRequest,
}

/// JSON insignificant whitespace.
pub open spec fn is_ws(c: u8) -> bool {
    c == 0x20 || c == 0x09 || c == 0x0a || c == 0x0d
}

/// The first position at or after `i` that does not hold whitespace.
pub open spec fn sp_ws(b: Seq<u8>, i: int) -> int
    decreases b.len() - i,
{
    if 0 <= i < b.len() && is_ws(b[i]) {
        sp_ws(b, i + 1)
    } else {
        i
    }
}

/// The character a single-character escape stands for, if recognized.
pub open spec fn esc_char(e: u8) -> Option<char> {
    if e == 0x22 {
        Some('"')
    } else if e == 0x5c {
        Some('\\')
    } else if e == 0x2f {
        Some('/')
    } else if e == 0x62 {
        Some('\u{8}')
    } else if e == 0x66 {
        Some('\u{c}')
    } else if e == 0x6e {
        Some('\n')
    } else if e == 0x72 {
        Some('\r')
    } else if e == 0x74 {
        Some('\t')
    } else {
        None
    }
}

/// Parses a string body starting just after the opening quote: the contents
/// and the position just past the closing quote.
pub open spec fn parse_str_body(b: Seq<u8>, i: int) -> Option<(Seq<char>, int)>
    decreases b.len() - i,
{
    if i < 0 || i >= b.len() {
        None
    } else if b[i] == 0x22 {
        Some((Seq::empty(), i + 1))
    } else if b[i] == 0x5c {
        if i + 1 < b.len() {
            match esc_char(b[i + 1]) {
                Some(c) => match parse_str_body(b, i + 2) {
                    Some(p) => Some((seq![c] + p.0, p.1)),
                    None => None,
                },
                None => None,
            }
        } else {
            None
        }
    } else if 0x20 <= b[i] <= 0x7e {
        match parse_str_body(b, i + 1) {
            Some(p) => Some((seq![b[i] as char] + p.0, p.1)),
            None => None,
        }
    } else {
        None
    }
}

/// The parsed end position never runs past the input.
proof fn lemma_parse_str_body_end(b: Seq<u8>, i: int)
    ensures
        match parse_str_body(b, i) {
            Some(p) => i < p.1 <= b.len(),
            None => true,
        },
    decreases b.len() - i,
{
    if 0 <= i < b.len() {
        if b[i] == 0x5c {
            if i + 1 < b.len() {
                lemma_parse_str_body_end(b, i + 2);
            }
        } else {
            lemma_parse_str_body_end(b, i + 1);
        }
    }
}

/// After the value: optional whitespace, a closing brace, then only
/// whitespace to the end.
pub open spec fn obj_end_ok(b: Seq<u8>, i: int) -> bool {
    let k = sp_ws(b, i);
    k < b.len() && b[k] == 0x7d && sp_ws(b, k + 1) == b.len()
}

/// What a payload means as a request, if anything.
pub open spec fn req_of_bytes(b: Seq<u8>) -> Option<RequestModel> {
    let i = sp_ws(b, 0);
    if i < b.len() && b[i] == 0x22 {
        match parse_str_body(b, i + 1) {
            Some(p) => if sp_ws(b, p.1) == b.len() && p.0 == "UploadImage"@ {
                Some(RequestModel::UploadImage)
            } else {
                None
            },
            None => None,
        }
    } else if i < b.len() && b[i] == 0x7b {
        let k1 = sp_ws(b, i + 1);
        if k1 < b.len() && b[k1] == 0x22 {
            match parse_str_body(b, k1 + 1) {
                Some(key_p) => {
                    let k2 = sp_ws(b, key_p.1);
                    if k2 < b.len() && b[k2] == 0x3a {
                        let k3 = sp_ws(b, k2 + 1);
                        if key_p.0 == "UploadImage"@ {
                            if k3 + 4 <= b.len() && b[k3] == 0x6e && b[k3 + 1] == 0x75 && b[k3 + 2]
                                == 0x6c && b[k3 + 3] == 0x6c && obj_end_ok(b, k3 + 4) {
                                Some(RequestModel::UploadImage)
                            } else {
                                None
                            }
                        } else if key_p.0 == "GetImage"@ {
                            if k3 < b.len() && b[k3] == 0x22 {
                                match parse_str_body(b, k3 + 1) {
                                    Some(id_p) => if obj_end_ok(b, id_p.1) {
                                        Some(RequestModel::GetImage(id_p.0))
                                    } else {
                                        None
                                    },
                                    None => None,
                                }
                            } else {
                                None
                            }
                        } else {
                            None
                        }
                    } else {
                        None
                    }
                },
                None => None,
            }
        } else {
            None
        }
    } else {
        None
    }
}

fn is_ws_exec(c: u8) -> (r: bool)
    ensures
        r == is_ws(c),
{
    c == 0x20 || c == 0x09 || c == 0x0a || c == 0x0d
}

fn skip_ws_exec(b: &Vec<u8>, start: usize) -> (r: usize)
    requires
        start <= b@.len(),
    ensures
        r as int == sp_ws(b@, start as int),
        start <= r <= b@.len(),
{
    let mut i = start;
    #[verifier::loop_isolation(false)]
    while i < b.len() && is_ws_exec(b[i])
        invariant
            start <= i <= b@.len(),
            sp_ws(b@, start as int) == sp_ws(b@, i as int),
        decreases b@.len() - i,
    {
        i = i + 1;
    }
    i
}

fn esc_char_exec(e: u8) -> (r: Option<char>)
    ensures
        r == esc_char(e),
{
    if e == 0x22 {
        Some('"')
    } else if e == 0x5c {
        Some('\\')
    } else if e == 0x2f {
        Some('/')
    } else if e == 0x62 {
        Some('\u{8}')
    } else if e == 0x66 {
        Some('\u{c}')
    } else if e == 0x6e {
        Some('\n')
    } else if e == 0x72 {
        Some('\r')
    } else if e == 0x74 {
        Some('\t')
    } else {
        None
    }
}

fn parse_string_body(b: &Vec<u8>, start: usize) -> (r: Option<(String, usize)>)
    requires
        start <= b@.len(),
    ensures
        match r {
            Some(p) => parse_str_body(b@, start as int) == Some((p.0@, p.1 as int)) && start
                < p.1 <= b@.len(),
            None => parse_str_body(b@, start as int) is None,
        },
{
    proof {
        lemma_parse_str_body_end(b@, start as int);
    }
    let mut i = start;
    let mut acc = String::new();
    #[verifier::loop_isolation(false)]
    loop
        invariant
            start <= i <= b@.len(),
            parse_str_body(b@, start as int) == (match parse_str_body(b@, i as int) {
                Some(p) => Some((acc@ + p.0, p.1)),
                None => None::<(Seq<char>, int)>,
            }),
        decreases b@.len() - i,
    {
        if i >= b.len() {
            return None;
        }
        let c = b[i];
        if c == 0x22 {
            proof {
                assert(acc@ + Seq::<char>::empty() =~= acc@);
            }
            return Some((acc, i + 1));
        } else if c == 0x5c {
            if i + 1 >= b.len() {
                return None;
            }
            match esc_char_exec(b[i + 1]) {
                None => {
                    return None;
                },
                Some(ch) => {
                    let ghost old_acc = acc@;
                    push_char(&mut acc, ch);
                    proof {
                        if parse_str_body(b@, i as int + 2) is Some {
                            let p = parse_str_body(b@, i as int + 2)->Some_0;
                            assert(old_acc + (seq![ch] + p.0) =~= acc@ + p.0);
                        }
                    }
                    i = i + 2;
                },
            }
        } else if 0x20 <= c && c <= 0x7e {
            let ghost old_acc = acc@;
            push_char(&mut acc, c as char);
            proof {
                if parse_str_body(b@, i as int + 1) is Some {
                    let p = parse_str_body(b@, i as int + 1)->Some_0;
                    assert(old_acc + (seq![b@[i as int] as char] + p.0) =~= acc@ + p.0);
                }
            }
            i = i + 1;
        } else {
            return None;
        }
    }
}

/// Reads a native payload strictly: the typed request, or an error when the
/// payload is not a recognized request.
pub fn decode_native(body: &Vec<u8>) -> (r: Result<ImgServerRequest, DecodeError>)
    ensures
        match r {
            Ok(req) => req_of_bytes(body@) == Some(req@),
            Err(_) => req_of_bytes(body@) is None,
        },
{
    let i = skip_ws_exec(body, 0);
    if i < body.len() && body[i] == 0x22 {
        match parse_string_body(body, i + 1) {
            Some((s, end)) => {
                let j = skip_ws_exec(body, end);
                if j == body.len() && s == String::from_str("UploadImage") {
                    Ok(ImgServerRequest::UploadImage)
                } else {
                    Err(DecodeError::MalformedRequest)
                }
            },
            None => Err(DecodeError::MalformedRequest),
        }
    } else if i < body.len() && body[i] == 0x7b {
        let k1 = skip_ws_exec(body, i + 1);
        if k1 < body.len() && body[k1] == 0x22 {
            match parse_string_body(body, k1 + 1) {
                Some((key, key_end)) => {
                    let k2 = skip_ws_exec(body, key_end);
                    if k2 < body.len() && body[k2] == 0x3a {
                        let k3 = skip_ws_exec(body, k2 + 1);
                        if key == String::from_str("UploadImage") {
                            if body.len() >= 4 && k3 <= body.len() - 4 && body[k3] == 0x6e
                                && body[k3 + 1] == 0x75 && body[k3 + 2] == 0x6c && body[k3 + 3]
                                == 0x6c && obj_end_exec(body, k3 + 4) {
                                Ok(ImgServerRequest::UploadImage)
                            } else {
                                Err(DecodeError::MalformedRequest)
                            }
                        } else if key == String::from_str("GetImage") {
                            if k3 < body.len() && body[k3] == 0x22 {
                                match parse_string_body(body, k3 + 1) {
                                    Some((id, id_end)) => {
                                        if obj_end_exec(body, id_end) {
                                            Ok(ImgServerRequest::GetImage(id))
                                        } else {
                                            Err(DecodeError::MalformedRequest)
                                        }
                                    },
                                    None => Err(DecodeError::MalformedRequest),
                                }
                            } else {
                                Err(DecodeError::MalformedRequest)
                            }
                        } else {
                            Err(DecodeError::MalformedRequest)
                        }
                    } else {
                        Err(DecodeError::MalformedRequest)
                    }
                },
                None => Err(DecodeError::MalformedRequest),
            }
        } else {
            Err(DecodeError::MalformedRequest)
        }
    } else {
        Err(DecodeError::MalformedRequest)
    }
}

fn obj_end_exec(b: &Vec<u8>, i: usize) -> (r: bool)
    requires
        i <= b@.len(),
    ensures
        r == obj_end_ok(b@, i as int),
{
    let k = skip_ws_exec(b, i);
    if k < b.len() && b[k] == 0x7d {
        let j = skip_ws_exec(b, k + 1);
        j == b.len()
    } else {
        false
    }
}

/// Reads an HTTP payload: a recognized get request is served as such, and
/// anything else counts as an upload.
pub fn decode_http(blob: &Vec<u8>) -> (r: ImgServerRequest)
    ensures
        r@ == (match req_of_bytes(blob@) {
            Some(RequestModel::GetImage(id)) => RequestModel::GetImage(id),
            _ => RequestModel::UploadImage,
        }),
{
    match decode_native(blob) {
        Ok(ImgServerRequest::GetImage(id)) => ImgServerRequest::GetImage(id),
        _ => ImgServerRequest::UploadImage,
    }
}

/// The escape sequence a character is written as inside a JSON string.
pub open spec fn esc_of(c: char) -> Seq<char> {
    if c == '"' {
        seq!['\\', '"']
    } else if c == '\\' {
        seq!['\\', '\\']
    } else {
        seq![c]
    }
}

/// A string's characters with quotes and backslashes escaped.
pub open spec fn json_escape(s: Seq<char>) -> Seq<char>
    decreases s.len(),
{
    if s.len() == 0 {
        Seq::empty()
    } else {
        esc_of(s[0]) + json_escape(s.drop_first())
    }
}

/// A JSON string literal for the given contents.
pub open spec fn json_str(s: Seq<char>) -> Seq<char> {
    seq!['"'] + json_escape(s) + seq!['"']
}

proof fn lemma_json_escape_concat(a: Seq<char>, b: Seq<char>)
    ensures
        json_escape(a + b) == json_escape(a) + json_escape(b),
    decreases a.len(),
{
    if a.len() == 0 {
        assert(a + b =~= b);
        assert(json_escape(a) + json_escape(b) =~= json_escape(b));
    } else {
        lemma_json_escape_concat(a.drop_first(), b);
        assert((a + b).drop_first() =~= a.drop_first() + b);
        assert((a + b)[0] == a[0]);
        assert(esc_of(a[0]) + (json_escape(a.drop_first()) + json_escape(b)) =~= json_escape(a)
            + json_escape(b));
    }
}

/// Appends the JSON string literal for `s` to `out`.
fn append_json_str(out: &mut String, s: &String)
    ensures
        final(out)@ == old(out)@ + json_str(s@),
{
    push_char(out, '"');
    let n = s.as_str().unicode_len();
    let mut i: usize = 0;
    #[verifier::loop_isolation(false)]
    while i < n
        invariant
            n == s@.len(),
            i <= n,
            out@ == old(out)@ + seq!['"'] + json_escape(s@.take(i as int)),
        decreases n - i,
    {
        let ghost prefix = s@.take(i as int);
        let c = s.as_str().get_char(i);
        if c == '"' {
            push_char(out, '\\');
            push_char(out, '"');
        } else if c == '\\' {
            push_char(out, '\\');
            push_char(out, '\\');
        } else {
            push_char(out, c);
        }
        i = i + 1;
        proof {
            lemma_json_escape_concat(prefix, seq![c]);
            assert(s@.take(i as int) =~= prefix + seq![c]);
            assert(seq![c].drop_first() =~= Seq::<char>::empty());
            assert(json_escape(Seq::<char>::empty()) == Seq::<char>::empty());
            assert(json_escape(seq![c]) =~= esc_of(c));
            assert(out@ =~= old(out)@ + seq!['"'] + json_escape(prefix) + esc_of(c));
            assert(out@ =~= old(out)@ + seq!['"'] + json_escape(s@.take(i as int)));
        }
    }
    push_char(out, '"');
    proof {
        assert(s@.take(n as int) =~= s@);
        assert(out@ =~= old(out)@ + json_str(s@));
    }
}

/// The JSON text of an embedded result.
pub open spec fn result_json(res: Result<Seq<char>, Seq<char>>) -> Seq<char> {
    match res {
        Ok(s) => "{\"Ok\":"@ + json_str(s) + "}"@,
        Err(e) => "{\"Err\":"@ + json_str(e) + "}"@,
    }
}

/// The JSON text of a typed reply on the native channel.
pub open spec fn native_json(r: ResponseModel) -> Seq<char> {
    match r {
        ResponseModel::UploadImage(res) => "{\"UploadImage\":"@ + result_json(res) + "}"@,
        ResponseModel::GetImage(res) => "{\"GetImage\":"@ + result_json(res) + "}"@,
    }
}

fn append_result_json(out: &mut String, res: &Result<String, String>)
    ensures
        final(out)@ == old(out)@ + result_json(match res {
            Ok(s) => Ok(s@),
            Err(e) => Err(e@),
        }),
{
    match res {
        Ok(s) => {
            out.append("{\"Ok\":");
            append_json_str(out, s);
            out.append("}");
        },
        Err(e) => {
            out.append("{\"Err\":");
            append_json_str(out, e);
            out.append("}");
        },
    }
}

/// Writes a typed reply as the JSON body sent on the native channel.
pub fn encode_native(resp: &ImgServerResponse) -> (r: String)
    ensures
        r@ == native_json(resp@),
{
    let mut out = String::new();
    match resp {
        ImgServerResponse::UploadImage(res) => {
            out.append("{\"UploadImage\":");
            append_result_json(&mut out, res);
            out.append("}");
        },
        ImgServerResponse::GetImage(res) => {
            out.append("{\"GetImage\":");
            append_result_json(&mut out, res);
            out.append("}");
        },
    }
    out
}

/// The status code an HTTP reply carries: success or internal error.
pub open spec fn http_status(res: Result<Seq<char>, Seq<char>>) -> u16 {
    if res is Ok {
        200
    } else {
        500
    }
}

/// The body an HTTP reply carries: the success value or the error text,
/// JSON-encoded as a string.
pub open spec fn http_body(res: Result<Seq<char>, Seq<char>>) -> Seq<char> {
    match res {
        Ok(s) => json_str(s),
        Err(e) => json_str(e),
    }
}

/// Writes a result as the HTTP reply: a status code and a JSON string body.
pub fn encode_http(res: &Result<String, String>) -> (r: (u16, String))
    ensures
        ({
            let m = match res {
                Ok(s) => Ok(s@),
                Err(e) => Err(e@),
            };
            r.0 == http_status(m) && r.1@ == http_body(m)
        }),
{
    let mut out = String::new();
    match res {
        Ok(s) => {
            append_json_str(&mut out, s);
            (200, out)
        },
        Err(e) => {
            append_json_str(&mut out, e);
            (500, out)
        },
    }
}

} // verus!
