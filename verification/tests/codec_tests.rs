use img_server::base64::b64_encode;
use img_server::codec::{
    decode_http, decode_native, encode_http, encode_native, ImgServerRequest, ImgServerResponse,
};

#[test]
fn decode_native_upload_object_form() {
    let body = b"{\"UploadImage\": null}".to_vec();
    assert_eq!(decode_native(&body), Ok(ImgServerRequest::UploadImage));
}

#[test]
fn decode_native_upload_string_form() {
    let body = b"\"UploadImage\"".to_vec();
    assert_eq!(decode_native(&body), Ok(ImgServerRequest::UploadImage));
}

#[test]
fn decode_native_get() {
    let body = b"{\"GetImage\":\"abc\"}".to_vec();
    assert_eq!(
        decode_native(&body),
        Ok(ImgServerRequest::GetImage(String::from("abc")))
    );
}

#[test]
fn decode_native_get_with_whitespace() {
    let body = b" { \"GetImage\" : \"a b\" } ".to_vec();
    assert_eq!(
        decode_native(&body),
        Ok(ImgServerRequest::GetImage(String::from("a b")))
    );
}

#[test]
fn decode_native_get_with_escapes() {
    let body = b"{\"GetImage\":\"a\\\"b\\\\c\\n\"}".to_vec();
    assert_eq!(
        decode_native(&body),
        Ok(ImgServerRequest::GetImage(String::from("a\"b\\c\n")))
    );
}

#[test]
fn decode_native_rejects_empty_object() {
    assert!(decode_native(&b"{}".to_vec()).is_err());
}

#[test]
fn decode_native_rejects_unknown_key() {
    assert!(decode_native(&b"{\"foo\":1}".to_vec()).is_err());
}

#[test]
fn decode_native_rejects_non_json() {
    assert!(decode_native(&b"not json at all".to_vec()).is_err());
    assert!(decode_native(&Vec::new()).is_err());
}

#[test]
fn decode_native_rejects_wrong_value_shapes() {
    assert!(decode_native(&b"{\"GetImage\": 5}".to_vec()).is_err());
    assert!(decode_native(&b"{\"UploadImage\": \"x\"}".to_vec()).is_err());
    assert!(decode_native(&b"{\"GetImage\":\"a\" \"b\"}".to_vec()).is_err());
}

#[test]
fn decode_http_falls_back_to_upload() {
    assert_eq!(decode_http(&b"{}".to_vec()), ImgServerRequest::UploadImage);
    assert_eq!(
        decode_http(&b"{\"foo\":1}".to_vec()),
        ImgServerRequest::UploadImage
    );
    assert_eq!(
        decode_http(&b"not json at all".to_vec()),
        ImgServerRequest::UploadImage
    );
}

#[test]
fn decode_http_recognizes_get() {
    assert_eq!(
        decode_http(&b"{\"GetImage\":\"7\"}".to_vec()),
        ImgServerRequest::GetImage(String::from("7"))
    );
}

#[test]
fn decode_http_upload_form_is_upload() {
    assert_eq!(
        decode_http(&b"{\"UploadImage\": null}".to_vec()),
        ImgServerRequest::UploadImage
    );
}

#[test]
fn encode_native_upload_ok() {
    let resp = ImgServerResponse::UploadImage(Ok(String::from("0")));
    assert_eq!(encode_native(&resp), "{\"UploadImage\":{\"Ok\":\"0\"}}");
}

#[test]
fn encode_native_upload_err() {
    let resp = ImgServerResponse::UploadImage(Err(String::from("Failed to get blob")));
    assert_eq!(
        encode_native(&resp),
        "{\"UploadImage\":{\"Err\":\"Failed to get blob\"}}"
    );
}

#[test]
fn encode_native_get_ok() {
    let resp = ImgServerResponse::GetImage(Ok(String::from("AQID")));
    assert_eq!(encode_native(&resp), "{\"GetImage\":{\"Ok\":\"AQID\"}}");
}

#[test]
fn encode_native_get_err() {
    let resp = ImgServerResponse::GetImage(Err(String::from("image not found")));
    assert_eq!(
        encode_native(&resp),
        "{\"GetImage\":{\"Err\":\"image not found\"}}"
    );
}

#[test]
fn encode_http_success_is_200_with_json_string() {
    let (status, body) = encode_http(&Ok(String::from("AQID")));
    assert_eq!(status, 200);
    assert_eq!(body, "\"AQID\"");
}

#[test]
fn encode_http_failure_is_500_with_json_string() {
    let (status, body) = encode_http(&Err(String::from("image not found")));
    assert_eq!(status, 500);
    assert_eq!(body, "\"image not found\"");
}

#[test]
fn encode_http_escapes_quotes_and_backslashes() {
    let (status, body) = encode_http(&Ok(String::from("a\"b\\c")));
    assert_eq!(status, 200);
    assert_eq!(body, "\"a\\\"b\\\\c\"");
}

#[test]
fn base64_of_three_bytes() {
    assert_eq!(b64_encode(&vec![1u8, 2, 3]), "AQID");
}

#[test]
fn base64_of_text() {
    assert_eq!(b64_encode(&b"Man".to_vec()), "TWFu");
    assert_eq!(b64_encode(&b"Ma".to_vec()), "TWE=");
    assert_eq!(b64_encode(&b"M".to_vec()), "TQ==");
}

#[test]
fn base64_of_empty_is_empty() {
    assert_eq!(b64_encode(&Vec::new()), "");
}

#[test]
fn base64_pads_remainders() {
    assert_eq!(b64_encode(&vec![1u8]), "AQ==");
    assert_eq!(b64_encode(&vec![1u8, 2]), "AQI=");
    assert_eq!(b64_encode(&vec![255u8, 255, 255, 255]), "/////w==");
}
