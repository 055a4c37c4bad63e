use img_server::dispatch::{
    handle_http_server_request, handle_kinode_request, handle_request, Reply,
};
use img_server::store::ImageStore;

#[test]
fn native_upload_then_get_scenario() {
    let mut store = ImageStore::empty();
    let reply = handle_kinode_request(
        &b"{\"UploadImage\": null}".to_vec(),
        Some(vec![1u8, 2, 3]),
        &mut store,
    );
    assert_eq!(
        reply,
        Reply::RespondNative { body: String::from("{\"UploadImage\":{\"Ok\":\"0\"}}") }
    );
    let reply = handle_kinode_request(&b"{\"GetImage\":\"0\"}".to_vec(), None, &mut store);
    assert_eq!(
        reply,
        Reply::RespondNative { body: String::from("{\"GetImage\":{\"Ok\":\"AQID\"}}") }
    );
}

#[test]
fn native_get_on_empty_store_reports_not_found() {
    let mut store = ImageStore::empty();
    let reply = handle_kinode_request(&b"{\"GetImage\":\"missing\"}".to_vec(), None, &mut store);
    assert_eq!(
        reply,
        Reply::RespondNative { body: String::from("{\"GetImage\":{\"Err\":\"image not found\"}}") }
    );
}

#[test]
fn native_malformed_payload_is_a_decode_error_not_an_upload() {
    let mut store = ImageStore::empty();
    let reply = handle_kinode_request(&b"{\"foo\":1}".to_vec(), Some(vec![1u8]), &mut store);
    assert!(matches!(reply, Reply::NoReply { .. }));
    // nothing was stored
    assert_eq!(store.get(&String::from("0")), None);
}

#[test]
fn native_upload_without_blob_reports_the_error() {
    let mut store = ImageStore::empty();
    let reply = handle_kinode_request(&b"{\"UploadImage\": null}".to_vec(), None, &mut store);
    assert_eq!(
        reply,
        Reply::RespondNative {
            body: String::from("{\"UploadImage\":{\"Err\":\"Failed to get blob\"}}"),
        }
    );
    assert_eq!(store.get(&String::from("0")), None);
}

#[test]
fn http_upload_and_get() {
    let mut store = ImageStore::empty();
    let reply = handle_http_server_request(Some(vec![1u8, 2, 3]), &mut store);
    assert_eq!(
        reply,
        Reply::RespondHttp { status: 200, body: String::from("\"0\"") }
    );
    let reply = handle_http_server_request(Some(b"{\"GetImage\":\"0\"}".to_vec()), &mut store);
    assert_eq!(
        reply,
        Reply::RespondHttp { status: 200, body: String::from("\"AQID\"") }
    );
}

#[test]
fn http_malformed_json_counts_as_upload() {
    let mut store = ImageStore::empty();
    let reply = handle_http_server_request(Some(b"{\"foo\":1}".to_vec()), &mut store);
    assert_eq!(
        reply,
        Reply::RespondHttp { status: 200, body: String::from("\"0\"") }
    );
    // the blob bytes themselves were stored
    assert_eq!(store.get(&String::from("0")), Some(b"{\"foo\":1}".to_vec()));
}

#[test]
fn http_get_of_missing_identifier_is_500() {
    let mut store = ImageStore::empty();
    let reply = handle_http_server_request(Some(b"{\"GetImage\":\"9\"}".to_vec()), &mut store);
    assert_eq!(
        reply,
        Reply::RespondHttp { status: 500, body: String::from("\"image not found\"") }
    );
}

#[test]
fn http_without_blob_fails_quietly_and_service_goes_on() {
    let mut store = ImageStore::empty();
    let reply = handle_request(
        &String::from("http-server:distro:sys"),
        &b"irrelevant".to_vec(),
        None,
        &mut store,
    );
    assert!(matches!(reply, Reply::NoReply { .. }));
    assert_eq!(store.get(&String::from("0")), None);
    // the next message is answered normally
    let reply = handle_request(
        &String::from("some-app:pkg:node"),
        &b"{\"UploadImage\": null}".to_vec(),
        Some(vec![1u8, 2, 3]),
        &mut store,
    );
    assert_eq!(
        reply,
        Reply::RespondNative { body: String::from("{\"UploadImage\":{\"Ok\":\"0\"}}") }
    );
}

#[test]
fn source_address_picks_the_transport() {
    // the same payload is an upload fallback over HTTP but a decode error natively
    let payload = b"{\"foo\":1}".to_vec();
    let mut store = ImageStore::empty();
    let reply = handle_request(
        &String::from("http-server:distro:sys"),
        &Vec::new(),
        Some(payload.clone()),
        &mut store,
    );
    assert!(matches!(reply, Reply::RespondHttp { status: 200, .. }));

    let mut store = ImageStore::empty();
    let reply = handle_request(
        &String::from("other:distro:sys"),
        &payload,
        Some(payload.clone()),
        &mut store,
    );
    assert!(matches!(reply, Reply::NoReply { .. }));
}

#[test]
fn response_messages_are_discarded() {
    let mut store = ImageStore::empty();
    let reply = img_server::dispatch::handle_message(
        false,
        &String::from("some-app:pkg:node"),
        &b"{\"UploadImage\": null}".to_vec(),
        Some(vec![1u8]),
        &mut store,
    );
    assert_eq!(reply, None);
    assert_eq!(store.get(&String::from("0")), None);
}

#[test]
fn request_messages_are_dispatched() {
    let mut store = ImageStore::empty();
    let reply = img_server::dispatch::handle_message(
        true,
        &String::from("some-app:pkg:node"),
        &b"{\"UploadImage\": null}".to_vec(),
        Some(vec![1u8, 2, 3]),
        &mut store,
    );
    assert_eq!(
        reply,
        Some(Reply::RespondNative { body: String::from("{\"UploadImage\":{\"Ok\":\"0\"}}") })
    );
}

#[test]
fn exhausted_identifier_counter_reports_the_error() {
    let mut store = ImageStore { records: Vec::new(), next_id: u64::MAX };
    let reply = handle_kinode_request(
        &b"{\"UploadImage\": null}".to_vec(),
        Some(vec![1u8]),
        &mut store,
    );
    assert_eq!(
        reply,
        Reply::RespondNative {
            body: String::from("{\"UploadImage\":{\"Err\":\"identifier space exhausted\"}}"),
        }
    );
}
