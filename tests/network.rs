use whisper::network::{
    is_behind_nat, MessageCodec, MessageRequest, MessageResponse, RELAY_CONNECT_TIMEOUT_SECS,
    WHISPER_PROTOCOL,
};
use whisper::storage::{database_path, keypair_path};
use std::path::PathBuf;

#[test]
fn message_request_holds_data() {
    let data = vec![1, 2, 3, 4, 5];
    let req = MessageRequest(data.clone());
    assert_eq!(req.0, data);
}

#[test]
fn message_request_empty() {
    let req = MessageRequest(vec![]);
    assert!(req.0.is_empty());
}

#[test]
fn message_response_holds_bool() {
    let res_ok = MessageResponse(true);
    let res_fail = MessageResponse(false);
    assert!(res_ok.0);
    assert!(!res_fail.0);
}

#[test]
fn response_byte_encoding() {
    let codec = MessageCodec::default();
    assert_eq!(codec.encode_response(MessageResponse(true)), 1);
    assert_eq!(codec.encode_response(MessageResponse(false)), 0);
    assert_eq!(codec.decode_response(1), MessageResponse(true));
    assert_eq!(codec.decode_response(2), MessageResponse(false));
}

#[test]
fn codec_is_default() {
    let codec = MessageCodec::default();
    let _ = codec;
}

#[test]
fn protocol_name_is_valid() {
    assert!(WHISPER_PROTOCOL.starts_with('/'));
    assert!(WHISPER_PROTOCOL.contains("whisper"));
    assert!(WHISPER_PROTOCOL.contains("1.0.0"));
}

#[test]
fn is_behind_nat_returns_bool() {
    let _result = is_behind_nat(Some([192, 168, 1, 20]));
    assert!(is_behind_nat(None));
    assert!(is_behind_nat(Some([10, 0, 0, 1])));
    assert!(is_behind_nat(Some([172, 16, 0, 1])));
    assert!(is_behind_nat(Some([127, 0, 0, 1])));
    assert!(is_behind_nat(Some([169, 254, 3, 4])));
    assert!(!is_behind_nat(Some([8, 8, 8, 8])));
    assert!(!is_behind_nat(Some([172, 32, 0, 1])));
}

#[test]
fn relay_timeout_is_reasonable() {
    assert!(RELAY_CONNECT_TIMEOUT_SECS >= 10);
    assert!(RELAY_CONNECT_TIMEOUT_SECS <= 120);
}

#[test]
fn keypair_path_is_correct() {
    assert_eq!(PathBuf::from(keypair_path("/tmp/whisper")), PathBuf::from("/tmp/whisper/identity.key"));
}

#[test]
fn database_path_is_correct() {
    assert_eq!(PathBuf::from(database_path("/tmp/whisper")), PathBuf::from("/tmp/whisper/whisper.db"));
}
