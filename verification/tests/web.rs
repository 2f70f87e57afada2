//! HTTP-FLV request handling: token and nonce validation, query and path
//! parsing, and the per-request FLV stream.

use xiu::errors::{ServerError, ServerErrorValue};
use xiu::gop::FrameData;
use xiu::httpflv::{
    parse_flv_path, parse_query_params, remove_set_data_frame, retry_limit_reached,
    validate_token, HttpFLvErrorValue, HttpFlv, NonceStore,
};

#[test]
fn token_accepted_when_none_required() {
    assert!(validate_token(&None, &None).is_ok());
    assert!(validate_token(&None, &Some("anything".to_string())).is_ok());
}

#[test]
fn token_missing_is_no_token() {
    let r = validate_token(&Some("secret".to_string()), &None);
    assert!(matches!(r.unwrap_err().value, HttpFLvErrorValue::NoToken));
}

#[test]
fn token_mismatch_is_forbidden() {
    let r = validate_token(&Some("secret".to_string()), &Some("wrong".to_string()));
    assert!(matches!(r.unwrap_err().value, HttpFLvErrorValue::Forbidden));
}

#[test]
fn token_match_is_ok() {
    assert!(validate_token(&Some("secret".to_string()), &Some("secret".to_string())).is_ok());
}

#[test]
fn nonce_expires_after_ten_minutes() {
    let mut store = NonceStore::new();
    let t0: i64 = 1_000_000;
    store.add_nonce(77, t0);
    // ten minutes and a second later it is expired
    let mut late = NonceStore::new();
    late.add_nonce(77, t0);
    let r = late.validate_nonce(Some(77), t0 + 600_000 + 1_000);
    assert!(matches!(r.unwrap_err().value, HttpFLvErrorValue::InvalidNonce));
    // within its lifetime it is accepted, exactly once
    let r = store.validate_nonce(Some(77), t0 + 1);
    assert!(r.is_ok());
    let again = store.validate_nonce(Some(77), t0 + 2);
    assert!(matches!(again.unwrap_err().value, HttpFLvErrorValue::Forbidden));
}

#[test]
fn nonce_absent_or_unknown_is_forbidden() {
    let mut store = NonceStore::new();
    let r = store.validate_nonce(None, 0);
    assert!(matches!(r.unwrap_err().value, HttpFLvErrorValue::Forbidden));
    let r = store.validate_nonce(Some(1), 0);
    assert!(matches!(r.unwrap_err().value, HttpFLvErrorValue::Forbidden));
}

#[test]
fn gen_nonce_round_trip() {
    let mut store = NonceStore::new();
    let n = store.gen_nonce();
    // the minted nonce is valid for ten minutes from the wall clock, so
    // surely at the epoch; and it validates exactly once
    assert!(store.validate_nonce(Some(n), 0).is_ok());
    assert!(store.validate_nonce(Some(n), 0).is_err());
}

#[test]
fn prune_drops_expired_entries() {
    let mut store = NonceStore::new();
    store.add_nonce(1, 0);
    store.add_nonce(2, 10_000_000);
    store.prune_expired(5_000_000);
    assert!(store.validate_nonce(Some(1), 5_000_000).is_err());
    assert!(store.validate_nonce(Some(2), 5_000_000).is_ok());
}

#[test]
fn query_params_read_all_three() {
    let q = b"file_name=rec1&token=abc&nonce=123";
    let p = parse_query_params(q);
    assert_eq!(p.file_name, Some(b"rec1".to_vec()));
    assert_eq!(p.token, Some(b"abc".to_vec()));
    assert_eq!(p.nonce, Some(b"123".to_vec()));
}

#[test]
fn query_params_last_assignment_wins() {
    let p = parse_query_params(b"token=a&token=b");
    assert_eq!(p.token, Some(b"b".to_vec()));
}

#[test]
fn query_params_malformed_pieces_ignored() {
    let p = parse_query_params(b"token=a=b&other=1");
    assert_eq!(p.token, None);
    assert_eq!(p.file_name, None);
    assert_eq!(p.nonce, None);
}

#[test]
fn flv_path_parses_app_and_stream() {
    let r = parse_flv_path(b"/live/stream.flv").unwrap();
    assert_eq!(r.0, b"live".to_vec());
    assert_eq!(r.1, b"stream".to_vec());
}

#[test]
fn flv_path_without_suffix_is_rejected() {
    assert!(parse_flv_path(b"/live/stream").is_none());
    assert!(parse_flv_path(b".flv").is_none());
    assert!(parse_flv_path(b"/short.flv").is_none());
}

#[test]
fn http_flv_stream_header_and_tag() {
    let mut h = HttpFlv::new();
    h.write_stream_header();
    let header = h.flush_response_data();
    assert_eq!(
        header,
        vec![0x46, 0x4c, 0x56, 0x01, 0x05, 0x00, 0x00, 0x00, 0x09, 0x00, 0x00, 0x00, 0x00]
    );
    h.write_flv_tag(FrameData::Audio { timestamp: 5, data: vec![0xaf, 0x01] }).unwrap();
    let tag = h.flush_response_data();
    assert_eq!(
        tag,
        vec![
            0x08, 0x00, 0x00, 0x02, 0x00, 0x00, 0x05, 0x00, 0x00, 0x00, 0x00, 0xaf, 0x01, 0x00,
            0x00, 0x00, 0x0d
        ]
    );
}

#[test]
fn http_flv_drops_repeated_zero_timestamp_video() {
    let mut h = HttpFlv::new();
    let v0 = FrameData::Video { timestamp: 0, data: vec![0x17, 0x00] };
    h.write_flv_tag(v0).unwrap();
    let first = h.flush_response_data();
    assert!(!first.is_empty());
    let v0_again = FrameData::Video { timestamp: 0, data: vec![0x17, 0x00] };
    h.write_flv_tag(v0_again).unwrap();
    assert!(h.flush_response_data().is_empty());
    // non-zero timestamps always pass
    let v1 = FrameData::Video { timestamp: 33, data: vec![0x27, 0x01] };
    h.write_flv_tag(v1).unwrap();
    assert!(!h.flush_response_data().is_empty());
}

#[test]
fn set_data_frame_wrapper_is_stripped() {
    // the AMF0 string "@setDataFrame" followed by payload bytes
    let mut data = vec![0x02, 0x00, 0x0d];
    data.extend_from_slice(b"@setDataFrame");
    data.extend_from_slice(&[0x08, 0x00, 0x00, 0x00, 0x01]);
    let r = remove_set_data_frame(&data);
    assert_eq!(r, vec![0x08, 0x00, 0x00, 0x00, 0x01]);
    // other metadata passes unchanged
    let other = vec![0x02, 0x00, 0x02, 0x68, 0x69];
    assert_eq!(remove_set_data_frame(&other), other);
}

#[test]
fn retry_budget() {
    assert!(!retry_limit_reached(0));
    assert!(!retry_limit_reached(10));
    assert!(retry_limit_reached(11));
}

#[test]
fn server_error_describes_itself() {
    let e = ServerError { value: ServerErrorValue::Error };
    assert_eq!(e.describe(), "server error");
}

#[test]
fn http_flv_errors_describe_themselves() {
    let forbidden = xiu::httpflv::HttpFLvError { value: HttpFLvErrorValue::Forbidden };
    assert_eq!(forbidden.describe(), "forbidden");
    let invalid = xiu::httpflv::HttpFLvError { value: HttpFLvErrorValue::InvalidNonce };
    assert_eq!(invalid.describe(), "invalid nonce");
    let no_token = xiu::httpflv::HttpFLvError { value: HttpFLvErrorValue::NoToken };
    assert_eq!(no_token.describe(), "no token");
}
