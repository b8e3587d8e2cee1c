use welove520::client::build_signed_params;
use welove520::envelope::demux;
use welove520::envelope::find_message;
use welove520::envelope::Message;
use welove520::envelope::Response;
use welove520::error::WeLoveError;
use welove520::sig::calculate_sig;

fn b(s: &str) -> Vec<u8> {
    s.as_bytes().to_vec()
}

fn pair(k: &str, v: &str) -> (Vec<u8>, Vec<u8>) {
    (b(k), b(v))
}

fn s(v: &[u8]) -> String {
    String::from_utf8(v.to_vec()).unwrap()
}

#[test]
fn test_build_signed_params_layout() {
    let defaults = vec![pair("fv", "9.9.9"), pair("union_id", "u-77")];
    let call = vec![pair("item_id", "201001")];
    let built = build_signed_params(&defaults, &call, &b("/v1/game/farm/market/buy"), &b("123456"));
    assert_eq!(built.len(), 5);
    assert_eq!(s(&built[0].0), "item_id");
    assert_eq!(s(&built[0].1), "201001");
    assert_eq!(s(&built[1].0), "fv");
    assert_eq!(s(&built[2].0), "union_id");
    assert_eq!(s(&built[3].0), "ts");
    assert_eq!(s(&built[3].1), "123456");
    assert_eq!(s(&built[4].0), "sig");
}

#[test]
fn test_build_signed_params_defaults_win() {
    let defaults = vec![pair("fv", "9.9.9")];
    let call = vec![pair("fv", "tampered"), pair("count", "10")];
    let built = build_signed_params(&defaults, &call, &b("/v1/game/farm/market/sale"), &b("7"));
    let fv: Vec<&(Vec<u8>, Vec<u8>)> = built.iter().filter(|p| p.0 == b("fv")).collect();
    assert_eq!(fv.len(), 1);
    assert_eq!(s(&fv[0].1), "9.9.9");
}

#[test]
fn test_build_signed_params_signature_covers_timestamp() {
    let defaults = vec![pair("fv", "1.2.3")];
    let call = vec![pair("order_id", "2434433066")];
    let path = b("/v1/game/farm/order/accomplish");
    let built = build_signed_params(&defaults, &call, &path, &b("1700000000000"));
    let pre_sig: Vec<(Vec<u8>, Vec<u8>)> = built[..built.len() - 1].to_vec();
    let expected = calculate_sig(&b("POST"), &path, &pre_sig);
    assert_eq!(s(&built[built.len() - 1].1), expected);

    // A different timestamp must change the token.
    let other = build_signed_params(&defaults, &call, &path, &b("1700000000001"));
    assert_ne!(built[built.len() - 1].1, other[other.len() - 1].1);
}

#[test]
fn test_find_message_returns_first_match() {
    let messages = vec![
        Message { msg_type: 2, payload: serde_json::Value::Null },
        Message { msg_type: 15, payload: serde_json::Value::Bool(true) },
        Message { msg_type: 15, payload: serde_json::Value::Bool(false) },
    ];
    assert_eq!(find_message(&messages, 15), Some(1));
    assert_eq!(find_message(&messages, 2), Some(0));
    assert_eq!(find_message(&messages, 920), None);
}

#[test]
fn test_demux_missing_message_is_named_error() {
    let resp = Response {
        result: 0,
        messages: vec![Message { msg_type: 20, payload: serde_json::Value::Null }],
        error_msg: String::new(),
    };
    let found = demux(&resp, 20);
    assert_eq!(found.unwrap().msg_type, 20);
    let err = match demux(&resp, 47) {
        Ok(_) => panic!("message 47 should be absent"),
        Err(e) => e,
    };
    assert_eq!(err, WeLoveError::MissingMessage(47));
    assert!(err.is_missing_message());
}
