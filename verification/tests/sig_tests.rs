use welove520::sig::calculate_sig;

fn b(s: &str) -> Vec<u8> {
    s.as_bytes().to_vec()
}

fn pair(k: &str, v: &str) -> (Vec<u8>, Vec<u8>) {
    (b(k), b(v))
}

#[test]
fn test_calculate_sig() {
    let sig = calculate_sig(&b("post"), &b("/v1/game/farm/stall/query"), &Vec::new());
    assert_eq!(sig, "23afb48ee128f1c4e8b0dc1f42354b2e");
}

#[test]
fn test_sig_upper_cases_method() {
    let lower = calculate_sig(&b("post"), &b("/v1/game/farm/stall/query"), &Vec::new());
    let upper = calculate_sig(&b("POST"), &b("/v1/game/farm/stall/query"), &Vec::new());
    assert_eq!(lower, upper);
}

#[test]
fn test_sig_order_invariant() {
    let params1 = vec![
        pair("union_id", "42"),
        pair("item_id", "201001"),
        pair("ts", "1700000000000"),
    ];
    let params2 = vec![
        pair("ts", "1700000000000"),
        pair("union_id", "42"),
        pair("item_id", "201001"),
    ];
    let sig1 = calculate_sig(&b("POST"), &b("/v1/game/farm/crops/plant"), &params1);
    let sig2 = calculate_sig(&b("POST"), &b("/v1/game/farm/crops/plant"), &params2);
    assert_eq!(sig1, sig2);
    assert_eq!(sig1.len(), 32);
}

#[test]
fn test_sig_ignores_sig_param() {
    let params = vec![pair("item_id", "201001"), pair("count", "10")];
    let mut with_sig = params.clone();
    with_sig.push(pair("sig", "bogus-pre-existing-token"));
    let clean = calculate_sig(&b("POST"), &b("/v1/game/farm/market/sale"), &params);
    let tainted = calculate_sig(&b("POST"), &b("/v1/game/farm/market/sale"), &with_sig);
    assert_eq!(clean, tainted);
}

#[test]
fn test_sig_depends_on_params() {
    let one = calculate_sig(
        &b("POST"),
        &b("/v1/game/farm/market/sale"),
        &vec![pair("count", "10")],
    );
    let other = calculate_sig(
        &b("POST"),
        &b("/v1/game/farm/market/sale"),
        &vec![pair("count", "11")],
    );
    assert_ne!(one, other);
}
