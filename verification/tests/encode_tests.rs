use welove520::crops::Farmland;
use welove520::encode::encode_farmlands_json;
use welove520::encode::encode_ids_comma;
use welove520::encode::i64_dec_bytes;

fn s(v: Vec<u8>) -> String {
    String::from_utf8(v).unwrap()
}

#[test]
fn test_i64_dec_bytes_values() {
    assert_eq!(s(i64_dec_bytes(0)), "0");
    assert_eq!(s(i64_dec_bytes(7)), "7");
    assert_eq!(s(i64_dec_bytes(201001)), "201001");
    assert_eq!(s(i64_dec_bytes(-1)), "-1");
    assert_eq!(s(i64_dec_bytes(i64::MAX)), "9223372036854775807");
    assert_eq!(s(i64_dec_bytes(i64::MIN)), "-9223372036854775808");
}

#[test]
fn test_encode_ids_comma() {
    assert_eq!(s(encode_ids_comma(&vec![])), "");
    assert_eq!(s(encode_ids_comma(&vec![5])), "5");
    assert_eq!(s(encode_ids_comma(&vec![5, 1, 4])), "5,1,4");
}

#[test]
fn test_encode_farmlands_json() {
    assert_eq!(s(encode_farmlands_json(&vec![])), "[]");
    let farmlands = vec![
        Farmland { id: 8, last_interval: 1, x: 0, y: 9 },
        Farmland { id: 7, last_interval: 1, x: -3, y: 3 },
    ];
    assert_eq!(
        s(encode_farmlands_json(&farmlands)),
        "[{\"id\":8,\"last_interval\":1,\"x\":0,\"y\":9},{\"id\":7,\"last_interval\":1,\"x\":-3,\"y\":3}]"
    );
}
