use simple_bitcoin::util::{bytes_to_hex, decode_hex, hex_to_bytes};

#[test]
fn test_to_hex() {
    assert_eq!(bytes_to_hex(&[65, 98, 78]), "41624e".to_string());
}

#[test]
fn test_to_bytes() {
    assert_eq!(&hex_to_bytes("41624e".to_string()), &[65, 98, 78]);
}

#[test]
fn decode_hex_rejects_what_is_not_lowercase_hex() {
    assert_eq!(decode_hex("41624E"), None);
    assert_eq!(decode_hex("416"), None);
    assert_eq!(decode_hex("zz"), None);
    assert_eq!(decode_hex("é0"), None);
    assert_eq!(decode_hex(""), Some(vec![]));
    assert_eq!(decode_hex("00ff10"), Some(vec![0, 255, 16]));
}
