use chatcmd::codec::{decode_fields, encode_fields};

#[test]
fn encode_is_the_documented_form() {
    assert_eq!(
        encode_fields("bob", "a tester"),
        "{\"nickname\":\"bob\",\"description\":\"a tester\"}"
    );
}

#[test]
fn encode_escapes_quotes_and_backslashes() {
    assert_eq!(
        encode_fields("bob", "say \"hi\" \\ there"),
        "{\"nickname\":\"bob\",\"description\":\"say \\\"hi\\\" \\\\ there\"}"
    );
}

#[test]
fn decode_inverts_encode() {
    let text = encode_fields("bob", "a tester");
    let (k, d) = decode_fields(&text).unwrap();
    assert_eq!(k, "bob");
    assert_eq!(d, "a tester");
}

#[test]
fn decode_inverts_encode_with_escapes() {
    let text = encode_fields("bo\"b", "a \\ \"tester\"");
    let (k, d) = decode_fields(&text).unwrap();
    assert_eq!(k, "bo\"b");
    assert_eq!(d, "a \\ \"tester\"");
}

#[test]
fn decode_rejects_malformed_text() {
    assert!(decode_fields("").is_none());
    assert!(decode_fields("not a record").is_none());
    assert!(decode_fields("{\"nickname\":\"bob\"}").is_none());
    assert!(decode_fields("{\"nickname\":\"bob\",\"description\":\"x\"").is_none());
    assert!(decode_fields("{\"nickname\":\"bob\",\"description\":\"x\"} ").is_none());
    assert!(decode_fields("{\"nickname\":\"bob\",\"description\":\"x\\\"}").is_none());
}
