use base64::Engine;
use rdn::b64::{decode_text, B64Error, decoded_path, decoded_status, encode_contents, encoded_path, encoded_status};

#[test]
fn encoding_matches_rfc4648() {
    assert_eq!(encode_contents(b""), "");
    assert_eq!(encode_contents(b"f"), "Zg==");
    assert_eq!(encode_contents(b"fo"), "Zm8=");
    assert_eq!(encode_contents(b"foo"), "Zm9v");
    assert_eq!(encode_contents(b"foobar"), "Zm9vYmFy");
    let data: Vec<u8> = (0..=255u8).collect();
    assert_eq!(encode_contents(&data), base64::engine::general_purpose::STANDARD.encode(&data));
}

#[test]
fn decoding_round_trip_and_errors() {
    let data: Vec<u8> = (0..100u8).map(|i| i.wrapping_mul(7)).collect();
    let text = format!("  {}\n", encode_contents(&data));
    assert_eq!(decode_text(&text).unwrap(), data);
    assert!(decode_text("Zm9v!").is_err());
    assert_eq!(decode_text("Zm9v!Zm9v"), Err(B64Error::InvalidByte(4, b'!')));
    assert!(decode_text("Zg").is_err());
    assert_eq!(decode_text("").unwrap(), Vec::<u8>::new());
}

#[test]
fn output_names() {
    assert_eq!(encoded_path("/tmp/a.txt"), "/tmp/a.txt.b64");
    assert_eq!(encoded_path("/tmp/noext"), "/tmp/noext..b64");
    assert_eq!(
        encoded_path("/tmp/a.txt"),
        std::path::Path::new("/tmp/a.txt").with_extension("txt.b64").to_str().unwrap()
    );
    assert_eq!(decoded_path("/tmp/a.txt.b64"), "/tmp/a.txt");
    assert_eq!(decoded_path("/tmp/data.bin"), "/tmp/data.decoded");
    assert_eq!(decoded_path("/tmp/x"), "/tmp/x.decoded");
    for p in ["/a/b.c.d", "rel/name", "/a/b/", "x.", ".hidden", "/"] {
        assert_eq!(
            rdn::paths::with_extension_of(p, "zz"),
            std::path::Path::new(p).with_extension("zz").to_str().unwrap(),
            "with_extension of {:?}",
            p
        );
    }
    assert_eq!(encoded_status(3), "Base64 encoded 3 file(s)");
    assert_eq!(decoded_status(2, 0), "Base64 decoded 2 file(s)");
    assert_eq!(decoded_status(2, 1), "Decoded 2, 1 error(s)");
}
