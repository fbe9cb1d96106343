use mc_world_manager::codec::{decode_path, encode_path, PathDecodeError};

#[test]
fn encode_path_gives_padded_base64() {
    assert_eq!(encode_path("hello"), "aGVsbG8=");
    assert_eq!(encode_path(""), "");
    assert_eq!(encode_path("C:\\saves\\World"), "Qzpcc2F2ZXNcV29ybGQ=");
}

#[test]
fn decode_path_reverses_encoding() {
    for p in ["", "a", "C:\\Users\\me\\AppData\\Roaming\\.minecraft\\saves\\New World", "/home/ü/wörld ✓", "a,b"] {
        let e = encode_path(p);
        assert_eq!(decode_path(&e), Ok(p.to_string()));
    }
}

#[test]
fn decode_path_rejects_non_base64() {
    assert_eq!(decode_path("not base64!"), Err(PathDecodeError::NotBase64));
    assert_eq!(decode_path("aGVsbG8"), Err(PathDecodeError::NotBase64));
}

#[test]
fn decode_path_rejects_non_utf8_bytes() {
    // "/w==" is the encoding of the single byte 0xFF
    assert_eq!(decode_path("/w=="), Err(PathDecodeError::NotUtf8));
}
