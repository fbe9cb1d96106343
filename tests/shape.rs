use std::io::Write;
use mc_world_manager::format::{detect_and_read_nbt, read_uncompressed, Compression, FormatError};
use mc_world_manager::shape::{check_nbt_shape, MAX_NBT_DEPTH};

fn raw_of(blob: &nbt::Blob) -> Vec<u8> {
    let mut out = Vec::new();
    blob.to_writer(&mut out).unwrap();
    out
}

#[test]
fn written_document_has_valid_shape() {
    let mut blob = nbt::Blob::named("root");
    blob.insert("name", "World").unwrap();
    blob.insert("bytes", nbt::Value::ByteArray(vec![1, 2, 3])).unwrap();
    blob.insert("ints", nbt::Value::IntArray(vec![7, 8])).unwrap();
    blob.insert("longs", nbt::Value::LongArray(vec![9])).unwrap();
    blob.insert("list", nbt::Value::List(vec![nbt::Value::Short(1), nbt::Value::Short(2)])).unwrap();
    let bytes = raw_of(&blob);
    assert!(check_nbt_shape(&bytes));
    assert_eq!(read_uncompressed(&bytes).unwrap(), blob);
}

#[test]
fn minimal_documents() {
    // empty root compound with an empty name
    assert!(check_nbt_shape(&[0x0A, 0x00, 0x00, 0x00]));
    // root compound holding an empty list of end tags
    assert!(check_nbt_shape(&[0x0A, 0x00, 0x00, 0x09, 0x00, 0x01, 0x6C, 0x00, 0x00, 0x00, 0x00, 0x00, 0x00]));
    assert!(!check_nbt_shape(&[]));
    assert!(!check_nbt_shape(&[0x0A, 0x00, 0x00]));
    assert!(!check_nbt_shape(&[0x08, 0x00, 0x00, 0x00]));
}

#[test]
fn negative_array_length_is_refused() {
    let bytes = [0x0A, 0x00, 0x00, 0x07, 0x00, 0x01, 0x61, 0xFF, 0xFF, 0xFF, 0xFF, 0x00];
    assert!(!check_nbt_shape(&bytes));
    assert_eq!(
        detect_and_read_nbt(&bytes).unwrap_err(),
        FormatError::Malformed { compression: Compression::Raw }
    );
}

#[test]
fn negative_list_length_is_refused() {
    let bytes = [0x0A, 0x00, 0x00, 0x09, 0x00, 0x01, 0x6C, 0x01, 0x80, 0x00, 0x00, 0x00, 0x00];
    assert!(!check_nbt_shape(&bytes));
    assert!(detect_and_read_nbt(&bytes).is_err());
}

#[test]
fn oversized_list_length_is_refused() {
    let bytes = [0x0A, 0x00, 0x00, 0x09, 0x00, 0x01, 0x6C, 0x03, 0x7F, 0xFF, 0xFF, 0xFF, 0x00];
    assert!(!check_nbt_shape(&bytes));
}

#[test]
fn unknown_list_element_type_is_refused() {
    let bytes = [0x0A, 0x00, 0x00, 0x09, 0x00, 0x01, 0x6C, 0x0D, 0x00, 0x00, 0x00, 0x01, 0x00, 0x00];
    assert!(!check_nbt_shape(&bytes));
}

fn nested_lists(levels: usize) -> Vec<u8> {
    // root compound, entry "l": a list of lists ... ending in an empty list
    let mut bytes = vec![0x0A, 0x00, 0x00, 0x09, 0x00, 0x01, 0x6C];
    for _ in 0..levels {
        bytes.extend_from_slice(&[0x09, 0x00, 0x00, 0x00, 0x01]);
    }
    bytes.extend_from_slice(&[0x01, 0x00, 0x00, 0x00, 0x00]);
    bytes.push(0x00);
    bytes
}

#[test]
fn nesting_within_limit_is_accepted() {
    assert!(check_nbt_shape(&nested_lists(10)));
    assert!(detect_and_read_nbt(&nested_lists(10)).is_ok());
    assert!(check_nbt_shape(&nested_lists(MAX_NBT_DEPTH as usize - 2)));
}

#[test]
fn deep_nesting_is_refused() {
    assert!(!check_nbt_shape(&nested_lists(MAX_NBT_DEPTH as usize)));
    let deep = nested_lists(200_000);
    assert!(!check_nbt_shape(&deep));
    assert!(detect_and_read_nbt(&deep).is_err());
}

#[test]
fn compressed_negative_length_is_refused_after_inflating() {
    let bytes = [0x0A, 0x00, 0x00, 0x07, 0x00, 0x01, 0x61, 0xFF, 0xFF, 0xFF, 0xFF, 0x00];
    let mut gz = flate2::write::GzEncoder::new(Vec::new(), flate2::Compression::default());
    gz.write_all(&bytes).unwrap();
    let gz = gz.finish().unwrap();
    assert_eq!(
        detect_and_read_nbt(&gz).unwrap_err(),
        FormatError::Malformed { compression: Compression::Gzip }
    );
    let mut z = flate2::write::ZlibEncoder::new(Vec::new(), flate2::Compression::default());
    z.write_all(&bytes).unwrap();
    let z = z.finish().unwrap();
    assert_eq!(
        detect_and_read_nbt(&z).unwrap_err(),
        FormatError::Malformed { compression: Compression::Zlib }
    );
}
