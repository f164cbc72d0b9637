use chunked_transfer_encoding::headers::transfer_encoding_is_chunked;
use chunked_transfer_encoding::utils::{chunk_size, transfer_encoding_value_is_chunked};
use chunked_transfer_encoding::TRANSFER_ENCODING_CHUNKED_VALUE;

#[test]
fn test_chunk_size() {
    assert_eq!(chunk_size(b""), "0");
    assert_eq!(chunk_size(b"1"), "1");
    assert_eq!(chunk_size(b"1234567890"), "A");
    assert_eq!(chunk_size(b"12345678901234"), "E");
}

#[test]
fn test_chunk_size_boundaries() {
    assert_eq!(chunk_size(&vec![0u8; 255]), "FF");
    assert_eq!(chunk_size(&vec![0u8; 256]), "100");
    assert_eq!(chunk_size(&vec![0u8; 16]), "10");
    assert_eq!(chunk_size(&vec![0u8; 15]), "F");
    assert_eq!(chunk_size(&vec![0u8; 4096]), "1000");
}

#[test]
fn test_transfer_encoding_value_is_chunked() {
    assert!(transfer_encoding_value_is_chunked("chunked"));
    assert!(transfer_encoding_value_is_chunked("gzip, chunked"));
    assert!(!transfer_encoding_value_is_chunked("compress"));
}

#[test]
fn test_transfer_encoding_value_edge_cases() {
    assert_eq!(TRANSFER_ENCODING_CHUNKED_VALUE, "chunked");
    assert!(transfer_encoding_value_is_chunked(" chunked "));
    assert!(transfer_encoding_value_is_chunked("gzip,chunked"));
    assert!(transfer_encoding_value_is_chunked("chunked, gzip"));
    assert!(transfer_encoding_value_is_chunked("chunked,"));
    assert!(transfer_encoding_value_is_chunked(",chunked"));
    assert!(transfer_encoding_value_is_chunked("gzip, deflate, chunked"));
    // Trimming removes any Unicode whitespace, as `str::trim` does.
    assert!(transfer_encoding_value_is_chunked("gzip,\u{a0}chunked\u{2003}"));
    assert!(!transfer_encoding_value_is_chunked(""));
    assert!(!transfer_encoding_value_is_chunked(","));
    assert!(!transfer_encoding_value_is_chunked("Chunked"));
    assert!(!transfer_encoding_value_is_chunked("chunked-coding"));
    assert!(!transfer_encoding_value_is_chunked("xchunked"));
    assert!(!transfer_encoding_value_is_chunked("chu nked"));
    assert!(!transfer_encoding_value_is_chunked("gzip, compress"));
}

#[test]
fn test_transfer_encoding_is_chunked() {
    assert!(transfer_encoding_is_chunked(
        http::Response::builder()
            .header("Transfer-Encoding", "chunked")
            .body(())
            .unwrap()
            .headers()
    ));
    assert!(!transfer_encoding_is_chunked(
        http::Response::builder()
            .header("Transfer-Encoding", "compress")
            .body(())
            .unwrap()
            .headers()
    ));
    assert!(!transfer_encoding_is_chunked(
        http::Response::builder().body(()).unwrap().headers()
    ));
}

#[test]
fn test_transfer_encoding_header_variants() {
    // The field name is matched case-insensitively by the header map.
    assert!(transfer_encoding_is_chunked(
        http::Response::builder()
            .header("transfer-encoding", "gzip, chunked")
            .body(())
            .unwrap()
            .headers()
    ));
    // Header bytes that are not valid UTF-8 count as not chunked.
    let mut headers = http::HeaderMap::new();
    let raw = http::HeaderValue::from_bytes(&[0xffu8, b'c']).unwrap();
    headers.insert(http::header::TRANSFER_ENCODING, raw);
    assert!(!transfer_encoding_is_chunked(&headers));
}
