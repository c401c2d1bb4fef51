//! The gzip+base64 codec: round trips, failure cases, and the parallel
//! compressor.

use jockey_cli::codec::{compress_content, decompress_content, CompressionPool};
use jockey_cli::JockeyError;

#[test]
fn compress_then_decompress_recovers_text() {
    let cases = [
        "",
        "Hello, World!",
        "line one\nline two\n",
        "unicode: \u{2514}\u{2500} caf\u{e9} \u{1F600}",
        "repeated repeated repeated repeated repeated repeated",
    ];
    for case in cases {
        let packed = compress_content(case).unwrap();
        let unpacked = decompress_content(&packed).unwrap();
        assert_eq!(unpacked, case);
    }
}

#[test]
fn decompress_then_compress_recovers_compressed_form() {
    let packed = compress_content("Compressed content test").unwrap();
    let unpacked = decompress_content(&packed).unwrap();
    let repacked = compress_content(&unpacked).unwrap();
    assert_eq!(repacked, packed);
}

#[test]
fn compressed_output_is_base64() {
    let packed = compress_content("some text").unwrap();
    assert!(!packed.is_empty());
    assert!(packed
        .chars()
        .all(|c| c.is_ascii_alphanumeric() || c == '+' || c == '/' || c == '='));
}

#[test]
fn invalid_base64_is_a_compression_error() {
    let r = decompress_content("not base64 at all!!!");
    assert!(matches!(r, Err(JockeyError::Compression(_))));
}

#[test]
fn valid_base64_invalid_gzip_is_a_compression_error() {
    // "aGVsbG8=" decodes to "hello", which is no gzip stream.
    let r = decompress_content("aGVsbG8=");
    assert!(matches!(r, Err(JockeyError::Compression(_))));
}

#[test]
fn parallel_compression_matches_sequential() {
    let contents = vec![
        String::from("first"),
        String::from("second"),
        String::from("third\nwith lines"),
        String::new(),
    ];
    let pool = CompressionPool::new();
    let parallel = pool.compress_parallel(&contents).unwrap();
    assert_eq!(parallel.len(), contents.len());
    for (packed, plain) in parallel.iter().zip(contents.iter()) {
        assert_eq!(packed, &compress_content(plain).unwrap());
    }
}
