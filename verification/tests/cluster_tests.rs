use std::io::Read;

use zim::cluster::{Cluster, Compression};
use zim::errors::Error;

fn put_u32(v: &mut Vec<u8>, x: u32) {
    v.extend_from_slice(&x.to_le_bytes());
}

fn put_u64(v: &mut Vec<u8>, x: u64) {
    v.extend_from_slice(&x.to_le_bytes());
}

/// Builds a stored (uncompressed) cluster over the given blobs: descriptor,
/// offset table with one trailing sentinel offset, then the blob bytes.
fn stored_cluster(blobs: &[&[u8]]) -> Vec<u8> {
    let entries = blobs.len() as u32 + 1;
    let mut payload = Vec::new();
    let mut off = entries * 4;
    put_u32(&mut payload, off);
    for b in blobs {
        off += b.len() as u32;
        put_u32(&mut payload, off);
    }
    for b in blobs {
        payload.extend_from_slice(b);
    }
    let mut cluster = vec![0u8];
    cluster.extend_from_slice(&payload);
    cluster
}

/// Opens the lone cluster of a byte region that holds nothing else.
fn open_cluster(data: Vec<u8>, version: u16) -> Result<Cluster, Error> {
    let checksum_pos = data.len() as u64;
    Cluster::new(&data, &vec![0u64], 0, checksum_pos, version)
}

fn xz_compress(payload: &[u8]) -> Vec<u8> {
    let mut encoder = xz2::read::XzEncoder::new(payload, 6);
    let mut out = Vec::new();
    encoder.read_to_end(&mut out).expect("compress");
    out
}

#[test]
fn stored_cluster_returns_each_blob() {
    let data = stored_cluster(&[b"abk", b"zz"]);
    let mut cluster = open_cluster(data, 5).expect("cluster");
    assert_eq!(cluster.compression, Compression::Uncompressed);
    assert!(!cluster.extended);
    assert_eq!(cluster.get_blob(0).expect("blob 0"), b"abk".to_vec());
    assert_eq!(cluster.get_blob(1).expect("blob 1"), b"zz".to_vec());
}

#[test]
fn single_offset_blob_spans_to_cluster_end() {
    // one table entry only: blob 0 runs from the first offset to the end
    let mut data = vec![0u8];
    put_u32(&mut data, 4);
    data.extend_from_slice(b"lonely");
    let mut cluster = open_cluster(data, 5).expect("cluster");
    assert_eq!(cluster.get_blob(0).expect("blob"), b"lonely".to_vec());
    assert_eq!(cluster.blob_count(), Some(1));
}

#[test]
fn out_of_range_blob_index_errors() {
    let data = stored_cluster(&[b"abc"]);
    let mut cluster = open_cluster(data, 5).expect("cluster");
    match cluster.get_blob(9) {
        Err(Error::OutOfBounds) => {},
        other => panic!("expected OutOfBounds, got {:?}", other),
    }
}

#[test]
fn extended_cluster_needs_version_6() {
    // descriptor 0x10: extended flag, stored payload with 64-bit offsets
    let mut data = vec![0x10u8];
    put_u64(&mut data, 8);
    data.extend_from_slice(b"wide");
    match open_cluster(data.clone(), 5) {
        Err(Error::InvalidClusterExtension) => {},
        other => panic!("expected InvalidClusterExtension, got {:?}", other.map(|_| ())),
    }
    let mut cluster = open_cluster(data, 6).expect("extended cluster in v6");
    assert!(cluster.extended);
    assert_eq!(cluster.get_blob(0).expect("blob"), b"wide".to_vec());
}

#[test]
fn unknown_compression_nibble_is_rejected() {
    let data = vec![2u8, 0, 0, 0, 0];
    match open_cluster(data, 5) {
        Err(Error::UnknownCompression) => {},
        other => panic!("expected UnknownCompression, got {:?}", other.map(|_| ())),
    }
}

#[test]
fn zero_first_offset_means_missing_blob_list() {
    let mut data = vec![0u8];
    put_u32(&mut data, 0);
    match open_cluster(data, 5) {
        Err(Error::MissingBlobList) => {},
        other => panic!("expected MissingBlobList, got {:?}", other.map(|_| ())),
    }
}

#[test]
fn unaligned_first_offset_means_missing_blob_list() {
    let mut data = vec![0u8];
    put_u32(&mut data, 7);
    data.extend_from_slice(b"xxxx");
    match open_cluster(data, 5) {
        Err(Error::MissingBlobList) => {},
        other => panic!("expected MissingBlobList, got {:?}", other.map(|_| ())),
    }
}

#[test]
fn lzma2_cluster_decompresses_and_serves_blobs() {
    let mut payload = Vec::new();
    put_u32(&mut payload, 8);
    put_u32(&mut payload, 11);
    payload.extend_from_slice(b"xyzrest");
    let mut data = vec![4u8];
    data.extend_from_slice(&xz_compress(&payload));
    let mut cluster = open_cluster(data, 5).expect("cluster");
    assert_eq!(cluster.compression, Compression::Lzma2);
    assert_eq!(cluster.blob_count(), None);
    assert_eq!(cluster.get_blob(0).expect("blob 0"), b"xyz".to_vec());
    assert_eq!(cluster.get_blob(1).expect("blob 1"), b"rest".to_vec());
    assert_eq!(cluster.blob_count(), Some(2));
}

#[test]
fn decompressing_twice_yields_identical_blobs() {
    let mut payload = Vec::new();
    put_u32(&mut payload, 4);
    payload.extend_from_slice(b"idempotent");
    let mut data = vec![4u8];
    data.extend_from_slice(&xz_compress(&payload));

    let mut first = open_cluster(data.clone(), 5).expect("cluster");
    first.decompress().expect("first decompression");
    first.decompress().expect("second decompression");
    let a = first.get_blob(0).expect("blob");
    let b = first.get_blob(0).expect("blob again");
    assert_eq!(a, b);

    // a fresh cluster over the same bytes sees the same payload
    let mut second = open_cluster(data, 5).expect("cluster");
    let c = second.get_blob(0).expect("blob");
    assert_eq!(a, c);
    assert_eq!(a, b"idempotent".to_vec());
}

#[test]
fn malformed_lzma2_stream_is_a_parsing_error() {
    let data = vec![4u8, 1, 2, 3, 4, 5];
    let mut cluster = open_cluster(data, 5).expect("construction is lazy");
    match cluster.get_blob(0) {
        Err(Error::ParsingError) => {},
        other => panic!("expected ParsingError, got {:?}", other),
    }
}

#[test]
fn empty_cluster_range_is_out_of_bounds() {
    // cluster 0 starts at 0 but checksum_pos is also 0: empty range
    let data = vec![0u8; 4];
    match Cluster::new(&data, &vec![0u64], 0, 0, 5) {
        Err(Error::OutOfBounds) => {},
        other => panic!("expected OutOfBounds, got {:?}", other.map(|_| ())),
    }
}
