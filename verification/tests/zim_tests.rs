use md5::Digest;

use zim::cluster::Compression;
use zim::errors::Error;
use zim::extract::{bucketize, make_path, targets_in_range};
use zim::mime_type::MimeType;
use zim::namespace::Namespace;
use zim::target::Target;
use zim::zim::Zim;

fn put_u16(v: &mut Vec<u8>, x: u16) {
    v.extend_from_slice(&x.to_le_bytes());
}

fn put_u32(v: &mut Vec<u8>, x: u32) {
    v.extend_from_slice(&x.to_le_bytes());
}

fn put_u64(v: &mut Vec<u8>, x: u64) {
    v.extend_from_slice(&x.to_le_bytes());
}

struct HeaderSpec {
    version_major: u16,
    article_count: u32,
    cluster_count: u32,
    url_ptr_pos: u64,
    title_ptr_pos: u64,
    cluster_ptr_pos: u64,
    mime_list_pos: u64,
    main_page: u32,
    layout_page: u32,
    checksum_pos: u64,
}

fn write_header(data: &mut Vec<u8>, h: &HeaderSpec) {
    let mut head = Vec::new();
    put_u32(&mut head, 72173914);
    put_u16(&mut head, h.version_major);
    put_u16(&mut head, 0);
    head.extend_from_slice(&[0u8; 16]);
    put_u32(&mut head, h.article_count);
    put_u32(&mut head, h.cluster_count);
    put_u64(&mut head, h.url_ptr_pos);
    put_u64(&mut head, h.title_ptr_pos);
    put_u64(&mut head, h.cluster_ptr_pos);
    put_u64(&mut head, h.mime_list_pos);
    put_u32(&mut head, h.main_page);
    put_u32(&mut head, h.layout_page);
    put_u64(&mut head, h.checksum_pos);
    assert_eq!(head.len(), 80);
    data[..80].copy_from_slice(&head);
}

/// A v5 archive with zero articles and zero clusters: header, an empty MIME
/// table at 80, empty lists at 81, checksum at 81.
fn minimal_archive() -> Vec<u8> {
    let mut data = vec![0u8; 80];
    data.push(0); // empty MIME table: just the terminating empty entry
    let checksum_pos = data.len() as u64;
    let h = HeaderSpec {
        version_major: 5,
        article_count: 0,
        cluster_count: 0,
        url_ptr_pos: 81,
        title_ptr_pos: 81,
        cluster_ptr_pos: 81,
        mime_list_pos: 80,
        main_page: 0xffffffff,
        layout_page: 0xffffffff,
        checksum_pos,
    };
    write_header(&mut data, &h);
    let digest = md5::Md5::digest(&data[..checksum_pos as usize]);
    data.extend_from_slice(&digest);
    data
}

fn content_entry(mime: u16, ns: u8, cluster: u32, blob: u32, url: &str, title: &str) -> Vec<u8> {
    let mut e = Vec::new();
    put_u16(&mut e, mime);
    e.push(0);
    e.push(ns);
    put_u32(&mut e, 0); // revision
    put_u32(&mut e, cluster);
    put_u32(&mut e, blob);
    e.extend_from_slice(url.as_bytes());
    e.push(0);
    e.extend_from_slice(title.as_bytes());
    e.push(0);
    e
}

fn redirect_entry(ns: u8, url_index: u32, url: &str, title: &str) -> Vec<u8> {
    let mut e = Vec::new();
    put_u16(&mut e, 0xffff);
    e.push(0);
    e.push(ns);
    put_u32(&mut e, 0); // revision
    put_u32(&mut e, url_index);
    e.extend_from_slice(url.as_bytes());
    e.push(0);
    e.extend_from_slice(title.as_bytes());
    e.push(0);
    e
}

/// An archive with one MIME type (`text/html`), a content article `A/X.html`
/// holding "hello" in cluster 0, and a redirect `A/Y.html` to it.
fn two_article_archive() -> Vec<u8> {
    two_article_archive_parts().0
}

/// The two-article archive plus the byte offsets of its two directory
/// entries, for tests that corrupt one of them.
fn two_article_archive_parts() -> (Vec<u8>, u64, u64) {
    let mut data = vec![0u8; 80];
    // MIME table at 80
    data.extend_from_slice(b"text/html\0\0");

    let entry0 = content_entry(0, b'A', 0, 0, "X.html", "X");
    let entry1 = redirect_entry(b'A', 0, "Y.html", "Y");

    // cluster 0: stored, two offsets (8, 13), payload "hello"
    let mut cluster = vec![0u8]; // descriptor: no compression
    put_u32(&mut cluster, 8);
    put_u32(&mut cluster, 13);
    cluster.extend_from_slice(b"hello");

    let url_ptr_pos = data.len() as u64;
    let dirent0_pos = url_ptr_pos + 16 + 8 + 8;
    let dirent1_pos = dirent0_pos + entry0.len() as u64;
    let cluster_pos = dirent1_pos + entry1.len() as u64;
    let checksum_pos = cluster_pos + cluster.len() as u64;

    put_u64(&mut data, dirent0_pos);
    put_u64(&mut data, dirent1_pos);
    let title_ptr_pos = data.len() as u64;
    put_u32(&mut data, 0);
    put_u32(&mut data, 1);
    let cluster_ptr_pos = data.len() as u64;
    put_u64(&mut data, cluster_pos);
    data.extend_from_slice(&entry0);
    data.extend_from_slice(&entry1);
    data.extend_from_slice(&cluster);
    assert_eq!(data.len() as u64, checksum_pos);

    let h = HeaderSpec {
        version_major: 5,
        article_count: 2,
        cluster_count: 1,
        url_ptr_pos,
        title_ptr_pos,
        cluster_ptr_pos,
        mime_list_pos: 80,
        main_page: 0,
        layout_page: 0xffffffff,
        checksum_pos,
    };
    write_header(&mut data, &h);
    let digest = md5::Md5::digest(&data[..checksum_pos as usize]);
    data.extend_from_slice(&digest);
    (data, dirent0_pos, dirent1_pos)
}

#[test]
fn minimal_v5_round_trip() {
    let zim = Zim::new(minimal_archive()).expect("minimal archive should open");
    assert_eq!(zim.header.version_major, 5);
    assert_eq!(zim.header.article_count, 0);
    assert_eq!(zim.header.cluster_count, 0);
    assert!(zim.url_list.is_empty());
    assert!(zim.cluster_list.is_empty());
    assert!(zim.header.main_page.is_none());
    assert!(zim.header.layout_page.is_none());
    assert_eq!(zim.article_count(), 0);
}

#[test]
fn corrupt_magic_is_rejected() {
    let mut data = minimal_archive();
    data[0] = 0xAA;
    match Zim::new(data) {
        Err(Error::InvalidMagicNumber) => {},
        other => panic!("expected InvalidMagicNumber, got {:?}", other.map(|_| ())),
    }
}

#[test]
fn bad_version_is_rejected() {
    let mut data = minimal_archive();
    data[4] = 7;
    data[5] = 0;
    match Zim::new(data) {
        Err(Error::InvalidVersion) => {},
        other => panic!("expected InvalidVersion, got {:?}", other.map(|_| ())),
    }
}

#[test]
fn short_file_is_rejected() {
    match Zim::new(vec![1, 2]) {
        Err(Error::OutOfBounds) => {},
        other => panic!("expected OutOfBounds, got {:?}", other.map(|_| ())),
    }
}

#[test]
fn mime_list_pos_at_80_reads_no_geo_index() {
    let zim = Zim::new(minimal_archive()).expect("open");
    assert_eq!(zim.header.mime_list_pos, 80);
    assert!(zim.header.geo_index_pos.is_none());
}

#[test]
fn mime_list_pos_past_80_reads_geo_index() {
    let mut data = vec![0u8; 80];
    put_u64(&mut data, 0xABCD); // geo index pointer at offset 80
    data.push(0); // empty MIME table at 88
    let checksum_pos = data.len() as u64;
    let h = HeaderSpec {
        version_major: 6,
        article_count: 0,
        cluster_count: 0,
        url_ptr_pos: 89,
        title_ptr_pos: 89,
        cluster_ptr_pos: 89,
        mime_list_pos: 88,
        main_page: 0xffffffff,
        layout_page: 0xffffffff,
        checksum_pos,
    };
    write_header(&mut data, &h);
    let digest = md5::Md5::digest(&data[..checksum_pos as usize]);
    data.extend_from_slice(&digest);
    let zim = Zim::new(data).expect("open");
    assert_eq!(zim.header.geo_index_pos, Some(0xABCD));
}

#[test]
fn main_page_sentinel_maps_to_absent() {
    let zim = Zim::new(two_article_archive()).expect("open");
    assert_eq!(zim.header.main_page, Some(0));
    assert!(zim.header.layout_page.is_none());
}

#[test]
fn reserved_mime_ids_resolve_to_synthetic_kinds() {
    let zim = Zim::new(two_article_archive()).expect("open");
    assert_eq!(zim.get_mimetype(0xffff), Some(MimeType::Redirect));
    assert_eq!(zim.get_mimetype(0xfffe), Some(MimeType::LinkTarget));
    assert_eq!(zim.get_mimetype(0xfffd), Some(MimeType::DeletedEntry));
    assert_eq!(
        zim.get_mimetype(0),
        Some(MimeType::Type("text/html".to_string()))
    );
    assert_eq!(zim.get_mimetype(1), None);
}

#[test]
fn iteration_decodes_both_articles() {
    let zim = Zim::new(two_article_archive()).expect("open");
    let entries = zim.iterate_by_urls();
    assert_eq!(entries.len(), 2);
    assert_eq!(zim.url_list.len(), 2);
    assert_eq!(zim.article_list.len(), 2);
    assert_eq!(zim.cluster_list.len(), 1);

    assert_eq!(entries[0].url, "X.html");
    assert_eq!(entries[0].title, "X");
    assert_eq!(entries[0].target, Some(Target::Cluster(0, 0)));
    assert_eq!(entries[0].mime_type, MimeType::Type("text/html".to_string()));

    assert_eq!(entries[1].url, "Y.html");
    assert_eq!(entries[1].target, Some(Target::Redirect(0)));
    assert_eq!(entries[1].mime_type, MimeType::Redirect);
}

#[test]
fn get_by_url_index_resolves_redirect_target() {
    let zim = Zim::new(two_article_archive()).expect("open");
    let entry = zim.get_by_url_index(1).expect("decode");
    match entry.target {
        Some(Target::Redirect(idx)) => {
            let target = zim.get_by_url_index(idx).expect("decode target");
            assert_eq!(target.url, "X.html");
        },
        other => panic!("expected redirect, got {:?}", other),
    }
}

#[test]
fn blob_bytes_come_back_from_the_cluster() {
    let zim = Zim::new(two_article_archive()).expect("open");
    let mut cluster = zim.get_cluster(0).expect("cluster");
    assert_eq!(cluster.compression, Compression::Uncompressed);
    let blob = cluster.get_blob(0).expect("blob");
    assert_eq!(blob, b"hello".to_vec());
}

#[test]
fn checksum_verifies_and_detects_tampering() {
    let zim = Zim::new(two_article_archive()).expect("open");
    assert!(zim.verify_checksum().is_ok());

    let mut data = two_article_archive();
    let n = data.len();
    data[n - 1] ^= 0xFF; // corrupt the stored digest
    let zim = Zim::new(data).expect("open");
    match zim.verify_checksum() {
        Err(Error::InvalidChecksum) => {},
        other => panic!("expected InvalidChecksum, got {:?}", other),
    }
}

#[test]
fn buckets_group_entries_by_cluster_and_route_redirects() {
    let zim = Zim::new(two_article_archive()).expect("open");
    let entries = zim.iterate_by_urls();
    let buckets = bucketize(&entries, zim.header.cluster_count, false);
    assert_eq!(buckets.len(), 2);
    assert_eq!(buckets[0], vec![0u32]);
    assert_eq!(buckets[1], vec![1u32]);

    let skipping = bucketize(&entries, zim.header.cluster_count, true);
    assert_eq!(skipping[0], vec![0u32]);
    assert!(skipping[1].is_empty());
}

#[test]
fn targets_stay_within_counts() {
    let zim = Zim::new(two_article_archive()).expect("open");
    let entries = zim.iterate_by_urls();
    assert!(targets_in_range(
        &entries,
        zim.header.cluster_count,
        zim.header.article_count
    ));
    // with a cluster count of zero the content entry's target is out of range
    assert!(!targets_in_range(&entries, 0, zim.header.article_count));
    // with an article count of zero the redirect's target is out of range
    assert!(!targets_in_range(&entries, zim.header.cluster_count, 0));
}

#[test]
fn blob_targets_stay_below_blob_count() {
    let zim = Zim::new(two_article_archive()).expect("open");
    let entries = zim.iterate_by_urls();
    for entry in &entries {
        if let Some(Target::Cluster(c, b)) = entry.target {
            let mut cluster = zim.get_cluster(c).expect("cluster");
            cluster.decompress().expect("decompress");
            let count = cluster.blob_count().expect("blob count");
            assert!((b as usize) < count);
        }
    }
}

#[test]
fn redirect_paths_pair_source_and_destination() {
    let zim = Zim::new(two_article_archive()).expect("open");
    let entries = zim.iterate_by_urls();
    let redirect = &entries[1];
    let dst = make_path("out", redirect.namespace, &redirect.url, &redirect.mime_type);
    let source = &entries[0];
    let src = make_path("out", source.namespace, &source.url, &source.mime_type);
    assert_eq!(src, b"out/A/X.html".to_vec());
    assert_eq!(dst, b"out/A/Y.html".to_vec());
}

#[test]
fn namespace_byte_maps_to_image_directory() {
    let path = make_path(
        "out",
        Namespace::try_from(0x49).expect("namespace"),
        "foo.png",
        &MimeType::Type("image/png".to_string()),
    );
    assert_eq!(path, b"out/I/foo.png".to_vec());
}

#[test]
fn corrupt_entry_is_skipped_in_iteration() {
    let (mut data, _d0, d1) = two_article_archive_parts();
    data[d1 as usize + 3] = b'Q'; // invalid namespace byte
    let zim = Zim::new(data).expect("open");
    let entries = zim.iterate_by_urls();
    assert_eq!(entries.len(), 1);
    assert_eq!(entries[0].url, "X.html");
    match zim.get_by_url_index(1) {
        Err(Error::InvalidNamespace) => {},
        other => panic!("expected InvalidNamespace, got {:?}", other.map(|_| ())),
    }
}

#[test]
fn unresolvable_mime_id_errors() {
    let (mut data, d0, _d1) = two_article_archive_parts();
    data[d0 as usize] = 5; // MIME id 5, but the table has one entry
    data[d0 as usize + 1] = 0;
    let zim = Zim::new(data).expect("open");
    match zim.get_by_url_index(0) {
        Err(Error::UnknownMimeType) => {},
        other => panic!("expected UnknownMimeType, got {:?}", other.map(|_| ())),
    }
    assert_eq!(zim.iterate_by_urls().len(), 1);
}

#[test]
fn missing_checksum_is_rejected() {
    let mut data = minimal_archive();
    data.truncate(data.len() - 16); // drop the stored digest
    match Zim::new(data) {
        Err(Error::MissingChecksum) => {},
        other => panic!("expected MissingChecksum, got {:?}", other.map(|_| ())),
    }
}

#[test]
fn non_utf8_mime_table_is_a_parsing_error() {
    let mut data = minimal_archive();
    // replace the empty MIME table with one invalid row
    data.truncate(80);
    data.extend_from_slice(&[0xFF, 0, 0]);
    let checksum_pos = data.len() as u64;
    data[72..80].copy_from_slice(&checksum_pos.to_le_bytes());
    data.extend_from_slice(&[0u8; 16]);
    match Zim::new(data) {
        Err(Error::ParsingError) => {},
        other => panic!("expected ParsingError, got {:?}", other.map(|_| ())),
    }
}

#[test]
fn pointer_list_outside_the_file_is_rejected() {
    let mut data = minimal_archive();
    let huge: u64 = 1 << 40;
    data[32..40].copy_from_slice(&huge.to_le_bytes());
    match Zim::new(data) {
        Err(Error::OutOfBounds) => {},
        other => panic!("expected OutOfBounds, got {:?}", other.map(|_| ())),
    }
}
