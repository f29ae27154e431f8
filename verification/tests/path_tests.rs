use zim::errors::Error;
use zim::extract::{align_link_extension, make_path};
use zim::mime_type::MimeType;
use zim::namespace::Namespace;
use zim::uuid::Uuid;

#[test]
fn html_extension_is_appended_when_missing() {
    let path = make_path(
        "root",
        Namespace::Articles,
        "article",
        &MimeType::Type("text/html".to_string()),
    );
    assert_eq!(path, b"root/A/article.html".to_vec());
}

#[test]
fn htm_extension_is_kept_as_a_prefix_match() {
    let path = make_path(
        "root",
        Namespace::Articles,
        "article.htm",
        &MimeType::Type("text/html".to_string()),
    );
    assert_eq!(path, b"root/A/article.htm".to_vec());
}

#[test]
fn unrelated_extension_is_replaced() {
    let path = make_path(
        "root",
        Namespace::Articles,
        "article.png",
        &MimeType::Type("text/html".to_string()),
    );
    assert_eq!(path, b"root/A/article.html".to_vec());
}

#[test]
fn unknown_mime_type_leaves_the_path_alone() {
    let path = make_path(
        "root",
        Namespace::Metadata,
        "Counter",
        &MimeType::Type("application/octet-stream".to_string()),
    );
    assert_eq!(path, b"root/M/Counter".to_vec());
}

#[test]
fn redirect_mime_kind_adds_no_extension() {
    let path = make_path("root", Namespace::Articles, "go", &MimeType::Redirect);
    assert_eq!(path, b"root/A/go".to_vec());
}

#[test]
fn leading_slash_is_stripped_once() {
    let path = make_path("out", Namespace::Articles, "/index", &MimeType::Redirect);
    assert_eq!(path, b"out/A/index".to_vec());
}

#[test]
fn empty_root_makes_a_relative_path() {
    let path = make_path("", Namespace::ImagesFile, "pic.png", &MimeType::Redirect);
    assert_eq!(path, b"I/pic.png".to_vec());
}

#[test]
fn dot_in_directory_does_not_count_as_extension() {
    let path = make_path(
        "o.ut",
        Namespace::Articles,
        "article",
        &MimeType::Type("text/css".to_string()),
    );
    assert_eq!(path, b"o.ut/A/article.css".to_vec());
}

#[test]
fn link_destination_takes_source_extension() {
    let src = b"out/A/X.html".to_vec();
    let dst = b"out/A/Y".to_vec();
    assert_eq!(align_link_extension(&src, dst), b"out/A/Y.html".to_vec());

    let dst2 = b"out/A/Y.htm".to_vec();
    assert_eq!(align_link_extension(&src, dst2), b"out/A/Y.html".to_vec());

    let dst3 = b"out/A/Y.html".to_vec();
    assert_eq!(align_link_extension(&src, dst3), b"out/A/Y.html".to_vec());

    let bare_src = b"out/A/X".to_vec();
    let dst4 = b"out/A/Y.gif".to_vec();
    assert_eq!(align_link_extension(&bare_src, dst4), b"out/A/Y.gif".to_vec());
}

#[test]
fn uuid_renders_in_dashed_hex() {
    let uuid = Uuid::new([
        0x12, 0x34, 0x56, 0x78, 0x9a, 0xbc, 0xde, 0xf0, 0x01, 0x23, 0x45, 0x67, 0x89, 0xab, 0xcd,
        0xef,
    ]);
    assert_eq!(uuid.to_hex(), "12345678-9abc-def0-0123-456789abcdef");
    assert_eq!(uuid.hi(0), b'1');
    assert_eq!(uuid.lo(0), b'2');
    assert_eq!(uuid.hi(4), b'9');
    assert_eq!(uuid.lo(4), b'a');
}

#[test]
fn error_descriptions_are_stable() {
    assert_eq!(Error::UnknownCompression.description(), "unknown compression");
    assert_eq!(
        Error::InvalidVersion.description(),
        "invalid major version, must be 5 or 6"
    );
    assert_eq!(
        Error::InvalidClusterExtension.description(),
        "cluster extension requires major version 6"
    );
    assert_eq!(Error::OutOfBounds.description(), "out of bounds access");
    assert_eq!(Error::MissingBlobList.description(), "cluster is missing a blob list");
    assert_eq!(Error::InvalidChecksum.description(), "invalid checksum");
    assert_eq!(Error::InvalidNamespace.description(), "invalid namespace");
    assert_eq!(Error::ParsingError.description(), "failed to parse");
}

#[test]
fn namespace_bytes_round_trip() {
    let all: [(u8, Namespace); 10] = [
        (b'-', Namespace::Layout),
        (b'A', Namespace::Articles),
        (b'B', Namespace::ArticleMetaData),
        (b'I', Namespace::ImagesFile),
        (b'J', Namespace::ImagesText),
        (b'M', Namespace::Metadata),
        (b'U', Namespace::CategoriesText),
        (b'V', Namespace::CategoriesArticleList),
        (b'W', Namespace::CategoriesArticle),
        (b'X', Namespace::FulltextIndex),
    ];
    for (byte, ns) in all {
        let parsed = Namespace::try_from(byte).expect("namespace byte");
        assert_eq!(parsed, ns);
        assert_eq!(parsed.as_byte(), byte);
    }
    match Namespace::try_from(b'Z') {
        Err(Error::InvalidNamespace) => {},
        other => panic!("expected InvalidNamespace, got {:?}", other.map(|_| ())),
    }
}
