//! The directory entry decoder: one variable-length record per article,
//! holding its MIME id, namespace, revision, target and two strings.

use vstd::prelude::*;
use vstd::utf8::{valid_utf8, decode_utf8};

use crate::bytes::{le16, le32, first_zero_at, lemma_first_zero_at, read_u16, read_u32, find_zero,
    copy_range, string_from_utf8};
use crate::errors::Error;
use crate::mime_type::MimeType;
use crate::namespace::{Namespace, is_namespace_byte, spec_namespace_of};
use crate::target::Target;
use crate::zim::Zim;

verus! {

/// Holds metadata about an article.
#[derive(Debug)]
pub struct DirectoryEntry {
    /// The kind of content, resolved from the MIME id stored in the entry.
    pub mime_type: MimeType,
    /// The namespace this directory entry belongs to.
    pub namespace: Namespace,
    /// Identifies a revision of this entry's contents.
    pub revision: Option<u32>,
    /// The URL, as referred to in the URL pointer list.
    pub url: String,
    /// The title, as referred to in the title pointer list; may be empty.
    pub title: String,
    /// Where the content lives, absent for link targets and deleted entries.
    pub target: Option<Target>,
}

/// The fields of one directory entry, read straight off the archive bytes.
pub struct SpecEntry {
    pub mime_id: u16,
    pub namespace: u8,
    pub revision: u32,
    pub url: Seq<u8>,
    pub title: Seq<u8>,
    pub target: Option<Target>,
}

/// How many bytes the fixed part of an entry takes: through the redirect
/// index (12), through the revision only (8), or through the cluster and
/// blob indices (16).
pub open spec fn spec_entry_fixed_len(mime_id: int) -> int {
    if mime_id == 0xffff {
        12
    } else if mime_id == 0xfffe || mime_id == 0xfffd {
        8
    } else {
        16
    }
}

/// Decodes the directory entry at byte offset `off`: a 16-bit MIME id that
/// must be a sentinel or a dictionary index below `n_mime`, a namespace
/// byte from the closed set, a 32-bit revision, a target whose shape the
/// MIME id dictates, and two zero-terminated UTF-8 strings.  Errors, in
/// decode order: reads past the end (`OutOfBounds`), an unresolvable MIME
/// id (`UnknownMimeType`), a missing string terminator (`OutOfBounds`),
/// a non-UTF-8 string (`ParsingError`), an unknown namespace byte
/// (`InvalidNamespace`).
pub open spec fn parse_entry(d: Seq<u8>, n_mime: int, off: int) -> Result<SpecEntry, Error> {
    if !(0 <= off && off + 2 <= d.len()) {
        Err(Error::OutOfBounds)
    } else {
        let mime_id = le16(d, off);
        if !(mime_id == 0xffff || mime_id == 0xfffe || mime_id == 0xfffd || mime_id < n_mime) {
            Err(Error::UnknownMimeType)
        } else {
            let fixed_end = off + spec_entry_fixed_len(mime_id);
            if fixed_end > d.len() {
                Err(Error::OutOfBounds)
            } else {
                let z1 = first_zero_at(d, fixed_end);
                if z1 >= d.len() {
                    Err(Error::OutOfBounds)
                } else {
                    let z2 = first_zero_at(d, z1 + 1);
                    if z2 >= d.len() {
                        Err(Error::OutOfBounds)
                    } else {
                        let url = d.subrange(fixed_end, z1);
                        let title = d.subrange(z1 + 1, z2);
                        if !valid_utf8(url) {
                            Err(Error::ParsingError)
                        } else if !valid_utf8(title) {
                            Err(Error::ParsingError)
                        } else if !is_namespace_byte(d[off + 3]) {
                            Err(Error::InvalidNamespace)
                        } else {
                            Ok(
                                SpecEntry {
                                    mime_id: mime_id as u16,
                                    namespace: d[off + 3],
                                    revision: le32(d, off + 4) as u32,
                                    url,
                                    title,
                                    target: if mime_id == 0xffff {
                                        Some(Target::Redirect(le32(d, off + 8) as u32))
                                    } else if mime_id == 0xfffe || mime_id == 0xfffd {
                                        None
                                    } else {
                                        Some(
                                            Target::Cluster(
                                                le32(d, off + 8) as u32,
                                                le32(d, off + 12) as u32,
                                            ),
                                        )
                                    },
                                },
                            )
                        }
                    }
                }
            }
        }
    }
}

/// The decoded entry stands for the raw fields: the MIME kind resolves the
/// id against `mime`, the namespace byte names the namespace, and the two
/// strings are the UTF-8 decodings of the raw bytes.
pub open spec fn entry_matches(e: DirectoryEntry, s: SpecEntry, mime: Seq<String>) -> bool {
    &&& (s.mime_id == 0xffff ==> e.mime_type is Redirect)
    &&& (s.mime_id == 0xfffe ==> e.mime_type is LinkTarget)
    &&& (s.mime_id == 0xfffd ==> e.mime_type is DeletedEntry)
    &&& (!(s.mime_id == 0xffff || s.mime_id == 0xfffe || s.mime_id == 0xfffd) ==> (
    e.mime_type matches MimeType::Type(t) && s.mime_id < mime.len() && t@ == mime[
        s.mime_id as int
    ]@))
    &&& e.namespace == spec_namespace_of(s.namespace)
    &&& e.revision == Some(s.revision)
    &&& e.url@ == decode_utf8(s.url)
    &&& e.title@ == decode_utf8(s.title)
    &&& e.target == s.target
}

impl DirectoryEntry {
    /// Decodes the directory entry at byte offset `offset` of the archive.
    pub fn new(zim: &Zim, offset: u64) -> (r: Result<DirectoryEntry, Error>)
        ensures
            r is Ok <==> parse_entry(
                zim.data@,
                zim.mime_table@.len() as int,
                offset as int,
            ) is Ok,
            r matches Ok(e) ==> entry_matches(
                e,
                parse_entry(zim.data@, zim.mime_table@.len() as int, offset as int).unwrap(),
                zim.mime_table@,
            ),
            r matches Err(er) ==> parse_entry(zim.data@, zim.mime_table@.len() as int, offset as int)
                == Err::<SpecEntry, Error>(er),
    {
        let data = &zim.data;
        let ghost d = data@;
        let ghost n_mime = zim.mime_table@.len() as int;
        if offset >= data.len() as u64 || data.len() as u64 - offset < 2 {
            return Err(Error::OutOfBounds);
        }
        let off = offset as usize;
        let mime_id = read_u16(data, off);
        let mime_type = match zim.get_mimetype(mime_id) {
            Some(m) => m,
            None => {
                return Err(Error::UnknownMimeType);
            },
        };
        let fixed_len: usize = match &mime_type {
            MimeType::Redirect => 12,
            MimeType::LinkTarget => 8,
            MimeType::DeletedEntry => 8,
            MimeType::Type(_) => 16,
        };
        proof {
            assert(fixed_len == spec_entry_fixed_len(le16(d, off as int)));
        }
        if fixed_len > data.len() - off {
            return Err(Error::OutOfBounds);
        }
        let fixed_end = off + fixed_len;
        let revision = read_u32(data, off + 4);
        let target: Option<Target> = match &mime_type {
            MimeType::Redirect => Some(Target::Redirect(read_u32(data, off + 8))),
            MimeType::LinkTarget => None,
            MimeType::DeletedEntry => None,
            MimeType::Type(_) => Some(
                Target::Cluster(read_u32(data, off + 8), read_u32(data, off + 12)),
            ),
        };
        let z1 = find_zero(data, fixed_end);
        proof {
            lemma_first_zero_at(d, fixed_end as int);
        }
        if z1 == data.len() {
            return Err(Error::OutOfBounds);
        }
        let z2 = find_zero(data, z1 + 1);
        proof {
            lemma_first_zero_at(d, z1 + 1);
        }
        if z2 == data.len() {
            return Err(Error::OutOfBounds);
        }
        let url_bytes = copy_range(data, fixed_end, z1);
        let title_bytes = copy_range(data, z1 + 1, z2);
        let url = match string_from_utf8(url_bytes) {
            Some(s) => s,
            None => {
                return Err(Error::ParsingError);
            },
        };
        let title = match string_from_utf8(title_bytes) {
            Some(s) => s,
            None => {
                return Err(Error::ParsingError);
            },
        };
        let namespace = match Namespace::try_from(data[off + 3]) {
            Ok(n) => n,
            Err(e) => {
                return Err(e);
            },
        };
        Ok(
            DirectoryEntry {
                mime_type,
                namespace,
                revision: Some(revision),
                url,
                title,
                target,
            },
        )
    }
}

} // verus!
