//! The archive type: opening, header and table parsing, MIME resolution,
//! and checksum verification.

use vstd::prelude::*;
use vstd::utf8::{valid_utf8, decode_utf8};

use crate::bytes::{le16, le32, le64, first_zero_at, lemma_first_zero_at, read_u16, read_u32,
    read_u64, find_zero, copy_range, bytes_eq, string_from_utf8};
use crate::cluster::{Cluster, spec_cluster_check, spec_cluster_start, spec_cluster_end};
use crate::directory_entry::{DirectoryEntry, SpecEntry, parse_entry, entry_matches};
use crate::errors::Error;
use crate::mime_type::MimeType;
use crate::uuid::Uuid;

verus! {

/// Magic number that opens every ZIM file, stored little-endian.
pub const ZIM_MAGIC_NUMBER: u32 = 72173914;

/// A ZIM archive held in memory, with its header and tables parsed.
pub struct Zim {
    pub header: ZimHeader,
    /// The archive's bytes; every parsed structure is specified against
    /// little-endian reads of this sequence.
    pub data: Vec<u8>,
    /// List of MIME type names used in this archive.
    pub mime_table: Vec<String>,
    /// Offsets of directory entries, ordered by URL.
    pub url_list: Vec<u64>,
    /// Indices into `url_list`, ordered by title.
    pub article_list: Vec<u32>,
    /// Offsets of clusters.
    pub cluster_list: Vec<u64>,
    /// MD5 checksum stored at the end of the archive.
    pub checksum: Vec<u8>,
}

/// The fixed 80-byte record at the start of every ZIM file, plus the
/// optional geo index offset.
pub struct ZimHeader {
    /// Major version, either 5 or 6.
    pub version_major: u16,
    /// Minor version.
    pub version_minor: u16,
    /// Unique id of this ZIM file.
    pub uuid: Uuid,
    /// Total number of articles.
    pub article_count: u32,
    /// Total number of clusters.
    pub cluster_count: u32,
    /// Position of the directory pointer list ordered by URL.
    pub url_ptr_pos: u64,
    /// Position of the directory pointer list ordered by title.
    pub title_ptr_pos: u64,
    /// Position of the cluster pointer list.
    pub cluster_ptr_pos: u64,
    /// Position of the MIME type list (also the header size).
    pub mime_list_pos: u64,
    /// Main page, absent when the stored word is the `0xffffffff` sentinel.
    pub main_page: Option<u32>,
    /// Layout page, absent when the stored word is the `0xffffffff` sentinel.
    pub layout_page: Option<u32>,
    /// Position of the MD5 checksum of this file, always 16 bytes before
    /// the end of the file.
    pub checksum_pos: u64,
    /// Position of the geo index, present exactly when `mime_list_pos > 80`.
    pub geo_index_pos: Option<u64>,
}

/// Turns the 32-bit sentinel `0xffffffff` into "absent".
pub fn is_defined(val: u32) -> (r: Option<u32>)
    ensures
        val == 0xffffffffu32 ==> r is None,
        val != 0xffffffffu32 ==> r == Some(val),
{
    if val == 0xffffffff {
        None
    } else {
        Some(val)
    }
}

/// Where the MIME table starts: right after the header, or after the geo
/// index offset when that is present.
pub open spec fn spec_mime_start(d: Seq<u8>) -> int {
    if le64(d, 56) > 80 {
        88
    } else {
        80
    }
}

/// The rows of the MIME table read from `d` starting at `pos`: zero-terminated
/// byte strings up to the first empty one.  An error when a terminator or the
/// final empty row is missing (`OutOfBounds`) or a row is not valid UTF-8
/// (`ParsingError`), in scan order.
pub open spec fn mime_result(d: Seq<u8>, pos: int) -> Result<Seq<Seq<u8>>, Error>
    decreases d.len() - pos,
        via mime_result_dec
{
    if pos < 0 || pos >= d.len() {
        Err(Error::OutOfBounds)
    } else {
        let z = first_zero_at(d, pos);
        if z >= d.len() {
            Err(Error::OutOfBounds)
        } else if z == pos {
            Ok(seq![])
        } else if !valid_utf8(d.subrange(pos, z)) {
            Err(Error::ParsingError)
        } else {
            match mime_result(d, z + 1) {
                Ok(rest) => Ok(seq![d.subrange(pos, z)] + rest),
                Err(e) => Err(e),
            }
        }
    }
}

#[via_fn]
proof fn mime_result_dec(d: Seq<u8>, pos: int) {
    if 0 <= pos < d.len() {
        lemma_first_zero_at(d, pos);
    }
}

/// The parsed MIME table stands for the scanned rows: same length, and each
/// string is the UTF-8 decoding of its row.
pub open spec fn mime_table_matches(t: Seq<String>, rows: Seq<Seq<u8>>) -> bool {
    &&& t.len() == rows.len()
    &&& forall|i: int| 0 <= i < rows.len() ==> valid_utf8(#[trigger] rows[i])
    &&& forall|i: int| 0 <= i < rows.len() ==> #[trigger] t[i]@ == decode_utf8(rows[i])
}

/// The header fields are the little-endian reads at their fixed offsets:
/// the 80-byte record is consumed in order and ends exactly at offset 80,
/// with the geo index offset following only when `mime_list_pos > 80`.
pub open spec fn header_matches(h: ZimHeader, d: Seq<u8>) -> bool {
    &&& h.version_major == le16(d, 4)
    &&& h.version_minor == le16(d, 6)
    &&& h.uuid@ == d.subrange(8, 24)
    &&& h.article_count == le32(d, 24)
    &&& h.cluster_count == le32(d, 28)
    &&& h.url_ptr_pos == le64(d, 32)
    &&& h.title_ptr_pos == le64(d, 40)
    &&& h.cluster_ptr_pos == le64(d, 48)
    &&& h.mime_list_pos == le64(d, 56)
    &&& h.main_page == (if le32(d, 64) == 0xffffffff {
        Option::<u32>::None
    } else {
        Option::<u32>::Some(le32(d, 64) as u32)
    })
    &&& h.layout_page == (if le32(d, 68) == 0xffffffff {
        Option::<u32>::None
    } else {
        Option::<u32>::Some(le32(d, 68) as u32)
    })
    &&& h.checksum_pos == le64(d, 72)
    &&& h.geo_index_pos == (if le64(d, 56) > 80 {
        Option::<u64>::Some(le64(d, 80) as u64)
    } else {
        Option::<u64>::None
    })
}

/// Why opening fails at the header stage, in check order: magic number,
/// version, room for the fixed record and the geo index offset, then the
/// MIME table scan.  `None` means the header parses.
pub open spec fn spec_header_check(d: Seq<u8>) -> Option<Error> {
    if d.len() < 4 {
        Some(Error::OutOfBounds)
    } else if le32(d, 0) != 72173914 {
        Some(Error::InvalidMagicNumber)
    } else if d.len() < 80 {
        Some(Error::OutOfBounds)
    } else if le16(d, 4) != 5 && le16(d, 4) != 6 {
        Some(Error::InvalidVersion)
    } else if le64(d, 56) > 80 && d.len() < 88 {
        Some(Error::OutOfBounds)
    } else {
        match mime_result(d, spec_mime_start(d)) {
            Ok(rows) => None,
            Err(e) => Some(e),
        }
    }
}

/// Reads the MIME table rows starting at `start`, decoding each row as UTF-8.
fn parse_mime_table(data: &Vec<u8>, start: usize) -> (r: Result<Vec<String>, Error>)
    requires
        start <= data.len(),
    ensures
        r is Ok <==> mime_result(data@, start as int) is Ok,
        r matches Ok(t) ==> mime_table_matches(t@, mime_result(data@, start as int).unwrap()),
        r matches Err(e) ==> mime_result(data@, start as int) == Err::<Seq<Seq<u8>>, Error>(e),
{
    let ghost d = data@;
    let mut table: Vec<String> = Vec::new();
    let ghost mut rows: Seq<Seq<u8>> = Seq::empty();
    let mut pos: usize = start;
    loop
        invariant
            start <= pos <= data.len(),
            d == data@,
            table@.len() == rows.len(),
            forall|i: int| 0 <= i < rows.len() ==> valid_utf8(#[trigger] rows[i]),
            forall|i: int| 0 <= i < rows.len() ==> #[trigger] table@[i]@ == decode_utf8(rows[i]),
            (match mime_result(d, pos as int) {
                Ok(rest) => mime_result(d, start as int) == Ok::<Seq<Seq<u8>>, Error>(rows + rest),
                Err(e) => mime_result(d, start as int) == Err::<Seq<Seq<u8>>, Error>(e),
            }),
        decreases data.len() - pos,
    {
        if pos == data.len() {
            return Err(Error::OutOfBounds);
        }
        let z = find_zero(data, pos);
        proof {
            lemma_first_zero_at(d, pos as int);
        }
        if z == data.len() {
            return Err(Error::OutOfBounds);
        }
        if z == pos {
            proof {
                assert(mime_result(d, pos as int) == Ok::<Seq<Seq<u8>>, Error>(seq![]));
                assert(rows + Seq::<Seq<u8>>::empty() =~= rows);
                assert(mime_table_matches(table@, rows));
            }
            return Ok(table);
        }
        let row = copy_range(data, pos, z);
        let ghost row_bytes = d.subrange(pos as int, z as int);
        match string_from_utf8(row) {
            Some(s) => {
                table.push(s);
                proof {
                    let rest0 = mime_result(d, z + 1);
                    if rest0 is Ok {
                        assert(rows + (seq![row_bytes] + rest0.unwrap()) =~= (rows.push(row_bytes))
                            + rest0.unwrap());
                    }
                    rows = rows.push(row_bytes);
                }
                pos = z + 1;
            },
            None => {
                return Err(Error::ParsingError);
            },
        }
    }
}

/// Parses the fixed header and the MIME table.
///
/// The magic number is checked before anything else is read; the version
/// must be major 5 or 6; the geo index offset is read only when
/// `mime_list_pos > 80`.
pub fn parse_header(data: &Vec<u8>) -> (r: Result<(ZimHeader, Vec<String>), Error>)
    ensures
        r is Ok <==> spec_header_check(data@) is None,
        r matches Ok(p) ==> (header_matches(p.0, data@) && mime_table_matches(
            p.1@,
            mime_result(data@, spec_mime_start(data@)).unwrap(),
        )),
        r matches Err(e) ==> spec_header_check(data@) == Some(e),
{
    if data.len() < 4 {
        return Err(Error::OutOfBounds);
    }
    let magic = read_u32(data, 0);
    if magic != ZIM_MAGIC_NUMBER {
        return Err(Error::InvalidMagicNumber);
    }
    if data.len() < 80 {
        return Err(Error::OutOfBounds);
    }
    let version_major = read_u16(data, 4);
    if version_major != 5 && version_major != 6 {
        return Err(Error::InvalidVersion);
    }
    let version_minor = read_u16(data, 6);
    let uuid_arr: [u8; 16] = [data[8], data[9], data[10], data[11], data[12], data[13], data[14],
        data[15], data[16], data[17], data[18], data[19], data[20], data[21], data[22], data[23]];
    proof {
        assert(uuid_arr@ =~= data@.subrange(8, 24));
    }
    let uuid = Uuid::new(uuid_arr);
    let article_count = read_u32(data, 24);
    let cluster_count = read_u32(data, 28);
    let url_ptr_pos = read_u64(data, 32);
    let title_ptr_pos = read_u64(data, 40);
    let cluster_ptr_pos = read_u64(data, 48);
    let mime_list_pos = read_u64(data, 56);
    let main_page = read_u32(data, 64);
    let layout_page = read_u32(data, 68);
    let checksum_pos = read_u64(data, 72);

    let geo_index_pos: Option<u64> = if mime_list_pos > 80 {
        if data.len() < 88 {
            return Err(Error::OutOfBounds);
        }
        Some(read_u64(data, 80))
    } else {
        None
    };

    let mime_start: usize = if mime_list_pos > 80 {
        88
    } else {
        80
    };
    let mime_table = match parse_mime_table(data, mime_start) {
        Ok(t) => t,
        Err(e) => {
            return Err(e);
        },
    };

    Ok((
        ZimHeader {
            version_major,
            version_minor,
            uuid,
            article_count,
            cluster_count,
            url_ptr_pos,
            title_ptr_pos,
            cluster_ptr_pos,
            mime_list_pos,
            main_page: is_defined(main_page),
            layout_page: is_defined(layout_page),
            checksum_pos,
            geo_index_pos,
        },
        mime_table,
    ))
}

/// The `count` little-endian 64-bit words stored at `pos`.
pub open spec fn spec_u64_list(d: Seq<u8>, pos: int, count: int) -> Seq<u64> {
    Seq::new(count as nat, |i: int| le64(d, pos + 8 * i) as u64)
}

/// The `count` little-endian 32-bit words stored at `pos`.
pub open spec fn spec_u32_list(d: Seq<u8>, pos: int, count: int) -> Seq<u32> {
    Seq::new(count as nat, |i: int| le32(d, pos + 4 * i) as u32)
}

/// Parses the URL pointer list: `count` 64-bit offsets of directory entries.
pub fn parse_url_list(data: &Vec<u8>, ptr_pos: u64, count: u32) -> (r: Result<Vec<u64>, Error>)
    ensures
        r is Ok <==> ptr_pos + 8 * count <= data.len(),
        r matches Ok(v) ==> v@ == spec_u64_list(data@, ptr_pos as int, count as int),
        r is Err ==> (r matches Err(e) && e == Error::OutOfBounds),
{
    let n = data.len();
    if ptr_pos > n as u64 || (count as u64) * 8 > n as u64 - ptr_pos {
        return Err(Error::OutOfBounds);
    }
    let mut out: Vec<u64> = Vec::new();
    let mut i: u32 = 0;
    while i < count
        invariant
            ptr_pos + 8 * count <= data.len(),
            0 <= i <= count,
            out@.len() == i,
            forall|k: int|
                0 <= k < i ==> out@[k] == le64(data@, ptr_pos + 8 * k) as u64,
        decreases count - i,
    {
        let off = ptr_pos + 8 * (i as u64);
        out.push(read_u64(data, off as usize));
        i = i + 1;
    }
    proof {
        assert(out@ =~= spec_u64_list(data@, ptr_pos as int, count as int));
    }
    Ok(out)
}

/// Parses the title pointer list: `count` 32-bit indices into the URL list.
pub fn parse_article_list(data: &Vec<u8>, ptr_pos: u64, count: u32) -> (r: Result<Vec<u32>, Error>)
    ensures
        r is Ok <==> ptr_pos + 4 * count <= data.len(),
        r matches Ok(v) ==> v@ == spec_u32_list(data@, ptr_pos as int, count as int),
        r is Err ==> (r matches Err(e) && e == Error::OutOfBounds),
{
    let n = data.len();
    if ptr_pos > n as u64 || (count as u64) * 4 > n as u64 - ptr_pos {
        return Err(Error::OutOfBounds);
    }
    let mut out: Vec<u32> = Vec::new();
    let mut i: u32 = 0;
    while i < count
        invariant
            ptr_pos + 4 * count <= data.len(),
            0 <= i <= count,
            out@.len() == i,
            forall|k: int|
                0 <= k < i ==> out@[k] == le32(data@, ptr_pos + 4 * k) as u32,
        decreases count - i,
    {
        let off = ptr_pos + 4 * (i as u64);
        out.push(read_u32(data, off as usize));
        i = i + 1;
    }
    proof {
        assert(out@ =~= spec_u32_list(data@, ptr_pos as int, count as int));
    }
    Ok(out)
}

/// Parses the cluster pointer list: `count` 64-bit offsets of clusters.
pub fn parse_cluster_list(data: &Vec<u8>, ptr_pos: u64, count: u32) -> (r: Result<Vec<u64>, Error>)
    ensures
        r is Ok <==> ptr_pos + 8 * count <= data.len(),
        r matches Ok(v) ==> v@ == spec_u64_list(data@, ptr_pos as int, count as int),
        r is Err ==> (r matches Err(e) && e == Error::OutOfBounds),
{
    parse_url_list(data, ptr_pos, count)
}

/// Reads the 16-byte MD5 checksum stored at `checksum_pos`.
pub fn read_checksum(data: &Vec<u8>, checksum_pos: u64) -> (r: Result<Vec<u8>, Error>)
    ensures
        r is Ok <==> checksum_pos + 16 <= data.len(),
        r matches Ok(v) ==> v@ == data@.subrange(checksum_pos as int, checksum_pos + 16),
        r is Err ==> (r matches Err(e) && e == Error::MissingChecksum),
{
    let n = data.len();
    if checksum_pos > n as u64 || n as u64 - checksum_pos < 16 {
        return Err(Error::MissingChecksum);
    }
    Ok(copy_range(data, checksum_pos as usize, checksum_pos as usize + 16))
}

/// Why opening fails, in check order: the header stage first, then room for
/// the three pointer lists, then the stored checksum.  `None` means `Zim::new`
/// succeeds.
pub open spec fn spec_open_check(d: Seq<u8>) -> Option<Error> {
    match spec_header_check(d) {
        Some(e) => Some(e),
        None => {
            if !(le64(d, 32) + 8 * le32(d, 24) <= d.len()) {
                Some(Error::OutOfBounds)
            } else if !(le64(d, 40) + 4 * le32(d, 24) <= d.len()) {
                Some(Error::OutOfBounds)
            } else if !(le64(d, 48) + 8 * le32(d, 28) <= d.len()) {
                Some(Error::OutOfBounds)
            } else if !(le64(d, 72) + 16 <= d.len()) {
                Some(Error::MissingChecksum)
            } else {
                None
            }
        },
    }
}

impl Zim {
    /// The archive is well formed: the header parses from `data` and every
    /// table holds exactly what its position and count declare.
    pub open spec fn wf(&self) -> bool {
        let d = self.data@;
        &&& spec_header_check(d) is None
        &&& spec_open_check(d) is None
        &&& header_matches(self.header, d)
        &&& mime_table_matches(self.mime_table@, mime_result(d, spec_mime_start(d)).unwrap())
        &&& self.url_list@ == spec_u64_list(d, self.header.url_ptr_pos as int,
            self.header.article_count as int)
        &&& self.article_list@ == spec_u32_list(d, self.header.title_ptr_pos as int,
            self.header.article_count as int)
        &&& self.cluster_list@ == spec_u64_list(d, self.header.cluster_ptr_pos as int,
            self.header.cluster_count as int)
        &&& self.url_list@.len() == self.header.article_count
        &&& self.article_list@.len() == self.header.article_count
        &&& self.cluster_list@.len() == self.header.cluster_count
        &&& self.checksum@ == d.subrange(self.header.checksum_pos as int,
            self.header.checksum_pos + 16)
        &&& self.header.checksum_pos + 16 <= d.len()
    }

    /// Opens an archive from its bytes: parses the header, the MIME table,
    /// and the URL, title and cluster offset tables.  The rest of the data
    /// is only read when asked for.
    pub fn new(data: Vec<u8>) -> (r: Result<Zim, Error>)
        ensures
            r is Ok <==> spec_open_check(data@) is None,
            r matches Ok(z) ==> (z.wf() && z.data@ == data@),
            r matches Err(e) ==> spec_open_check(data@) == Some(e),
    {
        let (header, mime_table) = match parse_header(&data) {
            Ok(p) => p,
            Err(e) => {
                return Err(e);
            },
        };

        let url_list = match parse_url_list(&data, header.url_ptr_pos, header.article_count) {
            Ok(v) => v,
            Err(e) => {
                return Err(e);
            },
        };
        let article_list = match parse_article_list(&data, header.title_ptr_pos,
            header.article_count) {
            Ok(v) => v,
            Err(e) => {
                return Err(e);
            },
        };
        let cluster_list = match parse_cluster_list(&data, header.cluster_ptr_pos,
            header.cluster_count) {
            Ok(v) => v,
            Err(e) => {
                return Err(e);
            },
        };
        let checksum = match read_checksum(&data, header.checksum_pos) {
            Ok(v) => v,
            Err(e) => {
                return Err(e);
            },
        };

        Ok(Zim { header, data, mime_table, url_list, article_list, cluster_list, checksum })
    }

    /// The number of articles.
    pub fn article_count(&self) -> (r: usize)
        ensures
            r == self.article_list@.len(),
    {
        self.article_list.len()
    }

    /// Resolves a MIME id: the three reserved values name the synthetic
    /// kinds, any other id below the table's length names its string, and
    /// the rest resolve to nothing.
    pub fn get_mimetype(&self, id: u16) -> (r: Option<MimeType>)
        ensures
            id == 0xffff ==> (r matches Some(m) && m is Redirect),
            id == 0xfffe ==> (r matches Some(m) && m is LinkTarget),
            id == 0xfffd ==> (r matches Some(m) && m is DeletedEntry),
            id < 0xfffd && (id as int) < self.mime_table@.len() ==> (r matches Some(m)
                && (m matches MimeType::Type(t) && t@ == self.mime_table@[id as int]@)),
            id < 0xfffd && (id as int) >= self.mime_table@.len() ==> r is None,
    {
        match id {
            0xffff => Some(MimeType::Redirect),
            0xfffe => Some(MimeType::LinkTarget),
            0xfffd => Some(MimeType::DeletedEntry),
            id => {
                if (id as usize) < self.mime_table.len() {
                    Some(MimeType::Type(self.mime_table[id as usize].clone()))
                } else {
                    None
                }
            },
        }
    }
}

/// The MD5 digest of a byte sequence: a function of the input bytes alone,
/// 16 bytes long.
pub uninterp spec fn md5_of(bytes: Seq<u8>) -> Seq<u8>;

/// Relies on the md-5 crate's `Md5`: the digest depends on the input bytes
/// alone and is 16 bytes long.
#[verifier::external_body]
fn md5_digest(input: &Vec<u8>) -> (r: Vec<u8>)
    ensures
        r@ == md5_of(input@),
        r@.len() == 16,
{
    <md5::Md5 as md5::Digest>::digest(input.as_slice()).to_vec()
}

/// The entries whose first `n` URL-list offsets decode successfully, in
/// URL order; offsets that fail to decode contribute nothing.
pub open spec fn spec_ok_entries(d: Seq<u8>, n_mime: int, urls: Seq<u64>, n: int) -> Seq<SpecEntry>
    decreases n,
{
    if n <= 0 {
        seq![]
    } else {
        let pre = spec_ok_entries(d, n_mime, urls, n - 1);
        match parse_entry(d, n_mime, urls[n - 1] as int) {
            Ok(s) => pre.push(s),
            Err(e) => pre,
        }
    }
}

impl Zim {
    /// Recomputes the MD5 digest of everything before `checksum_pos` and
    /// compares it with the stored checksum.
    pub fn verify_checksum(&self) -> (r: Result<(), Error>)
        requires
            self.wf(),
        ensures
            r is Ok <==> md5_of(self.data@.take(self.header.checksum_pos as int))
                == self.checksum@,
            r is Err ==> r == Err::<(), Error>(Error::InvalidChecksum),
    {
        proof {
            assert(self.data@.len() == self.data.len());
        }
        let prefix = copy_range(&self.data, 0, self.header.checksum_pos as usize);
        proof {
            assert(prefix@ =~= self.data@.take(self.header.checksum_pos as int));
        }
        let computed = md5_digest(&prefix);
        if bytes_eq(&self.checksum, &computed) {
            Ok(())
        } else {
            Err(Error::InvalidChecksum)
        }
    }

    /// Returns the `DirectoryEntry` found at URL index `idx`.
    ///
    /// `idx` must be below `article_count`.
    pub fn get_by_url_index(&self, idx: u32) -> (r: Result<DirectoryEntry, Error>)
        requires
            self.wf(),
            idx < self.header.article_count,
        ensures
            r is Ok <==> parse_entry(self.data@, self.mime_table@.len() as int,
                self.url_list@[idx as int] as int) is Ok,
            r matches Ok(e) ==> entry_matches(
                e,
                parse_entry(self.data@, self.mime_table@.len() as int,
                    self.url_list@[idx as int] as int).unwrap(),
                self.mime_table@,
            ),
            r matches Err(er) ==> parse_entry(self.data@, self.mime_table@.len() as int,
                self.url_list@[idx as int] as int) == Err::<SpecEntry, Error>(er),
    {
        let entry_offset = self.url_list[idx as usize];
        DirectoryEntry::new(self, entry_offset)
    }

    /// Decodes the articles in URL order, skipping any entry that fails to
    /// decode: the caller sees a sequence no longer than `article_count`.
    pub fn iterate_by_urls(&self) -> (r: Vec<DirectoryEntry>)
        requires
            self.wf(),
        ensures
            ({
                let specs = spec_ok_entries(self.data@, self.mime_table@.len() as int,
                    self.url_list@, self.header.article_count as int);
                &&& r@.len() == specs.len()
                &&& forall|k: int|
                    0 <= k < specs.len() ==> #[trigger] entry_matches(r@[k], specs[k],
                        self.mime_table@)
            }),
    {
        let ghost d = self.data@;
        let ghost n_mime = self.mime_table@.len() as int;
        let ghost urls = self.url_list@;
        let mut out: Vec<DirectoryEntry> = Vec::new();
        let ghost mut specs: Seq<SpecEntry> = Seq::empty();
        let mut i: u32 = 0;
        let n = self.header.article_count;
        while i < n
            invariant
                self.wf(),
                0 <= i <= n,
                n == self.header.article_count,
                d == self.data@,
                n_mime == self.mime_table@.len() as int,
                urls == self.url_list@,
                specs == spec_ok_entries(d, n_mime, urls, i as int),
                out@.len() == specs.len(),
                forall|k: int|
                    0 <= k < specs.len() ==> #[trigger] entry_matches(out@[k], specs[k],
                        self.mime_table@),
            decreases n - i,
        {
            let offset = self.url_list[i as usize];
            match DirectoryEntry::new(self, offset) {
                Ok(e) => {
                    out.push(e);
                    proof {
                        specs = specs.push(parse_entry(d, n_mime, offset as int).unwrap());
                    }
                },
                Err(_) => {},
            }
            i = i + 1;
        }
        out
    }

    /// Returns cluster `idx`, its byte range resolved from the cluster
    /// pointer list and bounded by `checksum_pos` for the last cluster.
    ///
    /// `idx` must be below `cluster_count`.
    pub fn get_cluster(&self, idx: u32) -> (r: Result<Cluster, Error>)
        requires
            self.wf(),
            idx < self.header.cluster_count,
        ensures
            r is Ok <==> spec_cluster_check(self.data@, self.cluster_list@, idx as int,
                self.header.checksum_pos, self.header.version_major) is None,
            r matches Err(e) ==> spec_cluster_check(self.data@, self.cluster_list@, idx as int,
                self.header.checksum_pos, self.header.version_major) == Some(e),
            r matches Ok(c) ==> {
                &&& c.wf()
                &&& c.start == spec_cluster_start(self.cluster_list@, idx as int)
                &&& c.end == spec_cluster_end(self.cluster_list@, self.header.checksum_pos,
                    idx as int)
                &&& c.size == c.end - c.start
                &&& c.raw@ == self.data@.subrange(c.start as int, c.end as int)
                &&& c.decompressed is None
            },
    {
        Cluster::new(
            &self.data,
            &self.cluster_list,
            idx,
            self.header.checksum_pos,
            self.header.version_major,
        )
    }
}

} // verus!
