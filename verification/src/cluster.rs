//! Clusters: groups of blobs stored together, uncompressed or as one LZMA2
//! stream, with an offset table that locates each blob.

use vstd::prelude::*;

use crate::bytes::{le32, le64, copy_range};
use crate::errors::Error;

verus! {

/// How a cluster's payload is stored.
#[derive(Debug, Clone, Copy, PartialEq, Eq, Structural)]
pub enum Compression {
    /// Stored bytes are the payload itself (descriptor values 0 and 1).
    Uncompressed,
    /// The payload is one LZMA2 (xz) stream (descriptor value 4).
    Lzma2,
}

impl Compression {
    /// Decodes the low nibble of a cluster descriptor byte.
    pub fn from(raw: u8) -> (r: Result<Compression, Error>)
        ensures
            raw == 0 || raw == 1 ==> r == Ok::<Compression, Error>(Compression::Uncompressed),
            raw == 4 ==> r == Ok::<Compression, Error>(Compression::Lzma2),
            !(raw == 0 || raw == 1 || raw == 4) ==> r == Err::<Compression, Error>(
                Error::UnknownCompression,
            ),
    {
        match raw {
            0 => Ok(Compression::Uncompressed),
            1 => Ok(Compression::Uncompressed),
            4 => Ok(Compression::Lzma2),
            _ => Err(Error::UnknownCompression),
        }
    }
}

/// What an xz (LZMA2) stream decodes to, or nothing when the stream is
/// malformed.  The decoding is a function of the input bytes alone.
pub uninterp spec fn xz_decoded(bytes: Seq<u8>) -> Option<Seq<u8>>;

/// Relies on xz2's `XzDecoder`: whether an xz stream decodes, and to what,
/// depends on the input bytes alone.
#[verifier::external_body]
fn xz_decompress(input: &Vec<u8>) -> (r: Option<Vec<u8>>)
    ensures
        r is Some <==> xz_decoded(input@) is Some,
        r matches Some(d) ==> xz_decoded(input@) == Some(d@),
{
    let mut decoder = xz2::read::XzDecoder::new(input.as_slice());
    let mut out = Vec::new();
    match std::io::Read::read_to_end(&mut decoder, &mut out) {
        Ok(_) => Some(out),
        Err(_) => None,
    }
}

/// The extended flag of a descriptor byte: bit 4, making intra-cluster
/// offsets 64-bit instead of 32-bit.
pub open spec fn spec_extended(b: u8) -> bool {
    b & 0x10 == 0x10
}

/// The compression named by a descriptor byte's low nibble (meaningful when
/// that nibble is 0, 1 or 4).
pub open spec fn spec_compression(b: u8) -> Compression {
    if b & 0x0F == 4 {
        Compression::Lzma2
    } else {
        Compression::Uncompressed
    }
}

/// Splits a descriptor byte into its extended flag and compression.
pub fn parse_details(details: u8) -> (r: Result<(bool, Compression), Error>)
    ensures
        r is Ok <==> (details & 0x0F == 0 || details & 0x0F == 1 || details & 0x0F == 4),
        r matches Ok(p) ==> p == (spec_extended(details), spec_compression(details)),
        r is Err ==> r == Err::<(bool, Compression), Error>(Error::UnknownCompression),
{
    let low = details & 0x0F;
    let extended = details & 0x10 == 0x10;
    match Compression::from(low) {
        Ok(c) => Ok((extended, c)),
        Err(e) => Err(e),
    }
}

/// The width of one blob offset: 8 bytes in extended clusters, else 4.
pub open spec fn spec_offset_width(extended: bool) -> int {
    if extended {
        8
    } else {
        4
    }
}

/// The first value of the blob-offset table stored at the start of `p`.
pub open spec fn spec_first_offset(p: Seq<u8>, extended: bool) -> int {
    if extended {
        le64(p, 0)
    } else {
        le32(p, 0)
    }
}

/// Why a blob-offset table fails to parse from the payload region `p`:
/// no room for the first offset, a zero or unaligned first offset (the first
/// offset must point exactly at the end of the table), or a table that would
/// run past the region.  `None` means the table parses.
pub open spec fn spec_blob_list_check(p: Seq<u8>, extended: bool) -> Option<Error> {
    let w = spec_offset_width(extended);
    if p.len() < w {
        Some(Error::OutOfBounds)
    } else {
        let first = spec_first_offset(p, extended);
        if first == 0 || first % w != 0 {
            Some(Error::MissingBlobList)
        } else if first > p.len() {
            Some(Error::OutOfBounds)
        } else {
            None
        }
    }
}

/// The blob-offset table at the start of `p`: the first offset, divided by
/// the offset width, gives the number of entries.
pub open spec fn spec_blob_list(p: Seq<u8>, extended: bool) -> Seq<u64> {
    let w = spec_offset_width(extended);
    let count = spec_first_offset(p, extended) / w;
    Seq::new(
        count as nat,
        |i: int|
            (if extended {
                le64(p, 8 * i)
            } else {
                le32(p, 4 * i)
            }) as u64,
    )
}

/// Parses the blob-offset table at the start of `p`.
pub fn parse_blob_list(p: &Vec<u8>, extended: bool) -> (r: Result<Vec<u64>, Error>)
    ensures
        r is Ok <==> spec_blob_list_check(p@, extended) is None,
        r matches Ok(v) ==> v@ == spec_blob_list(p@, extended),
        r matches Err(e) ==> spec_blob_list_check(p@, extended) == Some(e),
{
    let w: usize = if extended {
        8
    } else {
        4
    };
    if p.len() < w {
        return Err(Error::OutOfBounds);
    }
    let first: u64 = if extended {
        crate::bytes::read_u64(p, 0)
    } else {
        crate::bytes::read_u32(p, 0) as u64
    };
    if first == 0 || first % (w as u64) != 0 {
        return Err(Error::MissingBlobList);
    }
    if first > p.len() as u64 {
        return Err(Error::OutOfBounds);
    }
    let count: u64 = first / (w as u64);
    let mut out: Vec<u64> = Vec::new();
    let mut i: u64 = 0;
    while i < count
        invariant
            w == spec_offset_width(extended),
            count == spec_first_offset(p@, extended) / spec_offset_width(extended),
            count * w <= p.len(),
            0 <= i <= count,
            out@.len() == i,
            forall|k: int|
                0 <= k < i ==> out@[k] == (if extended {
                    le64(p@, 8 * k)
                } else {
                    le32(p@, 4 * k)
                }) as u64,
        decreases count - i,
    {
        proof {
            assert((i + 1) * w <= count * w) by (nonlinear_arith)
                requires
                    i + 1 <= count,
                    w > 0,
            ;
            assert(i * w + w == (i + 1) * w) by (nonlinear_arith);
        }
        let off = if extended {
            crate::bytes::read_u64(p, (i as usize) * 8)
        } else {
            crate::bytes::read_u32(p, (i as usize) * 4) as u64
        };
        out.push(off);
        i = i + 1;
    }
    proof {
        assert(out@ =~= spec_blob_list(p@, extended));
    }
    Ok(out)
}

/// A cluster of blobs.
///
/// Within a ZIM archive, clusters hold the data of several articles
/// compressed together.  The raw bytes are copied out of the archive at
/// construction; the decompressed payload and the blob-offset table are
/// filled in lazily.
#[derive(Debug)]
pub struct Cluster {
    pub extended: bool,
    pub compression: Compression,
    pub start: u64,
    pub end: u64,
    pub size: u64,
    /// The cluster's stored bytes, descriptor byte included.
    pub raw: Vec<u8>,
    /// Offsets into the payload, parsed from its leading table.
    pub blob_list: Option<Vec<u64>>,
    /// The decompressed payload of an LZMA2 cluster.
    pub decompressed: Option<Vec<u8>>,
}

/// The payload region a cluster's blob offsets refer to: the stored bytes
/// after the descriptor, or what the LZMA2 stream decodes to.
pub open spec fn spec_payload(compression: Compression, raw: Seq<u8>) -> Option<Seq<u8>> {
    match compression {
        Compression::Uncompressed => Some(raw.skip(1)),
        Compression::Lzma2 => xz_decoded(raw.skip(1)),
    }
}

/// The byte range `[start, end)` that cluster `i` covers: from its offset to
/// the next cluster's offset, or to `checksum_pos` for the last cluster.
pub open spec fn spec_cluster_start(cl: Seq<u64>, i: int) -> int {
    cl[i] as int
}

/// The end of cluster `i`'s byte range.
pub open spec fn spec_cluster_end(cl: Seq<u64>, checksum_pos: u64, i: int) -> int {
    if i + 1 < cl.len() {
        cl[i + 1] as int
    } else {
        checksum_pos as int
    }
}

/// Why constructing cluster `i` fails, in check order: an empty or
/// out-of-file byte range, an unknown compression nibble, the extended flag
/// outside major version 6, and, for stored clusters, the eager blob-table
/// parse.  `None` means construction succeeds.
pub open spec fn spec_cluster_check(
    d: Seq<u8>,
    cl: Seq<u64>,
    i: int,
    checksum_pos: u64,
    version: u16,
) -> Option<Error> {
    let s = spec_cluster_start(cl, i);
    let e = spec_cluster_end(cl, checksum_pos, i);
    if !(s < e && e <= d.len()) {
        Some(Error::OutOfBounds)
    } else {
        let b = d[s];
        if !(b & 0x0F == 0 || b & 0x0F == 1 || b & 0x0F == 4) {
            Some(Error::UnknownCompression)
        } else if spec_extended(b) && version != 6 {
            Some(Error::InvalidClusterExtension)
        } else if spec_compression(b) is Uncompressed {
            spec_blob_list_check(d.subrange(s + 1, e), spec_extended(b))
        } else {
            None
        }
    }
}

impl Cluster {
    /// The cluster's lazy state is consistent with its stored bytes: the
    /// sizes agree, a present payload is what the stored bytes decode to,
    /// and a present blob table is what the payload's leading table holds.
    pub open spec fn wf(&self) -> bool {
        &&& self.size == self.raw@.len()
        &&& self.raw@.len() >= 1
        &&& (self.compression is Uncompressed ==> {
            &&& self.decompressed is None
            &&& self.blob_list matches Some(bl)
            &&& spec_blob_list_check(self.raw@.skip(1), self.extended) is None
            &&& self.blob_list.unwrap()@ == spec_blob_list(self.raw@.skip(1), self.extended)
        })
        &&& (self.compression is Lzma2 ==> {
            &&& (self.decompressed matches Some(dec) ==> xz_decoded(self.raw@.skip(1)) == Some(
                dec@,
            ))
            &&& (self.blob_list matches Some(bl) ==> {
                &&& self.decompressed matches Some(dec)
                &&& spec_blob_list_check(dec@, self.extended) is None
                &&& bl@ == spec_blob_list(dec@, self.extended)
            })
        })
    }

    /// The lazy state needed by `get_blob` is present.
    pub open spec fn ready(&self) -> bool {
        &&& self.blob_list is Some
        &&& (self.compression is Lzma2 ==> self.decompressed is Some)
    }

    /// The fields that identify what the cluster stands for, unchanged by
    /// lazy decompression.
    pub open spec fn same_identity(&self, other: &Cluster) -> bool {
        &&& self.extended == other.extended
        &&& self.compression == other.compression
        &&& self.start == other.start
        &&& self.end == other.end
        &&& self.size == other.size
        &&& self.raw@ == other.raw@
    }

    /// Reads cluster `idx` out of the archive bytes: resolves its byte
    /// range from the cluster pointer list, parses the descriptor byte, and,
    /// for stored clusters, parses the blob table eagerly.  Extended
    /// clusters are rejected outside major version 6.
    pub fn new(
        data: &Vec<u8>,
        cluster_list: &Vec<u64>,
        idx: u32,
        checksum_pos: u64,
        version: u16,
    ) -> (r: Result<Cluster, Error>)
        requires
            (idx as int) < cluster_list@.len(),
        ensures
            r is Ok <==> spec_cluster_check(
                data@,
                cluster_list@,
                idx as int,
                checksum_pos,
                version,
            ) is None,
            r matches Err(e) ==> spec_cluster_check(
                data@,
                cluster_list@,
                idx as int,
                checksum_pos,
                version,
            ) == Some(e),
            r matches Ok(c) ==> {
                &&& c.wf()
                &&& c.start == spec_cluster_start(cluster_list@, idx as int)
                &&& c.end == spec_cluster_end(cluster_list@, checksum_pos, idx as int)
                &&& c.size == c.end - c.start
                &&& c.raw@ == data@.subrange(c.start as int, c.end as int)
                &&& c.extended == spec_extended(data@[c.start as int])
                &&& c.compression == spec_compression(data@[c.start as int])
                &&& c.decompressed is None
            },
    {
        let i = idx as usize;
        let s = cluster_list[i];
        let e: u64 = if i < cluster_list.len() - 1 {
            cluster_list[i + 1]
        } else {
            checksum_pos
        };
        if s >= e || e > data.len() as u64 {
            return Err(Error::OutOfBounds);
        }
        let raw = copy_range(data, s as usize, e as usize);
        let details = raw[0];
        let (extended, compression) = match parse_details(details) {
            Ok(p) => p,
            Err(er) => {
                return Err(er);
            },
        };
        if extended && version != 6 {
            return Err(Error::InvalidClusterExtension);
        }
        let blob_list: Option<Vec<u64>> = match compression {
            Compression::Uncompressed => {
                let p = copy_range(&raw, 1, raw.len());
                proof {
                    assert(p@ =~= raw@.skip(1));
                }
                match parse_blob_list(&p, extended) {
                    Ok(bl) => Some(bl),
                    Err(er) => {
                        return Err(er);
                    },
                }
            },
            Compression::Lzma2 => None,
        };
        proof {
            assert(raw@.skip(1) =~= data@.subrange(s + 1, e as int));
        }
        Ok(
            Cluster {
                extended,
                compression,
                start: s,
                end: e,
                size: e - s,
                raw,
                blob_list,
                decompressed: None,
            },
        )
    }

    /// Whether a blob read would first have to decompress or parse the table.
    pub fn needs_decompression(&self) -> (r: bool)
        ensures
            r == (self.compression is Lzma2 && (self.decompressed is None
                || self.blob_list is None)),
    {
        match self.compression {
            Compression::Lzma2 => self.decompressed.is_none() || self.blob_list.is_none(),
            Compression::Uncompressed => false,
        }
    }

    /// Decompresses the payload and parses its blob table; both steps are
    /// skipped when already done, so the call is idempotent.
    pub fn decompress(&mut self) -> (r: Result<(), Error>)
        requires
            old(self).wf(),
        ensures
            final(self).wf(),
            final(self).same_identity(old(self)),
            r is Ok <==> spec_decompress_check(*old(self)) is None,
            r matches Err(e) ==> spec_decompress_check(*old(self)) == Some(e),
            r is Ok ==> final(self).ready(),
            r is Ok && old(self).compression is Lzma2 ==> (final(self).decompressed matches Some(
                dec,
            ) && Some(dec@) == xz_decoded(old(self).raw@.skip(1))),
    {
        match self.compression {
            Compression::Lzma2 => {
                if self.decompressed.is_none() {
                    let input = copy_range(&self.raw, 1, self.raw.len());
                    proof {
                        assert(input@ =~= self.raw@.skip(1));
                    }
                    match xz_decompress(&input) {
                        Some(d) => {
                            self.decompressed = Some(d);
                        },
                        None => {
                            return Err(Error::ParsingError);
                        },
                    }
                }
                if self.blob_list.is_none() {
                    let bl_res = match &self.decompressed {
                        Some(dec) => parse_blob_list(dec, self.extended),
                        None => {
                            return Err(Error::MissingBlobList);
                        },
                    };
                    match bl_res {
                        Ok(bl) => {
                            self.blob_list = Some(bl);
                        },
                        Err(e) => {
                            return Err(e);
                        },
                    }
                }
                Ok(())
            },
            Compression::Uncompressed => Ok(()),
        }
    }

    /// The number of entries in the blob-offset table, once present.
    pub fn blob_count(&self) -> (r: Option<usize>)
        ensures
            self.blob_list matches Some(bl) ==> r == Some(bl@.len() as usize),
            self.blob_list is None ==> r is None,
    {
        match &self.blob_list {
            Some(bl) => Some(bl.len()),
            None => None,
        }
    }

    /// Returns blob `idx`'s bytes: decompresses if needed, then copies
    /// `[offsets[idx], offsets[idx+1])` out of the payload, the last entry
    /// ending at the payload's end.
    pub fn get_blob(&mut self, idx: u32) -> (r: Result<Vec<u8>, Error>)
        requires
            old(self).wf(),
        ensures
            final(self).wf(),
            final(self).same_identity(old(self)),
            r is Ok <==> spec_get_blob(*old(self), idx as int) is Ok,
            r matches Ok(b) ==> spec_get_blob(*old(self), idx as int) == Ok::<Seq<u8>, Error>(b@),
            r matches Err(e) ==> spec_get_blob(*old(self), idx as int) == Err::<Seq<u8>, Error>(e),
    {
        if self.needs_decompression() {
            match self.decompress() {
                Ok(()) => {},
                Err(e) => {
                    return Err(e);
                },
            }
        }
        match &self.blob_list {
            None => Err(Error::MissingBlobList),
            Some(bl) => {
                if idx as usize >= bl.len() {
                    return Err(Error::OutOfBounds);
                }
                let s = bl[idx as usize];
                let payload_len: u64 = match self.compression {
                    Compression::Lzma2 => match &self.decompressed {
                        Some(dec) => dec.len() as u64,
                        None => {
                            return Err(Error::MissingBlobList);
                        },
                    },
                    Compression::Uncompressed => (self.raw.len() - 1) as u64,
                };
                let e: u64 = if idx as usize + 1 < bl.len() {
                    bl[idx as usize + 1]
                } else {
                    payload_len
                };
                if s > e || e > payload_len {
                    return Err(Error::OutOfBounds);
                }
                match self.compression {
                    Compression::Lzma2 => match &self.decompressed {
                        Some(dec) => Ok(copy_range(dec, s as usize, e as usize)),
                        None => Err(Error::MissingBlobList),
                    },
                    Compression::Uncompressed => {
                        proof {
                            assert(self.raw@.skip(1).subrange(s as int, e as int)
                                =~= self.raw@.subrange(s + 1, e + 1));
                        }
                        Ok(copy_range(&self.raw, 1 + s as usize, 1 + e as usize))
                    },
                }
            },
        }
    }
}

/// Why lazy decompression fails: a malformed LZMA2 stream, or a payload
/// whose blob table does not parse.  `None` means it succeeds; for stored
/// clusters it always succeeds.
pub open spec fn spec_decompress_check(c: Cluster) -> Option<Error> {
    match c.compression {
        Compression::Uncompressed => None,
        Compression::Lzma2 => match xz_decoded(c.raw@.skip(1)) {
            None => Some(Error::ParsingError),
            Some(p) => spec_blob_list_check(p, c.extended),
        },
    }
}

/// What a blob read returns, as a function of the cluster's identity alone:
/// blob `idx` spans `[offsets[idx], offsets[idx+1])` of the payload, the
/// last entry ending at the payload's end; out-of-range indices and offsets
/// are `OutOfBounds`.
pub open spec fn spec_get_blob(c: Cluster, idx: int) -> Result<Seq<u8>, Error> {
    match spec_payload(c.compression, c.raw@) {
        None => Err(Error::ParsingError),
        Some(p) => match spec_blob_list_check(p, c.extended) {
            Some(e) => Err(e),
            None => {
                let bl = spec_blob_list(p, c.extended);
                if !(0 <= idx < bl.len()) {
                    Err(Error::OutOfBounds)
                } else {
                    let s = bl[idx] as int;
                    let e = if idx + 1 < bl.len() {
                        bl[idx + 1] as int
                    } else {
                        p.len() as int
                    };
                    if !(s <= e <= p.len()) {
                        Err(Error::OutOfBounds)
                    } else {
                        Ok(p.subrange(s, e))
                    }
                }
            },
        },
    }
}

/// When the cluster offsets are strictly increasing and the last cluster
/// starts before `checksum_pos`, the byte ranges the clusters cover are
/// non-empty, strictly monotonic and non-overlapping: each range ends no
/// later than any later range starts.
pub proof fn lemma_cluster_ranges_disjoint(cl: Seq<u64>, checksum_pos: u64)
    requires
        forall|i: int, j: int| 0 <= i < j < cl.len() ==> cl[i] < cl[j],
        cl.len() > 0 ==> cl[cl.len() - 1] < checksum_pos,
    ensures
        forall|i: int|
            0 <= i < cl.len() ==> spec_cluster_start(cl, i) < spec_cluster_end(
                cl,
                checksum_pos,
                i,
            ),
        forall|i: int, j: int|
            0 <= i < j < cl.len() ==> spec_cluster_end(cl, checksum_pos, i)
                <= spec_cluster_start(cl, j),
{
    assert forall|i: int| 0 <= i < cl.len() implies spec_cluster_start(cl, i) < spec_cluster_end(
        cl,
        checksum_pos,
        i,
    ) by {
        if i + 1 < cl.len() {
            assert(cl[i] < cl[i + 1]);
        } else {
            assert(cl[i] <= cl[cl.len() - 1]);
        }
    }
    assert forall|i: int, j: int| 0 <= i < j < cl.len() implies spec_cluster_end(
        cl,
        checksum_pos,
        i,
    ) <= spec_cluster_start(cl, j) by {
        assert(i + 1 < cl.len());
        if i + 1 < j {
            assert(cl[i + 1] < cl[j]);
        }
    }
}

/// Decompressing is idempotent: any two decompressed states of clusters
/// over the same stored bytes hold byte-identical payloads.
pub proof fn lemma_decompress_idempotent(c1: Cluster, c2: Cluster)
    requires
        c1.wf(),
        c2.wf(),
        c1.compression == c2.compression,
        c1.raw@ == c2.raw@,
        c1.compression is Lzma2,
        c1.decompressed is Some,
        c2.decompressed is Some,
    ensures
        c1.decompressed.unwrap()@ == c2.decompressed.unwrap()@,
{
}

/// Blob reads are deterministic and pure: what `get_blob` returns is a
/// function of the cluster's identity (stored bytes, compression, extended
/// flag) and the blob index alone, whatever lazy state each cluster holds.
pub proof fn lemma_get_blob_deterministic(c1: Cluster, c2: Cluster, idx: u32)
    requires
        c1.compression == c2.compression,
        c1.extended == c2.extended,
        c1.raw@ == c2.raw@,
    ensures
        spec_get_blob(c1, idx as int) == spec_get_blob(c2, idx as int),
{
}

/// A cluster whose table holds a single offset returns, for blob 0, the
/// bytes spanning from that first offset to the end of the payload.
pub proof fn lemma_single_blob_spans(c: Cluster)
    requires
        spec_payload(c.compression, c.raw@) is Some,
        spec_blob_list_check(spec_payload(c.compression, c.raw@).unwrap(), c.extended) is None,
        spec_blob_list(spec_payload(c.compression, c.raw@).unwrap(), c.extended).len() == 1,
    ensures
        spec_get_blob(c, 0) == Ok::<Seq<u8>, Error>(
            spec_payload(c.compression, c.raw@).unwrap().subrange(
                spec_first_offset(spec_payload(c.compression, c.raw@).unwrap(), c.extended),
                spec_payload(c.compression, c.raw@).unwrap().len() as int,
            ),
        ),
{
    let p = spec_payload(c.compression, c.raw@).unwrap();
    let bl = spec_blob_list(p, c.extended);
    assert(bl[0] == spec_first_offset(p, c.extended));
}

} // verus!
