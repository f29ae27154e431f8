//! The extraction planner's pure parts: destination-path composition from
//! namespace, URL and MIME type; extension alignment for redirect links;
//! grouping entries by cluster; and target-range validation.

use vstd::prelude::*;
use vstd::string::{StrSliceExecFns, StringSliceAdditionalSpecFns};
use vstd::utf8::encode_utf8;

use crate::bytes::{copy_range, bytes_eq};
use crate::directory_entry::DirectoryEntry;
use crate::mime_type::MimeType;
use crate::namespace::{Namespace, spec_namespace_byte};
use crate::target::Target;

verus! {

/// The index of the last occurrence of `b` in `s`, or `-1` when there is
/// none.
pub open spec fn last_index_of(s: Seq<u8>, b: u8) -> int
    decreases s.len(),
{
    if s.len() == 0 {
        -1
    } else if s[s.len() - 1] == b {
        s.len() - 1
    } else {
        last_index_of(s.drop_last(), b)
    }
}

/// `last_index_of` points at the last occurrence: the byte there is `b` and
/// nothing after it is, and `-1` means `b` does not occur at all.
pub proof fn lemma_last_index_of(s: Seq<u8>, b: u8)
    ensures
        -1 <= last_index_of(s, b) < s.len(),
        last_index_of(s, b) >= 0 ==> s[last_index_of(s, b)] == b,
        forall|k: int| last_index_of(s, b) < k < s.len() ==> s[k] != b,
    decreases s.len(),
{
    if s.len() > 0 && s[s.len() - 1] != b {
        lemma_last_index_of(s.drop_last(), b);
        assert(forall|k: int| 0 <= k < s.len() - 1 ==> s[k] == s.drop_last()[k]);
    }
}

/// Where the extension of the path's final component starts (the index just
/// after its last dot), or `-1` when the component has no extension.  A dot
/// that opens the component does not make an extension.
pub open spec fn spec_ext_start(p: Seq<u8>) -> int {
    let cs = last_index_of(p, 47) + 1;
    let dj = last_index_of(p, 46);
    if dj > cs {
        dj + 1
    } else {
        -1
    }
}

/// The extension of the path's final component, if any.
pub open spec fn spec_ext_of(p: Seq<u8>) -> Option<Seq<u8>> {
    let es = spec_ext_start(p);
    if es >= 0 {
        Some(p.subrange(es, p.len() as int))
    } else {
        None
    }
}

/// The path with its extension replaced by `e`, or with `.e` appended when
/// it has none.
pub open spec fn spec_set_ext(p: Seq<u8>, e: Seq<u8>) -> Seq<u8> {
    let es = spec_ext_start(p);
    if es >= 0 {
        p.take(es) + e
    } else {
        p + seq![46u8] + e
    }
}

/// A URL beginning with `/` has that one leading slash stripped.
pub open spec fn spec_strip_slash(url: Seq<u8>) -> Seq<u8> {
    if url.len() > 0 && url[0] == 47 {
        url.skip(1)
    } else {
        url
    }
}

/// `root/<namespace byte>/<url>`, with the URL's leading slash stripped;
/// an empty root contributes no leading separator.
pub open spec fn spec_join(root: Seq<u8>, ns: u8, url: Seq<u8>) -> Seq<u8> {
    (if root.len() == 0 {
        seq![ns, 47u8]
    } else {
        root + seq![47u8, ns, 47u8]
    }) + spec_strip_slash(url)
}

/// Whether `a` is a prefix of `b`.
pub open spec fn spec_is_prefix(a: Seq<u8>, b: Seq<u8>) -> bool {
    a.len() <= b.len() && a == b.take(a.len() as int)
}

/// The file extension inferred from a MIME type name, for the recognized
/// web types; all others leave the path unchanged.
pub open spec fn spec_ext_for(m: Seq<u8>) -> Option<Seq<u8>> {
    if m == encode_utf8("text/html"@) {
        Some(encode_utf8("html"@))
    } else if m == encode_utf8("image/jpeg"@) {
        Some(encode_utf8("jpg"@))
    } else if m == encode_utf8("image/png"@) {
        Some(encode_utf8("png"@))
    } else if m == encode_utf8("image/gif"@) {
        Some(encode_utf8("gif"@))
    } else if m == encode_utf8("image/svg+xml"@) {
        Some(encode_utf8("svg"@))
    } else if m == encode_utf8("application/javascript"@) {
        Some(encode_utf8("js"@))
    } else if m == encode_utf8("text/css"@) {
        Some(encode_utf8("css"@))
    } else if m == encode_utf8("text/plain"@) {
        Some(encode_utf8("txt"@))
    } else {
        None
    }
}

/// The extension a MIME kind asks for: only string kinds from the table
/// above carry one.
pub open spec fn spec_mime_ext(m: MimeType) -> Option<Seq<u8>> {
    match m {
        MimeType::Type(t) => spec_ext_for(encode_utf8(t@)),
        _ => None,
    }
}

/// The destination path for an entry: the joined path, with the inferred
/// extension applied unless the path already has an extension that is a
/// prefix of the inferred one (so `article.htm` is kept for `text/html`).
pub open spec fn spec_make_path(root: Seq<u8>, ns: u8, url: Seq<u8>, ext: Option<Seq<u8>>) -> Seq<
    u8,
> {
    let joined = spec_join(root, ns, url);
    match ext {
        None => joined,
        Some(e) => match spec_ext_of(joined) {
            None => spec_set_ext(joined, e),
            Some(cur) => if spec_is_prefix(cur, e) {
                joined
            } else {
                spec_set_ext(joined, e)
            },
        },
    }
}

/// A redirect's destination path, aligned with its source: when the source
/// has an extension and the destination's differs or is missing, the
/// destination takes the source's extension.
pub open spec fn spec_align_link(src: Seq<u8>, dst: Seq<u8>) -> Seq<u8> {
    match spec_ext_of(src) {
        None => dst,
        Some(se) => match spec_ext_of(dst) {
            Some(de) => if de == se {
                dst
            } else {
                spec_set_ext(dst, se)
            },
            None => spec_set_ext(dst, se),
        },
    }
}

/// Appends all of `src` to `out`.
fn push_bytes(out: &mut Vec<u8>, src: &Vec<u8>)
    ensures
        final(out)@ == old(out)@ + src@,
{
    let mut i: usize = 0;
    while i < src.len()
        invariant
            0 <= i <= src@.len(),
            out@ == old(out)@ + src@.take(i as int),
        decreases src@.len() - i,
    {
        out.push(src[i]);
        proof {
            assert(old(out)@ + src@.take(i + 1) =~= (old(out)@ + src@.take(i as int)).push(
                src@[i as int],
            ));
        }
        i = i + 1;
    }
    proof {
        assert(old(out)@ + src@.take(src@.len() as int) =~= old(out)@ + src@);
    }
}

/// The index of the last occurrence of `b` in `v`, if any.
fn rfind_byte(v: &Vec<u8>, b: u8) -> (r: Option<usize>)
    ensures
        r is None ==> last_index_of(v@, b) == -1,
        r matches Some(j) ==> last_index_of(v@, b) == j,
{
    proof {
        lemma_last_index_of(v@, b);
    }
    let mut i: usize = v.len();
    loop
        invariant
            0 <= i <= v@.len(),
            forall|k: int| i <= k < v@.len() ==> v@[k] != b,
            -1 <= last_index_of(v@, b) < v@.len(),
            last_index_of(v@, b) >= 0 ==> v@[last_index_of(v@, b)] == b,
            forall|k: int| last_index_of(v@, b) < k < v@.len() ==> v@[k] != b,
        decreases i,
    {
        if i == 0 {
            return None;
        }
        i = i - 1;
        if v[i] == b {
            proof {
                let l = last_index_of(v@, b);
                if l < i {
                    assert(v@[i as int] != b);
                }
                if l > i {
                    assert(v@[l] != b);
                }
            }
            return Some(i);
        }
    }
}

/// Whether `a`'s bytes open `b`.
fn is_prefix(a: &Vec<u8>, b: &Vec<u8>) -> (r: bool)
    ensures
        r == spec_is_prefix(a@, b@),
{
    if a.len() > b.len() {
        return false;
    }
    let mut i: usize = 0;
    while i < a.len()
        invariant
            0 <= i <= a@.len() <= b@.len(),
            forall|k: int| 0 <= k < i ==> a@[k] == b@[k],
        decreases a@.len() - i,
    {
        if a[i] != b[i] {
            proof {
                assert(b@.take(a@.len() as int)[i as int] == b@[i as int]);
            }
            return false;
        }
        i = i + 1;
    }
    proof {
        assert(a@ =~= b@.take(a@.len() as int));
    }
    true
}

/// Where the extension of `v`'s final component starts, if it has one.
fn ext_span(v: &Vec<u8>) -> (r: Option<usize>)
    ensures
        r is None ==> spec_ext_start(v@) == -1,
        r matches Some(es) ==> es == spec_ext_start(v@) && 0 < es <= v@.len(),
{
    proof {
        lemma_last_index_of(v@, 46);
        lemma_last_index_of(v@, 47);
        assert(v@.len() == v.len());
    }
    let l46 = rfind_byte(v, 46);
    let l47 = rfind_byte(v, 47);
    match l46 {
        None => None,
        Some(dj) => {
            let cs: usize = match l47 {
                None => 0,
                Some(j) => j + 1,
            };
            if dj > cs {
                Some(dj + 1)
            } else {
                None
            }
        },
    }
}

/// The extension of `v`'s final component, if any.
fn get_ext(v: &Vec<u8>) -> (r: Option<Vec<u8>>)
    ensures
        r is None <==> spec_ext_of(v@) is None,
        r matches Some(x) ==> spec_ext_of(v@) == Some(x@),
{
    match ext_span(v) {
        None => None,
        Some(es) => Some(copy_range(v, es, v.len())),
    }
}

/// Replaces `p`'s extension with `e`, or appends `.e` when it has none.
fn set_extension(p: Vec<u8>, e: &Vec<u8>) -> (r: Vec<u8>)
    ensures
        r@ == spec_set_ext(p@, e@),
{
    let ghost p0 = p@;
    let mut p = p;
    match ext_span(&p) {
        Some(es) => {
            p.truncate(es);
            proof {
                assert(p@ =~= p0.take(spec_ext_start(p0)));
            }
            push_bytes(&mut p, e);
        },
        None => {
            p.push(46);
            push_bytes(&mut p, e);
            proof {
                assert(p@ =~= p0 + seq![46u8] + e@);
            }
        },
    }
    p
}

/// The file extension the planner infers from a MIME type name.
fn ext_for(t: &String) -> (r: Option<Vec<u8>>)
    ensures
        r is None <==> spec_ext_for(encode_utf8(t@)) is None,
        r matches Some(v) ==> spec_ext_for(encode_utf8(t@)) == Some(v@),
{
    let tb = t.as_str().as_bytes_vec();
    if bytes_eq(&tb, &"text/html".as_bytes_vec()) {
        Some("html".as_bytes_vec())
    } else if bytes_eq(&tb, &"image/jpeg".as_bytes_vec()) {
        Some("jpg".as_bytes_vec())
    } else if bytes_eq(&tb, &"image/png".as_bytes_vec()) {
        Some("png".as_bytes_vec())
    } else if bytes_eq(&tb, &"image/gif".as_bytes_vec()) {
        Some("gif".as_bytes_vec())
    } else if bytes_eq(&tb, &"image/svg+xml".as_bytes_vec()) {
        Some("svg".as_bytes_vec())
    } else if bytes_eq(&tb, &"application/javascript".as_bytes_vec()) {
        Some("js".as_bytes_vec())
    } else if bytes_eq(&tb, &"text/css".as_bytes_vec()) {
        Some("css".as_bytes_vec())
    } else if bytes_eq(&tb, &"text/plain".as_bytes_vec()) {
        Some("txt".as_bytes_vec())
    } else {
        None
    }
}

/// Composes the destination path for one entry, as bytes:
/// `root/<namespace char>/<url>`, the URL's leading slash stripped, and the
/// MIME-inferred extension applied unless the path already carries an
/// extension that is a prefix of the inferred one.
pub fn make_path(root: &str, namespace: Namespace, url: &str, mime_type: &MimeType) -> (r: Vec<u8>)
    ensures
        r@ == spec_make_path(
            root.spec_bytes(),
            spec_namespace_byte(namespace),
            url.spec_bytes(),
            spec_mime_ext(*mime_type),
        ),
{
    let root_b = root.as_bytes_vec();
    let url_b = url.as_bytes_vec();
    let ns = namespace.as_byte();
    let mut p: Vec<u8> = Vec::new();
    if root_b.len() > 0 {
        push_bytes(&mut p, &root_b);
        p.push(47);
    }
    p.push(ns);
    p.push(47);
    let ghost base = if root.spec_bytes().len() == 0 {
        seq![ns, 47u8]
    } else {
        root.spec_bytes() + seq![47u8, ns, 47u8]
    };
    proof {
        assert(p@ =~= base);
    }
    let start: usize = if url_b.len() > 0 && url_b[0] == 47 {
        1
    } else {
        0
    };
    let mut i: usize = start;
    while i < url_b.len()
        invariant
            start <= i <= url_b@.len(),
            p@ == base + url_b@.subrange(start as int, i as int),
        decreases url_b@.len() - i,
    {
        p.push(url_b[i]);
        proof {
            assert(base + url_b@.subrange(start as int, i + 1) =~= (base + url_b@.subrange(
                start as int,
                i as int,
            )).push(url_b@[i as int]));
        }
        i = i + 1;
    }
    let ghost joined = spec_join(root.spec_bytes(), ns, url.spec_bytes());
    proof {
        assert(url_b@.subrange(start as int, url_b@.len() as int) =~= spec_strip_slash(
            url.spec_bytes(),
        ));
        assert(p@ =~= joined);
    }
    let ext_v: Option<Vec<u8>> = match mime_type {
        MimeType::Type(t) => ext_for(t),
        _ => None,
    };
    match ext_v {
        None => p,
        Some(e) => {
            match get_ext(&p) {
                None => set_extension(p, &e),
                Some(cur) => {
                    if is_prefix(&cur, &e) {
                        p
                    } else {
                        set_extension(p, &e)
                    }
                },
            }
        },
    }
}

/// Aligns a redirect's destination path with its source: when the source
/// has an extension and the destination's differs or is missing, the
/// destination takes the source's extension.
pub fn align_link_extension(src: &Vec<u8>, dst: Vec<u8>) -> (r: Vec<u8>)
    ensures
        r@ == spec_align_link(src@, dst@),
{
    match get_ext(src) {
        None => dst,
        Some(se) => match get_ext(&dst) {
            Some(de) => {
                if bytes_eq(&de, &se) {
                    dst
                } else {
                    set_extension(dst, &se)
                }
            },
            None => set_extension(dst, &se),
        },
    }
}

/// The indices (in order) of the entries of `es` whose target is a blob in
/// cluster `c`.
pub open spec fn cluster_indices(es: Seq<DirectoryEntry>, c: u32) -> Seq<u32>
    decreases es.len(),
{
    if es.len() == 0 {
        seq![]
    } else {
        let pre = cluster_indices(es.drop_last(), c);
        if es.last().target matches Some(Target::Cluster(cc, b)) && cc == c {
            pre.push((es.len() - 1) as u32)
        } else {
            pre
        }
    }
}

/// The indices (in order) of the entries of `es` whose target is not a
/// cluster blob: redirects and entries with no target.
pub open spec fn link_indices(es: Seq<DirectoryEntry>) -> Seq<u32>
    decreases es.len(),
{
    if es.len() == 0 {
        seq![]
    } else {
        let pre = link_indices(es.drop_last());
        if !(es.last().target matches Some(Target::Cluster(cc, b))) {
            pre.push((es.len() - 1) as u32)
        } else {
            pre
        }
    }
}

/// Taking one more entry extends exactly the bucket that entry belongs to.
proof fn lemma_indices_step(es: Seq<DirectoryEntry>, i: int)
    requires
        0 <= i < es.len(),
    ensures
        forall|c: u32|
            #[trigger] cluster_indices(es.take(i + 1), c) == (if es[i].target matches Some(
                Target::Cluster(cc, b),
            ) && cc == c {
                cluster_indices(es.take(i), c).push(i as u32)
            } else {
                cluster_indices(es.take(i), c)
            }),
        link_indices(es.take(i + 1)) == (if !(es[i].target matches Some(Target::Cluster(cc, b))) {
            link_indices(es.take(i)).push(i as u32)
        } else {
            link_indices(es.take(i))
        }),
{
    assert(es.take(i + 1).drop_last() =~= es.take(i));
    assert(es.take(i + 1).last() == es[i]);
}

/// Groups the entries by the cluster their target lives in: bucket `c`
/// holds the indices of the entries targeting cluster `c`; the extra last
/// bucket holds the indices of all other entries (redirects and entries
/// with no target), or stays empty when links are skipped.  An entry whose
/// cluster index is out of range lands in no bucket.
pub fn bucketize(entries: &Vec<DirectoryEntry>, cluster_count: u32, skip_links: bool) -> (r: Vec<
    Vec<u32>,
>)
    requires
        entries@.len() <= 0xffff_ffff,
        cluster_count < 0xffff_ffff,
    ensures
        r@.len() == cluster_count + 1,
        forall|c: u32|
            c < cluster_count ==> #[trigger] r@[c as int]@ == cluster_indices(entries@, c),
        r@[cluster_count as int]@ == (if skip_links {
            Seq::<u32>::empty()
        } else {
            link_indices(entries@)
        }),
{
    let mut buckets: Vec<Vec<u32>> = Vec::new();
    let mut c: u32 = 0;
    while c < cluster_count + 1
        invariant
            cluster_count < 0xffff_ffff,
            0 <= c <= cluster_count + 1,
            buckets@.len() == c,
            forall|j: int| 0 <= j < c ==> #[trigger] buckets@[j]@ == Seq::<u32>::empty(),
        decreases cluster_count + 1 - c,
    {
        buckets.push(Vec::new());
        c = c + 1;
    }
    proof {
        assert(entries@.take(0) =~= Seq::<DirectoryEntry>::empty());
        assert forall|c2: u32| c2 < cluster_count implies #[trigger] buckets@[c2 as int]@
            == cluster_indices(entries@.take(0), c2) by {
            assert(buckets@[c2 as int]@ == Seq::<u32>::empty());
        }
    }
    let mut i: usize = 0;
    while i < entries.len()
        invariant
            entries@.len() <= 0xffff_ffff,
            cluster_count < 0xffff_ffff,
            0 <= i <= entries@.len(),
            buckets@.len() == cluster_count + 1,
            forall|c2: u32|
                c2 < cluster_count ==> #[trigger] buckets@[c2 as int]@ == cluster_indices(
                    entries@.take(i as int),
                    c2,
                ),
            buckets@[cluster_count as int]@ == (if skip_links {
                Seq::<u32>::empty()
            } else {
                link_indices(entries@.take(i as int))
            }),
        decreases entries@.len() - i,
    {
        let ghost pre = buckets@;
        let e = &entries[i];
        match e.target {
            Some(Target::Cluster(cid, _b)) => {
                if cid < cluster_count {
                    buckets[cid as usize].push(i as u32);
                }
            },
            _ => {
                if !skip_links {
                    buckets[cluster_count as usize].push(i as u32);
                }
            },
        }
        proof {
            lemma_indices_step(entries@, i as int);
            assert forall|c2: u32| c2 < cluster_count implies #[trigger] buckets@[c2 as int]@
                == cluster_indices(entries@.take(i + 1), c2) by {
                assert(pre[c2 as int]@ == cluster_indices(entries@.take(i as int), c2));
            }
        }
        i = i + 1;
    }
    proof {
        assert(entries@.take(entries@.len() as int) =~= entries@);
    }
    buckets
}

/// Whether a target stays within the archive's counts: a cluster target
/// names a cluster below `cluster_count`, a redirect names a URL index
/// below `article_count`.
pub open spec fn spec_target_in_range(t: Option<Target>, cluster_count: u32, article_count: u32) -> bool {
    match t {
        Some(Target::Cluster(c, b)) => c < cluster_count,
        Some(Target::Redirect(u)) => u < article_count,
        None => true,
    }
}

/// Checks that every entry's target stays within the archive's counts.
pub fn targets_in_range(entries: &Vec<DirectoryEntry>, cluster_count: u32, article_count: u32) -> (r:
    bool)
    ensures
        r == (forall|i: int|
            0 <= i < entries@.len() ==> spec_target_in_range(
                #[trigger] entries@[i].target,
                cluster_count,
                article_count,
            )),
{
    let mut i: usize = 0;
    while i < entries.len()
        invariant
            0 <= i <= entries@.len(),
            forall|k: int|
                0 <= k < i ==> spec_target_in_range(
                    #[trigger] entries@[k].target,
                    cluster_count,
                    article_count,
                ),
        decreases entries@.len() - i,
    {
        let e = &entries[i];
        let ok = match e.target {
            Some(Target::Cluster(c, _b)) => c < cluster_count,
            Some(Target::Redirect(u)) => u < article_count,
            None => true,
        };
        if !ok {
            proof {
                assert(!spec_target_in_range(entries@[i as int].target, cluster_count,
                    article_count));
            }
            return false;
        }
        i = i + 1;
    }
    true
}

} // verus!
