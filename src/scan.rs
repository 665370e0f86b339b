//! Per-file analysis, the image-extension filter, progress reporting and scan results.

use vstd::prelude::*;
use crate::fingerprint::{compute_phash, compute_sha256, hex_lower, phash_of, sha256_of};
use crate::metadata::{text_of, with_dimensions, with_dims_spec};
use crate::record::{ExifData, ImageInfo};
use crate::store::{same_text, texts};

verus! {

/// What a stat of a file reports: its validity pair and creation time.
#[derive(Debug, Clone, Copy)]
pub struct FileStat {
    pub size: u64,
    pub modified_at: i64,
    pub created_at: i64,
}

/// Processing on a cache miss: the record for a file from its stat, its
/// bytes, the metadata its tags gave, and the header dimensions where they
/// were probed.
pub fn analyze_file(
    path: String,
    name: String,
    stat: FileStat,
    bytes: &[u8],
    exif: Option<ExifData>,
    dims: Option<(u32, u32)>,
) -> (r: ImageInfo)
    ensures
        r.path == path,
        r.name == name,
        r.size == stat.size,
        r.modified_at == stat.modified_at,
        r.created_at == stat.created_at,
        text_of(r.phash) == phash_of(bytes@),
        text_of(r.sha1) == Some(hex_lower(sha256_of(bytes@))),
        r.exif == with_dims_spec(exif, dims),
{
    let phash = compute_phash(bytes);
    let sha1 = Some(compute_sha256(bytes));
    let exif = with_dimensions(exif, dims);
    ImageInfo {
        path,
        name,
        size: stat.size,
        created_at: stat.created_at,
        modified_at: stat.modified_at,
        phash,
        sha1,
        exif,
    }
}

/// The file name extensions, in lower case, that count as images.
pub open spec fn image_ext_spec(l: Seq<char>) -> bool {
    l == seq!['j', 'p', 'g'] || l == seq!['j', 'p', 'e', 'g'] || l == seq!['p', 'n', 'g'] || l == seq![
        'w',
        'e',
        'b',
        'p',
    ]
}

/// The lower-case form of a text.
pub uninterp spec fn lower_of(s: Seq<char>) -> Seq<char>;

/// Relies on str::to_lowercase: the lower-case form depends on the text alone.
#[verifier::external_body]
fn lowercase(s: &str) -> (r: String)
    ensures
        r@ == lower_of(s@),
{
    s.to_lowercase()
}

/// Whether an extension already in lower case is one of the image extensions.
pub fn is_image_extension_lower(l: &str) -> (r: bool)
    ensures
        r == image_ext_spec(l@),
{
    proof {
        reveal_strlit("jpg");
        reveal_strlit("jpeg");
        reveal_strlit("png");
        reveal_strlit("webp");
    }
    let a = same_text(l, "jpg");
    let b = same_text(l, "jpeg");
    let c = same_text(l, "png");
    let d = same_text(l, "webp");
    assert("jpg"@ =~= seq!['j', 'p', 'g']);
    assert("jpeg"@ =~= seq!['j', 'p', 'e', 'g']);
    assert("png"@ =~= seq!['p', 'n', 'g']);
    assert("webp"@ =~= seq!['w', 'e', 'b', 'p']);
    a || b || c || d
}

/// Whether a file name extension, in any case, is one of the image extensions.
pub fn is_image_extension(ext: &str) -> (r: bool)
    ensures
        r == image_ext_spec(lower_of(ext@)),
{
    let l = lowercase(ext);
    is_image_extension_lower(l.as_str())
}

/// A progress notification: `current` of `total` files processed.
#[derive(Debug, Clone, Copy, PartialEq, Eq, Structural)]
pub struct ScanProgress {
    pub current: usize,
    pub total: usize,
}

/// A completion count is reported on every tenth file and on the last one.
pub open spec fn report_due(current: usize, total: usize) -> bool {
    current % 10 == 0 || current == total
}

/// The notification sent as a scan starts, before any file is processed.
pub fn scan_started(total: usize) -> (r: ScanProgress)
    ensures
        r == (ScanProgress { current: 0, total }),
{
    ScanProgress { current: 0, total }
}

/// The notification, if any, due once `current` of `total` files are done.
pub fn progress_after(current: usize, total: usize) -> (r: Option<ScanProgress>)
    ensures
        r == (if report_due(current, total) {
            Some(ScanProgress { current, total })
        } else {
            None
        }),
{
    if current % 10 == 0 || current == total {
        Some(ScanProgress { current, total })
    } else {
        None
    }
}

/// Every notification of a scan of `total` files, in the order of the
/// completion count: the start, then each count from 1 to `total` that is due.
pub fn progress_reports(total: usize) -> (r: Vec<ScanProgress>)
    ensures
        r@.len() >= 1,
        r@[0] == (ScanProgress { current: 0, total }),
        forall|k: int| 0 < k < r@.len() ==> 1 <= (#[trigger] r@[k]).current <= total && r@[k].total == total
            && report_due(r@[k].current, total),
        forall|a: int, b: int| 0 <= a < b < r@.len() ==> r@[a].current < r@[b].current,
        forall|c: usize| 1 <= c <= total && report_due(c, total) ==> exists|k: int| 0 < k < r@.len() && (#[trigger] r@[k]).current == c,
{
    let mut r: Vec<ScanProgress> = Vec::new();
    r.push(scan_started(total));
    let mut c: usize = 0;
    while c < total
        invariant
            c <= total,
            r@.len() >= 1,
            r@[0] == (ScanProgress { current: 0, total }),
            forall|k: int| 0 < k < r@.len() ==> 1 <= (#[trigger] r@[k]).current <= c && r@[k].total == total
                && report_due(r@[k].current, total),
            forall|a: int, b: int| 0 <= a < b < r@.len() ==> r@[a].current < r@[b].current,
            forall|a: int| 0 <= a < r@.len() ==> (#[trigger] r@[a]).current <= c,
            forall|d: usize| 1 <= d <= c && report_due(d, total) ==> exists|k: int| 0 < k < r@.len() && (#[trigger] r@[k]).current == d,
        decreases total - c,
    {
        c += 1;
        match progress_after(c, total) {
            Some(p) => {
                let ghost before = r@;
                r.push(p);
                assert forall|d: usize| 1 <= d <= c && report_due(d, total) implies exists|k: int| 0 < k < r@.len() && (#[trigger] r@[k]).current == d by {
                    if d < c {
                        let k = choose|k: int| 0 < k < before.len() && (#[trigger] before[k]).current == d;
                        assert(r@[k] == before[k]);
                    } else {
                        assert(r@[before.len() as int].current == d);
                    }
                }
            },
            None => {},
        }
    }
    r
}

pub open spec fn successes(o: Seq<Option<ImageInfo>>) -> Seq<ImageInfo>
    decreases o.len(),
{
    if o.len() == 0 {
        Seq::empty()
    } else {
        let rest = successes(o.drop_last());
        match o.last() {
            Some(x) => rest.push(x),
            None => rest,
        }
    }
}

/// The scan's result set: the records of the files that were processed, in
/// order, with the failed ones left out.
pub fn collect_results(outcomes: Vec<Option<ImageInfo>>) -> (r: Vec<ImageInfo>)
    ensures
        r@ == successes(outcomes@),
{
    let mut r: Vec<ImageInfo> = Vec::new();
    let mut i: usize = 0;
    while i < outcomes.len()
        invariant
            i <= outcomes@.len(),
            r@ == successes(outcomes@.take(i as int)),
        decreases outcomes@.len() - i,
    {
        assert(outcomes@.take(i + 1).drop_last() =~= outcomes@.take(i as int));
        match &outcomes[i] {
            Some(x) => r.push(x.duplicate()),
            None => {},
        }
        i += 1;
    }
    assert(outcomes@.take(outcomes@.len() as int) =~= outcomes@);
    r
}

pub open spec fn paths_of(images: Seq<ImageInfo>) -> Seq<Seq<char>> {
    images.map_values(|i: ImageInfo| i.path@)
}

/// The paths of a scan's result set, which pruning keeps.
pub fn result_paths(images: &Vec<ImageInfo>) -> (r: Vec<String>)
    ensures
        texts(r@) == paths_of(images@),
{
    let mut r: Vec<String> = Vec::new();
    let mut i: usize = 0;
    while i < images.len()
        invariant
            i <= images@.len(),
            texts(r@) =~= paths_of(images@).take(i as int),
        decreases images@.len() - i,
    {
        let ghost before = r@;
        r.push(images[i].path.clone());
        assert(texts(r@) =~= texts(before).push(images@[i as int].path@));
        assert(paths_of(images@).take(i + 1) =~= paths_of(images@).take(i as int).push(images@[i as int].path@));
        i += 1;
    }
    assert(texts(r@) =~= paths_of(images@));
    r
}

} // verus!
