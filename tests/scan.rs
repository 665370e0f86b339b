use image_dedup::metadata::{compute_exif, exif_from_tags, needs_dimensions, with_dimensions, ExifTags};
use image_dedup::record::{ExifData, ImageInfo};
use image_dedup::scan::{
    analyze_file, collect_results, is_image_extension, progress_after, progress_reports, result_paths, scan_started,
    FileStat, ScanProgress,
};

fn tags() -> ExifTags {
    ExifTags {
        date_original: None,
        date_time: None,
        make: None,
        model: None,
        width: None,
        height: None,
    }
}

#[test]
fn empty_scan_reports_once() {
    assert_eq!(progress_reports(0), vec![ScanProgress { current: 0, total: 0 }]);
    assert!(collect_results(vec![]).is_empty());
}

#[test]
fn progress_is_throttled() {
    let currents: Vec<usize> = progress_reports(25).iter().map(|p| p.current).collect();
    assert_eq!(currents, vec![0, 10, 20, 25]);
    assert_eq!(progress_reports(3).len(), 2);
    assert_eq!(scan_started(7), ScanProgress { current: 0, total: 7 });
    assert_eq!(progress_after(30, 31), Some(ScanProgress { current: 30, total: 31 }));
    assert_eq!(progress_after(31, 31), Some(ScanProgress { current: 31, total: 31 }));
    assert_eq!(progress_after(5, 31), None);
}

#[test]
fn image_extensions_ignore_case() {
    assert!(is_image_extension("jpg"));
    assert!(is_image_extension("JPEG"));
    assert!(is_image_extension("Png"));
    assert!(is_image_extension("webp"));
    assert!(!is_image_extension("gif"));
    assert!(!is_image_extension(""));
    assert!(!is_image_extension("jpgx"));
}

#[test]
fn failed_files_are_left_out_of_results() {
    let r = |p: &str| ImageInfo {
        path: p.to_string(),
        name: p.to_string(),
        size: 0,
        created_at: 0,
        modified_at: 0,
        phash: None,
        sha1: None,
        exif: None,
    };
    let out = collect_results(vec![Some(r("/a")), None, Some(r("/c"))]);
    assert_eq!(out.len(), 2);
    assert_eq!(result_paths(&out), vec!["/a".to_string(), "/c".to_string()]);
}

#[test]
fn analyze_fills_every_field() {
    let stat = FileStat { size: 3, modified_at: 50, created_at: 40 };
    let r = analyze_file("/x/abc.jpg".to_string(), "abc.jpg".to_string(), stat, b"abc", None, Some((4, 5)));
    assert_eq!(r.path, "/x/abc.jpg");
    assert_eq!(r.name, "abc.jpg");
    assert_eq!(r.size, 3);
    assert_eq!(r.modified_at, 50);
    assert_eq!(r.created_at, 40);
    assert_eq!(r.phash, None);
    assert_eq!(
        r.sha1.as_deref(),
        Some("ba7816bf8f01cfea414140de5dae2223b00361a396177a9cb410ff61f20015ad")
    );
    let e = r.exif.unwrap();
    assert_eq!((e.width, e.height, e.date), (Some(4), Some(5), None));
}

#[test]
fn capture_date_prefers_original_tag() {
    let mut t = tags();
    t.date_original = Some("2021:05:06 07:08:09".to_string());
    t.date_time = Some("2000:01:01 00:00:00".to_string());
    t.make = Some("\"Canon\"".to_string());
    t.model = Some("EOS".to_string());
    let d = exif_from_tags(&t);
    assert_eq!(d.date, Some(1620284889));
    assert_eq!(d.make.as_deref(), Some("Canon"));
    assert_eq!(d.model.as_deref(), Some("EOS"));
    let mut t = tags();
    t.date_time = Some("2021:05:06 07:08:09".to_string());
    t.width = Some(640);
    assert_eq!(exif_from_tags(&t).date, Some(1620284889));
    assert_eq!(exif_from_tags(&t).width, Some(640));
    let mut t = tags();
    t.date_original = Some("garbage".to_string());
    t.date_time = Some("2021:05:06 07:08:09".to_string());
    assert_eq!(exif_from_tags(&t).date, None);
}

#[test]
fn dimensions_fill_only_when_missing() {
    assert!(needs_dimensions(&None));
    let none = with_dimensions(None, Some((1, 2))).unwrap();
    assert_eq!((none.width, none.height, none.make), (Some(1), Some(2), None));
    let have = ExifData { date: Some(1), make: None, model: None, width: Some(9), height: Some(8) };
    assert!(!needs_dimensions(&Some(have.clone())));
    let kept = with_dimensions(Some(have), Some((1, 2))).unwrap();
    assert_eq!((kept.width, kept.height), (Some(9), Some(8)));
    assert!(with_dimensions(None, None).is_none());
}

#[test]
fn bytes_without_tags_give_no_metadata() {
    assert!(compute_exif(b"plain bytes").is_none());
}

/// A JPEG holding only a tag block: IFD0 with the given ASCII entries, and an
/// Exif sub-IFD with the given ASCII entries.
fn jpeg_with_tags(ifd0: &[(u16, &str)], sub: &[(u16, &str)]) -> Vec<u8> {
    fn ifd(entries: &[(u16, &str)], extra: Option<u32>, start: u32) -> Vec<u8> {
        let n = entries.len() + extra.is_some() as usize;
        let mut data_at = start + 2 + 12 * n as u32 + 4;
        let mut head = (n as u16).to_be_bytes().to_vec();
        let mut data = Vec::new();
        for (tag, text) in entries {
            let mut v = text.as_bytes().to_vec();
            v.push(0);
            head.extend_from_slice(&tag.to_be_bytes());
            head.extend_from_slice(&2u16.to_be_bytes());
            head.extend_from_slice(&(v.len() as u32).to_be_bytes());
            head.extend_from_slice(&data_at.to_be_bytes());
            data_at += v.len() as u32;
            data.extend(v);
        }
        if let Some(ptr) = extra {
            head.extend_from_slice(&0x8769u16.to_be_bytes());
            head.extend_from_slice(&4u16.to_be_bytes());
            head.extend_from_slice(&1u32.to_be_bytes());
            head.extend_from_slice(&ptr.to_be_bytes());
        }
        head.extend_from_slice(&0u32.to_be_bytes());
        head.extend(data);
        head
    }
    let n0 = ifd0.len() + 1;
    let ifd0_len: u32 = 2 + 12 * n0 as u32 + 4 + ifd0.iter().map(|(_, t)| t.len() as u32 + 1).sum::<u32>();
    let sub_at = 8 + ifd0_len;
    let mut tiff = b"MM\x00\x2a\x00\x00\x00\x08".to_vec();
    tiff.extend(ifd(ifd0, Some(sub_at), 8));
    tiff.extend(ifd(sub, None, sub_at));
    let mut seg = b"Exif\x00\x00".to_vec();
    seg.extend(tiff);
    let mut out = vec![0xff, 0xd8, 0xff, 0xe1];
    out.extend_from_slice(&((seg.len() + 2) as u16).to_be_bytes());
    out.extend(seg);
    out.extend_from_slice(&[0xff, 0xd9]);
    out
}

#[test]
fn capture_date_is_read_from_jpeg_tags() {
    let bytes = jpeg_with_tags(
        &[(0x010f, "Canon"), (0x0132, "2000:01:01 00:00:00")],
        &[(0x9003, "2021:05:06 07:08:09")],
    );
    let e = compute_exif(&bytes).unwrap();
    assert_eq!(e.date, Some(1620284889));
    assert_eq!(e.make.as_deref(), Some("Canon"));
    assert_eq!(e.model, None);
}

#[test]
fn capture_date_falls_back_to_save_date() {
    let bytes = jpeg_with_tags(&[(0x0132, "2021:05:06 07:08:09")], &[]);
    let e = compute_exif(&bytes).unwrap();
    assert_eq!(e.date, Some(1620284889));
}
