use image_dedup::cluster::{exact_groups, find_exact_duplicates, find_similar_duplicates, similar_groups};
use image_dedup::record::ImageInfo;
use image_dedup::scan::{analyze_file, FileStat};

fn rec(path: &str, phash: Option<&str>, sha: Option<&str>) -> ImageInfo {
    ImageInfo {
        path: path.to_string(),
        name: path.to_string(),
        size: 1,
        created_at: 0,
        modified_at: 0,
        phash: phash.map(|s| s.to_string()),
        sha1: sha.map(|s| s.to_string()),
        exif: None,
    }
}

fn some(v: &[&str]) -> Vec<Option<String>> {
    v.iter().map(|s| Some(s.to_string())).collect()
}

#[test]
fn near_duplicates_within_threshold_are_grouped() {
    let g = similar_groups(&some(&["0000000000000000", "000000000000001f"]));
    assert_eq!(g, vec![vec![0, 1]]);
}

#[test]
fn near_duplicates_beyond_threshold_are_not_grouped() {
    let g = similar_groups(&some(&["0000000000000000", "000000000000003f"]));
    assert!(g.is_empty());
}

#[test]
fn near_duplicate_groups_chain_through_members() {
    // a-b and b-c are within 5 bits; a-c are 10 bits apart
    let g = similar_groups(&some(&["0000000000000000", "000000000000001f", "00000000000003ff"]));
    assert_eq!(g, vec![vec![0, 1, 2]]);
}

#[test]
fn near_duplicate_scan_is_single_pass() {
    // c only links to b, which joins after c was passed over
    let g = similar_groups(&some(&["0000000000000000", "00000000000003ff", "000000000000001f"]));
    assert_eq!(g, vec![vec![0, 2]]);
}

#[test]
fn near_duplicates_skip_missing_hashes() {
    let hs = vec![None, Some("00".to_string()), None, Some("01".to_string()), Some("ff".to_string())];
    assert_eq!(similar_groups(&hs), vec![vec![1, 3]]);
}

#[test]
fn exact_groups_drop_singletons_and_missing() {
    let hs = vec![
        Some("a".to_string()),
        Some("b".to_string()),
        None,
        Some("a".to_string()),
        Some("c".to_string()),
        None,
        Some("a".to_string()),
        Some("c".to_string()),
    ];
    assert_eq!(exact_groups(&hs), vec![vec![0, 3, 6], vec![4, 7]]);
    assert!(exact_groups(&vec![None, None]).is_empty());
    assert!(exact_groups(&vec![]).is_empty());
}

fn png_bytes() -> Vec<u8> {
    let img = image::ImageBuffer::<image::Luma<u8>, Vec<u8>>::from_fn(20, 12, |x, y| {
        image::Luma([((x * 37 + y * 11) % 251) as u8])
    });
    let mut out = std::io::Cursor::new(Vec::new());
    image::DynamicImage::ImageLuma8(img)
        .write_to(&mut out, image::ImageFormat::Png)
        .unwrap();
    out.into_inner()
}

#[test]
fn byte_identical_files_are_duplicates() {
    let bytes = png_bytes();
    let stat = FileStat { size: bytes.len() as u64, modified_at: 1, created_at: 1 };
    let a = analyze_file("/a/x.png".to_string(), "x.png".to_string(), stat, &bytes, None, None);
    let b = analyze_file("/b/x.png".to_string(), "x.png".to_string(), stat, &bytes, None, None);
    let other = analyze_file("/c/y.png".to_string(), "y.png".to_string(), stat, b"not an image", None, None);
    assert!(a.phash.is_some());
    assert_eq!(a.phash, b.phash);
    assert_eq!(a.sha1, b.sha1);
    let images = vec![a, other, b];
    let exact = find_exact_duplicates(images.clone());
    assert_eq!(exact.len(), 1);
    let paths: Vec<&str> = exact[0].iter().map(|i| i.path.as_str()).collect();
    assert_eq!(paths, vec!["/a/x.png", "/b/x.png"]);
    let similar = find_similar_duplicates(images);
    assert_eq!(similar.len(), 1);
    let paths: Vec<&str> = similar[0].iter().map(|i| i.path.as_str()).collect();
    assert_eq!(paths, vec!["/a/x.png", "/b/x.png"]);
}

#[test]
fn identical_files_are_grouped_by_both_clusterings() {
    let h = "5f3a0000ffff0001";
    let s = "ba7816bf8f01cfea414140de5dae2223b00361a396177a9cb410ff61f20015ad";
    let images = vec![rec("/a/one.jpg", Some(h), Some(s)), rec("/b/two.jpg", Some(h), Some(s))];
    let exact = find_exact_duplicates(images.clone());
    assert_eq!(exact.len(), 1);
    assert_eq!(exact[0].len(), 2);
    assert_eq!(exact[0][0].path, "/a/one.jpg");
    assert_eq!(exact[0][1].path, "/b/two.jpg");
    let similar = find_similar_duplicates(images);
    assert_eq!(similar.len(), 1);
    assert_eq!(similar[0].len(), 2);
}

#[test]
fn record_groups_keep_every_field() {
    let mut a = rec("/x.png", Some("00"), Some("k"));
    a.size = 77;
    a.modified_at = 12;
    let b = rec("/y.png", Some("01"), Some("k"));
    let c = rec("/z.png", None, None);
    let similar = find_similar_duplicates(vec![c.clone(), a.clone(), b.clone()]);
    assert_eq!(similar.len(), 1);
    assert_eq!(similar[0][0].size, 77);
    assert_eq!(similar[0][0].modified_at, 12);
    assert_eq!(similar[0][1].path, "/y.png");
    let exact = find_exact_duplicates(vec![a, c, b]);
    assert_eq!(exact.len(), 1);
    assert_eq!(exact[0][1].path, "/y.png");
}
