use image_dedup::fingerprint::{compute_phash, compute_sha256, phash_distance, phash_from_luma, PHASH_THRESHOLD};

fn png_bytes(step: u8) -> Vec<u8> {
    let img = image::ImageBuffer::<image::Luma<u8>, Vec<u8>>::from_fn(18, 16, |x, y| {
        image::Luma([((x as u8).wrapping_mul(step)).wrapping_add(y as u8)])
    });
    let mut out = std::io::Cursor::new(Vec::new());
    image::DynamicImage::ImageLuma8(img)
        .write_to(&mut out, image::ImageFormat::Png)
        .unwrap();
    out.into_inner()
}

#[test]
fn sha256_of_known_input() {
    assert_eq!(
        compute_sha256(b"abc"),
        "ba7816bf8f01cfea414140de5dae2223b00361a396177a9cb410ff61f20015ad"
    );
    assert_eq!(
        compute_sha256(b""),
        "e3b0c44298fc1c149afbf4c8996fb92427ae41e4649b934ca495991b7852b855"
    );
}

#[test]
fn dhash_of_rising_rows_is_zero() {
    let px: Vec<u8> = (0..72).map(|i| (i % 9) as u8 * 10).collect();
    assert_eq!(phash_from_luma(&px), "0000000000000000");
}

#[test]
fn dhash_of_falling_rows_is_all_ones() {
    let px: Vec<u8> = (0..72).map(|i| 200 - (i % 9) as u8 * 10).collect();
    assert_eq!(phash_from_luma(&px), "ffffffffffffffff");
}

#[test]
fn dhash_bits_are_row_major() {
    // only the first row falls, and only between its first two pixels
    let mut px = vec![5u8; 72];
    px[0] = 9;
    assert_eq!(phash_from_luma(&px), "8000000000000000");
    // the last comparison of the last row
    let mut px = vec![5u8; 72];
    px[70] = 9;
    assert_eq!(phash_from_luma(&px), "0000000000000001");
    // equal neighbours give zero bits
    assert_eq!(phash_from_luma(&vec![7u8; 72]), "0000000000000000");
}

#[test]
fn phash_is_deterministic() {
    let bytes = png_bytes(13);
    let a = compute_phash(&bytes).unwrap();
    let b = compute_phash(&bytes.clone()).unwrap();
    assert_eq!(a, b);
    assert_eq!(a.len(), 16);
    assert!(a.chars().all(|c| c.is_ascii_hexdigit() && !c.is_ascii_uppercase()));
}

#[test]
fn phash_of_undecodable_bytes_is_absent() {
    assert_eq!(compute_phash(b"not an image"), None);
    assert_eq!(compute_phash(b""), None);
}

#[test]
fn distance_counts_differing_bits() {
    assert_eq!(phash_distance("ff", "00"), 8);
    assert_eq!(phash_distance("0000000000000000", "000000000000001f"), 5);
    assert_eq!(phash_distance("0000000000000000", "ffffffffffffffff"), 64);
    assert_eq!(phash_distance("ABCD", "abcd"), 0);
}

#[test]
fn distance_is_symmetric_and_reflexive() {
    let hs = ["00ff00ff00ff00ff", "0123456789abcdef", "fedcba9876543210"];
    for a in hs {
        assert_eq!(phash_distance(a, a), 0);
        for b in hs {
            assert_eq!(phash_distance(a, b), phash_distance(b, a));
        }
    }
}

#[test]
fn distance_of_mismatched_lengths_is_maximal() {
    assert_eq!(phash_distance("00", "0000"), u32::MAX);
    // text that is not hex reads as no bytes
    assert_eq!(phash_distance("zz", "00"), u32::MAX);
    assert_eq!(phash_distance("zz", "xyz"), 0);
    assert!(phash_distance("00", "0000") > PHASH_THRESHOLD);
}
