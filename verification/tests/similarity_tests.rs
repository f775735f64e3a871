use foxbot::similarity::{
    fingerprint_image, fingerprints_similar, has_similar_hash, hamming_u64, popcount_u64,
};

#[test]
fn popcount_exact_values() {
    assert_eq!(popcount_u64(0), 0);
    assert_eq!(popcount_u64(1), 1);
    assert_eq!(popcount_u64(0b1011), 3);
    assert_eq!(popcount_u64(u64::MAX), 64);
    assert_eq!(popcount_u64(1 << 63), 1);
}

#[test]
fn hamming_exact_values() {
    assert_eq!(hamming_u64(0, 0), 0);
    assert_eq!(hamming_u64(0, 0b111), 3);
    assert_eq!(hamming_u64(0, 0b1111), 4);
    assert_eq!(hamming_u64(0b1010, 0b0101), 4);
    assert_eq!(hamming_u64(u64::MAX, 0), 64);
}

#[test]
fn similarity_threshold_boundary() {
    // Distance 3 is similar, distance 4 is not.
    assert!(fingerprints_similar(0, 0b111));
    assert!(!fingerprints_similar(0, 0b1111));
}

#[test]
fn failed_downloads_are_excluded() {
    // A candidate that failed to download must not count as a match, even
    // against a target that would match anything decodable at distance 0.
    let images: Vec<Option<Vec<u8>>> = vec![None, None];
    assert!(!has_similar_hash(0, &images));
}

#[test]
fn undecodable_bytes_are_excluded() {
    let images: Vec<Option<Vec<u8>>> = vec![Some(vec![1, 2, 3, 4])];
    assert!(!has_similar_hash(0, &images));
    assert_eq!(fingerprint_image(&vec![1, 2, 3, 4]), None);
}

fn encode(img: &image::DynamicImage, format: image::ImageOutputFormat) -> Vec<u8> {
    let mut out = Vec::new();
    img.write_to(&mut out, format).expect("encoding failed");
    out
}

fn gradient_image() -> image::DynamicImage {
    let buf = image::ImageBuffer::from_fn(32, 32, |x, y| image::Luma([(x * 8 + y / 4) as u8]));
    image::DynamicImage::ImageLuma8(buf)
}

#[test]
fn fingerprint_depends_on_pixels_not_encoding() {
    // The same pixels encoded two different ways must produce the same
    // fingerprint: the hash reads the image, not the raw bytes.
    let img = gradient_image();
    let png = encode(&img, image::ImageOutputFormat::Png);
    let bmp = encode(&img, image::ImageOutputFormat::Bmp);
    assert_ne!(png, bmp);

    let h_png = fingerprint_image(&png).expect("png should decode");
    let h_bmp = fingerprint_image(&bmp).expect("bmp should decode");
    assert_eq!(h_png, h_bmp);
}

#[test]
fn similar_hash_found_for_identical_image() {
    let img = gradient_image();
    let png = encode(&img, image::ImageOutputFormat::Png);
    let target = fingerprint_image(&png).expect("png should decode");

    let images = vec![None, Some(vec![9, 9, 9]), Some(png)];
    assert!(has_similar_hash(target, &images));

    // Flipping many bits of the target moves it outside the threshold.
    assert!(!has_similar_hash(target ^ 0xff00_ff00_ff00_ff00, &images));
}
