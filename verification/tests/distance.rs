use ncd_classifier::compress::{compress, compress_bytes};
use ncd_classifier::classifier::ncd;
use ncd_classifier::dist::Dist;
use ncd_classifier::sample::Sample;

fn zlib(data: &[u8]) -> Vec<u8> {
    let mut enc = flate2::write::ZlibEncoder::new(Vec::new(), flate2::Compression::default());
    std::io::Write::write_all(&mut enc, data).unwrap();
    enc.finish().unwrap()
}

fn sample_of(klass: u8, text: &[u8]) -> Sample {
    let original = text.to_vec();
    let compressed = compress(&original).unwrap();
    Sample::new(klass, compressed, original)
}

#[test]
fn compress_matches_the_compressor_and_shrinks_redundancy() {
    let text = b"abcabcabcabcabcabcabcabcabcabcabcabcabcabcabcabc".to_vec();
    let out = compress(&text).unwrap();
    assert_eq!(out, zlib(&text));
    assert!(out.len() < text.len());
}

#[test]
fn compress_bytes_compresses_the_concatenation() {
    let x1 = b"north wind and the sun".to_vec();
    let x2 = b" were disputing which was the stronger".to_vec();
    let n = compress_bytes(&x1, &x2).unwrap();
    let mut joined = x1.clone();
    joined.extend_from_slice(&x2);
    assert_eq!(n, zlib(&joined).len());
}

#[test]
fn ncd_of_identical_texts_is_near_zero() {
    let text = b"The north wind and the sun were disputing which was the stronger, \
                 when a traveler came along wrapped in a warm cloak."
        .to_vec();
    let sample = sample_of(1, &text);
    let d = ncd(&text, &sample).unwrap();
    assert!(d.num > 0);
    assert!(d.den > 0);
    let ratio = d.num as f64 / d.den as f64;
    assert!(ratio < 0.5, "self distance {ratio} not near zero");
}

#[test]
fn ncd_is_a_nonzero_fraction_not_an_integer_quotient() {
    // The numerator is smaller than the denominator here, so an integer
    // division would truncate the distance to 0; the exact rational must
    // stay a value strictly between 0 and 1.
    let query = b"a traveler came along wrapped in a warm cloak".to_vec();
    let sample = sample_of(2, b"a traveler came along wearing a warm winter coat");
    let d = ncd(&query, &sample).unwrap();
    assert!(0 < d.num);
    assert!((d.num as u64) < d.den);
    let ratio = d.num as f64 / d.den as f64;
    assert!(ratio > 0.0);
    assert!(ratio < 1.0);
}

#[test]
fn distance_comparison_orders_rationals_exactly() {
    let half = Dist { num: 1, den: 2 };
    let third = Dist { num: 1, den: 3 };
    let also_half = Dist { num: 2, den: 4 };
    assert!(third.le(&half));
    assert!(!half.le(&third));
    assert!(half.le(&also_half));
    assert!(also_half.le(&half));
}

#[test]
fn dist_new_builds_the_ncd_parts() {
    let d = Dist::new(100, 120, 150);
    assert_eq!(d, Dist { num: 50, den: 120 });
    let d = Dist::new(120, 100, 150);
    assert_eq!(d, Dist { num: 50, den: 120 });
}

#[test]
fn ncd_of_unrelated_texts_is_larger_than_of_identical_ones() {
    let text = b"The north wind and the sun were disputing which was the stronger.".to_vec();
    let same = sample_of(1, &text);
    let other = sample_of(2, b"0123456789 9876543210 zzzzyyyyxxxx qqqq kkkk wwww vvvv");
    let d_same = ncd(&text, &same).unwrap();
    let d_other = ncd(&text, &other).unwrap();
    assert!(d_same.le(&d_other));
    assert!(!d_other.le(&d_same));
}
