use spatial::seed::{overlay, seed_from_decoded, seed_from_outcome, seed_from_text};

fn padded(bytes: &[u8]) -> [u8; 32] {
    let mut seed = [0u8; 32];
    seed[..bytes.len()].copy_from_slice(bytes);
    seed
}

#[test]
fn test_overlay_of_short_text() {
    let seed = [7u8; 32];
    let out = overlay(seed, b"abc");
    assert_eq!(&out[..3], b"abc");
    assert_eq!(&out[3..], &[7u8; 29][..]);
}

#[test]
fn test_overlay_of_empty_text() {
    let mut seed = [0u8; 32];
    seed[5] = 9;
    assert_eq!(overlay(seed, b""), seed);
}

#[test]
fn test_overlay_of_text_as_long_as_the_seed() {
    let text: Vec<u8> = (0..32).collect();
    let out = overlay([255u8; 32], &text);
    assert_eq!(&out[..], &text[..]);
}

#[test]
fn test_overlay_of_long_text() {
    let text: Vec<u8> = (0..100).collect();
    let out = overlay([255u8; 32], &text);
    assert_eq!(&out[..], &text[..32]);
}

#[test]
fn test_seed_from_decoded() {
    assert_eq!(seed_from_decoded(&Some(vec![1, 2, 3]), b"AQID"), padded(&[1, 2, 3]));
    assert_eq!(seed_from_decoded(&None, b"a b"), padded(b"a b"));
    assert_eq!(seed_from_decoded(&Some(Vec::new()), b""), [0u8; 32]);
    let full: Vec<u8> = (100..132).collect();
    assert_eq!(seed_from_decoded(&Some(full.clone()), b"ignored"), padded(&full));
    let long = [b'x'; 50];
    assert_eq!(seed_from_decoded(&None, &long), [b'x'; 32]);
}

#[test]
fn test_seed_from_text_decodes_base64() {
    assert_eq!(seed_from_text(b"AQID"), Some(padded(&[1, 2, 3])));
    assert_eq!(seed_from_text(b"aGVsbG8gd29ybGQ="), Some(padded(b"hello world")));
    assert_eq!(seed_from_text(b""), Some([0u8; 32]));
}

#[test]
fn test_seed_from_text_decodes_a_whole_seed() {
    // 32 bytes of 0xff are 42 times `/`, then `8` and one sign of padding.
    let mut text = vec![b'/'; 42];
    text.extend_from_slice(b"8=");
    assert_eq!(text.len(), 44);
    assert_eq!(seed_from_text(&text), Some([0xffu8; 32]));
}

#[test]
fn test_seed_from_text_takes_other_text_as_it_is() {
    assert_eq!(seed_from_text(b"hello world!"), Some(padded(b"hello world!")));
    assert_eq!(seed_from_text(b"a"), Some(padded(b"a")));
    let long = b"this text is not base64, and it is longer than a seed";
    assert_eq!(seed_from_text(long), Some(padded(&long[..32])));
}

#[test]
fn test_seed_from_text_has_no_seed_for_longer_base64() {
    // 33 bytes of 0xff are 44 times `/`.
    let text = vec![b'/'; 44];
    assert_eq!(seed_from_text(&text), None);
    let longer = vec![b'A'; 64];
    assert_eq!(seed_from_text(&longer), None);
}

#[test]
fn test_seed_from_outcome_takes_what_fits() {
    assert_eq!(seed_from_outcome(&Some(vec![1, 2, 3]), b"AQID"), Some(padded(&[1, 2, 3])));
    assert_eq!(seed_from_outcome(&Some(Vec::new()), b""), Some([0u8; 32]));
    assert_eq!(seed_from_outcome(&None, b"a b"), Some(padded(b"a b")));
    let long = [b'x'; 50];
    assert_eq!(seed_from_outcome(&None, &long), Some([b'x'; 32]));
    let full: Vec<u8> = (100..132).collect();
    assert_eq!(seed_from_outcome(&Some(full.clone()), b"ignored"), Some(padded(&full)));
}

#[test]
fn test_seed_from_outcome_has_no_seed_for_more_than_32_bytes() {
    let longer: Vec<u8> = (0..33).collect();
    assert_eq!(seed_from_outcome(&Some(longer), b"ignored"), None);
    assert_eq!(seed_from_outcome(&Some(vec![0u8; 100]), b""), None);
}
