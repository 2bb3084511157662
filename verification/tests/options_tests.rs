use tcp_option::errors::ProxyError;
use tcp_option::options::injected_options;

const PREFIX: [u8; 12] = [253, 12, 1, 2, 3, 4, 5, 6, 7, 8, 9, 0x10];

#[test]
fn empty_options_get_just_the_prefix() {
    let original: Vec<u8> = Vec::new();
    let out = injected_options(&original).unwrap();
    assert_eq!(out, PREFIX.to_vec());
}

#[test]
fn original_options_follow_the_prefix_unchanged() {
    let original = vec![0x02u8, 0x04, 0x05, 0xB4];
    let out = injected_options(&original).unwrap();
    assert_eq!(out.len(), 16);
    assert_eq!(&out[..12], &PREFIX);
    assert_eq!(&out[12..], &original[..]);
}

#[test]
fn unaligned_options_are_padded_with_zero_filler() {
    let original = vec![0x01u8, 0x01, 0x08];
    let out = injected_options(&original).unwrap();
    assert_eq!(out.len(), 16);
    assert_eq!(&out[..12], &PREFIX);
    assert_eq!(&out[12..15], &original[..]);
    assert_eq!(out[15], 0);
}

#[test]
fn boundary_at_sixty_byte_header() {
    // 28 original bytes put the header at exactly 60 bytes: accepted.
    let original = vec![1u8; 28];
    let out = injected_options(&original).unwrap();
    assert_eq!(out.len(), 40);
    // 29 original bytes would push the header past 60 bytes: refused,
    // never truncated.
    let original = vec![1u8; 29];
    assert!(matches!(injected_options(&original), Err(ProxyError::OptionOverflow)));
    let original = vec![1u8; 32];
    assert!(matches!(injected_options(&original), Err(ProxyError::OptionOverflow)));
}
