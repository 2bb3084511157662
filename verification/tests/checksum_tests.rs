use tcp_option::checksum::{checksum, compute, tcp_checksum, udp_checksum, UdpHeader};

#[test]
fn zero_header_checksum_is_ffff() {
    let data = vec![0u8; 20];
    assert_eq!(checksum(&data), 0xFFFF);
}

#[test]
fn zero_header_tcp_checksum_includes_pseudo_header() {
    // With all-zero addresses the pseudo-header still contributes the
    // protocol number 6 and the length 20: the folded sum is 0x1A.
    let data = vec![0u8; 20];
    assert_eq!(tcp_checksum(0, 0, &data), 0xFFE5);
}

#[test]
fn compute_is_deterministic() {
    let segment = vec![0x12u8, 0x34, 0x56, 0x78, 0x9A];
    let first = compute(0x0A000001, 0x5DB8D822, 6, &segment);
    let second = compute(0x0A000001, 0x5DB8D822, 6, &segment);
    assert_eq!(first, second);
    let third = tcp_checksum(0x0A000001, 0x5DB8D822, &segment);
    assert_eq!(first, third);
}

#[test]
fn odd_length_segment_pads_low_byte() {
    // A single byte 0x12 counts as the word 0x1200.
    assert_eq!(checksum(&[0x12u8]), 0xFFFF - 0x1200);
}

#[test]
fn empty_segment() {
    let empty: Vec<u8> = Vec::new();
    assert_eq!(checksum(&empty), 0xFFFF);
    // Only the protocol byte 17 contributes to the pseudo-header sum.
    assert_eq!(compute(0, 0, 17, &empty), 0xFFEE);
}

#[test]
fn carry_folding_wraps_around() {
    // 0xFFFF + 0xFFFF = 0x1FFFE folds to 0xFFFF, whose complement is 0.
    assert_eq!(checksum(&[0xFFu8, 0xFF, 0xFF, 0xFF]), 0x0000);
}

#[test]
fn udp_checksum_of_zero_header() {
    let header = UdpHeader { source_port: 0, dest_port: 0, length: 0, checksum: 0 };
    let empty: Vec<u8> = Vec::new();
    assert_eq!(udp_checksum(0, 0, 17, &header, &empty), 0xFFEE);
}

#[test]
fn udp_checksum_counts_header_fields() {
    let header = UdpHeader { source_port: 0x1234, dest_port: 0x5678, length: 8, checksum: 0 };
    let empty: Vec<u8> = Vec::new();
    // Words: protocol 0x11, pseudo length 8, ports, length 8 again.
    let sum: u32 = 0x11 + 8 + 0x1234 + 0x5678 + 8;
    assert_eq!(udp_checksum(0, 0, 0x11, &header, &empty), !(sum as u16));
}
