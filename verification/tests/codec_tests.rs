use tcp_option::checksum::tcp_checksum;
use tcp_option::codec::{decode, encode};
use tcp_option::errors::ProxyError;

/// A 40-byte buffer: a 20-byte IPv4 header followed by a 20-byte TCP SYN
/// header to 93.184.216.34:80, with a freshly computed TCP checksum.
fn sample_packet() -> Vec<u8> {
    let mut b = vec![
        // IPv4 header
        0x45, 0x00, 0x00, 0x28, // version/ihl, tos, total length 40
        0x00, 0x00, 0x00, 0x00, // id, fragmentation
        0x40, 0x06, 0x00, 0x00, // ttl 64, protocol 6, header checksum
        10, 0, 0, 1, // source 10.0.0.1
        93, 184, 216, 34, // destination 93.184.216.34
        // TCP header
        0xD4, 0x31, 0x00, 0x50, // source port 54321, destination port 80
        0x00, 0x00, 0x00, 0x00, // sequence number
        0x00, 0x00, 0x00, 0x00, // acknowledgment number
        0x50, 0x02, 0xFF, 0xFF, // data offset 5, SYN, window 65535
        0x00, 0x00, 0x00, 0x00, // checksum (patched below), urgent pointer
    ];
    let source = u32::from_be_bytes([10, 0, 0, 1]);
    let dest = u32::from_be_bytes([93, 184, 216, 34]);
    let csum = tcp_checksum(source, dest, &b[20..]);
    b[36] = (csum >> 8) as u8;
    b[37] = (csum & 0xFF) as u8;
    b
}

#[test]
fn decode_extracts_every_field() {
    let b = sample_packet();
    let (ip, tcp) = decode(&b).unwrap();
    assert_eq!(ip.version, 4);
    assert_eq!(ip.header_len, 5);
    assert_eq!(ip.total_len, 40);
    assert_eq!(ip.protocol, 6);
    assert_eq!(ip.source, u32::from_be_bytes([10, 0, 0, 1]));
    assert_eq!(ip.dest, u32::from_be_bytes([93, 184, 216, 34]));
    assert_eq!(tcp.source_port, 54321);
    assert_eq!(tcp.dest_port, 80);
    assert_eq!(tcp.seq_num, 0);
    assert_eq!(tcp.ack_num, 0);
    assert_eq!(tcp.data_offset, 5);
    assert_eq!(tcp.reserved, 0);
    assert_eq!(tcp.flags, 0x02);
    assert_eq!(tcp.window, 65535);
    assert_eq!(tcp.urgent, 0);
    assert!(tcp.options.is_empty());
    assert!(tcp.payload.is_empty());
}

#[test]
fn decode_rejects_short_buffer() {
    let b = vec![0u8; 10];
    assert!(matches!(decode(&b), Err(ProxyError::ParseError)));
    let b = vec![0x45u8; 19];
    assert!(matches!(decode(&b), Err(ProxyError::ParseError)));
}

#[test]
fn decode_rejects_bad_ip_header_length() {
    let mut b = sample_packet();
    b[0] = 0x44; // declared IP header length below the 20-byte minimum
    assert!(matches!(decode(&b), Err(ProxyError::ParseError)));
    let mut b = sample_packet();
    b[0] = 0x4F; // 60-byte IP header exceeds the 40-byte buffer
    assert!(matches!(decode(&b), Err(ProxyError::ParseError)));
}

#[test]
fn decode_rejects_bad_tcp_data_offset() {
    let mut b = sample_packet();
    b[32] = 0x40; // declared TCP header length below the 20-byte minimum
    assert!(matches!(decode(&b), Err(ProxyError::ParseError)));
    let mut b = sample_packet();
    b[32] = 0xF0; // 60-byte TCP header exceeds the remaining 20 bytes
    assert!(matches!(decode(&b), Err(ProxyError::ParseError)));
}

#[test]
fn encode_round_trips_a_parsed_buffer() {
    let b = sample_packet();
    let (ip, tcp) = decode(&b).unwrap();
    let encoded = encode(&ip, &tcp, &tcp.options, &tcp.payload).unwrap();
    // The re-encoded segment reproduces the TCP portion byte for byte,
    // including the original checksum; the IP header was never consumed.
    assert_eq!(&encoded[..], &b[20..]);
}

#[test]
fn encode_round_trips_options_and_payload() {
    let mut b = sample_packet();
    b[32] = 0x60; // data offset 6: four option bytes
    b.splice(40..40, [0x01u8, 0x01, 0x01, 0x00]);
    b.extend_from_slice(b"hi");
    b[36] = 0;
    b[37] = 0;
    let source = u32::from_be_bytes([10, 0, 0, 1]);
    let dest = u32::from_be_bytes([93, 184, 216, 34]);
    let csum = tcp_checksum(source, dest, &b[20..]);
    b[36] = (csum >> 8) as u8;
    b[37] = (csum & 0xFF) as u8;
    let (ip, tcp) = decode(&b).unwrap();
    assert_eq!(tcp.options, vec![0x01, 0x01, 0x01, 0x00]);
    assert_eq!(tcp.payload, b"hi".to_vec());
    let encoded = encode(&ip, &tcp, &tcp.options, &tcp.payload).unwrap();
    assert_eq!(&encoded[..], &b[20..]);
}

#[test]
fn encode_rejects_oversized_options() {
    let b = sample_packet();
    let (ip, tcp) = decode(&b).unwrap();
    let options = vec![0u8; 44]; // header would be 64 bytes
    let payload: Vec<u8> = Vec::new();
    assert!(matches!(encode(&ip, &tcp, &options, &payload), Err(ProxyError::EncodeError)));
    let options = vec![0u8; 40]; // exactly the 60-byte maximum
    assert!(encode(&ip, &tcp, &options, &payload).is_ok());
}
