use tcp_option::checksum::tcp_checksum;
use tcp_option::errors::ProxyError;
use tcp_option::proxy::{rewrite_segment, step, ProxyEvent, ProxyState};

/// The end-to-end chunk: a 20-byte IPv4 header declaring destination
/// 93.184.216.34, followed by a 20-byte TCP SYN header to port 80.
fn end_to_end_chunk() -> Vec<u8> {
    let mut b = vec![
        0x45, 0x00, 0x00, 0x28, 0x00, 0x00, 0x00, 0x00, 0x40, 0x06, 0x00, 0x00, 10, 0, 0, 1, 93,
        184, 216, 34, 0xD4, 0x31, 0x00, 0x50, 0x00, 0x00, 0x00, 0x00, 0x00, 0x00, 0x00, 0x00,
        0x50, 0x02, 0xFF, 0xFF, 0x00, 0x00, 0x00, 0x00,
    ];
    let source = u32::from_be_bytes([10, 0, 0, 1]);
    let dest = u32::from_be_bytes([93, 184, 216, 34]);
    let csum = tcp_checksum(source, dest, &b[20..]);
    b[36] = (csum >> 8) as u8;
    b[37] = (csum & 0xFF) as u8;
    b
}

#[test]
fn end_to_end_pipeline() {
    let chunk = end_to_end_chunk();
    assert_eq!(chunk.len(), 40);

    let s = step(ProxyState::Listening, ProxyEvent::Accepted);
    assert!(matches!(s, ProxyState::AcceptedClient));

    let s = step(s, ProxyEvent::ChunkRead(chunk.clone()));
    assert!(matches!(s, ProxyState::ParsedHeaders { .. }));

    let s = step(s, ProxyEvent::Ready);
    match &s {
        ProxyState::ConnectingUpstream { dest_ip, dest_port, .. } => {
            assert_eq!(*dest_ip, u32::from_be_bytes([93, 184, 216, 34]));
            assert_eq!(*dest_port, 80);
        }
        _ => panic!("expected the pipeline to connect upstream"),
    }

    let s = step(s, ProxyEvent::UpstreamConnected);
    assert!(matches!(s, ProxyState::Forwarding { segment: None, .. }));

    let s = step(s, ProxyEvent::Ready);
    let segment = match &s {
        ProxyState::Forwarding { segment: Some(seg), .. } => seg.clone(),
        _ => panic!("expected a built segment"),
    };
    // 40 original bytes plus the 12-byte injected option.
    assert_eq!(segment.len(), 52);
    // The IP header is carried over unchanged.
    assert_eq!(&segment[..20], &chunk[..20]);
    // The data offset grew from 5 to 8 words.
    assert_eq!(segment[32], 0x80);
    // The injected option sits first in the options area.
    assert_eq!(&segment[40..52], &[253, 12, 1, 2, 3, 4, 5, 6, 7, 8, 9, 0x10]);
    // The checksum was freshly computed over the rewritten segment.
    let mut zeroed = segment[20..].to_vec();
    zeroed[16] = 0;
    zeroed[17] = 0;
    let source = u32::from_be_bytes([10, 0, 0, 1]);
    let dest = u32::from_be_bytes([93, 184, 216, 34]);
    let expected = tcp_checksum(source, dest, &zeroed);
    assert_eq!(((segment[36] as u16) << 8) | segment[37] as u16, expected);

    let s = step(s, ProxyEvent::WriteCompleted);
    assert!(matches!(s, ProxyState::RelayingResponse { reply: None }));

    // Whatever the upstream returns is relayed unmodified.
    let reply = vec![0xDEu8, 0xAD, 0xBE, 0xEF];
    let s = step(s, ProxyEvent::ResponseRead(reply.clone()));
    match &s {
        ProxyState::RelayingResponse { reply: Some(r) } => assert_eq!(*r, reply),
        _ => panic!("expected the reply to be pending"),
    }

    let s = step(s, ProxyEvent::WriteCompleted);
    assert!(matches!(s, ProxyState::Closed));
}

#[test]
fn malformed_input_aborts_before_connecting() {
    let s = step(ProxyState::Listening, ProxyEvent::Accepted);
    let s = step(s, ProxyEvent::ChunkRead(vec![0u8; 10]));
    // The 10-byte chunk is handed to the parse phase, and parsing aborts
    // the connection: the machine never reaches `ConnectingUpstream`.
    assert!(matches!(s, ProxyState::ParsedHeaders { .. }));
    let s = step(s, ProxyEvent::Ready);
    assert!(matches!(s, ProxyState::Aborted));
    // Aborted is terminal, whatever else happens.
    let s = step(s, ProxyEvent::UpstreamConnected);
    assert!(matches!(s, ProxyState::Aborted));
}

#[test]
fn zero_byte_read_closes_idle_connection() {
    let s = step(ProxyState::Listening, ProxyEvent::Accepted);
    let s = step(s, ProxyEvent::ChunkRead(Vec::new()));
    assert!(matches!(s, ProxyState::Closed));
}

#[test]
fn failure_events_abort() {
    let s = step(ProxyState::Listening, ProxyEvent::Accepted);
    let s = step(s, ProxyEvent::ChunkRead(end_to_end_chunk()));
    let s = step(s, ProxyEvent::Ready);
    assert!(matches!(s, ProxyState::ConnectingUpstream { .. }));
    // The upstream connect failed: the connection is aborted.
    let s = step(s, ProxyEvent::Failed);
    assert!(matches!(s, ProxyState::Aborted));
}

#[test]
fn rewrite_segment_rejects_malformed_buffers() {
    let short = vec![0u8; 10];
    assert!(matches!(rewrite_segment(&short), Err(ProxyError::ParseError)));
}

#[test]
fn rewrite_segment_rejects_options_that_cannot_fit() {
    // A 60-byte TCP header (40 option bytes) leaves no room for the
    // injected option.
    let mut b = end_to_end_chunk();
    b[32] = 0xF0;
    b.extend_from_slice(&[0u8; 40]);
    b[2] = 0;
    b[3] = 80;
    assert!(matches!(rewrite_segment(&b), Err(ProxyError::OptionOverflow)));
}

#[test]
fn rewrite_segment_matches_the_pipeline() {
    let chunk = end_to_end_chunk();
    let seg = rewrite_segment(&chunk).unwrap();
    assert_eq!(seg.len(), 52);
    assert_eq!(&seg[..20], &chunk[..20]);
    assert_eq!(&seg[40..52], &[253, 12, 1, 2, 3, 4, 5, 6, 7, 8, 9, 0x10]);
}
