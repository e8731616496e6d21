use llts::codec::{decode_payload, encode_frame, encode_payload, FrameBuffer, TimeMessage};

#[test]
fn payload_layout_exact() {
    let m = TimeMessage { node_id: String::from("A"), timestamp: 1 };
    let p = encode_payload(&m);
    let mut expected = vec![1u8];
    expected.extend_from_slice(&[0u8; 15]);
    expected.push(65);
    assert_eq!(p, expected);
}

#[test]
fn payload_round_trip() {
    let m = TimeMessage {
        node_id: String::from("127.0.0.1:9001"),
        timestamp: 1_234_567_890_123,
    };
    let p = encode_payload(&m);
    let d = decode_payload(&p).expect("payload must decode");
    assert_eq!(d.node_id, "127.0.0.1:9001");
    assert_eq!(d.timestamp, 1_234_567_890_123);
}

#[test]
fn payload_round_trip_non_ascii_id() {
    let m = TimeMessage { node_id: String::from("nœud-β"), timestamp: 42 };
    let p = encode_payload(&m);
    let d = decode_payload(&p).expect("payload must decode");
    assert_eq!(d.node_id, "nœud-β");
    assert_eq!(d.timestamp, 42);
}

#[test]
fn decode_short_payload_is_none() {
    assert!(decode_payload(&[1, 2, 3]).is_none());
    assert!(decode_payload(&[]).is_none());
    assert!(decode_payload(&[0; 15]).is_none());
}

#[test]
fn decode_bare_timestamp_has_empty_id() {
    let d = decode_payload(&[0; 16]).expect("sixteen bytes decode");
    assert_eq!(d.node_id, "");
    assert_eq!(d.timestamp, 0);
}

#[test]
fn decode_invalid_utf8_is_none() {
    let mut p = vec![0u8; 16];
    p.push(0xff);
    p.push(0xfe);
    assert!(decode_payload(&p).is_none());
}

#[test]
fn frame_layout_exact() {
    let m = TimeMessage { node_id: String::from("A"), timestamp: 1 };
    let payload = encode_payload(&m);
    let frame = encode_frame(&m).expect("short payload must frame");
    assert_eq!(&frame[0..4], &[17, 0, 0, 0]);
    assert_eq!(&frame[4..], &payload[..]);
}

#[test]
fn frame_buffer_reassembles_split_chunks() {
    let m = TimeMessage { node_id: String::from("n1"), timestamp: 1000 };
    let frame = encode_frame(&m).unwrap();
    let (first, second) = frame.split_at(7);

    let mut fb = FrameBuffer::new();
    fb.push_chunk(first);
    assert!(fb.next_frame().is_none());
    fb.push_chunk(second);
    let payload = fb.next_frame().expect("complete frame must come out");
    let d = decode_payload(&payload).unwrap();
    assert_eq!(d.node_id, "n1");
    assert_eq!(d.timestamp, 1000);
    assert!(fb.next_frame().is_none());
}

#[test]
fn frame_buffer_two_frames_in_one_chunk() {
    let m1 = TimeMessage { node_id: String::from("n1"), timestamp: 1 };
    let m2 = TimeMessage { node_id: String::from("n2"), timestamp: 2 };
    let mut bytes = encode_frame(&m1).unwrap();
    bytes.extend_from_slice(&encode_frame(&m2).unwrap());

    let mut fb = FrameBuffer::new();
    fb.push_chunk(&bytes);
    let p1 = fb.next_frame().expect("first frame");
    let p2 = fb.next_frame().expect("second frame");
    assert!(fb.next_frame().is_none());
    assert_eq!(decode_payload(&p1).unwrap().node_id, "n1");
    assert_eq!(decode_payload(&p2).unwrap().node_id, "n2");
}
