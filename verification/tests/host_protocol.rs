use micronuts::host_protocol::{Frame, CMD_GET_PROOFS, CMD_IMPORT_TOKEN};

#[test]
fn host_frame_encodes_command_length_payload() {
    let f = Frame::new(CMD_IMPORT_TOKEN, vec![1, 2, 3]);
    assert_eq!(f.encode(), vec![0x01, 0x00, 0x03, 1, 2, 3]);
    let big = Frame::new(CMD_GET_PROOFS, vec![7; 300]);
    let wire = big.encode();
    assert_eq!(&wire[..3], &[0x05, 0x01, 0x2C]);
    assert_eq!(wire.len(), 303);
}

#[test]
fn host_frame_round_trip_and_incomplete_input() {
    let wire = Frame::new(0x12, b"hello".to_vec()).encode();
    let mut data = wire.clone();
    data.extend_from_slice(&[9, 9]);
    let f = Frame::decode(&data).expect("complete frame");
    assert_eq!(f.command, 0x12);
    assert_eq!(f.payload, b"hello".to_vec());
    assert!(Frame::decode(&wire[..wire.len() - 1]).is_none());
    assert!(Frame::decode(&[0x01, 0x00]).is_none());
    let empty = Frame::decode(&[0x02, 0x00, 0x00]).expect("empty payload");
    assert!(empty.payload.is_empty());
}
