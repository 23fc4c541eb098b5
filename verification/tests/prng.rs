use micronuts::prng::{fill_from_stream, xorshift64_step, Prng};

#[test]
fn prng_steps_xorshift64() {
    assert_eq!(xorshift64_step(1), 0x4082_2041);
    let mut p = Prng::new(1);
    assert_eq!(p.next_u64(), 0x4082_2041);
    assert_eq!(p.next_u64(), 0x1000_4106_0c01_1441);
}

#[test]
fn prng_fill_bytes_takes_each_state_little_endian() {
    let mut p = Prng::new(1);
    let mut buf = [0u8; 10];
    p.fill_bytes(&mut buf);
    assert_eq!(buf, [0x41, 0x20, 0x82, 0x40, 0, 0, 0, 0, 0x41, 0x14]);
    assert_eq!(p.next_u64(), xorshift64_step(0x1000_4106_0c01_1441));
}

#[test]
fn fill_from_stream_returns_next_state() {
    let mut buf = [0u8; 8];
    let next = fill_from_stream(1, &mut buf);
    assert_eq!(next, 0x4082_2041);
    let mut empty: [u8; 0] = [];
    assert_eq!(fill_from_stream(5, &mut empty), 5);
}
