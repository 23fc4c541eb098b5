use micronuts::frag::{
    collect_segments,
    for_each_segment, segment_count, FragError, Reassembler, LAST_FLAG, MAX_SEGMENTS,
    SEGMENT_HEADER_LEN,
};

fn segment(msg_id: u8, idx: u8, last: bool, payload: &[u8]) -> Vec<u8> {
    let flags = if last { LAST_FLAG | idx } else { idx };
    let mut out = Vec::with_capacity(SEGMENT_HEADER_LEN + payload.len());
    out.push(msg_id);
    out.push(flags);
    out.extend_from_slice(payload);
    out
}

fn collect(frame: &[u8], mtu: usize, msg_id: u8) -> Vec<Vec<u8>> {
    let mut out = Vec::new();
    for_each_segment(frame, mtu, msg_id, |header, payload| {
        let mut seg = Vec::with_capacity(SEGMENT_HEADER_LEN + payload.len());
        seg.extend_from_slice(header);
        seg.extend_from_slice(payload);
        out.push(seg);
    });
    out
}

#[test]
fn small_frame_is_single_last_flagged_segment() {
    let segs = collect(b"hello", 2048, 7);
    assert_eq!(segs.len(), 1);
    assert_eq!(&segs[0][..2], &[7, LAST_FLAG]);
    assert_eq!(&segs[0][2..], b"hello");
}

#[test]
fn empty_frame_emits_one_header_only_segment() {
    let segs = collect(b"", 2048, 1);
    assert_eq!(segs.len(), 1);
    assert_eq!(segs[0], vec![1, LAST_FLAG]);
}

#[test]
fn exact_multiple_of_payload_cap_has_no_empty_tail() {
    let cap = 2048 - SEGMENT_HEADER_LEN;
    let frame = vec![0xA5u8; cap * 3];
    let segs = collect(&frame, 2048, 9);
    assert_eq!(segs.len(), 3);
    assert!(segs.iter().all(|s| s.len() <= 2048));
    assert_eq!(segs[2].len(), SEGMENT_HEADER_LEN + cap);
    assert_eq!(segs[2][1], LAST_FLAG | 2);
}

#[test]
fn round_trip_over_caps() {
    for mtu in [2048usize, 768, 64, 3] {
        for len in [0usize, 1, mtu - SEGMENT_HEADER_LEN, mtu * 5, 5462] {
            if segment_count(len, mtu) > MAX_SEGMENTS {
                continue;
            }
            let frame: Vec<u8> = (0..len).map(|i| (i % 251) as u8).collect();
            let segs = collect(&frame, mtu, 42);
            assert!(segs.iter().all(|s| s.len() <= mtu));
            assert_eq!(segment_count(len, mtu), segs.len());
            let mut re = Reassembler::<65536>::new();
            let mut completed = None;
            for (i, seg) in segs.iter().enumerate() {
                let out = re.push(seg).expect("in-order stream must not error");
                if let Some(f) = out {
                    assert_eq!(i + 1, segs.len(), "completion only on last segment");
                    completed = Some(f.to_vec());
                }
            }
            assert_eq!(completed.expect("frame must complete"), frame);
        }
    }
}

#[test]
fn reassembler_rejects_truncated_header() {
    let mut re = Reassembler::<64>::new();
    assert_eq!(re.push(&[0x01]), Err(FragError::TruncatedHeader));
}

#[test]
fn gap_drops_message_and_requires_fresh_start() {
    let mut re = Reassembler::<256>::new();
    assert_eq!(re.push(&segment(5, 0, false, b"ab")), Ok(None));
    assert_eq!(
        re.push(&segment(5, 2, false, b"cd")),
        Err(FragError::OutOfOrder)
    );
    assert_eq!(
        re.push(&segment(5, 1, true, b"ef")),
        Err(FragError::OutOfOrder)
    );
    assert_eq!(re.push(&segment(5, 0, true, b"ok")), Ok(Some(&b"ok"[..])));
}

#[test]
fn interleave_from_other_message_drops_in_flight() {
    let mut re = Reassembler::<256>::new();
    assert_eq!(re.push(&segment(1, 0, false, b"aa")), Ok(None));
    assert_eq!(re.push(&segment(2, 0, false, b"bb")), Ok(None));
    assert_eq!(re.push(&segment(2, 1, true, b"cc")), Ok(Some(&b"bbcc"[..])));
}

#[test]
fn interleave_nonzero_from_other_message_is_out_of_order() {
    let mut re = Reassembler::<256>::new();
    assert_eq!(re.push(&segment(1, 0, false, b"aa")), Ok(None));
    assert_eq!(
        re.push(&segment(2, 3, true, b"bb")),
        Err(FragError::OutOfOrder)
    );
}

#[test]
fn overflow_drops_message() {
    let mut re = Reassembler::<4>::new();
    assert_eq!(re.push(&segment(1, 0, false, b"abc")), Ok(None));
    assert_eq!(
        re.push(&segment(1, 1, true, b"de")),
        Err(FragError::BufferOverflow)
    );
    assert_eq!(re.push(&segment(1, 0, true, b"ok")), Ok(Some(&b"ok"[..])));
}

#[test]
fn max_index_segment_is_accepted() {
    let mut re = Reassembler::<1024>::new();
    for idx in 0..MAX_SEGMENTS {
        let last = idx == MAX_SEGMENTS - 1;
        let seg = segment(3, idx as u8, last, &[idx as u8; 2]);
        let out = re.push(&seg).expect("127 segments must reassemble");
        if last {
            assert_eq!(out.map(|f| f.len()), Some(MAX_SEGMENTS * 2));
        }
    }
}

#[test]
fn truncated_header_drops_in_flight_message() {
    let mut re = Reassembler::<64>::new();
    assert_eq!(re.push(&segment(4, 0, false, b"ab")), Ok(None));
    assert_eq!(re.push(&[4]), Err(FragError::TruncatedHeader));
    // The dropped message cannot be continued.
    assert_eq!(
        re.push(&segment(4, 1, true, b"cd")),
        Err(FragError::OutOfOrder)
    );
}

#[test]
fn segment_count_formula() {
    assert_eq!(segment_count(0, 10), 1);
    assert_eq!(segment_count(8, 10), 1);
    assert_eq!(segment_count(9, 10), 2);
    assert_eq!(segment_count(16, 10), 2);
    assert_eq!(segment_count(17, 10), 3);
}

#[test]
fn segments_carry_index_and_slices() {
    let frame: Vec<u8> = (0u8..10).collect();
    let segs = collect(&frame, 6, 0x33);
    assert_eq!(segs.len(), 3);
    assert_eq!(segs[0], vec![0x33, 0, 0, 1, 2, 3]);
    assert_eq!(segs[1], vec![0x33, 1, 4, 5, 6, 7]);
    assert_eq!(segs[2], vec![0x33, LAST_FLAG | 2, 8, 9]);
}

#[test]
fn collected_segments_match_the_callback_and_reassemble() {
    let frame: Vec<u8> = (0..1000u32).map(|i| (i % 251) as u8).collect();
    let segs = collect_segments(&frame, 300, 9);
    assert_eq!(segs, collect(&frame, 300, 9));
    assert_eq!(segs.len(), segment_count(frame.len(), 300));
    assert!(segs.iter().all(|s| s.len() <= 300));
    let mut r: Reassembler<2048> = Reassembler::new();
    let mut done = None;
    for s in &segs {
        if let Some(f) = r.push(s).unwrap() {
            done = Some(f.to_vec());
        }
    }
    assert_eq!(done, Some(frame));
    assert_eq!(collect_segments(&[], 16, 1), vec![vec![1, LAST_FLAG]]);
}

#[test]
fn push_all_completes_on_the_last_segment() {
    let frame: Vec<u8> = (0..256u32).map(|i| (i % 251) as u8).collect();
    let segs = collect_segments(&frame, 4, 3);
    assert_eq!(segs.len(), 128);
    let mut re = Reassembler::<1024>::new();
    let rs = re.push_all(&segs);
    assert_eq!(rs.len(), 128);
    for r in &rs[..127] {
        assert_eq!(*r, Ok(None));
    }
    assert_eq!(rs[127], Ok(Some(frame)));
}
