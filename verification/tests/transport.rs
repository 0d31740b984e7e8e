use oxide_kv::raft::transport::{frame, read_frame, read_header, DispatchKind, FrameError};

#[test]
fn a_frame_has_a_kind_a_length_and_a_payload() {
    let payload = vec![7u8, 8, 9];
    assert_eq!(frame(DispatchKind::Raft, &payload), vec![0x01, 0, 0, 0, 3, 7, 8, 9]);
    assert_eq!(frame(DispatchKind::Vote, &vec![]), vec![0x02, 0, 0, 0, 0]);
}

#[test]
fn frames_are_read_back() {
    for len in [0usize, 1, 255, 256, 65_535, 65_536, 70_000] {
        let payload: Vec<u8> = (0..len).map(|i| (i % 251) as u8).collect();
        let mut bytes = frame(DispatchKind::Vote, &payload);
        assert_eq!(read_header(&bytes), Ok((DispatchKind::Vote, len as u32)));
        bytes.push(42);
        assert_eq!(read_frame(&bytes), Ok((DispatchKind::Vote, payload)));
    }
}

#[test]
fn cut_frames_are_incomplete() {
    let bytes = frame(DispatchKind::Raft, &vec![1, 2, 3]);
    for cut in 0..bytes.len() {
        assert_eq!(read_frame(&bytes[..cut].to_vec()), Err(FrameError::Incomplete));
    }
}

#[test]
fn unknown_kinds_are_refused() {
    assert_eq!(read_frame(&vec![0x03, 0, 0, 0, 0]), Err(FrameError::UnknownKind(0x03)));
}

#[test]
fn the_most_significant_byte_comes_first() {
    assert_eq!(read_header(&vec![0x01, 1, 2, 3, 4]), Ok((DispatchKind::Raft, 0x0102_0304)));
}
