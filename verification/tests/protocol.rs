use novatype::protocol::{
    choose_endpoint, frame, frame_length, tcp_addr, u32_from_le_bytes, u32_le_bytes, unframe,
    suggest_limit, CandidateDto, FrameError, DEFAULT_ADDR, DEFAULT_ENDPOINT, MAX_MESSAGE_BYTES,
    MAX_SUGGEST_LIMIT,
};

#[test]
fn frames_payload_with_little_endian_length() {
    let framed = frame(&vec![7, 8, 9]).expect("frame");
    assert_eq!(framed, vec![3, 0, 0, 0, 7, 8, 9]);
    assert_eq!(frame_length([3, 0, 0, 0]), Ok(3));
}

#[test]
fn framing_round_trips() {
    let payload: Vec<u8> = (0..300u32).map(|i| (i % 251) as u8).collect();
    let mut framed = frame(&payload).expect("frame");
    framed.extend_from_slice(&[1, 2, 3]);
    assert_eq!(unframe(&framed), Ok(payload));
}

#[test]
fn refuses_oversized_messages() {
    let big = vec![0u8; MAX_MESSAGE_BYTES + 1];
    assert_eq!(frame(&big), Err(FrameError::TooLarge));
    let at_limit = vec![0u8; MAX_MESSAGE_BYTES];
    assert_eq!(frame(&at_limit).map(|f| f.len()), Ok(MAX_MESSAGE_BYTES + 4));
    assert_eq!(frame_length(u32_le_bytes(1024 * 1024 + 1)), Err(FrameError::TooLarge));
    assert_eq!(frame_length(u32_le_bytes(1024 * 1024)), Ok(1024 * 1024));
}

#[test]
fn unframe_reports_short_input() {
    assert_eq!(unframe(&vec![1, 0]), Err(FrameError::Incomplete));
    assert_eq!(unframe(&vec![4, 0, 0, 0, 1, 2]), Err(FrameError::Incomplete));
    assert_eq!(unframe(&vec![0, 0, 0x20, 0]), Err(FrameError::TooLarge));
    assert_eq!(unframe(&vec![0, 0, 0, 0]), Ok(Vec::new()));
}

#[test]
fn little_endian_bytes_match_std() {
    for n in [0u32, 1, 255, 256, 65_535, 0x0102_0304, u32::MAX] {
        assert_eq!(u32_le_bytes(n), n.to_le_bytes());
        assert_eq!(u32_from_le_bytes(n.to_le_bytes()), n);
    }
}

#[test]
fn tcp_endpoints_are_recognised() {
    assert_eq!(tcp_addr("tcp://127.0.0.1:4000"), Some("127.0.0.1:4000".to_string()));
    assert_eq!(tcp_addr(DEFAULT_ADDR), Some(DEFAULT_ADDR.to_string()));
    assert_eq!(tcp_addr(DEFAULT_ENDPOINT), None);
    assert_eq!(tcp_addr("tcp://"), Some(String::new()));
}

#[test]
fn endpoint_settings_take_priority_in_order() {
    assert_eq!(choose_endpoint(Some("a".into()), Some("b".into())), "a");
    assert_eq!(choose_endpoint(None, Some("b".into())), "b");
    assert_eq!(choose_endpoint(None, None), "novatype");
}

#[test]
fn candidate_clone_keeps_fields() {
    let candidate = CandidateDto {
        text: "你好".to_string(),
        reading: vec!["ni".to_string(), "hao".to_string()],
        score_bits: 1.0f64.to_bits(),
    };
    let copy = candidate.clone();
    assert_eq!(copy, candidate);
    assert_eq!(f64::from_bits(copy.score_bits), 1.0);
}

#[test]
fn suggest_limit_clamps_to_one_through_twenty() {
    assert_eq!(suggest_limit(0), 1);
    assert_eq!(suggest_limit(1), 1);
    assert_eq!(suggest_limit(3), 3);
    assert_eq!(suggest_limit(20), 20);
    assert_eq!(suggest_limit(500), MAX_SUGGEST_LIMIT);
}
