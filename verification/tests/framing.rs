use true_cyber::framing::well_framed;

#[test]
fn overflowing_length_is_not_well_framed() {
    let bytes = [0x1F, 0x21, 0x62, 0xFE, 0xFF, 0xFF, 0xFF, 0xFF, 0xFF, 0xFF, 0xFF, 0xFF, 0x01];
    assert!(!well_framed(&bytes));
}

#[test]
fn ordinary_logs_are_well_framed() {
    assert!(well_framed(&[]));
    assert!(well_framed(b"no marker at all"));
    assert!(well_framed(&[0x1F, 0x21, 0x62]));
    // a frame that runs past the end waits for more bytes
    assert!(well_framed(&[0x1F, 0x21, 0x62, 0x05, 1, 2]));
    // an eleven-byte length never decodes
    assert!(well_framed(&[0x1F, 0x21, 0x62, 0xFF, 0xFF, 0xFF, 0xFF, 0xFF, 0xFF, 0xFF, 0xFF, 0xFF, 0xFF, 0x01]));
    let frame = true_cyber::link::link_frame([1; 32], [2; 32], [3; 32], 1, 0, 0, [0; 32]);
    let mut log = frame.clone();
    log.extend_from_slice(&frame);
    assert!(well_framed(&log));
}

#[test]
fn large_link_count_is_well_framed() {
    let mut payload = vec![0u8; 84];
    payload[80..84].copy_from_slice(&255u32.to_le_bytes());
    let mut frame = vec![0x1F, 0x21, 0x62, 84];
    frame.extend_from_slice(&payload);
    assert!(well_framed(&frame));
    // the decoder skips the frame whose links run short
    assert_eq!(true_cyber::cell::replay_log(&frame).unwrap().1, 0);
}
