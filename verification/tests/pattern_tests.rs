use memstress::pattern::{make_allocation, verify_and_free};

#[test]
fn fill_then_verify_succeeds() {
    let buf = make_allocation(4096, 100, 0).expect("allocation failed");
    assert_eq!(buf.len(), 4096);
    assert!(verify_and_free(buf, 100).is_ok());
}

#[test]
fn fill_then_verify_succeeds_with_noise() {
    // Noise bytes are written before the tags and are never checked.
    let buf = make_allocation(8192, 64, 2048).expect("allocation failed");
    assert!(verify_and_free(buf, 64).is_ok());
}

#[test]
fn fill_then_verify_smallest_case() {
    // size >= stride + 8 with stride >= 8: two tags fit.
    let buf = make_allocation(16, 8, 0).expect("allocation failed");
    assert!(verify_and_free(buf, 8).is_ok());
}

#[test]
fn tag_magic_and_index_layout() {
    let buf = make_allocation(4096, 256, 0).expect("allocation failed");
    for k in 0..15usize {
        let off = k * 256;
        assert_eq!(buf[off], 0x11);
        assert_eq!(buf[off + 1], 0x22);
        assert_eq!(buf[off + 2], 0x33);
        assert_eq!(buf[off + 3], 0x44);
        let index = u32::from_be_bytes([buf[off + 4], buf[off + 5], buf[off + 6], buf[off + 7]]);
        // The stored sequence index equals offset / stride.
        assert_eq!(index as usize, off / 256);
    }
}

#[test]
fn index_bytes_are_big_endian() {
    // With stride 8 the tag indices climb quickly enough to reach a
    // multi-byte value: tag 300 has index bytes 0x00 0x00 0x01 0x2c.
    let buf = make_allocation(4096, 8, 0).expect("allocation failed");
    let off = 300 * 8;
    assert_eq!(&buf[off..off + 8], &[0x11, 0x22, 0x33, 0x44, 0x00, 0x00, 0x01, 0x2c]);
}

#[test]
fn single_flip_is_detected_at_its_offset() {
    // Flip one byte in each position of tag 2's window in turn.
    for j in 0..8usize {
        let mut buf = make_allocation(4096, 512, 0).expect("allocation failed");
        let off = 2 * 512;
        buf[off + j] ^= 0xff;
        let err = verify_and_free(buf, 512).expect_err("corruption went undetected");
        assert_eq!(err.offset, off);
        assert_eq!(err.expected_index, 2);
        assert!(err.history.len() <= 4);
        assert!(!err.history.is_empty());
    }
}

#[test]
fn corruption_history_holds_last_windows() {
    let mut buf = make_allocation(4096, 512, 0).expect("allocation failed");
    let off = 3 * 512;
    buf[off + 4] ^= 0x01;
    let observed: Vec<Vec<u8>> = (0..4)
        .map(|k| buf[(k * 512)..(k * 512 + 8)].to_vec())
        .collect();
    let err = verify_and_free(buf, 512).expect_err("corruption went undetected");
    assert_eq!(err.history.len(), 4);
    // Oldest first; the failing window comes last.
    assert_eq!(err.history, observed);
}

#[test]
fn corruption_history_zero_padded_at_start() {
    let mut buf = make_allocation(4096, 512, 0).expect("allocation failed");
    buf[5] ^= 0x40;
    let first_window = buf[0..8].to_vec();
    let err = verify_and_free(buf, 512).expect_err("corruption went undetected");
    assert_eq!(err.offset, 0);
    assert_eq!(err.expected_index, 0);
    assert_eq!(err.history.len(), 4);
    assert_eq!(err.history[0], vec![0u8; 8]);
    assert_eq!(err.history[1], vec![0u8; 8]);
    assert_eq!(err.history[2], vec![0u8; 8]);
    assert_eq!(err.history[3], first_window);
}

#[test]
fn verify_is_fail_fast() {
    // Two independently corrupted offsets: only the earlier is reported.
    let mut buf = make_allocation(4096, 512, 0).expect("allocation failed");
    let a = 1 * 512;
    let b = 5 * 512;
    buf[a] ^= 0xff;
    buf[b + 7] ^= 0xff;
    let err = verify_and_free(buf, 512).expect_err("corruption went undetected");
    assert_eq!(err.offset, a);
    assert_eq!(err.expected_index, 1);
}

#[test]
fn noise_outside_tags_is_not_checked() {
    // A byte outside every tag window may change freely.
    let mut buf = make_allocation(4096, 512, 0).expect("allocation failed");
    buf[100] ^= 0xff;
    buf[511] ^= 0xff;
    assert!(verify_and_free(buf, 512).is_ok());
}

#[test]
fn last_eight_bytes_carry_no_tag() {
    // The walk writes at offset i only while i < size - 8, so an exact
    // multiple leaves the final window untagged.
    let mut buf = make_allocation(4096, 4096, 0).expect("allocation failed");
    buf[4090] ^= 0xff;
    assert!(verify_and_free(buf, 4096).is_ok());
}
