use agar_keys::uf2::{
    base_is_aligned, blocks_for, to_uf2, BLOCK, FLAG_FAMILY_ID, MAGIC_END, MAGIC_START0,
    MAGIC_START1,
};

fn word(b: &[u8], at: usize) -> u32 {
    u32::from_le_bytes([b[at], b[at + 1], b[at + 2], b[at + 3]])
}

#[test]
fn block_counts() {
    assert_eq!(blocks_for(0), 0);
    assert_eq!(blocks_for(1), 1);
    assert_eq!(blocks_for(256), 1);
    assert_eq!(blocks_for(257), 2);
    assert_eq!(blocks_for(1024), 4);
}

#[test]
fn base_alignment() {
    assert!(base_is_aligned(0x0800_4000));
    assert!(!base_is_aligned(0x0800_4001));
    assert!(!base_is_aligned(0x80));
}

#[test]
fn empty_binary_has_no_blocks() {
    assert!(to_uf2(&[], 0x0800_4000, 0x9d5b_cf10).is_empty());
}

#[test]
fn blocks_carry_the_binary() {
    let data: Vec<u8> = (0..300u32).map(|i| (i * 7 + 1) as u8).collect();
    let base = 0x0800_4000;
    let family = 0x9d5b_cf10;
    let out = to_uf2(&data, base, family);
    assert_eq!(out.len(), 2 * BLOCK);
    for k in 0..2 {
        let b = &out[k * 512..(k + 1) * 512];
        assert_eq!(word(b, 0), MAGIC_START0);
        assert_eq!(word(b, 4), MAGIC_START1);
        assert_eq!(word(b, 8), FLAG_FAMILY_ID);
        assert_eq!(word(b, 12), base + 256 * k as u32);
        assert_eq!(word(b, 16), 256);
        assert_eq!(word(b, 20), k as u32);
        assert_eq!(word(b, 24), 2);
        assert_eq!(word(b, 28), family);
        assert_eq!(word(b, 508), MAGIC_END);
    }
    let mut payload = Vec::new();
    for k in 0..2 {
        payload.extend_from_slice(&out[k * 512 + 32..k * 512 + 32 + 256]);
    }
    assert_eq!(&payload[..300], &data[..]);
    assert!(payload[300..].iter().all(|b| *b == 0));
    // the rest of the data area is zero too
    assert!(out[512 + 32 + 44..1024 - 4].iter().all(|b| *b == 0));
}

#[test]
fn exact_multiple_has_no_padding_block() {
    let data = vec![0xAB; 512];
    let out = to_uf2(&data, 0, 1);
    assert_eq!(out.len(), 1024);
    assert_eq!(word(&out, 512 + 12), 256);
    assert_eq!(&out[512 + 32..512 + 32 + 256], &data[256..]);
}
