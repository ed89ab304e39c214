use block_header::block::Block;

fn sample_block() -> Block {
    Block {
        version: [0x0, 0x1],
        index: 0,
        timestamp: 0xffff0000,
        hash_prev_block: [0x00; 32],
        hash_merkle_root: [0x00; 32],
        nonce: 0xff00ff00,
    }
}

#[test]
fn test_block_hash() {
    let block = sample_block();
    assert_eq!(
        block.hash(),
        [
            250, 161, 123, 5, 162, 47, 106, 22, 13, 158, 237, 200, 140, 194, 223, 211, 32, 38,
            164, 184, 245, 49, 129, 177, 120, 228, 175, 86, 147, 39, 176, 156
        ]
    );
}

#[test]
fn test_to_bytes_layout() {
    let block = Block {
        version: [0xab, 0xcd],
        index: 0x01020304,
        timestamp: 0x1112131415161718,
        hash_prev_block: [0x55; 32],
        hash_merkle_root: [0x66; 32],
        nonce: 0x2122232425262728,
    };
    let bytes = block.to_bytes();
    assert_eq!(bytes.len(), 86);
    assert_eq!(&bytes[0..2], &[0xab, 0xcd]);
    assert_eq!(&bytes[2..6], &[0x01, 0x02, 0x03, 0x04]);
    assert_eq!(
        &bytes[6..14],
        &[0x11, 0x12, 0x13, 0x14, 0x15, 0x16, 0x17, 0x18]
    );
    assert_eq!(&bytes[14..46], &[0x55; 32][..]);
    assert_eq!(&bytes[46..78], &[0x66; 32][..]);
    assert_eq!(
        &bytes[78..86],
        &[0x21, 0x22, 0x23, 0x24, 0x25, 0x26, 0x27, 0x28]
    );
}

#[test]
fn test_to_bytes_len_does_not_depend_on_contents() {
    assert_eq!(sample_block().to_bytes().len(), 86);
    let extreme = Block {
        version: [0xff, 0xff],
        index: u32::MAX,
        timestamp: u64::MAX,
        hash_prev_block: [0xff; 32],
        hash_merkle_root: [0xff; 32],
        nonce: u64::MAX,
    };
    assert_eq!(extreme.to_bytes().len(), 86);
}

#[test]
fn test_hash_deterministic() {
    let a = sample_block();
    let b = sample_block();
    assert_eq!(a.to_bytes(), a.to_bytes());
    assert_eq!(a.hash(), a.hash());
    assert_eq!(a.to_bytes(), b.to_bytes());
    assert_eq!(a.hash(), b.hash());
}

#[test]
fn test_swapping_hash_fields_changes_bytes() {
    let mut a = sample_block();
    a.hash_prev_block = [0x11; 32];
    a.hash_merkle_root = [0x22; 32];
    let b = Block {
        hash_prev_block: a.hash_merkle_root,
        hash_merkle_root: a.hash_prev_block,
        ..sample_block()
    };
    assert_ne!(a.to_bytes(), b.to_bytes());
}

#[test]
fn test_swapping_time_and_nonce_changes_bytes() {
    let a = sample_block();
    let b = Block {
        timestamp: a.nonce,
        nonce: a.timestamp,
        ..sample_block()
    };
    assert_ne!(a.to_bytes(), b.to_bytes());
}

#[test]
fn test_hash_is_not_the_input_bytes() {
    let block = sample_block();
    let digest = block.hash();
    let bytes = block.to_bytes();
    assert_eq!(digest.len(), 32);
    assert_ne!(&digest[..], &bytes[0..32]);
}
