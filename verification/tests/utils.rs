use block_header::utils::{extend_vec, Encodable};

#[test]
fn test_encode_ints() {
    let mut v = vec![];
    let number = 0xff0fu16;
    number.serialize(&mut v);
    assert_eq!(v, vec![0xff, 0x0f]);

    v = vec![];
    let number = 0x0f0fff00u32;
    number.serialize(&mut v);
    assert_eq!(v, vec![0x0f, 0x0f, 0xff, 0x00]);

    v = vec![];
    let number = 0xff00ff00ff00ff00u64;
    number.serialize(&mut v);
    assert_eq!(v, vec![0xff, 0x00, 0xff, 0x00, 0xff, 0x00, 0xff, 0x00]);
}

#[test]
fn test_encode_arrays() {
    let mut v = vec![];
    let numbers = [0xcc, 0xaa];
    numbers.serialize(&mut v);
    assert_eq!(v, vec![0xcc, 0xaa]);
}

#[test]
fn test_encode_mixedup() {
    let mut v = vec![];
    let numbers = [0xcc, 0xaa];
    let number = 0xeeddu16;
    number.serialize(&mut v);
    numbers.serialize(&mut v);
    assert_eq!(v, vec![0xee, 0xdd, 0xcc, 0xaa]);
}

#[test]
fn test_encode_zero_and_max() {
    let mut v = vec![];
    0u16.serialize(&mut v);
    0u32.serialize(&mut v);
    0u64.serialize(&mut v);
    assert_eq!(v, vec![0u8; 14]);

    let mut v = vec![];
    u16::MAX.serialize(&mut v);
    u32::MAX.serialize(&mut v);
    u64::MAX.serialize(&mut v);
    assert_eq!(v, vec![0xffu8; 14]);
}

#[test]
fn test_encode_appends_after_existing_contents() {
    let mut v = vec![0x01u8, 0x02];
    0xeeddu16.serialize(&mut v);
    assert_eq!(v, vec![0x01, 0x02, 0xee, 0xdd]);
}

#[test]
fn test_encode_large_array_is_identity() {
    let mut v = vec![];
    let mut a = [0u8; 32];
    for (i, b) in a.iter_mut().enumerate() {
        *b = i as u8;
    }
    a.serialize(&mut v);
    assert_eq!(v.len(), 32);
    for (i, b) in v.iter().enumerate() {
        assert_eq!(*b, i as u8);
    }
}

#[test]
fn test_extend_vec() {
    let mut v = vec![0xaau8, 0xbb];
    let new_len = extend_vec(&mut v, 3);
    assert_eq!(new_len, 5);
    assert_eq!(v, vec![0xaa, 0xbb, 0x00, 0x00, 0x00]);

    let mut empty = vec![];
    assert_eq!(extend_vec(&mut empty, 0), 0);
    assert_eq!(empty, Vec::<u8>::new());
}
