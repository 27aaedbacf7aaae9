use mononoke::hash::NodeHash;

fn numbered(n: u8) -> NodeHash {
    let mut bytes = [0u8; 20];
    bytes[19] = n;
    NodeHash { bytes }
}

#[test]
fn hex_text_is_lower_case_and_forty_digits() {
    let mut bytes = [0u8; 20];
    for (i, b) in bytes.iter_mut().enumerate() {
        *b = (i as u8) * 13 + 1;
    }
    let hash = NodeHash { bytes };
    assert_eq!(
        hash.to_hex(),
        b"010e1b2835424f5c697683909daab7c4d1deebf8".to_vec()
    );
}

#[test]
fn hex_text_reads_back() {
    let hash = NodeHash::from_hex(b"0123456789abcdef0123456789ABCDEF01234567").unwrap();
    assert_eq!(hash.bytes[0], 0x01);
    assert_eq!(hash.bytes[7], 0xef);
    assert_eq!(hash.bytes[15], 0xef);
    assert_eq!(hash.bytes[19], 0x67);
    assert_eq!(
        hash.to_hex(),
        b"0123456789abcdef0123456789abcdef01234567".to_vec()
    );
    assert_eq!(NodeHash::from_hex(&hash.to_hex()), Some(hash));
}

#[test]
fn hex_text_of_wrong_shape_is_refused() {
    assert_eq!(NodeHash::from_hex(b""), None);
    assert_eq!(NodeHash::from_hex(b"0123"), None);
    assert_eq!(
        NodeHash::from_hex(b"0123456789abcdef0123456789abcdef0123456"),
        None
    );
    assert_eq!(
        NodeHash::from_hex(b"0123456789abcdef0123456789abcdef012345678"),
        None
    );
    assert_eq!(
        NodeHash::from_hex(b"0123456789abcdef0123456789abcdef0123456g"),
        None
    );
    assert_eq!(
        NodeHash::from_hex(b"+123456789abcdef0123456789abcdef01234567"),
        None
    );
}

#[test]
fn null_hash_is_all_zero() {
    assert!(NodeHash::null().is_null());
    assert_eq!(NodeHash::null().bytes, [0u8; 20]);
    assert!(!numbered(1).is_null());
    assert_eq!(
        NodeHash::null().to_hex(),
        b"0000000000000000000000000000000000000000".to_vec()
    );
}

#[test]
fn hashes_compare_by_their_bytes() {
    assert_eq!(numbered(3), numbered(3));
    assert_ne!(numbered(3), numbered(4));
}

#[test]
fn hash_from_bytes_needs_twenty() {
    assert_eq!(NodeHash::from_bytes(&[7u8; 20]), Some(NodeHash { bytes: [7u8; 20] }));
    assert_eq!(NodeHash::from_bytes(&[7u8; 19]), None);
    assert_eq!(NodeHash::from_bytes(&[7u8; 21]), None);
    assert_eq!(numbered(9).to_bytes(), numbered(9).bytes.to_vec());
}
