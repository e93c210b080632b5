use megaphone::feature::{Feature, CHAN_CHUNKED_STREAM};

#[test]
fn test_features() {
    let source = Feature::new(CHAN_CHUNKED_STREAM);
    let encoded = source.serialize();
    let decoded = Feature::deserialize(&encoded).expect("Cannot deserialize");
    println!("Encoded: {}", encoded);
    assert_eq!(source.0, decoded.0);
}

#[test]
fn feature_bytes_strip_leading_zeros() {
    assert_eq!(Feature::new(0x0001_0203).bytes(), vec![1u8, 2, 3]);
    assert_eq!(Feature::new(0).bytes(), Vec::<u8>::new());
    assert_eq!(Feature::new(0xff00_0000).bytes(), vec![0xffu8, 0, 0, 0]);
}

#[test]
fn feature_from_bytes_pads_left() {
    assert_eq!(Feature::from_bytes(&[1, 2]).map(|f| f.0), Some(0x0102));
    assert!(Feature::from_bytes(&[1, 2, 3, 4, 5]).is_none());
    assert_eq!(Feature::from_bytes(&[]).map(|f| f.0), Some(0));
}

#[test]
fn feature_serialize_trims_zeros() {
    assert_eq!(Feature::new(1).serialize(), "1");
    assert_eq!(Feature::new(0x1a2b).serialize(), "1a2b");
    assert_eq!(Feature::new(0).serialize(), "");
}

#[test]
fn feature_deserialize_accepts_padding_and_rejects_garbage() {
    assert_eq!(Feature::deserialize("1").map(|f| f.0), Some(1));
    assert_eq!(Feature::deserialize("00001A2B").map(|f| f.0), Some(0x1a2b));
    assert!(Feature::deserialize("xyz").is_none());
    assert!(Feature::deserialize("123456789").is_none());
}

#[test]
fn feature_set_unset_has() {
    let mut f = Feature::new(0);
    f.set(4);
    assert!(f.has(4));
    assert!(!f.has(1));
    f.unset(4);
    assert!(!f.has(4));
}

#[test]
fn feature_bytes_round_trip() {
    for v in [0u32, 1, 0x80, 0x0100, 0xdead_beef, u32::MAX] {
        let f = Feature::new(v);
        assert_eq!(Feature::from_bytes(&f.bytes()).map(|g| g.0), Some(v));
    }
}
