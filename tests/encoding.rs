use inventory_labels::{encode, EccLevel, EncodeError, MAX_SYMBOL_DIM, MIN_SYMBOL_DIM};

#[test]
fn encoding_is_deterministic() {
    let payload = b"http://foobar.com/container/1";
    let a = encode(payload, EccLevel::Low, 300).unwrap();
    let b = encode(payload, EccLevel::Low, 300).unwrap();
    assert_eq!(a.rows, b.rows);
    let c = encode(payload, EccLevel::High, 300).unwrap();
    let d = encode(payload, EccLevel::High, 300).unwrap();
    assert_eq!(c.rows, d.rows);
}

#[test]
fn symbol_is_square_and_bi_level() {
    let bm = encode(b"http://foobar.com/item/42", EccLevel::Low, 300).unwrap();
    assert_eq!(bm.width, 300);
    assert_eq!(bm.height, 300);
    assert_eq!(bm.rows.len(), 300);
    let mut dark = 0usize;
    for row in &bm.rows {
        assert_eq!(row.len(), 300);
        for &p in row {
            assert!(p == 0 || p == 255);
            if p == 0 {
                dark += 1;
            }
        }
    }
    // a real code, not a blank canvas
    assert!(dark > 1000);
    // the quiet zone keeps the corner light
    assert_eq!(bm.rows[0][0], 255);
}

#[test]
fn different_payloads_give_different_symbols() {
    let a = encode(b"http://foobar.com/item/1", EccLevel::Low, 300).unwrap();
    let b = encode(b"http://foobar.com/item/2", EccLevel::Low, 300).unwrap();
    assert_ne!(a.rows, b.rows);
}

#[test]
fn byte_payload_capacity_boundary() {
    let fits = vec![b'a'; 2953];
    assert!(encode(&fits, EccLevel::Low, 300).is_ok());
    let too_long = vec![b'a'; 2954];
    assert_eq!(encode(&too_long, EccLevel::Low, 300).err(), Some(EncodeError::PayloadTooLong));
    let fits_high = vec![b'a'; 1273];
    assert!(encode(&fits_high, EccLevel::High, 300).is_ok());
    let too_long_high = vec![b'a'; 1274];
    assert_eq!(encode(&too_long_high, EccLevel::High, 300).err(), Some(EncodeError::PayloadTooLong));
}

#[test]
fn digit_and_alphanumeric_capacity_boundary() {
    assert!(encode(&vec![b'7'; 7089], EccLevel::Low, 300).is_ok());
    assert_eq!(encode(&vec![b'7'; 7090], EccLevel::Low, 300).err(), Some(EncodeError::PayloadTooLong));
    assert!(encode(&vec![b'A'; 2420], EccLevel::Quartile, 300).is_ok());
    assert_eq!(encode(&vec![b'A'; 2421], EccLevel::Quartile, 300).err(), Some(EncodeError::PayloadTooLong));
    assert!(encode(&vec![b'a'; 2331], EccLevel::Medium, 300).is_ok());
    assert_eq!(encode(&vec![b'a'; 2332], EccLevel::Medium, 300).err(), Some(EncodeError::PayloadTooLong));
}

#[test]
fn dimension_out_of_range() {
    assert_eq!(encode(b"x", EccLevel::Low, MIN_SYMBOL_DIM - 1).err(), Some(EncodeError::DimensionOutOfRange));
    assert_eq!(encode(b"x", EccLevel::Low, MAX_SYMBOL_DIM + 1).err(), Some(EncodeError::DimensionOutOfRange));
    assert_eq!(encode(b"x", EccLevel::Low, 0).err(), Some(EncodeError::DimensionOutOfRange));
    let bm = encode(b"x", EccLevel::Low, MIN_SYMBOL_DIM).unwrap();
    assert_eq!(bm.width, MIN_SYMBOL_DIM);
    // the dimension check comes before the capacity check
    assert_eq!(encode(&vec![b'a'; 5000], EccLevel::Low, 10).err(), Some(EncodeError::DimensionOutOfRange));
}

#[test]
fn empty_payload_encodes() {
    assert!(encode(b"", EccLevel::High, 300).is_ok());
}
