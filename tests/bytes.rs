use routefinder::read;


#[test]
fn read_integers_little_endian() {
    let data = [1u8, 2, 3, 4, 5, 6, 7, 8, 9];
    let mut s: &[u8] = &data;
    assert_eq!(read::byte(&mut s, "e".to_string()), Ok(1));
    assert_eq!(read::u32(&mut s, "e".to_string()), Ok(0x0504_0302));
    assert_eq!(s, &[6u8, 7, 8, 9][..]);
    assert_eq!(read::u64(&mut s, "short".to_string()), Err("short".to_string()));
    assert_eq!(s, &[6u8, 7, 8, 9][..]);
    assert_eq!(read::i32(&mut s, "e".to_string()), Ok(i32::from_le_bytes([6, 7, 8, 9])));
    assert_eq!(read::byte(&mut s, "empty".to_string()), Err("empty".to_string()));
}

#[test]
fn read_u64_and_double_bits() {
    let x = 0x0102_0304_0506_0708u64;
    let bytes = x.to_le_bytes();
    let mut s: &[u8] = &bytes;
    assert_eq!(read::u64(&mut s, String::new()), Ok(x));
    assert!(s.is_empty());
    let f = 1.5f64.to_le_bytes();
    let mut s: &[u8] = &f;
    assert_eq!(read::f64_bits(&mut s, String::new()).map(f64::from_bits), Ok(1.5));
    let neg = (-2i32).to_le_bytes();
    let mut s: &[u8] = &neg;
    assert_eq!(read::i32(&mut s, String::new()), Ok(-2));
}

#[test]
fn read_bytes_takes_a_prefix() {
    let data = [9u8, 8, 7];
    let mut s: &[u8] = &data;
    assert_eq!(read::bytes(&mut s, 2, "e".to_string()), Ok(&[9u8, 8][..]));
    assert_eq!(read::bytes(&mut s, 2, "e".to_string()), Err("e".to_string()));
    assert_eq!(read::bytes(&mut s, 1, "e".to_string()), Ok(&[7u8][..]));
}

#[test]
fn write_then_read_round_trips() {
    let mut v = vec![0xAAu8];
    routefinder::write::byte(&mut v, 7);
    routefinder::write::i32(&mut v, -3);
    routefinder::write::u32(&mut v, 0xDEAD_BEEF);
    routefinder::write::u64(&mut v, u64::MAX - 1);
    routefinder::write::f64_bits(&mut v, 2.25f64.to_bits());
    routefinder::write::bytes(&mut v, b"xyz");
    assert_eq!(v.len(), 1 + 1 + 4 + 4 + 8 + 8 + 3);
    assert_eq!(&v[2..6], &(-3i32).to_le_bytes()[..]);
    let mut s: &[u8] = &v[1..];
    assert_eq!(read::byte(&mut s, String::new()), Ok(7));
    assert_eq!(read::i32(&mut s, String::new()), Ok(-3));
    assert_eq!(read::u32(&mut s, String::new()), Ok(0xDEAD_BEEF));
    assert_eq!(read::u64(&mut s, String::new()), Ok(u64::MAX - 1));
    assert_eq!(read::f64_bits(&mut s, String::new()).map(f64::from_bits), Ok(2.25));
    assert_eq!(read::bytes(&mut s, 3, String::new()), Ok(&b"xyz"[..]));
}
