use ojn_charts::bytes::{i16_at, i32_at, u32_at};

#[test]
fn i16_is_read_low_byte_first() {
    assert_eq!(i16_at(&[0x34, 0x12], 0), 0x1234);
    assert_eq!(i16_at(&[0x00, 0x01, 0x02], 1), 0x0201);
}

#[test]
fn i16_reads_twos_complement() {
    assert_eq!(i16_at(&[0xff, 0xff], 0), -1);
    assert_eq!(i16_at(&[0x00, 0x80], 0), i16::MIN);
    assert_eq!(i16_at(&[0xff, 0x7f], 0), i16::MAX);
    assert_eq!(i16_at(&[0xfe, 0xff], 0), -2);
}

#[test]
fn i32_is_read_low_byte_first() {
    assert_eq!(i32_at(&[0x78, 0x56, 0x34, 0x12], 0), 0x1234_5678);
    assert_eq!(i32_at(&[0, 0x2c, 0x01, 0, 0], 1), 300);
}

#[test]
fn i32_reads_twos_complement() {
    assert_eq!(i32_at(&[0xff, 0xff, 0xff, 0xff], 0), -1);
    assert_eq!(i32_at(&[0x00, 0x00, 0x00, 0x80], 0), i32::MIN);
    assert_eq!(i32_at(&[0xff, 0xff, 0xff, 0x7f], 0), i32::MAX);
}

#[test]
fn u32_is_read_low_byte_first() {
    assert_eq!(u32_at(&[0x78, 0x56, 0x34, 0x12], 0), 0x1234_5678);
    assert_eq!(u32_at(&[0xff, 0xff, 0xff, 0xff], 0), u32::MAX);
    assert_eq!(u32_at(&[0x00, 0x00, 0x00, 0x80], 0), 0x8000_0000);
}

#[test]
fn readers_agree_with_std_on_every_16_bit_value() {
    let mut v = i16::MIN;
    loop {
        assert_eq!(i16_at(&v.to_le_bytes(), 0), v);
        if v == i16::MAX {
            break;
        }
        v += 1;
    }
}

#[test]
fn readers_agree_with_std_on_32_bit_samples() {
    for v in [0, 1, -1, 255, 256, -256, 65_535, 65_536, 1 << 24, i32::MAX, i32::MIN, -123_456_789] {
        assert_eq!(i32_at(&v.to_le_bytes(), 0), v);
        assert_eq!(u32_at(&(v as u32).to_le_bytes(), 0), v as u32);
    }
}

#[test]
fn readers_read_at_the_place_asked() {
    let data = [0x01, 0x02, 0x03, 0x04, 0x05];
    assert_eq!(i16_at(&data, 3), 0x0504);
    assert_eq!(i32_at(&data, 1), 0x0504_0302);
    assert_eq!(u32_at(&data, 0), 0x0403_0201);
}
