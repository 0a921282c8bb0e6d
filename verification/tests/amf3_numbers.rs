use flash_lso::amf3::read::{read_int, read_int_signed};
use flash_lso::amf3::write::AMF3Encoder;

#[test]
fn test_read_1byte_number() {
    assert_eq!(0b00101011, read_int_signed(&[0b00101011]).unwrap().1)
}

#[test]
fn test_read_4byte_number() {
    let i = &[0b10000000, 0b11000000, 0b10000000, 0b10000000];
    assert_eq!(2097280, read_int_signed(i).unwrap().1);
}

#[test]
fn read_neg_number() {
    assert_eq!(-268435455, read_int_signed(&[192, 128, 128, 1]).unwrap().1);
}

#[test]
fn test_read_1byte_number_unsigned() {
    assert_eq!(0b00101011, read_int(&[0b00101011]).unwrap().1)
}

#[test]
fn test_read_4byte_number_unsigned() {
    let i = &[0b10000000, 0b11000000, 0b10000000, 0b10000000];
    assert_eq!(2097280, read_int(i).unwrap().1);
}

#[test]
fn read_neg_number_unsigned() {
    assert_eq!(536870915, read_int(&[192, 128, 128, 1]).unwrap().1);
}

#[test]
fn test_write_1byte_number() {
    let e = AMF3Encoder::default();
    let mut v = Vec::new();
    e.write_int(&mut v, 0b00101011);
    assert_eq!(v, &[0b00101011]);
}

#[test]
fn test_write_4byte_number() {
    let e = AMF3Encoder::default();
    let mut v = Vec::new();
    e.write_int(&mut v, 2097280);
    assert_eq!(v, &[0b10000000, 0b11000000, 0b10000000, 0b10000000]);
}

#[test]
fn write_neg_number() {
    let e = AMF3Encoder::default();
    let mut v = Vec::new();
    e.write_int(&mut v, -268435455);
    assert_eq!(v, &[192, 128, 128, 1]);
}

#[test]
fn read_int_reports_bytes_consumed() {
    assert_eq!(read_int_signed(&[0b00101011, 7]).unwrap(), (1, 0b00101011));
    assert_eq!(read_int(&[0x81, 0x00, 9]).unwrap(), (2, 128));
    assert_eq!(read_int(&[0xff, 0xff, 0xff, 0xff]).unwrap(), (4, 0x3fff_ffff));
    assert_eq!(read_int_signed(&[0xff, 0xff, 0xff, 0xff]).unwrap(), (4, -1));
}

#[test]
fn read_int_of_truncated_input_fails() {
    assert!(read_int(&[]).is_err());
    assert!(read_int(&[0x80]).is_err());
    assert!(read_int_signed(&[0x80, 0x80, 0x80]).is_err());
}

#[test]
fn written_ints_read_back() {
    let e = AMF3Encoder::default();
    for i in [0i32, 1, 127, 128, 16383, 16384, 2097151, 2097152, 268435455, -1, -128, -268435456] {
        let mut v = Vec::new();
        e.write_int(&mut v, i);
        let (n, x) = read_int_signed(&v).unwrap();
        assert_eq!(n, v.len());
        assert_eq!(x, i);
    }
}

#[test]
fn write_int_lengths() {
    let e = AMF3Encoder::default();
    let lens = [(0i32, 1usize), (0x7f, 1), (0x80, 2), (0x3fff, 2), (0x4000, 3), (0x1f_ffff, 3), (0x20_0000, 4)];
    for (i, n) in lens {
        let mut v = Vec::new();
        e.write_int(&mut v, i);
        assert_eq!(v.len(), n);
    }
}
