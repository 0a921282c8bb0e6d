use flash_lso::amf0::read::{parse_string, AMF0Decoder};
use flash_lso::amf3::read::AMF3Decoder;
use flash_lso::errors::{Error, ErrorKind};
use flash_lso::read::Reader;
use flash_lso::types::Value;

#[test]
fn amf0_string_utf8() {
    assert_eq!(parse_string(&[0, 2, b'h', b'i'], 0).unwrap(), (4, "hi".to_string()));
    assert_eq!(parse_string(&[0, 2, 0xc3, 0xa9], 0).unwrap(), (4, "\u{e9}".to_string()));
    assert_eq!(parse_string(&[0, 2, 0xff, 0xfe], 0), Err(Error::Nom(2, ErrorKind::MapRes)));
    assert_eq!(parse_string(&[0, 3, b'a'], 0), Err(Error::Nom(2, ErrorKind::Eof)));
    assert_eq!(parse_string(&[0], 0), Err(Error::Nom(0, ErrorKind::Eof)));
}

#[test]
fn amf0_unsupported_marker() {
    let mut d = AMF0Decoder::default();
    assert_eq!(d.parse_single_element(&[0x04]).unwrap_err(), Error::UnsupportedType(0x04));
    assert_eq!(d.parse_single_element(&[0x0e]).unwrap_err(), Error::UnsupportedType(0x0e));
    let (n, v) = d.parse_single_element(&[0x30]).unwrap();
    assert_eq!(n, 1);
    assert!(matches!(v, Value::Unsupported));
}

#[test]
fn amf0_values() {
    let mut d = AMF0Decoder::default();
    let (n, v) = d.parse_single_element(&[0x00, 0x3f, 0xf0, 0, 0, 0, 0, 0, 0]).unwrap();
    assert_eq!(n, 9);
    assert!(matches!(v, Value::Number(x) if x == 1.0f64.to_bits()));
    let (n, v) = d.parse_single_element(&[0x07, 0x00, 0x02]).unwrap();
    assert_eq!(n, 3);
    assert!(matches!(v, Value::Reference(r) if r.0 == 2));
    let (n, v) = d.parse_single_element(&[0x03, 0, 1, b'k', 0x01, 0x01, 0, 0, 0x09]).unwrap();
    assert_eq!(n, 9);
    if let Value::Object { data, .. } = v {
        assert_eq!(data.elements.len(), 1);
        assert_eq!(data.elements[0].name, "k");
        assert!(matches!(data.elements[0].value, Value::Bool(true)));
    } else {
        panic!("not an object");
    }
}

#[test]
fn amf3_unsupported_marker() {
    let mut d = AMF3Decoder::default();
    assert_eq!(d.parse_single_element(&[0x20]).unwrap_err(), Error::UnsupportedType(0x20));
}

#[test]
fn amf3_string_reference() {
    let mut d = AMF3Decoder::default();
    let bytes = [0x06, 0x05, b'a', b'b', 0x06, 0x00];
    let (n, v) = d.parse_value_at(&bytes, 0).unwrap();
    assert_eq!(n, 4);
    assert!(matches!(&v, Value::String(s) if s == "ab"));
    let (n, v) = d.parse_value_at(&bytes, 4).unwrap();
    assert_eq!(n, 6);
    assert!(matches!(&v, Value::String(s) if s == "ab"));
}

#[test]
fn amf3_string_reference_out_of_table() {
    let mut d = AMF3Decoder::default();
    assert_eq!(d.parse_single_element(&[0x06, 0x02]).unwrap_err(), Error::Nom(2, ErrorKind::Digit));
}

#[test]
fn amf3_byte_array_and_vectors() {
    let mut d = AMF3Decoder::default();
    let (n, v) = d.parse_single_element(&[0x0c, 0x05, 7, 8]).unwrap();
    assert_eq!(n, 4);
    assert!(matches!(&v, Value::ByteArray(b) if b == &vec![7u8, 8]));
    let (_, v) = d.parse_single_element(&[0x0d, 0x03, 0x01, 0xff, 0xff, 0xff, 0xfe]).unwrap();
    if let Value::VectorInt(x) = v {
        assert_eq!(x.values, vec![-2]);
        assert!(x.fixed_length);
    } else {
        panic!("not a vector");
    }
}

#[test]
fn flex_flag_with_next_bit_asks_for_another_flag_byte() {
    let mut d = AMF3Decoder::default();
    flash_lso::extra::flex::read::register_decoders(&mut d);
    let name = b"flex.messaging.io.AbstractMessage";
    let mut bytes = vec![0x0a, 0x07, ((name.len() << 1) | 1) as u8];
    bytes.extend_from_slice(name);
    bytes.push(0x80);
    let end = bytes.len();
    assert_eq!(d.parse_single_element(&bytes).unwrap_err(), Error::Nom(end, ErrorKind::Eof));
}

#[test]
fn lso_with_bad_signature_is_refused() {
    let bytes = [0x00, 0xbf, 0, 0, 0, 0, 0x54, 0x43, 0x53, 0x4f, 0x00, 0x04, 0x00, 0x00, 0x00, 0x01];
    assert_eq!(Reader::new().parse(&bytes).unwrap_err(), Error::Nom(6, ErrorKind::Tag));
    assert_eq!(Reader::new().parse(&[0x00, 0xbe]).unwrap_err(), Error::Nom(0, ErrorKind::Tag));
}
