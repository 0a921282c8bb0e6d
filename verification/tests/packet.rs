use flash_lso::errors::Error;
use flash_lso::packet::read::{parse, parse_incomplete};
use flash_lso::packet::write::write_to_bytes;
use flash_lso::packet::{Header, Message, Packet};
use flash_lso::types::{AMFVersion, Value};

fn sample() -> Packet {
    Packet {
        version: AMFVersion::AMF3,
        headers: vec![Header {
            name: "h".to_string(),
            must_understand: true,
            value: Value::Bool(true),
        }],
        messages: vec![Message {
            target_uri: "t".to_string(),
            response_uri: "/1".to_string(),
            contents: Value::String("x".to_string()),
        }],
    }
}

#[test]
fn packet_bytes() {
    let bytes = write_to_bytes(&sample(), true).unwrap();
    assert_eq!(
        bytes,
        vec![
            0, 3, 0, 1, 0, 1, b'h', 1, 0, 0, 0, 2, 0x01, 0x01, 0, 1, 0, 1, b't', 0, 2, b'/', b'1', 0, 0, 0, 4, 0x02,
            0, 1, b'x',
        ]
    );
    let loose = write_to_bytes(&sample(), false).unwrap();
    assert_eq!(&loose[8..12], &[0xff, 0xff, 0xff, 0xff]);
}

#[test]
fn packet_reads_back() {
    for exact in [true, false] {
        let bytes = write_to_bytes(&sample(), exact).unwrap();
        let p = parse(&bytes).unwrap();
        assert!(matches!(p.version, AMFVersion::AMF3));
        assert_eq!(p.headers.len(), 1);
        assert_eq!(p.headers[0].name, "h");
        assert!(p.headers[0].must_understand);
        assert!(matches!(p.headers[0].value, Value::Bool(true)));
        assert_eq!(p.messages.len(), 1);
        assert_eq!(p.messages[0].target_uri, "t");
        assert_eq!(p.messages[0].response_uri, "/1");
        assert!(matches!(&p.messages[0].contents, Value::String(s) if s == "x"));
    }
}

#[test]
fn packet_with_long_name_is_too_large() {
    let mut p = sample();
    p.headers[0].name = "a".repeat(65536);
    assert_eq!(write_to_bytes(&p, true).unwrap_err(), Error::PacketTooLarge);
    let mut p = sample();
    p.messages[0].response_uri = "a".repeat(70000);
    assert_eq!(write_to_bytes(&p, false).unwrap_err(), Error::PacketTooLarge);
}

#[test]
fn packet_trailing_bytes() {
    let mut bytes = write_to_bytes(&sample(), true).unwrap();
    let n = bytes.len();
    bytes.push(9);
    let (q, _) = parse_incomplete(&bytes).unwrap();
    assert_eq!(q, n);
    assert!(parse(&bytes).is_err());
}

#[test]
fn packet_bad_version_is_refused() {
    assert!(parse(&[0, 1, 0, 0, 0, 0]).is_err());
    assert!(parse(&[1, 0, 0, 0, 0, 0]).is_err());
    let p = parse(&[0, 0, 0, 0, 0, 0]).unwrap();
    assert!(matches!(p.version, AMFVersion::AMF0));
    assert_eq!(p.headers.len(), 0);
    assert_eq!(p.messages.len(), 0);
}
