use flash_lso::sol::SolDeserializer;

fn header_bytes(name: &str, version: u8) -> Vec<u8> {
    let mut v = vec![0x00, 0xbf, 0, 0, 0, 42];
    v.extend_from_slice(&[0x54, 0x43, 0x53, 0x4f, 0x00, 0x04, 0x00, 0x00, 0x00, 0x00]);
    v.extend_from_slice(&(name.len() as u16).to_be_bytes());
    v.extend_from_slice(name.as_bytes());
    v.extend_from_slice(&[0, 0, 0, version]);
    v
}

#[test]
fn sol_header_reads() {
    let d = SolDeserializer::default();
    let bytes = header_bytes("save", 3);
    let (n, h) = d.parse_header(&bytes).unwrap();
    assert_eq!(n, bytes.len());
    assert_eq!(h.version, [0x00, 0xbf]);
    assert_eq!(h.length, 42);
    assert_eq!(h.signature, [0x54, 0x43, 0x53, 0x4f, 0x00, 0x04, 0x00, 0x00, 0x00, 0x00]);
    assert_eq!(h.name, "save");
    assert_eq!(h.format_version, 3);
}

#[test]
fn sol_header_bad_format_version() {
    let d = SolDeserializer::default();
    assert!(d.parse_header(&header_bytes("x", 2)).is_err());
    assert!(d.parse_header(&header_bytes("x", 0)).is_ok());
}

#[test]
fn sol_version_and_signature() {
    let d = SolDeserializer::default();
    assert_eq!(d.parse_version(&[0x00, 0xbf, 7]).unwrap(), (2, [0x00, 0xbf]));
    assert!(d.parse_version(&[0x00, 0xbe]).is_err());
    assert!(d.parse_version(&[0x00]).is_err());
    let sig = [0x54, 0x43, 0x53, 0x4f, 0x00, 0x04, 0x00, 0x00, 0x00, 0x00];
    assert_eq!(d.parse_signature(&sig).unwrap(), (10, sig));
    assert!(d.parse_signature(&sig[..9]).is_err());
}
