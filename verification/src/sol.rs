//! The header of a SOL file, read with its raw version and signature bytes.
use vstd::prelude::*;
use crate::errors::{Error, ErrorKind};
use crate::read::{header_signature, header_version, spec_lso_header, spec_tag, tag};
use crate::types::spec_amf_version_byte;

verus! {

/// The header of a sol file
#[derive(Debug, PartialEq, Eq)]
pub struct SolHeader {
    /// The version bytes the file starts with
    pub version: [u8; 2],
    /// The length field
    pub length: u32,
    /// The signature bytes
    pub signature: [u8; 10],
    /// The name of the file's contents
    pub name: String,
    /// The format-version byte: 0 for AMF0, 3 for AMF3
    pub format_version: u8,
}

/// Reads the header of a SOL file.
pub struct SolDeserializer {}

impl Default for SolDeserializer {
    fn default() -> (r: SolDeserializer)
        ensures
            r == (SolDeserializer {}),
    {
        SolDeserializer {}
    }
}

impl SolDeserializer {
    /// Read the two version bytes at the start of `i`, giving the number of bytes read and the bytes.
    pub fn parse_version(&self, i: &[u8]) -> (r: Result<(usize, [u8; 2]), Error>)
        ensures
            match spec_tag(i@, 0, header_version()) {
                Ok(p) => r matches Ok((q, v)) && q == p && v@ == header_version(),
                Err(e) => r == Err::<(usize, [u8; 2]), Error>(e),
            },
    {
        let p = tag(i, 0, &[0x00u8, 0xbfu8])?;
        proof {
            assert(seq![0x00u8, 0xbfu8] =~= header_version());
        }
        let v: [u8; 2] = [i[0], i[1]];
        proof {
            assert(i@.subrange(0, 2) == header_version());
            assert(i@[0] == i@.subrange(0, 2)[0]);
            assert(i@[1] == i@.subrange(0, 2)[1]);
            assert(v@ =~= header_version());
        }
        Ok((p, v))
    }

    /// Read the ten signature bytes at the start of `i`, giving the number of bytes read and the bytes.
    pub fn parse_signature(&self, i: &[u8]) -> (r: Result<(usize, [u8; 10]), Error>)
        ensures
            match spec_tag(i@, 0, header_signature()) {
                Ok(p) => r matches Ok((q, v)) && q == p && v@ == header_signature(),
                Err(e) => r == Err::<(usize, [u8; 10]), Error>(e),
            },
    {
        let p = tag(i, 0, &[0x54u8, 0x43u8, 0x53u8, 0x4fu8, 0x00u8, 0x04u8, 0x00u8, 0x00u8, 0x00u8, 0x00u8])?;
        proof {
            assert(seq![0x54u8, 0x43u8, 0x53u8, 0x4fu8, 0x00u8, 0x04u8, 0x00u8, 0x00u8, 0x00u8, 0x00u8] =~= header_signature());
        }
        let v: [u8; 10] = [0x54u8, 0x43u8, 0x53u8, 0x4fu8, 0x00u8, 0x04u8, 0x00u8, 0x00u8, 0x00u8, 0x00u8];
        proof {
            assert(v@ =~= header_signature());
        }
        Ok((p, v))
    }

    /// Read a SOL header at the start of `i`, giving the number of bytes read and the header.
    pub fn parse_header(&self, i: &[u8]) -> (r: Result<(usize, SolHeader), Error>)
        ensures
            match spec_lso_header(i@, 0) {
                Ok((p, h)) => r matches Ok((q, x)) && q == p && x.version@ == header_version()
                    && x.length == h.length && x.signature@ == header_signature() && x.name@ == h.name
                    && x.format_version == spec_amf_version_byte(h.format_version),
                Err(e) => r == Err::<(usize, SolHeader), Error>(e),
            },
    {
        let (p1, version) = self.parse_version(i)?;
        let (p2, length) = crate::bytes::read_u32(i, p1)?;
        let p3 = tag(i, p2, &[0x54u8, 0x43u8, 0x53u8, 0x4fu8, 0x00u8, 0x04u8, 0x00u8, 0x00u8, 0x00u8, 0x00u8])?;
        let signature: [u8; 10] = [0x54u8, 0x43u8, 0x53u8, 0x4fu8, 0x00u8, 0x04u8, 0x00u8, 0x00u8, 0x00u8, 0x00u8];
        proof {
            assert(seq![0x54u8, 0x43u8, 0x53u8, 0x4fu8, 0x00u8, 0x04u8, 0x00u8, 0x00u8, 0x00u8, 0x00u8] =~= header_signature());
            assert(signature@ =~= header_signature());
        }
        let (p4, name) = crate::amf0::read::parse_string(i, p3)?;
        let p5 = tag(i, p4, &[0u8, 0u8, 0u8])?;
        proof {
            assert(seq![0u8, 0u8, 0u8] =~= crate::read::header_padding());
        }
        if p5 >= i.len() {
            return Err(Error::Nom(p5, ErrorKind::Tag));
        }
        let format_version = i[p5];
        if format_version != 0 && format_version != 3 {
            return Err(Error::Nom(p5, ErrorKind::Tag));
        }
        Ok((p5 + 1, SolHeader { version, length, signature, name, format_version }))
    }
}

} // verus!
