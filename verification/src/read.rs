//! Reading of LSO files.
use vstd::prelude::*;
use crate::bytes::u32_at;
use crate::errors::{Error, ErrorKind, nom_err};
use crate::types::{AMFVersion, ElementV, Header, Lso, elements_view, spec_amf_version};
use crate::amf0::read::{AMF0Decoder, Amf0State, spec_amf0_body, spec_amf0_string};
use crate::amf3::read::{AMF3Decoder, Amf3State, spec_body};

verus! {

/// The bytes every LSO file starts with.
pub open spec fn header_version() -> Seq<u8> {
    seq![0x00u8, 0xbfu8]
}

/// The signature that follows the length in an LSO header.
pub open spec fn header_signature() -> Seq<u8> {
    seq![0x54u8, 0x43u8, 0x53u8, 0x4fu8, 0x00u8, 0x04u8, 0x00u8, 0x00u8, 0x00u8, 0x00u8]
}

/// The padding after the name in an LSO header.
pub open spec fn header_padding() -> Seq<u8> {
    seq![0x00u8, 0x00u8, 0x00u8]
}

/// Matching the bytes `t` at `p`.
pub open spec fn spec_tag(s: Seq<u8>, p: int, t: Seq<u8>) -> Result<int, Error> {
    if 0 <= p && p + t.len() <= s.len() && s.subrange(p, p + t.len()) == t {
        Ok(p + t.len())
    } else {
        Err(nom_err(p, ErrorKind::Tag))
    }
}

/// The contents of an LSO header.
pub struct HeaderV {
    /// The length field
    pub length: u32,
    /// The name
    pub name: Seq<char>,
    /// The AMF version of the body
    pub format_version: AMFVersion,
}

/// The contents of a header.
pub open spec fn header_view(h: Header) -> HeaderV {
    HeaderV { length: h.length, name: h.name@, format_version: h.format_version }
}

/// Reading an LSO header at `p`: the version bytes, a big-endian length, the signature, the
/// name, three padding bytes, and the AMF version byte (0 or 3).
pub open spec fn spec_lso_header(s: Seq<u8>, p: int) -> Result<(int, HeaderV), Error> {
    match spec_tag(s, p, header_version()) {
        Err(e) => Err(e),
        Ok(p1) => if p1 + 4 > s.len() {
            Err(nom_err(p1, ErrorKind::Eof))
        } else {
            match spec_tag(s, p1 + 4, header_signature()) {
                Err(e) => Err(e),
                Ok(p3) => match spec_amf0_string(s, p3) {
                    Err(e) => Err(e),
                    Ok((p4, name)) => match spec_tag(s, p4, header_padding()) {
                        Err(e) => Err(e),
                        Ok(p5) => if p5 < s.len() && spec_amf_version(s[p5]) is Some {
                            Ok((p5 + 1, HeaderV {
                                length: u32_at(s, p1),
                                name,
                                format_version: spec_amf_version(s[p5])->0,
                            }))
                        } else {
                            Err(nom_err(p5, ErrorKind::Tag))
                        },
                    },
                },
            }
        },
    }
}

/// Reading an LSO whose decoders start in the states `st0` and `st3`: the header, then a body
/// in the AMF version the header gives. Gives the position after the body, the header and
/// the elements.
pub open spec fn spec_lso(st0: Amf0State, st3: Amf3State, s: Seq<u8>) -> Result<(int, HeaderV, Seq<ElementV>), Error> {
    match spec_lso_header(s, 0) {
        Err(e) => Err(e),
        Ok((p, h)) => match h.format_version {
            AMFVersion::AMF0 => {
                let (q, els) = spec_amf0_body(st0, s, p);
                Ok((q, h, els))
            },
            AMFVersion::AMF3 => match spec_body(st3, s, p) {
                Ok((q, els)) => Ok((q, h, els)),
                Err(e) => Err(e),
            },
        },
    }
}

/// Match the bytes `t` at `pos`.
pub(crate) fn tag(s: &[u8], pos: usize, t: &[u8]) -> (r: Result<usize, Error>)
    ensures
        match spec_tag(s@, pos as int, t@) {
            Ok(e) => r == Ok::<usize, Error>(e as usize),
            Err(e) => r == Err::<usize, Error>(e),
        },
{
    if pos > s.len() || s.len() - pos < t.len() {
        return Err(Error::Nom(pos, ErrorKind::Tag));
    }
    let mut i: usize = 0;
    while i < t.len()
        invariant
            i <= t@.len(),
            pos + t@.len() <= s@.len(),
            s@.len() <= usize::MAX,
            forall|j: int| 0 <= j < i ==> s@[pos + j] == t@[j],
        decreases t.len() - i,
    {
        if s[pos + i] != t[i] {
            assert(s@.subrange(pos as int, pos + t@.len())[i as int] != t@[i as int]);
            return Err(Error::Nom(pos, ErrorKind::Tag));
        }
        i += 1;
    }
    assert(s@.subrange(pos as int, pos + t@.len()) =~= t@);
    Ok(pos + t.len())
}

/// The main entry point of decoding a LSO file
pub struct Reader {
    /// Handles reading Amf3 data
    pub amf3_decoder: AMF3Decoder,
    /// Handles reading Amf0 data
    pub amf0_decoder: AMF0Decoder,
}

impl Reader {
    /// A reader with fresh decoders.
    pub fn new() -> (r: Reader)
        ensures
            r.amf0_decoder.state().cache.len() == 0,
            r.amf0_decoder.state().amf3 == AMF3Decoder::new_state(),
            r.amf3_decoder.state() == AMF3Decoder::new_state(),
    {
        Reader { amf3_decoder: AMF3Decoder::new(), amf0_decoder: AMF0Decoder::new() }
    }

    /// Read an LSO header at the start of `i`, giving the number of bytes read and the header.
    pub fn parse_header(&self, i: &[u8]) -> (r: Result<(usize, Header), Error>)
        ensures
            match spec_lso_header(i@, 0) {
                Ok((p, h)) => r matches Ok((q, x)) && q == p && header_view(x) == h,
                Err(e) => r == Err::<(usize, Header), Error>(e),
            },
    {
        let p1 = tag(i, 0, &[0x00u8, 0xbfu8])?;
        proof {
            assert(seq![0x00u8, 0xbfu8] =~= header_version());
        }
        let (p2, length) = crate::bytes::read_u32(i, p1)?;
        let p3 = tag(i, p2, &[0x54u8, 0x43u8, 0x53u8, 0x4fu8, 0x00u8, 0x04u8, 0x00u8, 0x00u8, 0x00u8, 0x00u8])?;
        proof {
            assert(seq![0x54u8, 0x43u8, 0x53u8, 0x4fu8, 0x00u8, 0x04u8, 0x00u8, 0x00u8, 0x00u8, 0x00u8] =~= header_signature());
        }
        let (p4, name) = crate::amf0::read::parse_string(i, p3)?;
        let p5 = tag(i, p4, &[0u8, 0u8, 0u8])?;
        proof {
            assert(seq![0u8, 0u8, 0u8] =~= header_padding());
        }
        if p5 >= i.len() {
            return Err(Error::Nom(p5, ErrorKind::Tag));
        }
        match AMFVersion::try_from_u8(i[p5]) {
            Ok(format_version) => Ok((p5 + 1, Header { length, name, format_version })),
            Err(_) => Err(Error::Nom(p5, ErrorKind::Tag)),
        }
    }

    /// Read an LSO at the start of `i`, giving the number of bytes read and the LSO; bytes
    /// after the body are left unread.
    pub fn parse_incomplete(&mut self, i: &[u8]) -> (r: Result<(usize, Lso), Error>)
        ensures
            match spec_lso(old(self).amf0_decoder.state(), old(self).amf3_decoder.state(), i@) {
                Ok((p, h, els)) => r matches Ok((q, x)) && q == p && header_view(x.header) == h
                    && elements_view(x.body@) == els,
                Err(e) => r == Err::<(usize, Lso), Error>(e),
            },
    {
        let (p, header) = self.parse_header(i)?;
        match header.format_version {
            AMFVersion::AMF0 => {
                let (q, body) = self.amf0_decoder.parse_body_at(i, p);
                Ok((q, Lso { header, body }))
            },
            AMFVersion::AMF3 => {
                let (q, body) = self.amf3_decoder.parse_body_at(i, p)?;
                Ok((q, Lso { header, body }))
            },
        }
    }

    /// Read a given slice as an Lso; bytes left after the body are an error at their position.
    pub fn parse(&mut self, i: &[u8]) -> (r: Result<Lso, Error>)
        ensures
            match spec_lso(old(self).amf0_decoder.state(), old(self).amf3_decoder.state(), i@) {
                Ok((p, h, els)) => if p == i@.len() {
                    r matches Ok(x) && header_view(x.header) == h && elements_view(x.body@) == els
                } else {
                    r == Err::<Lso, Error>(nom_err(p, ErrorKind::Eof))
                },
                Err(e) => r == Err::<Lso, Error>(e),
            },
    {
        let (q, lso) = self.parse_incomplete(i)?;
        if q != i.len() {
            return Err(Error::Nom(q, ErrorKind::Eof));
        }
        Ok(lso)
    }
}

impl Default for Reader {
    fn default() -> (r: Reader)
        ensures
            r.amf0_decoder.state().cache.len() == 0,
            r.amf0_decoder.state().amf3 == AMF3Decoder::new_state(),
            r.amf3_decoder.state() == AMF3Decoder::new_state(),
    {
        Reader::new()
    }
}

} // verus!
