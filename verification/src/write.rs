//! Writing of LSO files.
use vstd::prelude::*;
use crate::bytes::{be32, push_u8, push_u32, push_all, str_bytes, str_len};
use crate::errors::{EncodeError, Error};
use crate::types::{AMFVersion, Header, Lso, elements_view, spec_amf_version_byte};
use crate::read::{HeaderV, header_padding, header_signature, header_version, header_view};
use crate::amf0::write::{enc0_body, enc0_string, write_string, lemma_wrote0};
use crate::amf3::write::{AMF3Encoder, Amf3EncState, enc_body, lemma_wrote};

verus! {

/// The bytes of an LSO header.
pub open spec fn spec_header_bytes(h: HeaderV) -> Seq<u8> {
    header_version() + be32(h.length) + header_signature() + enc0_string(h.name) + header_padding()
        + seq![spec_amf_version_byte(h.format_version)]
}

/// The serialized length of a header named `name`, without the length field and the version
/// bytes.
pub open spec fn spec_header_length(name: Seq<char>) -> int {
    10 + (2 + str_bytes(name).len() as int + 3 + 1)
}

/// The length field written for a body of `n` bytes and a header named `name`: both cut to 32
/// bits and added with wrap-around.
pub open spec fn spec_lso_length(n: int, name: Seq<char>) -> u32 {
    ((n % 0x1_0000_0000) as u32).wrapping_add((spec_header_length(name) % 0x1_0000_0000) as u32)
}

/// The body bytes of an LSO: the AMF0 body, or the AMF3 body from encoder state `st`, with the
/// encoder state after it.
pub open spec fn spec_lso_body(st: Amf3EncState, v: AMFVersion, els: Seq<crate::types::ElementV>) -> Result<(Amf3EncState, Seq<u8>), EncodeError> {
    match v {
        AMFVersion::AMF0 => match enc0_body(els) {
            Ok(b) => Ok((st, b)),
            Err(e) => Err(e),
        },
        AMFVersion::AMF3 => enc_body(st, els),
    }
}

/// Get the serialized length of the header in bytes, this does not include the size of the header length field or the lso version marker
pub fn header_length(header: &Header) -> (r: usize)
    requires
        str_bytes(header.name@).len() + 16 <= usize::MAX,
    ensures
        r == spec_header_length(header.name@),
{
    10 + (2 + str_len(header.name.as_str()) + 3 + 1)
}

/// Write an LSO header.
fn write_header(out: &mut Vec<u8>, header: &Header)
    ensures
        final(out)@ == old(out)@ + spec_header_bytes(header_view(*header)),
{
    let ghost o = old(out)@;
    push_u8(out, 0x00);
    push_u8(out, 0xbf);
    push_u32(out, header.length);
    push_all(out, &[0x54u8, 0x43u8, 0x53u8, 0x4fu8, 0x00u8, 0x04u8, 0x00u8, 0x00u8, 0x00u8, 0x00u8]);
    write_string(out, header.name.as_str());
    push_u8(out, 0);
    push_u8(out, 0);
    push_u8(out, 0);
    push_u8(out, header.format_version.to_u8());
    assert(out@ =~= o + spec_header_bytes(header_view(*header)));
}

/// Handles writing a given LSO
pub struct Writer {
    /// The encoder used for writing AMF3 bodies
    pub amf3_encoder: AMF3Encoder,
}

impl Writer {
    /// A writer with a fresh AMF3 encoder.
    pub fn new() -> (r: Writer)
        ensures
            r.amf3_encoder.state() == AMF3Encoder::new_state(),
    {
        Writer { amf3_encoder: AMF3Encoder::new() }
    }

    /// Write a given LSO: its length field is set from the body written, then the header and
    /// the body are appended to `out`.
    pub fn write_full(&mut self, out: &mut Vec<u8>, lso: &mut Lso) -> (r: Result<(), EncodeError>)
        requires
            str_bytes(old(lso).header.name@).len() + 16 <= usize::MAX,
        ensures
            match spec_lso_body(old(self).amf3_encoder.state(), old(lso).header.format_version, elements_view(old(lso).body@)) {
                Ok((st, b)) => r is Ok && final(self).amf3_encoder.state() == st
                    && final(lso).header.length == spec_lso_length(b.len() as int, old(lso).header.name@)
                    && final(lso).header.name == old(lso).header.name
                    && final(lso).header.format_version == old(lso).header.format_version
                    && final(lso).body == old(lso).body
                    && final(out)@ == old(out)@ + spec_header_bytes(header_view(final(lso).header)) + b,
                Err(e) => r == Err::<(), EncodeError>(e),
            },
    {
        let mut buffer: Vec<u8> = Vec::new();
        let ghost st0 = self.amf3_encoder.state();
        let ghost els = elements_view(lso.body@);
        match lso.header.format_version {
            AMFVersion::AMF0 => {
                let rr = crate::amf0::write::write_body(&mut buffer, &lso.body);
                proof {
                    lemma_wrote0(rr, enc0_body(els), buffer@, Seq::empty());
                }
                if let Err(e) = rr {
                    return Err(e);
                }
            },
            AMFVersion::AMF3 => {
                let rr = self.amf3_encoder.write_body(&mut buffer, &lso.body);
                proof {
                    lemma_wrote(rr, enc_body(st0, els), self.amf3_encoder.state(), buffer@, Seq::empty());
                }
                if let Err(e) = rr {
                    return Err(e);
                }
            },
        }
        proof {
            assert(buffer@ =~= Seq::<u8>::empty() + buffer@);
        }
        let size = buffer.len();
        let hl = header_length(&lso.header);
        lso.header.length = ((size as u64 % 0x1_0000_0000) as u32).wrapping_add((hl as u64 % 0x1_0000_0000) as u32);
        write_header(out, &lso.header);
        push_all(out, buffer.as_slice());
        Ok(())
    }
}

impl Default for Writer {
    fn default() -> (r: Writer)
        ensures
            r.amf3_encoder.state() == AMF3Encoder::new_state(),
    {
        Writer::new()
    }
}

/// Write a LSO to a vec of bytes
pub fn write_to_bytes(lso: &mut Lso) -> (r: Result<Vec<u8>, Error>)
    requires
        str_bytes(old(lso).header.name@).len() + 16 <= usize::MAX,
    ensures
        match spec_lso_body(AMF3Encoder::new_state(), old(lso).header.format_version, elements_view(old(lso).body@)) {
            Ok((_, b)) => r matches Ok(v)
                && final(lso).header.length == spec_lso_length(b.len() as int, old(lso).header.name@)
                && final(lso).header.name == old(lso).header.name
                && final(lso).header.format_version == old(lso).header.format_version
                && final(lso).body == old(lso).body
                && v@ == spec_header_bytes(header_view(final(lso).header)) + b,
            Err(e) => r == Err::<Vec<u8>, Error>(Error::Encode(e)),
        },
{
    let mut v: Vec<u8> = Vec::new();
    let mut s = Writer::new();
    match s.write_full(&mut v, lso) {
        Ok(()) => {
            assert(v@ =~= Seq::<u8>::empty() + v@);
            Ok(v)
        },
        Err(e) => Err(Error::Encode(e)),
    }
}

} // verus!
