//! Writing of AMF packets.
use vstd::prelude::*;
use crate::amf0::write::{enc0_string, enc0_value, lemma_wrote0, write_string, write_value};
use crate::bytes::{be16, be32, push_all, push_u16, push_u32, push_u8, str_bytes, str_len};
use crate::errors::Error;
use crate::types::{AMFVersion, spec_amf_version_byte};
use crate::packet::{Header, HeaderV, Message, MessageV, Packet, headers_view, messages_view};

verus! {

/// One packet-encoding step: the bytes written.
pub type PacketEnc = Result<Seq<u8>, Error>;

/// The step `r` with `b` written before its bytes.
pub open spec fn after_p(b: Seq<u8>, r: PacketEnc) -> PacketEnc {
    match r {
        Ok(bs) => Ok(b + bs),
        Err(e) => Err(e),
    }
}

/// An encoded value preceded by its big-endian `u32` length, or by `0xffffffff` where exact
/// lengths are not asked for. An exact length that does not fit in 32 bits is refused.
pub open spec fn framed(b: Seq<u8>, exact: bool) -> PacketEnc {
    if !exact {
        Ok(be32(0xffff_ffffu32) + b)
    } else if b.len() > 0xffff_ffff {
        Err(Error::PacketTooLarge)
    } else {
        Ok(be32(b.len() as u32) + b)
    }
}

/// The encoding of an AMF0 value in a packet, framed by its length.
#[verifier::opaque]
pub open spec fn enc_packet_value(v: crate::types::ValueV, exact: bool) -> PacketEnc {
    match enc0_value(v) {
        Err(e) => Err(Error::Encode(e)),
        Ok(b) => framed(b, exact),
    }
}

/// Writing one packet header: its name with a `u16` length (a longer name is refused), the
/// must-understand byte, and the framed value.
pub open spec fn enc_packet_header(h: HeaderV, exact: bool) -> PacketEnc {
    if str_bytes(h.name).len() > 65535 {
        Err(Error::PacketTooLarge)
    } else {
        after_p(
            enc0_string(h.name) + seq![if h.must_understand { 1u8 } else { 0u8 }],
            enc_packet_value(h.value, exact),
        )
    }
}

/// Writing one packet message: the target and response URIs with `u16` lengths (a longer one
/// is refused), then the framed contents.
pub open spec fn enc_packet_message(m: MessageV, exact: bool) -> PacketEnc {
    if str_bytes(m.target_uri).len() > 65535 {
        Err(Error::PacketTooLarge)
    } else if str_bytes(m.response_uri).len() > 65535 {
        Err(Error::PacketTooLarge)
    } else {
        after_p(enc0_string(m.target_uri) + enc0_string(m.response_uri), enc_packet_value(m.contents, exact))
    }
}

/// Writing the headers from index `i` on, one after the other.
pub open spec fn enc_packet_headers(hs: Seq<HeaderV>, i: int, exact: bool) -> PacketEnc
    decreases hs.len() - i,
{
    if i < 0 || i >= hs.len() {
        Ok(Seq::empty())
    } else {
        match enc_packet_header(hs[i], exact) {
            Err(e) => Err(e),
            Ok(b) => after_p(b, enc_packet_headers(hs, i + 1, exact)),
        }
    }
}

/// Writing the messages from index `i` on, one after the other.
pub open spec fn enc_packet_messages(ms: Seq<MessageV>, i: int, exact: bool) -> PacketEnc
    decreases ms.len() - i,
{
    if i < 0 || i >= ms.len() {
        Ok(Seq::empty())
    } else {
        match enc_packet_message(ms[i], exact) {
            Err(e) => Err(e),
            Ok(b) => after_p(b, enc_packet_messages(ms, i + 1, exact)),
        }
    }
}

/// Writing a packet: a zero byte and the version byte, the `u16` count of headers and the
/// headers, then the count of messages and the messages. More than 65535 headers or messages
/// are refused.
pub open spec fn enc_packet(version: AMFVersion, hs: Seq<HeaderV>, ms: Seq<MessageV>, exact: bool) -> PacketEnc {
    if hs.len() > 65535 {
        Err(Error::PacketTooLarge)
    } else {
        match enc_packet_headers(hs, 0, exact) {
            Err(e) => Err(e),
            Ok(hb) => if ms.len() > 65535 {
                Err(Error::PacketTooLarge)
            } else {
                match enc_packet_messages(ms, 0, exact) {
                    Err(e) => Err(e),
                    Ok(mb) => Ok(seq![0u8, spec_amf_version_byte(version)] + be16(hs.len() as u16) + hb
                        + be16(ms.len() as u16) + mb),
                }
            },
        }
    }
}

/// Writing `b1` and then `r` after `b` is writing `b + b1` and then `r`.
proof fn lemma_after_p_after_p(b: Seq<u8>, b1: Seq<u8>, r: PacketEnc)
    ensures
        after_p(b, after_p(b1, r)) == after_p(b + b1, r),
{
    if let Ok(bs) = r {
        assert(b + (b1 + bs) =~= (b + b1) + bs);
    }
}

/// Writing nothing before `r` is `r`.
proof fn lemma_after_p_empty(r: PacketEnc)
    ensures
        after_p(Seq::empty(), r) == r,
{
    if let Ok(bs) = r {
        assert(Seq::<u8>::empty() + bs =~= bs);
    }
}

/// The outcome `r` of a write, with the output `o1` after it and `o0` before it, agrees with
/// the encoding step `step`.
pub open spec fn wrote_p(r: Result<(), Error>, step: PacketEnc, o1: Seq<u8>, o0: Seq<u8>) -> bool {
    match step {
        Ok(b) => r is Ok && o1 == o0 + b,
        Err(e) => r == Err::<(), Error>(e),
    }
}

/// Encode `v` in AMF0 into a buffer of its own, then append it framed by its length.
fn write_framed_value(out: &mut Vec<u8>, v: &crate::types::Value, exact_lengths: bool) -> (r: Result<(), Error>)
    ensures
        wrote_p(r, enc_packet_value(v@, exact_lengths), final(out)@, old(out)@),
{
    proof {
        reveal(enc_packet_value);
    }
    let mut value: Vec<u8> = Vec::new();
    let rr = write_value(&mut value, v);
    proof {
        lemma_wrote0(rr, enc0_value(v@), value@, Seq::empty());
        assert(value@.subrange(0, value@.len() as int) =~= value@);
    }
    match rr {
        Err(e) => Err(Error::Encode(e)),
        Ok(()) => {
            if exact_lengths {
                if value.len() > 0xffff_ffff {
                    return Err(Error::PacketTooLarge);
                }
                push_u32(out, value.len() as u32);
                push_all(out, value.as_slice());
                assert(out@ =~= old(out)@ + (be32(value@.len() as u32) + value@));
            } else {
                push_u32(out, 0xffff_ffff);
                push_all(out, value.as_slice());
                assert(out@ =~= old(out)@ + (be32(0xffff_ffffu32) + value@));
            }
            Ok(())
        },
    }
}

/// Write one packet header.
fn write_header(header: &Header, out: &mut Vec<u8>, exact_lengths: bool) -> (r: Result<(), Error>)
    ensures
        wrote_p(r, enc_packet_header(HeaderV { name: header.name@, must_understand: header.must_understand, value: header.value@ }, exact_lengths), final(out)@, old(out)@),
{
    if str_len(header.name.as_str()) > 65535 {
        return Err(Error::PacketTooLarge);
    }
    write_string(out, header.name.as_str());
    if header.must_understand {
        push_u8(out, 1);
    } else {
        push_u8(out, 0);
    }
    let ghost o1 = out@;
    let r = write_framed_value(out, &header.value, exact_lengths);
    proof {
        let prefix = enc0_string(header.name@) + seq![if header.must_understand { 1u8 } else { 0u8 }];
        assert(o1 =~= old(out)@ + prefix);
        if let Ok(b) = enc_packet_value(header.value@, exact_lengths) {
            assert(out@ =~= old(out)@ + (prefix + b));
        }
    }
    r
}

/// Write one packet message.
fn write_message(message: &Message, out: &mut Vec<u8>, exact_lengths: bool) -> (r: Result<(), Error>)
    ensures
        wrote_p(r, enc_packet_message(MessageV { target_uri: message.target_uri@, response_uri: message.response_uri@, contents: message.contents@ }, exact_lengths), final(out)@, old(out)@),
{
    if str_len(message.target_uri.as_str()) > 65535 {
        return Err(Error::PacketTooLarge);
    }
    if str_len(message.response_uri.as_str()) > 65535 {
        return Err(Error::PacketTooLarge);
    }
    write_string(out, message.target_uri.as_str());
    write_string(out, message.response_uri.as_str());
    let ghost o1 = out@;
    let r = write_framed_value(out, &message.contents, exact_lengths);
    proof {
        let prefix = enc0_string(message.target_uri@) + enc0_string(message.response_uri@);
        assert(o1 =~= old(out)@ + prefix);
        if let Ok(b) = enc_packet_value(message.contents@, exact_lengths) {
            assert(out@ =~= old(out)@ + (prefix + b));
        }
    }
    r
}

/// Write a packet to a vec of bytes
pub fn write_to_bytes(packet: &Packet, exact_lengths: bool) -> (r: Result<Vec<u8>, Error>)
    ensures
        match enc_packet(packet.version, headers_view(packet.headers@), messages_view(packet.messages@), exact_lengths) {
            Ok(b) => r matches Ok(v) && v@ == b,
            Err(e) => r == Err::<Vec<u8>, Error>(e),
        },
{
    let mut buffer: Vec<u8> = Vec::new();
    push_u8(&mut buffer, 0);
    match packet.version {
        AMFVersion::AMF0 => push_u8(&mut buffer, 0),
        AMFVersion::AMF3 => push_u8(&mut buffer, 3),
    }
    let ghost hv = headers_view(packet.headers@);
    let ghost mv = messages_view(packet.messages@);
    if packet.headers.len() > 65535 {
        return Err(Error::PacketTooLarge);
    }
    push_u16(&mut buffer, packet.headers.len() as u16);
    let ghost start = buffer@;
    let ghost mut b: Seq<u8> = Seq::empty();
    proof {
        lemma_after_p_empty(enc_packet_headers(hv, 0, exact_lengths));
    }
    let mut i: usize = 0;
    while i < packet.headers.len()
        invariant
            i <= packet.headers@.len(),
            packet.headers@.len() <= 65535,
            hv == headers_view(packet.headers@),
            buffer@ == start + b,
            enc_packet_headers(hv, 0, exact_lengths) == after_p(b, enc_packet_headers(hv, i as int, exact_lengths)),
        decreases packet.headers.len() - i,
    {
        let ghost ob = buffer@;
        let rr = write_header(&packet.headers[i], &mut buffer, exact_lengths);
        proof {
            assert(hv[i as int] == HeaderV { name: packet.headers@[i as int].name@, must_understand: packet.headers@[i as int].must_understand, value: packet.headers@[i as int].value@ });
        }
        if let Err(e) = rr {
            return Err(e);
        }
        proof {
            let hb = buffer@.subrange(ob.len() as int, buffer@.len() as int);
            assert(buffer@ =~= ob + hb);
            if let Ok(bb) = enc_packet_header(hv[i as int], exact_lengths) {
                assert(hb =~= bb);
            }
            lemma_after_p_after_p(b, hb, enc_packet_headers(hv, i + 1, exact_lengths));
            b = b + hb;
            assert(buffer@ =~= start + b);
        }
        i += 1;
    }
    let ghost hb_all = b;
    proof {
        assert(hb_all =~= hb_all + Seq::<u8>::empty());
    }
    if packet.messages.len() > 65535 {
        return Err(Error::PacketTooLarge);
    }
    push_u16(&mut buffer, packet.messages.len() as u16);
    let ghost start2 = buffer@;
    proof {
        b = Seq::empty();
        lemma_after_p_empty(enc_packet_messages(mv, 0, exact_lengths));
    }
    let mut j: usize = 0;
    while j < packet.messages.len()
        invariant
            j <= packet.messages@.len(),
            packet.messages@.len() <= 65535,
            packet.headers@.len() <= 65535,
            hv == headers_view(packet.headers@),
            mv == messages_view(packet.messages@),
            enc_packet_headers(hv, 0, exact_lengths) == Ok::<Seq<u8>, Error>(hb_all),
            buffer@ == start2 + b,
            enc_packet_messages(mv, 0, exact_lengths) == after_p(b, enc_packet_messages(mv, j as int, exact_lengths)),
        decreases packet.messages.len() - j,
    {
        let ghost ob = buffer@;
        let rr = write_message(&packet.messages[j], &mut buffer, exact_lengths);
        proof {
            assert(mv[j as int] == MessageV { target_uri: packet.messages@[j as int].target_uri@, response_uri: packet.messages@[j as int].response_uri@, contents: packet.messages@[j as int].contents@ });
        }
        if let Err(e) = rr {
            return Err(e);
        }
        proof {
            let mb = buffer@.subrange(ob.len() as int, buffer@.len() as int);
            assert(buffer@ =~= ob + mb);
            if let Ok(bb) = enc_packet_message(mv[j as int], exact_lengths) {
                assert(mb =~= bb);
            }
            lemma_after_p_after_p(b, mb, enc_packet_messages(mv, j + 1, exact_lengths));
            b = b + mb;
            assert(buffer@ =~= start2 + b);
        }
        j += 1;
    }
    proof {
        assert(b =~= b + Seq::<u8>::empty());
        assert(buffer@ =~= seq![0u8, spec_amf_version_byte(packet.version)] + be16(hv.len() as u16) + hb_all
            + be16(mv.len() as u16) + b);
    }
    Ok(buffer)
}

} // verus!
