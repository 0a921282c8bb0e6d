//! Reading of AMF packets.
use vstd::prelude::*;
use crate::bytes::u16_at;
use crate::errors::{Error, ErrorKind, nom_err};
use crate::types::{AMFVersion, spec_amf_version};
use crate::amf0::read::{AMF0Decoder, Amf0State, spec_amf0_string, spec_amf0_value};
use crate::amf3::read::AMF3Decoder;
use crate::packet::{Header, HeaderV, Message, MessageV, Packet, headers_view, messages_view};

verus! {

/// The state of a fresh AMF0 decoder.
pub open spec fn fresh_amf0() -> Amf0State {
    Amf0State { cache: Seq::empty(), amf3: AMF3Decoder::new_state() }
}

/// Reading one packet header at `p`: its name, the must-understand byte, a length that is
/// ignored, and a value read by a fresh AMF0 decoder.
pub open spec fn spec_packet_header(s: Seq<u8>, p: int) -> Result<(int, HeaderV), Error> {
    match spec_amf0_string(s, p) {
        Err(e) => Err(e),
        Ok((p1, name)) => if p1 + 1 > s.len() {
            Err(nom_err(p1, ErrorKind::Eof))
        } else if p1 + 5 > s.len() {
            Err(nom_err(p1 + 1, ErrorKind::Eof))
        } else {
            match spec_amf0_value(fresh_amf0(), s, p1 + 5) {
                Err(e) => Err(e),
                Ok((_, p2, v)) => Ok((p2, HeaderV { name, must_understand: s[p1] != 0, value: v })),
            }
        },
    }
}

/// Reading one packet message at `p`: target and response URIs, a length that is ignored,
/// and a value read by a fresh AMF0 decoder.
pub open spec fn spec_packet_message(s: Seq<u8>, p: int) -> Result<(int, MessageV), Error> {
    match spec_amf0_string(s, p) {
        Err(e) => Err(e),
        Ok((p1, target)) => match spec_amf0_string(s, p1) {
            Err(e) => Err(e),
            Ok((p2, response)) => if p2 + 4 > s.len() {
                Err(nom_err(p2, ErrorKind::Eof))
            } else {
                match spec_amf0_value(fresh_amf0(), s, p2 + 4) {
                    Err(e) => Err(e),
                    Ok((_, p3, v)) => Ok((p3, MessageV { target_uri: target, response_uri: response, contents: v })),
                }
            },
        },
    }
}

/// Reading `n` packet headers one after the other.
pub open spec fn spec_packet_headers(s: Seq<u8>, p: int, n: int) -> Result<(int, Seq<HeaderV>), Error>
    decreases n,
{
    if n <= 0 {
        Ok((p, Seq::empty()))
    } else {
        match spec_packet_header(s, p) {
            Err(e) => Err(e),
            Ok((p1, h)) => match spec_packet_headers(s, p1, n - 1) {
                Err(e) => Err(e),
                Ok((p2, hs)) => Ok((p2, seq![h] + hs)),
            },
        }
    }
}

/// Reading `n` packet messages one after the other.
pub open spec fn spec_packet_messages(s: Seq<u8>, p: int, n: int) -> Result<(int, Seq<MessageV>), Error>
    decreases n,
{
    if n <= 0 {
        Ok((p, Seq::empty()))
    } else {
        match spec_packet_message(s, p) {
            Err(e) => Err(e),
            Ok((p1, m)) => match spec_packet_messages(s, p1, n - 1) {
                Err(e) => Err(e),
                Ok((p2, ms)) => Ok((p2, seq![m] + ms)),
            },
        }
    }
}

/// Reading a packet: a zero byte, the version byte (0 or 3), then a big-endian `u16` count
/// of headers and the headers, then a count of messages and the messages.
pub open spec fn spec_packet(s: Seq<u8>) -> Result<(int, AMFVersion, Seq<HeaderV>, Seq<MessageV>), Error> {
    if s.len() < 1 || s[0] != 0 {
        Err(nom_err(0, ErrorKind::Tag))
    } else if s.len() < 2 || !(s[1] == 0 || s[1] == 3) {
        Err(nom_err(1, ErrorKind::Tag))
    } else if s.len() < 4 {
        Err(nom_err(2, ErrorKind::Eof))
    } else {
        match spec_packet_headers(s, 4, u16_at(s, 2) as int) {
            Err(e) => Err(e),
            Ok((p1, hs)) => if p1 + 2 > s.len() {
                Err(nom_err(p1, ErrorKind::Eof))
            } else {
                match spec_packet_messages(s, p1 + 2, u16_at(s, p1) as int) {
                    Err(e) => Err(e),
                    Ok((p2, ms)) => Ok((p2, spec_amf_version(s[1])->0, hs, ms)),
                }
            },
        }
    }
}

/// Read one packet header at `pos`.
fn parse_header(s: &[u8], pos: usize) -> (r: Result<(usize, Header), Error>)
    requires
        pos <= s.len(),
    ensures
        match spec_packet_header(s@, pos as int) {
            Ok((p, h)) => r matches Ok((q, x)) && q == p && x.name@ == h.name && x.must_understand == h.must_understand && x.value@ == h.value,
            Err(e) => r == Err::<(usize, Header), Error>(e),
        },
        r matches Ok((q, _)) ==> pos < q <= s.len(),
{
    let (p1, name) = crate::amf0::read::parse_string(s, pos)?;
    let (p2, must_understand) = crate::bytes::read_u8(s, p1)?;
    let (p3, _length) = crate::bytes::read_u32(s, p2)?;
    let mut dec = AMF0Decoder::new();
    let (p4, value) = dec.parse_value_at(s, p3)?;
    Ok((p4, Header { name, must_understand: must_understand != 0, value }))
}

/// Read one packet message at `pos`.
fn parse_message(s: &[u8], pos: usize) -> (r: Result<(usize, Message), Error>)
    requires
        pos <= s.len(),
    ensures
        match spec_packet_message(s@, pos as int) {
            Ok((p, m)) => r matches Ok((q, x)) && q == p && x.target_uri@ == m.target_uri && x.response_uri@ == m.response_uri && x.contents@ == m.contents,
            Err(e) => r == Err::<(usize, Message), Error>(e),
        },
        r matches Ok((q, _)) ==> pos < q <= s.len(),
{
    let (p1, target_uri) = crate::amf0::read::parse_string(s, pos)?;
    let (p2, response_uri) = crate::amf0::read::parse_string(s, p1)?;
    let (p3, _length) = crate::bytes::read_u32(s, p2)?;
    let mut dec = AMF0Decoder::new();
    let (p4, contents) = dec.parse_value_at(s, p3)?;
    Ok((p4, Message { target_uri, response_uri, contents }))
}

/// Read `n` packet headers at `pos`.
fn parse_headers(s: &[u8], pos: usize, n: u16) -> (r: Result<(usize, Vec<Header>), Error>)
    requires
        pos <= s.len(),
    ensures
        match spec_packet_headers(s@, pos as int, n as int) {
            Ok((p, hs)) => r matches Ok((q, x)) && q == p && headers_view(x@) == hs,
            Err(e) => r == Err::<(usize, Vec<Header>), Error>(e),
        },
        r matches Ok((q, _)) ==> pos <= q <= s.len(),
{
    let mut out: Vec<Header> = Vec::new();
    let mut p = pos;
    let mut i: u16 = 0;
    while i < n
        invariant
            i <= n,
            pos <= p <= s.len(),
            spec_packet_headers(s@, pos as int, n as int) == (match spec_packet_headers(s@, p as int, (n - i) as int) {
                Ok((e, hs)) => Ok::<(int, Seq<HeaderV>), Error>((e, headers_view(out@) + hs)),
                Err(e) => Err(e),
            }),
        decreases n - i,
    {
        let (p1, h) = parse_header(s, p)?;
        proof {
            let hv = HeaderV { name: h.name@, must_understand: h.must_understand, value: h.value@ };
            assert(headers_view(out@.push(h)) =~= headers_view(out@).push(hv));
            if let Ok((e, hs)) = spec_packet_headers(s@, p1 as int, (n - i - 1) as int) {
                assert(headers_view(out@) + (seq![hv] + hs) =~= headers_view(out@).push(hv) + hs);
            }
        }
        out.push(h);
        p = p1;
        i += 1;
    }
    assert(headers_view(out@) + Seq::<HeaderV>::empty() =~= headers_view(out@));
    Ok((p, out))
}

/// Read `n` packet messages at `pos`.
#[verifier::rlimit(40)]
fn parse_messages(s: &[u8], pos: usize, n: u16) -> (r: Result<(usize, Vec<Message>), Error>)
    requires
        pos <= s.len(),
    ensures
        match spec_packet_messages(s@, pos as int, n as int) {
            Ok((p, ms)) => r matches Ok((q, x)) && q == p && messages_view(x@) == ms,
            Err(e) => r == Err::<(usize, Vec<Message>), Error>(e),
        },
        r matches Ok((q, _)) ==> pos <= q <= s.len(),
{
    let mut out: Vec<Message> = Vec::new();
    let mut p = pos;
    let mut i: u16 = 0;
    while i < n
        invariant
            i <= n,
            pos <= p <= s.len(),
            spec_packet_messages(s@, pos as int, n as int) == (match spec_packet_messages(s@, p as int, (n - i) as int) {
                Ok((e, ms)) => Ok::<(int, Seq<MessageV>), Error>((e, messages_view(out@) + ms)),
                Err(e) => Err(e),
            }),
        decreases n - i,
    {
        let (p1, m) = parse_message(s, p)?;
        proof {
            let mv = MessageV { target_uri: m.target_uri@, response_uri: m.response_uri@, contents: m.contents@ };
            assert(messages_view(out@.push(m)) =~= messages_view(out@).push(mv));
            if let Ok((e, ms)) = spec_packet_messages(s@, p1 as int, (n - i - 1) as int) {
                assert(messages_view(out@) + (seq![mv] + ms) =~= messages_view(out@).push(mv) + ms);
            }
        }
        out.push(m);
        p = p1;
        i += 1;
    }
    assert(messages_view(out@) + Seq::<MessageV>::empty() =~= messages_view(out@));
    Ok((p, out))
}

/// Read a given buffer as a packet, giving the number of bytes read and the packet; bytes
/// after the last message are left unread.
pub fn parse_incomplete(i: &[u8]) -> (r: Result<(usize, Packet), Error>)
    ensures
        match spec_packet(i@) {
            Ok((p, v, hs, ms)) => r matches Ok((q, x)) && q == p && x.version == v
                && headers_view(x.headers@) == hs && messages_view(x.messages@) == ms,
            Err(e) => r == Err::<(usize, Packet), Error>(e),
        },
{
    if i.len() < 1 || i[0] != 0 {
        return Err(Error::Nom(0, ErrorKind::Tag));
    }
    if i.len() < 2 || !(i[1] == 0 || i[1] == 3) {
        return Err(Error::Nom(1, ErrorKind::Tag));
    }
    let version = if i[1] == 0 { AMFVersion::AMF0 } else { AMFVersion::AMF3 };
    let (p1, nh) = crate::bytes::read_u16(i, 2)?;
    let (p2, headers) = parse_headers(i, p1, nh)?;
    let (p3, nm) = crate::bytes::read_u16(i, p2)?;
    let (p4, messages) = parse_messages(i, p3, nm)?;
    Ok((p4, Packet { version, headers, messages }))
}

/// Read a given slice as a packet; bytes left after the last message are an error at their
/// position.
pub fn parse(i: &[u8]) -> (r: Result<Packet, Error>)
    ensures
        match spec_packet(i@) {
            Ok((p, v, hs, ms)) => if p == i@.len() {
                r matches Ok(x) && x.version == v && headers_view(x.headers@) == hs && messages_view(x.messages@) == ms
            } else {
                r == Err::<Packet, Error>(nom_err(p, ErrorKind::Eof))
            },
            Err(e) => r == Err::<Packet, Error>(e),
        },
{
    let (q, packet) = parse_incomplete(i)?;
    if q != i.len() {
        return Err(Error::Nom(q, ErrorKind::Eof));
    }
    Ok(packet)
}

} // verus!
