//! Decoding of flex types.
use vstd::prelude::*;
use crate::errors::{Error, ErrorKind, nom_err};
use crate::types::{Element, ElementV, elements_view};
use crate::amf3::read::AMF3Decoder;
use crate::amf3::read::{Amf3State, Step, prefixed, advanced, spec_value, lookup_external};
use crate::amf3::custom_encoder::{ExternalDecoder, FlexDecoder, custom_decoded};

verus! {

/// Reading the flag bytes of a message part at `p`: each byte with its high bit set is
/// followed by another, and the first with the high bit clear is the last.
pub open spec fn spec_flags(s: Seq<u8>, p: int) -> Result<(int, Seq<u8>), Error>
    decreases s.len() - p,
{
    if p < 0 || p >= s.len() {
        Err(nom_err(p, ErrorKind::Eof))
    } else if s[p] & 0x80 != 0 {
        match spec_flags(s, p + 1) {
            Err(e) => Err(e),
            Ok((q, fs)) => Ok((q, seq![s[p]] + fs)),
        }
    } else {
        Ok((p + 1, seq![s[p]]))
    }
}

/// Reading, in order, a value for each field whose bit is set in `flags`.
pub open spec fn spec_flagged(st: Amf3State, s: Seq<u8>, p: int, flags: u8, fields: Seq<(u8, Seq<char>)>) -> Step<Seq<ElementV>>
    decreases s.len() - p, 1int, fields.len(),
{
    if fields.len() == 0 {
        Ok((st, p, Seq::empty()))
    } else if flags & fields[0].0 == 0 {
        spec_flagged(st, s, p, flags, fields.drop_first())
    } else {
        match spec_value(st, s, p) {
            Err(e) => Err(e),
            Ok((st1, p1, v)) => {
                if advanced(p, p1, s) {
                    prefixed(
                        seq![ElementV { name: fields[0].1, value: v }],
                        spec_flagged(st1, s, p1, flags, fields.drop_first()),
                    )
                } else {
                    Err(Error::OutOfBounds)
                }
            },
        }
    }
}

/// The fields of the first flag byte of an abstract message.
pub open spec fn abstract_fields() -> Seq<(u8, Seq<char>)> {
    seq![
        (1u8, "body"@),
        (2u8, "client_id"@),
        (4u8, "destination"@),
        (8u8, "headers"@),
        (16u8, "message_id"@),
        (32u8, "timestamp"@),
        (64u8, "ttl"@),
    ]
}

/// The fields of the flag byte of an async message.
pub open spec fn async_fields() -> Seq<(u8, Seq<char>)> {
    seq![
        (1u8, "correlation_id"@),
        (2u8, "correlation_id_bytes"@),
        (4u8, "children_async_2"@),
        (8u8, "children_async_3"@),
        (16u8, "children_async_4"@),
        (32u8, "children_async_5"@),
    ]
}

/// The fields of the flag byte of an acknowledge message.
pub open spec fn acknowledge_fields() -> Seq<(u8, Seq<char>)> {
    seq![
        (1u8, "children_acknowledge_0"@),
        (2u8, "children_acknowledge_1"@),
        (4u8, "children_acknowledge_2"@),
        (8u8, "children_acknowledge_3"@),
        (16u8, "children_acknowledge_4"@),
        (32u8, "children_acknowledge_5"@),
    ]
}

/// The fields of the flag byte of a command message.
pub open spec fn command_fields() -> Seq<(u8, Seq<char>)> {
    seq![
        (1u8, "operation"@),
        (2u8, "children_command_1"@),
        (4u8, "children_command_2"@),
        (8u8, "children_command_3"@),
        (16u8, "children_command_4"@),
        (32u8, "children_command_5"@),
    ]
}

/// The fields of the second flag byte of an abstract message.
pub open spec fn abstract_second_fields() -> Seq<(u8, Seq<char>)> {
    seq![
        (1u8, "client_id_bytes"@),
        (2u8, "message_id_bytes"@),
        (4u8, "children_2"@),
        (8u8, "children_3"@),
        (16u8, "children_4"@),
        (32u8, "children_5"@),
    ]
}

/// The fields of the further flag bytes of an abstract message.
pub open spec fn abstract_rest_fields() -> Seq<(u8, Seq<char>)> {
    seq![
        (1u8, "children_0"@),
        (2u8, "children_1"@),
        (4u8, "children_2"@),
        (8u8, "children_3"@),
        (16u8, "children_4"@),
        (32u8, "children_5"@),
    ]
}

/// The fields of the further flag bytes of an async message.
pub open spec fn async_rest_fields() -> Seq<(u8, Seq<char>)> {
    seq![
        (1u8, "children_async_0"@),
        (2u8, "children_async_1"@),
        (4u8, "children_async_2"@),
        (8u8, "children_async_3"@),
        (16u8, "children_async_4"@),
        (32u8, "children_async_5"@),
    ]
}

/// The fields of the further flag bytes of a command message.
pub open spec fn command_rest_fields() -> Seq<(u8, Seq<char>)> {
    seq![
        (1u8, "children_command_0"@),
        (2u8, "children_command_1"@),
        (4u8, "children_command_2"@),
        (8u8, "children_command_3"@),
        (16u8, "children_command_4"@),
        (32u8, "children_command_5"@),
    ]
}

/// The fields of flag byte `i` of a message part: `first` for the first byte, `second` for
/// the second, `rest` for the others.
pub open spec fn section_fields(
    first: Seq<(u8, Seq<char>)>,
    second: Seq<(u8, Seq<char>)>,
    rest: Seq<(u8, Seq<char>)>,
    i: int,
) -> Seq<(u8, Seq<char>)> {
    if i == 0 { first } else if i == 1 { second } else { rest }
}

/// Reading, for each flag byte from `i` on, the values its bits announce.
pub open spec fn spec_sections(
    st: Amf3State,
    s: Seq<u8>,
    p: int,
    fl: Seq<u8>,
    first: Seq<(u8, Seq<char>)>,
    second: Seq<(u8, Seq<char>)>,
    rest: Seq<(u8, Seq<char>)>,
    i: int,
) -> Step<Seq<ElementV>>
    decreases s.len() - p, 1int, 8 + fl.len() - i,
{
    if i < 0 || i >= fl.len() || first.len() > 7 || second.len() > 7 || rest.len() > 7 {
        Ok((st, p, Seq::empty()))
    } else {
        match spec_flagged(st, s, p, fl[i], section_fields(first, second, rest, i)) {
            Err(e) => Err(e),
            Ok((st1, p1, els)) => {
                if advanced(p, p1, s) {
                    prefixed(els, spec_sections(st1, s, p1, fl, first, second, rest, i + 1))
                } else {
                    Err(Error::OutOfBounds)
                }
            },
        }
    }
}

/// Reading a message part: its flag bytes, then the values they announce.
pub open spec fn spec_part(
    st: Amf3State,
    s: Seq<u8>,
    p: int,
    first: Seq<(u8, Seq<char>)>,
    second: Seq<(u8, Seq<char>)>,
    rest: Seq<(u8, Seq<char>)>,
) -> Step<Seq<ElementV>>
    decreases s.len() - p, 1int, 9int,
{
    match spec_flags(s, p) {
        Err(e) => Err(e),
        Ok((p1, fl)) => {
            if p < p1 <= s.len() {
                spec_sections(st, s, p1, fl, first, second, rest, 0)
            } else {
                Err(Error::OutOfBounds)
            }
        },
    }
}

/// Reading an abstract message: its flag bytes, then the values they announce.
pub open spec fn spec_abstract_message(st: Amf3State, s: Seq<u8>, p: int) -> Step<Seq<ElementV>>
    decreases s.len() - p, 1int, 10int,
{
    spec_part(st, s, p, abstract_fields(), abstract_second_fields(), abstract_rest_fields())
}

/// Reading an async message: an abstract message, then a part of flag bytes and the flagged
/// values.
pub open spec fn spec_async_message(st: Amf3State, s: Seq<u8>, p: int) -> Step<Seq<ElementV>>
    decreases s.len() - p, 1int, 11int,
{
    match spec_abstract_message(st, s, p) {
        Err(e) => Err(e),
        Ok((st1, p1, els)) => {
            if !advanced(p, p1, s) || p1 == p {
                Err(Error::OutOfBounds)
            } else {
                prefixed(els, spec_part(st1, s, p1, async_fields(), async_rest_fields(), async_rest_fields()))
            }
        },
    }
}

/// Reading a message that extends an async message with one more part, whose first flag byte
/// has the fields `first` and whose further ones `rest`.
pub open spec fn spec_async_extended(st: Amf3State, s: Seq<u8>, p: int, first: Seq<(u8, Seq<char>)>, rest: Seq<(u8, Seq<char>)>) -> Step<Seq<ElementV>>
    decreases s.len() - p, 1int, 12int,
{
    match spec_async_message(st, s, p) {
        Err(e) => Err(e),
        Ok((st1, p1, els)) => {
            if !advanced(p, p1, s) || p1 == p {
                Err(Error::OutOfBounds)
            } else {
                prefixed(els, spec_part(st1, s, p1, first, rest, rest))
            }
        },
    }
}

/// Reading a single value, named `name`.
pub open spec fn spec_single(st: Amf3State, s: Seq<u8>, p: int, name: Seq<char>) -> Step<Seq<ElementV>>
    decreases s.len() - p, 1int, 10int,
{
    match spec_value(st, s, p) {
        Err(e) => Err(e),
        Ok((st1, p1, v)) => Ok((st1, p1, seq![ElementV { name, value: v }])),
    }
}

/// Reading the external body of an object with the decoder `kind`.
pub open spec fn spec_external(st: Amf3State, s: Seq<u8>, p: int, kind: FlexDecoder) -> Step<Seq<ElementV>>
    decreases s.len() - p, 1int, 13int,
{
    match kind {
        FlexDecoder::AbstractMessage => spec_abstract_message(st, s, p),
        FlexDecoder::AsyncMessage => spec_async_message(st, s, p),
        FlexDecoder::AcknowledgeMessage => spec_async_extended(st, s, p, acknowledge_fields(), acknowledge_fields()),
        FlexDecoder::CommandMessage => spec_async_extended(st, s, p, command_fields(), command_rest_fields()),
        FlexDecoder::ArrayCollection => spec_single(st, s, p, "data"@),
        FlexDecoder::ObjectProxy => spec_single(st, s, p, "object"@),
    }
}

/// Reading the external body of an object with the registered decoder `d`: a flex layout, or
/// a user's decoder, whose result stands if the body ends between `p` and the end of the bytes.
pub open spec fn spec_external_any(st: Amf3State, s: Seq<u8>, p: int, d: ExternalDecoder) -> Step<Seq<ElementV>>
    decreases s.len() - p, 1int, 14int,
{
    match d {
        ExternalDecoder::Flex(k) => spec_external(st, s, p, k),
        ExternalDecoder::Custom(c) => match custom_decoded(c.spec_decode(s, p), s, p) {
            Ok((e, els)) => Ok((st, e, els)),
            Err(x) => Err(x),
        },
    }
}

} // verus!

verus! {

/// The contents of a list of flag bits and field names.
pub open spec fn fields_view(f: Seq<(u8, String)>) -> Seq<(u8, Seq<char>)> {
    Seq::new(f.len(), |i: int| (f[i].0, f[i].1@))
}

/// The fields of the first flag byte of an abstract message.
fn abstract_field_list() -> (r: Vec<(u8, String)>)
    ensures
        fields_view(r@) == abstract_fields(),
{
    let r = vec![
        (1u8, "body".to_owned()),
        (2u8, "client_id".to_owned()),
        (4u8, "destination".to_owned()),
        (8u8, "headers".to_owned()),
        (16u8, "message_id".to_owned()),
        (32u8, "timestamp".to_owned()),
        (64u8, "ttl".to_owned()),
    ];
    assert(fields_view(r@) =~= abstract_fields());
    r
}

/// The fields of the flag byte of an async message.
fn async_field_list() -> (r: Vec<(u8, String)>)
    ensures
        fields_view(r@) == async_fields(),
{
    let r = vec![
        (1u8, "correlation_id".to_owned()),
        (2u8, "correlation_id_bytes".to_owned()),
        (4u8, "children_async_2".to_owned()),
        (8u8, "children_async_3".to_owned()),
        (16u8, "children_async_4".to_owned()),
        (32u8, "children_async_5".to_owned()),
    ];
    assert(fields_view(r@) =~= async_fields());
    r
}

/// The fields of the flag byte of an acknowledge message.
fn acknowledge_field_list() -> (r: Vec<(u8, String)>)
    ensures
        fields_view(r@) == acknowledge_fields(),
{
    let r = vec![
        (1u8, "children_acknowledge_0".to_owned()),
        (2u8, "children_acknowledge_1".to_owned()),
        (4u8, "children_acknowledge_2".to_owned()),
        (8u8, "children_acknowledge_3".to_owned()),
        (16u8, "children_acknowledge_4".to_owned()),
        (32u8, "children_acknowledge_5".to_owned()),
    ];
    assert(fields_view(r@) =~= acknowledge_fields());
    r
}

/// The fields of the flag byte of a command message.
fn command_field_list() -> (r: Vec<(u8, String)>)
    ensures
        fields_view(r@) == command_fields(),
{
    let r = vec![
        (1u8, "operation".to_owned()),
        (2u8, "children_command_1".to_owned()),
        (4u8, "children_command_2".to_owned()),
        (8u8, "children_command_3".to_owned()),
        (16u8, "children_command_4".to_owned()),
        (32u8, "children_command_5".to_owned()),
    ];
    assert(fields_view(r@) =~= command_fields());
    r
}

/// Read the flag bytes of a message part at `pos`: while a byte has its high bit set, another
/// follows.
fn parse_flags(s: &[u8], pos: usize) -> (r: Result<(usize, Vec<u8>), Error>)
    ensures
        match spec_flags(s@, pos as int) {
            Ok((p, fs)) => r matches Ok((q, v)) && q == p && v@ == fs,
            Err(e) => r == Err::<(usize, Vec<u8>), Error>(e),
        },
        r matches Ok((q, v)) ==> pos < q <= s.len() && v@.len() == q - pos,
{
    let mut out: Vec<u8> = Vec::new();
    let mut p = pos;
    loop
        invariant_except_break
            pos <= p,
            p - pos == out@.len(),
            spec_flags(s@, pos as int) == match spec_flags(s@, p as int) {
                Ok((q, fs)) => Ok::<(int, Seq<u8>), Error>((q, out@ + fs)),
                Err(e) => Err(e),
            },
        ensures
            match spec_flags(s@, pos as int) {
                Ok((q, fs)) => out@ == fs && p == q,
                Err(e) => false,
            },
            pos < p <= s.len(),
            p - pos == out@.len(),
        decreases s.len() - p,
    {
        if p >= s.len() {
            return Err(Error::Nom(p, ErrorKind::Eof));
        }
        let flag = s[p];
        let ghost p0 = p as int;
        let ghost o = out@;
        out.push(flag);
        p = p + 1;
        if flag & 0x80 == 0 {
            proof {
                assert(spec_flags(s@, p0) == Ok::<(int, Seq<u8>), Error>((p0 + 1, seq![flag])));
                assert(out@ =~= o + seq![flag]);
            }
            break;
        }
        proof {
            assert(spec_flags(s@, p0) == match spec_flags(s@, p0 + 1) {
                Ok((q, fs)) => Ok::<(int, Seq<u8>), Error>((q, seq![flag] + fs)),
                Err(e) => Err(e),
            });
            match spec_flags(s@, p as int) {
                Ok((q, fs)) => assert(o + (seq![flag] + fs) =~= out@ + fs),
                Err(e) => {},
            }
        }
    }
    Ok((p, out))
}

/// Read, in order, a value for each field whose bit is set in `flags`, at `pos`.
fn parse_flagged(dec: &mut AMF3Decoder, s: &[u8], pos: usize, flags: u8, fields: &Vec<(u8, String)>) -> (r: Result<(usize, Vec<Element>), Error>)
    requires
        pos <= s.len(),
    ensures
        match spec_flagged(old(dec).state(), s@, pos as int, flags, fields_view(fields@)) {
            Ok((st, p, els)) => r matches Ok((e, x)) && e == p && elements_view(x@) == els
                && final(dec).state() == st,
            Err(e) => r == Err::<(usize, Vec<Element>), Error>(e),
        },
        r matches Ok((e, _)) ==> pos <= e <= s.len(),
        final(dec).state().externals == old(dec).state().externals,
        final(dec).state().objects.len() >= old(dec).state().objects.len(),
    decreases s.len() - pos, 1int, fields@.len(),
{
    let ghost all = fields_view(fields@);
    assert(all.subrange(0, all.len() as int) =~= all);
    let mut out: Vec<Element> = Vec::new();
    let mut p = pos;
    let mut i: usize = 0;
    while i < fields.len()
        invariant
            i <= fields@.len(),
            pos <= p <= s.len(),
            all == fields_view(fields@),
            spec_flagged(old(dec).state(), s@, pos as int, flags, all) == prefixed(
                elements_view(out@),
                spec_flagged(dec.state(), s@, p as int, flags, all.subrange(i as int, all.len() as int)),
            ),
            dec.state().externals == old(dec).state().externals,
            dec.state().objects.len() >= old(dec).state().objects.len(),
        decreases fields.len() - i,
    {
        let ghost rest = all.subrange(i as int, all.len() as int);
        proof {
            assert(rest[0] == (fields@[i as int].0, fields@[i as int].1@));
            assert(rest.drop_first() =~= all.subrange(i + 1, all.len() as int));
        }
        if flags & fields[i].0 != 0 {
            let (p1, v) = dec.parse_value_at(s, p)?;
            let name = fields[i].1.clone();
            let ghost ev = ElementV { name: name@, value: v@ };
            proof {
                assert(elements_view(out@.push(Element { name, value: v })) =~= elements_view(out@) + seq![ev]);
                let r = spec_flagged(dec.state(), s@, p1 as int, flags, all.subrange(i + 1, all.len() as int));
                if let Ok((a, b, c)) = r {
                    assert(elements_view(out@) + (seq![ev] + c) =~= (elements_view(out@) + seq![ev]) + c);
                }
            }
            out.push(Element { name, value: v });
            p = p1;
        }
        i += 1;
    }
    proof {
        assert(all.subrange(i as int, all.len() as int).len() == 0);
        assert(elements_view(out@) + Seq::<ElementV>::empty() =~= elements_view(out@));
    }
    Ok((p, out))
}

/// The fields of the second flag byte of an abstract message.
fn abstract_second_list() -> (r: Vec<(u8, String)>)
    ensures
        fields_view(r@) == abstract_second_fields(),
{
    let r = vec![
        (1u8, "client_id_bytes".to_owned()),
        (2u8, "message_id_bytes".to_owned()),
        (4u8, "children_2".to_owned()),
        (8u8, "children_3".to_owned()),
        (16u8, "children_4".to_owned()),
        (32u8, "children_5".to_owned()),
    ];
    assert(fields_view(r@) =~= abstract_second_fields());
    r
}

/// The fields of the further flag bytes of an abstract message.
fn abstract_rest_list() -> (r: Vec<(u8, String)>)
    ensures
        fields_view(r@) == abstract_rest_fields(),
{
    let r = vec![
        (1u8, "children_0".to_owned()),
        (2u8, "children_1".to_owned()),
        (4u8, "children_2".to_owned()),
        (8u8, "children_3".to_owned()),
        (16u8, "children_4".to_owned()),
        (32u8, "children_5".to_owned()),
    ];
    assert(fields_view(r@) =~= abstract_rest_fields());
    r
}

/// The fields of the further flag bytes of an async message.
fn async_rest_list() -> (r: Vec<(u8, String)>)
    ensures
        fields_view(r@) == async_rest_fields(),
{
    let r = vec![
        (1u8, "children_async_0".to_owned()),
        (2u8, "children_async_1".to_owned()),
        (4u8, "children_async_2".to_owned()),
        (8u8, "children_async_3".to_owned()),
        (16u8, "children_async_4".to_owned()),
        (32u8, "children_async_5".to_owned()),
    ];
    assert(fields_view(r@) =~= async_rest_fields());
    r
}

/// The fields of the further flag bytes of a command message.
fn command_rest_list() -> (r: Vec<(u8, String)>)
    ensures
        fields_view(r@) == command_rest_fields(),
{
    let r = vec![
        (1u8, "children_command_0".to_owned()),
        (2u8, "children_command_1".to_owned()),
        (4u8, "children_command_2".to_owned()),
        (8u8, "children_command_3".to_owned()),
        (16u8, "children_command_4".to_owned()),
        (32u8, "children_command_5".to_owned()),
    ];
    assert(fields_view(r@) =~= command_rest_fields());
    r
}

/// Read, for each of the flag bytes `fl`, the values its bits announce, at `pos`.
fn parse_sections(
    dec: &mut AMF3Decoder,
    s: &[u8],
    pos: usize,
    fl: &Vec<u8>,
    first: &Vec<(u8, String)>,
    second: &Vec<(u8, String)>,
    rest: &Vec<(u8, String)>,
) -> (r: Result<(usize, Vec<Element>), Error>)
    requires
        pos <= s.len(),
        first@.len() <= 7,
        second@.len() <= 7,
        rest@.len() <= 7,
    ensures
        match spec_sections(old(dec).state(), s@, pos as int, fl@, fields_view(first@), fields_view(second@), fields_view(rest@), 0) {
            Ok((st, p, els)) => r matches Ok((e, x)) && e == p && elements_view(x@) == els
                && final(dec).state() == st,
            Err(e) => r == Err::<(usize, Vec<Element>), Error>(e),
        },
        r matches Ok((e, _)) ==> pos <= e <= s.len(),
        final(dec).state().externals == old(dec).state().externals,
        final(dec).state().objects.len() >= old(dec).state().objects.len(),
    decreases s.len() - pos, 1int, 8 + fl@.len(),
{
    let ghost f0 = fields_view(first@);
    let ghost f1 = fields_view(second@);
    let ghost f2 = fields_view(rest@);
    let mut out: Vec<Element> = Vec::new();
    let mut p = pos;
    let mut i: usize = 0;
    while i < fl.len()
        invariant
            i <= fl@.len(),
            pos <= p <= s.len(),
            f0 == fields_view(first@),
            f1 == fields_view(second@),
            f2 == fields_view(rest@),
            first@.len() <= 7,
            second@.len() <= 7,
            rest@.len() <= 7,
            spec_sections(old(dec).state(), s@, pos as int, fl@, f0, f1, f2, 0) == prefixed(
                elements_view(out@),
                spec_sections(dec.state(), s@, p as int, fl@, f0, f1, f2, i as int),
            ),
            dec.state().externals == old(dec).state().externals,
            dec.state().objects.len() >= old(dec).state().objects.len(),
        decreases fl.len() - i,
    {
        let fields = if i == 0 { first } else if i == 1 { second } else { rest };
        assert(fields_view(fields@) == section_fields(f0, f1, f2, i as int));
        let (p1, mut more) = parse_flagged(dec, s, p, fl[i], fields)?;
        let ghost ov = elements_view(out@);
        let ghost mv = elements_view(more@);
        proof {
            let r = spec_sections(dec.state(), s@, p1 as int, fl@, f0, f1, f2, i + 1);
            if let Ok((a, b, c)) = r {
                assert(ov + (mv + c) =~= (ov + mv) + c);
            }
        }
        out.append(&mut more);
        assert(elements_view(out@) =~= ov + mv);
        p = p1;
        i += 1;
    }
    proof {
        assert(elements_view(out@) + Seq::<ElementV>::empty() =~= elements_view(out@));
    }
    Ok((p, out))
}

/// Read a message part at `pos`: its flag bytes, then the values they announce.
fn parse_part(
    dec: &mut AMF3Decoder,
    s: &[u8],
    pos: usize,
    first: &Vec<(u8, String)>,
    second: &Vec<(u8, String)>,
    rest: &Vec<(u8, String)>,
) -> (r: Result<(usize, Vec<Element>), Error>)
    requires
        pos <= s.len(),
        first@.len() <= 7,
        second@.len() <= 7,
        rest@.len() <= 7,
    ensures
        match spec_part(old(dec).state(), s@, pos as int, fields_view(first@), fields_view(second@), fields_view(rest@)) {
            Ok((st, p, els)) => r matches Ok((e, x)) && e == p && elements_view(x@) == els
                && final(dec).state() == st,
            Err(e) => r == Err::<(usize, Vec<Element>), Error>(e),
        },
        r matches Ok((e, _)) ==> pos < e <= s.len(),
        final(dec).state().externals == old(dec).state().externals,
        final(dec).state().objects.len() >= old(dec).state().objects.len(),
    decreases s.len() - pos, 1int, 9int,
{
    let (p1, fl) = parse_flags(s, pos)?;
    parse_sections(dec, s, p1, &fl, first, second, rest)
}

/// Read an abstract message at `pos`.
#[verifier::spinoff_prover]
#[verifier::rlimit(60)]
fn parse_abstract_message(dec: &mut AMF3Decoder, s: &[u8], pos: usize) -> (r: Result<(usize, Vec<Element>), Error>)
    requires
        pos <= s.len(),
    ensures
        match spec_abstract_message(old(dec).state(), s@, pos as int) {
            Ok((st, p, els)) => r matches Ok((e, x)) && e == p && elements_view(x@) == els
                && final(dec).state() == st,
            Err(e) => r == Err::<(usize, Vec<Element>), Error>(e),
        },
        r matches Ok((e, _)) ==> pos < e <= s.len(),
        final(dec).state().externals == old(dec).state().externals,
        final(dec).state().objects.len() >= old(dec).state().objects.len(),
    decreases s.len() - pos, 1int, 10int,
{
    parse_part(dec, s, pos, &abstract_field_list(), &abstract_second_list(), &abstract_rest_list())
}

/// Read an async message at `pos`.
fn parse_async_message(dec: &mut AMF3Decoder, s: &[u8], pos: usize) -> (r: Result<(usize, Vec<Element>), Error>)
    requires
        pos <= s.len(),
    ensures
        match spec_async_message(old(dec).state(), s@, pos as int) {
            Ok((st, p, els)) => r matches Ok((e, x)) && e == p && elements_view(x@) == els
                && final(dec).state() == st,
            Err(e) => r == Err::<(usize, Vec<Element>), Error>(e),
        },
        r matches Ok((e, _)) ==> pos < e <= s.len(),
        final(dec).state().externals == old(dec).state().externals,
        final(dec).state().objects.len() >= old(dec).state().objects.len(),
    decreases s.len() - pos, 1int, 11int,
{
    let (p1, mut elements) = parse_abstract_message(dec, s, pos)?;
    let rest = async_rest_list();
    let (p3, mut more) = parse_part(dec, s, p1, &async_field_list(), &rest, &rest)?;
    let ghost ev = elements_view(elements@);
    let ghost mv = elements_view(more@);
    elements.append(&mut more);
    assert(elements_view(elements@) =~= ev + mv);
    Ok((p3, elements))
}

/// Read an async message followed by one more part, whose first flag byte has the fields
/// `first` and whose further ones `rest`, at `pos`.
fn parse_async_extended(dec: &mut AMF3Decoder, s: &[u8], pos: usize, first: &Vec<(u8, String)>, rest: &Vec<(u8, String)>) -> (r: Result<(usize, Vec<Element>), Error>)
    requires
        pos <= s.len(),
        first@.len() <= 7,
        rest@.len() <= 7,
    ensures
        match spec_async_extended(old(dec).state(), s@, pos as int, fields_view(first@), fields_view(rest@)) {
            Ok((st, p, els)) => r matches Ok((e, x)) && e == p && elements_view(x@) == els
                && final(dec).state() == st,
            Err(e) => r == Err::<(usize, Vec<Element>), Error>(e),
        },
        r matches Ok((e, _)) ==> pos < e <= s.len(),
        final(dec).state().externals == old(dec).state().externals,
        final(dec).state().objects.len() >= old(dec).state().objects.len(),
    decreases s.len() - pos, 1int, 12int,
{
    let (p1, mut elements) = parse_async_message(dec, s, pos)?;
    let (p3, mut more) = parse_part(dec, s, p1, first, rest, rest)?;
    let ghost ev = elements_view(elements@);
    let ghost mv = elements_view(more@);
    elements.append(&mut more);
    assert(elements_view(elements@) =~= ev + mv);
    Ok((p3, elements))
}

/// Read a single value named `name`, at `pos`.
fn parse_single(dec: &mut AMF3Decoder, s: &[u8], pos: usize, name: String) -> (r: Result<(usize, Vec<Element>), Error>)
    requires
        pos <= s.len(),
    ensures
        match spec_single(old(dec).state(), s@, pos as int, name@) {
            Ok((st, p, els)) => r matches Ok((e, x)) && e == p && elements_view(x@) == els
                && final(dec).state() == st,
            Err(e) => r == Err::<(usize, Vec<Element>), Error>(e),
        },
        r matches Ok((e, _)) ==> pos < e <= s.len(),
        final(dec).state().externals == old(dec).state().externals,
        final(dec).state().objects.len() >= old(dec).state().objects.len(),
    decreases s.len() - pos, 1int, 10int,
{
    let (p1, value) = dec.parse_value_at(s, pos)?;
    let ghost ev = ElementV { name: name@, value: value@ };
    let out = vec![Element { name, value }];
    assert(elements_view(out@) =~= seq![ev]);
    Ok((p1, out))
}

/// Read the body of an externalizable object with the decoder `kind`, at `pos`.
#[verifier::spinoff_prover]
#[verifier::rlimit(60)]
pub fn decode_external(dec: &mut AMF3Decoder, s: &[u8], pos: usize, kind: FlexDecoder) -> (r: Result<(usize, Vec<Element>), Error>)
    requires
        pos <= s.len(),
    ensures
        match spec_external(old(dec).state(), s@, pos as int, kind) {
            Ok((st, p, els)) => r matches Ok((e, x)) && e == p && elements_view(x@) == els
                && final(dec).state() == st,
            Err(e) => r == Err::<(usize, Vec<Element>), Error>(e),
        },
        r matches Ok((e, _)) ==> pos <= e <= s.len(),
        final(dec).state().externals == old(dec).state().externals,
        final(dec).state().objects.len() >= old(dec).state().objects.len(),
    decreases s.len() - pos, 1int, 13int,
{
    match kind {
        FlexDecoder::AbstractMessage => parse_abstract_message(dec, s, pos),
        FlexDecoder::AsyncMessage => parse_async_message(dec, s, pos),
        FlexDecoder::AcknowledgeMessage => {
            let f = acknowledge_field_list();
            parse_async_extended(dec, s, pos, &f, &f)
        },
        FlexDecoder::CommandMessage => parse_async_extended(dec, s, pos, &command_field_list(), &command_rest_list()),
        FlexDecoder::ArrayCollection => parse_single(dec, s, pos, "data".to_owned()),
        FlexDecoder::ObjectProxy => parse_single(dec, s, pos, "object".to_owned()),
    }
}

/// The decoder that the flex registrations give the class `name`, if any.
pub open spec fn flex_decoder_for(name: Seq<char>) -> Option<FlexDecoder> {
    if name == "flex.messaging.io.SerializationProxy"@ {
        Some(FlexDecoder::ObjectProxy)
    } else if name == "flex.messaging.io.ManagedObjectProxy"@ {
        Some(FlexDecoder::ObjectProxy)
    } else if name == "flex.messaging.io.ObjectProxy"@ {
        Some(FlexDecoder::ObjectProxy)
    } else if name == "flex.messaging.io.ArrayList"@ {
        Some(FlexDecoder::ArrayCollection)
    } else if name == "flex.messaging.io.ArrayCollection"@ {
        Some(FlexDecoder::ArrayCollection)
    } else if name == "flex.messaging.io.ErrorMessage"@ {
        Some(FlexDecoder::AcknowledgeMessage)
    } else if name == "flex.messaging.io.CommandMessageExt"@ {
        Some(FlexDecoder::CommandMessage)
    } else if name == "flex.messaging.io.CommandMessage"@ {
        Some(FlexDecoder::CommandMessage)
    } else if name == "flex.messaging.io.AcknowledgeMessageExt"@ {
        Some(FlexDecoder::AcknowledgeMessage)
    } else if name == "flex.messaging.io.AcknowledgeMessage"@ {
        Some(FlexDecoder::AcknowledgeMessage)
    } else if name == "flex.messaging.io.AsyncMessageExt"@ {
        Some(FlexDecoder::AsyncMessage)
    } else if name == "flex.messaging.io.AsyncMessage"@ {
        Some(FlexDecoder::AsyncMessage)
    } else if name == "flex.messaging.io.AbstractMessage"@ {
        Some(FlexDecoder::AbstractMessage)
    } else {
        None
    }
}

/// Register the flex decoders into the given AMF3Decoder
pub fn register_decoders(decoder: &mut AMF3Decoder)
    ensures
        forall|n: Seq<char>| #[trigger] lookup_external(final(decoder).state().externals, n) == match flex_decoder_for(n) {
            Some(d) => Some(ExternalDecoder::Flex(d)),
            None => lookup_external(old(decoder).state().externals, n),
        },
        final(decoder).state().strings == old(decoder).state().strings,
        final(decoder).state().traits == old(decoder).state().traits,
        final(decoder).state().objects == old(decoder).state().objects,
        final(decoder).state().object_id == old(decoder).state().object_id,
{
    decoder.register_external("flex.messaging.io.AbstractMessage".to_owned(), ExternalDecoder::Flex(FlexDecoder::AbstractMessage));
    decoder.register_external("flex.messaging.io.AsyncMessage".to_owned(), ExternalDecoder::Flex(FlexDecoder::AsyncMessage));
    decoder.register_external("flex.messaging.io.AsyncMessageExt".to_owned(), ExternalDecoder::Flex(FlexDecoder::AsyncMessage));
    decoder.register_external("flex.messaging.io.AcknowledgeMessage".to_owned(), ExternalDecoder::Flex(FlexDecoder::AcknowledgeMessage));
    decoder.register_external("flex.messaging.io.AcknowledgeMessageExt".to_owned(), ExternalDecoder::Flex(FlexDecoder::AcknowledgeMessage));
    decoder.register_external("flex.messaging.io.CommandMessage".to_owned(), ExternalDecoder::Flex(FlexDecoder::CommandMessage));
    decoder.register_external("flex.messaging.io.CommandMessageExt".to_owned(), ExternalDecoder::Flex(FlexDecoder::CommandMessage));
    decoder.register_external("flex.messaging.io.ErrorMessage".to_owned(), ExternalDecoder::Flex(FlexDecoder::AcknowledgeMessage));
    decoder.register_external("flex.messaging.io.ArrayCollection".to_owned(), ExternalDecoder::Flex(FlexDecoder::ArrayCollection));
    decoder.register_external("flex.messaging.io.ArrayList".to_owned(), ExternalDecoder::Flex(FlexDecoder::ArrayCollection));
    decoder.register_external("flex.messaging.io.ObjectProxy".to_owned(), ExternalDecoder::Flex(FlexDecoder::ObjectProxy));
    decoder.register_external("flex.messaging.io.ManagedObjectProxy".to_owned(), ExternalDecoder::Flex(FlexDecoder::ObjectProxy));
    decoder.register_external("flex.messaging.io.SerializationProxy".to_owned(), ExternalDecoder::Flex(FlexDecoder::ObjectProxy));
}

} // verus!
