//! Encoding of flex types.
use vstd::prelude::*;
use crate::errors::EncodeError;
use crate::types::ElementV;
use crate::decimal::decimal;
use crate::amf3::custom_encoder::{ExternalEncoder, FlexEncoder};
use crate::amf3::write::{AMF3Encoder, Amf3EncState, EncStep, after, enc_value, find_named, find_element, wrote, lemma_wrote, lemma_after_after, lemma_after_empty};
use crate::types::{Element, elements_view};
use crate::extra::flex::read::fields_view;
use crate::decimal::numbered;

verus! {

/// The flag byte and value indices for `fields` from index `i` on: each field whose name some
/// element has sets its bit and contributes the first such element; `flag` holds the bits so far.
pub open spec fn flag_fields(els: Seq<ElementV>, fields: Seq<(u8, Seq<char>)>, i: int, flag: u8) -> (u8, Seq<int>)
    decreases fields.len() - i,
{
    if i < 0 || i >= fields.len() {
        (flag, Seq::empty())
    } else {
        match find_named(els, fields[i].1, 0) {
            Some(j) => {
                let (f, is) = flag_fields(els, fields, i + 1, flag | fields[i].0);
                (f, seq![j] + is)
            },
            None => flag_fields(els, fields, i + 1, flag),
        }
    }
}

/// The further flag bytes and value indices for the numbered children `prefix` followed by
/// `n + base`: bit `n` of the current byte is set while such a child exists; after bit 7 the
/// byte is emitted and the numbering moves on by seven; the first missing child ends the
/// bytes, emitting the current one if any bit is set.
pub open spec fn ext_flags(els: Seq<ElementV>, prefix: Seq<char>, n: int, base: int, flag: u8) -> (Seq<u8>, Seq<int>)
    decreases 0x7fff_fff0 - base, 8 - n,
{
    let last = if flag != 0 { seq![flag] } else { Seq::empty() };
    if n < 0 || n > 7 || base < 0 || base > 0x7fff_ffe9 {
        (last, Seq::empty())
    } else {
        match find_named(els, prefix + decimal((n + base) as nat), 0) {
            None => (last, Seq::empty()),
            Some(j) => {
                let f2 = flag | (1u8 << (n as u8));
                if n + 1 > 7 {
                    let (fs, is) = ext_flags(els, prefix, 0, base + 7, 0);
                    (seq![f2] + fs, seq![j] + is)
                } else {
                    let (fs, is) = ext_flags(els, prefix, n + 1, base, f2);
                    (fs, seq![j] + is)
                }
            },
        }
    }
}

/// The fields of the first flag byte of an abstract message.
pub open spec fn abstract_first() -> Seq<(u8, Seq<char>)> {
    seq![
        (1u8, "body"@), (2u8, "client_id"@), (4u8, "destination"@), (8u8, "headers"@),
        (16u8, "message_id"@), (32u8, "timestamp"@), (64u8, "ttl"@), (64u8, "children_1"@),
    ]
}

/// The fields of the second flag byte of an abstract message.
pub open spec fn abstract_second() -> Seq<(u8, Seq<char>)> {
    seq![
        (1u8, "client_id_bytes"@), (2u8, "message_id_bytes"@), (4u8, "children_2"@),
        (8u8, "children_3"@), (16u8, "children_4"@), (32u8, "children_5"@), (64u8, "children_6"@),
    ]
}

/// The fields of the first flag byte of an async message.
pub open spec fn async_first() -> Seq<(u8, Seq<char>)> {
    seq![
        (1u8, "correlation_id"@), (2u8, "correlation_id_bytes"@), (4u8, "children_async_2"@),
        (8u8, "children_async_3"@), (16u8, "children_async_4"@), (32u8, "children_async_5"@),
        (64u8, "children_async_6"@),
    ]
}

/// The fields of the first flag byte of a command message.
pub open spec fn command_first() -> Seq<(u8, Seq<char>)> {
    seq![
        (1u8, "operation"@), (2u8, "children_command_1"@), (4u8, "children_command_2"@),
        (8u8, "children_command_3"@), (16u8, "children_command_4"@), (32u8, "children_command_5"@),
        (64u8, "children_command_6"@),
    ]
}

/// The flag bytes and value indices of the abstract part of a message.
pub open spec fn abstract_plan(els: Seq<ElementV>) -> (Seq<u8>, Seq<int>) {
    let (f0, i0) = flag_fields(els, abstract_first(), 0, 0);
    let (f1, i1) = flag_fields(els, abstract_second(), 0, 0);
    let (fs, is) = ext_flags(els, "children_"@, 0, 8, 0);
    (seq![f0, f1] + fs, i0 + i1 + is)
}

/// The flag bytes and value indices of the async part of a message.
pub open spec fn async_plan(els: Seq<ElementV>) -> (Seq<u8>, Seq<int>) {
    let (f0, i0) = flag_fields(els, async_first(), 0, 0);
    let (fs, is) = ext_flags(els, "children_async_"@, 0, 7, 0);
    (seq![f0] + fs, i0 + is)
}

/// The flag bytes and value indices of the acknowledge part of a message.
pub open spec fn acknowledge_plan(els: Seq<ElementV>) -> (Seq<u8>, Seq<int>) {
    ext_flags(els, "children_acknowledge_"@, 0, 0, 0)
}

/// The flag bytes and value indices of the command part of a message.
pub open spec fn command_plan(els: Seq<ElementV>) -> (Seq<u8>, Seq<int>) {
    let (f0, i0) = flag_fields(els, command_first(), 0, 0);
    let (fs, is) = ext_flags(els, "children_command_"@, 0, 8, 0);
    (seq![f0] + fs, i0 + is)
}

/// The flag bytes as written: every one but the last with its continuation bit set, the last
/// with it clear.
pub open spec fn marked(fs: Seq<u8>) -> Seq<u8> {
    Seq::new(fs.len(), |i: int| if i + 1 == fs.len() { fs[i] & 0x7fu8 } else { fs[i] | 0x80u8 })
}

/// Writing the values of the elements at the indices `is`, in order.
pub open spec fn enc_indexed(st: Amf3EncState, els: Seq<ElementV>, is: Seq<int>) -> EncStep
    decreases els, 1int, is.len(),
{
    if is.len() == 0 {
        Ok((st, Seq::empty()))
    } else if 0 <= is[0] < els.len() {
        match enc_value(st, els[is[0]].value) {
            Err(e) => Err(e),
            Ok((st1, b1)) => after(b1, enc_indexed(st1, els, is.drop_first())),
        }
    } else {
        Err(EncodeError::NoExternalElements)
    }
}

/// Writing a message part planned as `plan`: its flag bytes, then its values.
pub open spec fn enc_part(st: Amf3EncState, els: Seq<ElementV>, plan: (Seq<u8>, Seq<int>)) -> EncStep
    decreases els, 2int, 0int,
{
    after(marked(plan.0), enc_indexed(st, els, plan.1))
}

/// Writing an abstract message.
pub open spec fn enc_abstract(st: Amf3EncState, els: Seq<ElementV>) -> EncStep
    decreases els, 3int, 0int,
{
    enc_part(st, els, abstract_plan(els))
}

/// Writing an async message: the abstract part, then the async part.
pub open spec fn enc_async(st: Amf3EncState, els: Seq<ElementV>) -> EncStep
    decreases els, 4int, 0int,
{
    match enc_abstract(st, els) {
        Err(e) => Err(e),
        Ok((st1, b1)) => after(b1, enc_part(st1, els, async_plan(els))),
    }
}

/// Writing a message that extends an async message with one more part planned as `plan`.
pub open spec fn enc_async_extended(st: Amf3EncState, els: Seq<ElementV>, plan: (Seq<u8>, Seq<int>)) -> EncStep
    decreases els, 5int, 0int,
{
    match enc_async(st, els) {
        Err(e) => Err(e),
        Ok((st1, b1)) => after(b1, enc_part(st1, els, plan)),
    }
}

/// Writing the external elements `els` of a value with the encoder `kind`.
pub open spec fn spec_flex_encode(st: Amf3EncState, els: Seq<ElementV>, kind: FlexEncoder) -> EncStep
    decreases els, 6int, 0int,
{
    match kind {
        FlexEncoder::ArrayCollection | FlexEncoder::ObjectProxy => {
            if els.len() == 0 {
                Err(EncodeError::NoExternalElements)
            } else {
                enc_value(st, els[0].value)
            }
        },
        FlexEncoder::AbstractMessage => enc_abstract(st, els),
        FlexEncoder::AsyncMessage => enc_async(st, els),
        FlexEncoder::AcknowledgeMessage => enc_async_extended(st, els, acknowledge_plan(els)),
        FlexEncoder::CommandMessage => enc_async_extended(st, els, command_plan(els)),
    }
}

} // verus!

verus! {

/// The indices of a list of element positions.
pub open spec fn idx_view(v: Seq<usize>) -> Seq<int> {
    v.map_values(|x: usize| x as int)
}

/// The fields of the first flag byte of an abstract message.
fn abstract_first_list() -> (r: Vec<(u8, String)>)
    ensures
        fields_view(r@) == abstract_first(),
{
    let r = vec![
        (1u8, "body".to_owned()), (2u8, "client_id".to_owned()), (4u8, "destination".to_owned()),
        (8u8, "headers".to_owned()), (16u8, "message_id".to_owned()), (32u8, "timestamp".to_owned()),
        (64u8, "ttl".to_owned()), (64u8, "children_1".to_owned()),
    ];
    assert(fields_view(r@) =~= abstract_first());
    r
}

/// The fields of the second flag byte of an abstract message.
fn abstract_second_list() -> (r: Vec<(u8, String)>)
    ensures
        fields_view(r@) == abstract_second(),
{
    let r = vec![
        (1u8, "client_id_bytes".to_owned()), (2u8, "message_id_bytes".to_owned()),
        (4u8, "children_2".to_owned()), (8u8, "children_3".to_owned()), (16u8, "children_4".to_owned()),
        (32u8, "children_5".to_owned()), (64u8, "children_6".to_owned()),
    ];
    assert(fields_view(r@) =~= abstract_second());
    r
}

/// The fields of the first flag byte of an async message.
fn async_first_list() -> (r: Vec<(u8, String)>)
    ensures
        fields_view(r@) == async_first(),
{
    let r = vec![
        (1u8, "correlation_id".to_owned()), (2u8, "correlation_id_bytes".to_owned()),
        (4u8, "children_async_2".to_owned()), (8u8, "children_async_3".to_owned()),
        (16u8, "children_async_4".to_owned()), (32u8, "children_async_5".to_owned()),
        (64u8, "children_async_6".to_owned()),
    ];
    assert(fields_view(r@) =~= async_first());
    r
}

/// The fields of the first flag byte of a command message.
fn command_first_list() -> (r: Vec<(u8, String)>)
    ensures
        fields_view(r@) == command_first(),
{
    let r = vec![
        (1u8, "operation".to_owned()), (2u8, "children_command_1".to_owned()),
        (4u8, "children_command_2".to_owned()), (8u8, "children_command_3".to_owned()),
        (16u8, "children_command_4".to_owned()), (32u8, "children_command_5".to_owned()),
        (64u8, "children_command_6".to_owned()),
    ];
    assert(fields_view(r@) =~= command_first());
    r
}

/// The flag byte and value indices for `fields`.
fn field_flags(els: &Vec<Element>, fields: &Vec<(u8, String)>) -> (r: (u8, Vec<usize>))
    ensures
        (r.0, idx_view(r.1@)) == flag_fields(elements_view(els@), fields_view(fields@), 0, 0),
        forall|k: int| 0 <= k < r.1@.len() ==> #[trigger] r.1@[k] < els@.len(),
{
    let ghost ev = elements_view(els@);
    let ghost fv = fields_view(fields@);
    let mut flag: u8 = 0;
    let mut idxs: Vec<usize> = Vec::new();
    let mut i: usize = 0;
    proof {
        let (f, is) = flag_fields(ev, fv, 0, 0);
        assert(idx_view(idxs@) + is =~= is);
    }
    while i < fields.len()
        invariant
            i <= fields@.len(),
            ev == elements_view(els@),
            fv == fields_view(fields@),
            forall|k: int| 0 <= k < idxs@.len() ==> #[trigger] idxs@[k] < els@.len(),
            flag_fields(ev, fv, 0, 0) == ({
                let (f, is) = flag_fields(ev, fv, i as int, flag);
                (f, idx_view(idxs@) + is)
            }),
        decreases fields.len() - i,
    {
        match find_element(els, &fields[i].1) {
            Some(j) => {
                let ghost before = idx_view(idxs@);
                flag = flag | fields[i].0;
                idxs.push(j);
                proof {
                    let (f, is) = flag_fields(ev, fv, i + 1, flag);
                    assert(idx_view(idxs@) =~= before.push(j as int));
                    assert(before + (seq![j as int] + is) =~= idx_view(idxs@) + is);
                }
            },
            None => {},
        }
        i += 1;
    }
    proof {
        assert(idx_view(idxs@) + Seq::<int>::empty() =~= idx_view(idxs@));
    }
    (flag, idxs)
}

/// The further flag bytes and value indices for the numbered children `prefix` followed by
/// numbers from `base0` on.
fn extension_flags(els: &Vec<Element>, prefix: &str, base0: u64) -> (r: (Vec<u8>, Vec<usize>))
    requires
        base0 <= 8,
    ensures
        (r.0@, idx_view(r.1@)) == ext_flags(elements_view(els@), prefix@, 0, base0 as int, 0),
        forall|k: int| 0 <= k < r.1@.len() ==> #[trigger] r.1@[k] < els@.len(),
{
    let ghost ev = elements_view(els@);
    let mut flags: Vec<u8> = Vec::new();
    let mut idxs: Vec<usize> = Vec::new();
    let mut n: u64 = 0;
    let mut base: u64 = base0;
    let mut flag: u8 = 0;
    proof {
        let (fs, is) = ext_flags(ev, prefix@, 0, base0 as int, 0);
        assert(flags@ + fs =~= fs);
        assert(idx_view(idxs@) + is =~= is);
    }
    loop
        invariant_except_break
            n <= 7,
            base <= 0x7fff_fff0,
            ext_flags(ev, prefix@, 0, base0 as int, 0) == ({
                let (fs, is) = ext_flags(ev, prefix@, n as int, base as int, flag);
                (flags@ + fs, idx_view(idxs@) + is)
            }),
        invariant
            ev == elements_view(els@),
            forall|k: int| 0 <= k < idxs@.len() ==> #[trigger] idxs@[k] < els@.len(),
        ensures
            ext_flags(ev, prefix@, 0, base0 as int, 0) == (flags@, idx_view(idxs@)),
        decreases 0x7fff_fff0 - base, 8 - n,
    {
        let ghost last = if flag != 0 { seq![flag] } else { Seq::<u8>::empty() };
        let ghost f0 = flags@;
        if base > 0x7fff_ffe9 {
            if flag != 0 {
                flags.push(flag);
            }
            proof {
                assert(ext_flags(ev, prefix@, n as int, base as int, flag) == (last, Seq::<int>::empty()));
                assert(flags@ =~= f0 + last);
                assert(idx_view(idxs@) + Seq::<int>::empty() =~= idx_view(idxs@));
            }
            break;
        }
        let name = numbered(prefix, n + base);
        match find_element(els, &name) {
            None => {
                if flag != 0 {
                    flags.push(flag);
                }
                proof {
                    assert(ext_flags(ev, prefix@, n as int, base as int, flag) == (last, Seq::<int>::empty()));
                    assert(flags@ =~= f0 + last);
                    assert(idx_view(idxs@) + Seq::<int>::empty() =~= idx_view(idxs@));
                }
                break;
            },
            Some(j) => {
                let ghost before = idx_view(idxs@);
                let f2 = flag | (1u8 << (n as u8));
                idxs.push(j);
                proof {
                    assert(idx_view(idxs@) =~= before.push(j as int));
                }
                if n + 1 > 7 {
                    flags.push(f2);
                    proof {
                        let (fs, is) = ext_flags(ev, prefix@, 0, base + 7, 0);
                        assert(f0 + (seq![f2] + fs) =~= flags@ + fs);
                        assert(before + (seq![j as int] + is) =~= idx_view(idxs@) + is);
                    }
                    n = 0;
                    base = base + 7;
                    flag = 0;
                } else {
                    proof {
                        let (fs, is) = ext_flags(ev, prefix@, n + 1, base as int, f2);
                        assert(before + (seq![j as int] + is) =~= idx_view(idxs@) + is);
                    }
                    n = n + 1;
                    flag = f2;
                }
            },
        }
    }
    (flags, idxs)
}

/// Append flag bytes, every one with its continuation bit set.
fn write_flags(out: &mut Vec<u8>, fs: &Vec<u8>)
    ensures
        final(out)@ == old(out)@ + marked(fs@),
{
    let mut i: usize = 0;
    while i < fs.len()
        invariant
            i <= fs@.len(),
            out@ == old(out)@ + marked(fs@).subrange(0, i as int),
        decreases fs.len() - i,
    {
        let b = if i + 1 == fs.len() { fs[i] & 0x7f } else { fs[i] | 0x80 };
        proof {
            assert(marked(fs@).subrange(0, i + 1) =~= marked(fs@).subrange(0, i as int).push(b));
        }
        out.push(b);
        i += 1;
    }
    assert(marked(fs@).subrange(0, i as int) =~= marked(fs@));
}

/// One step of writing indexed values.
pub proof fn lemma_indexed_step(st: Amf3EncState, els: Seq<ElementV>, is: Seq<int>)
    requires
        is.len() > 0,
        0 <= is[0] < els.len(),
    ensures
        enc_indexed(st, els, is) == match enc_value(st, els[is[0]].value) {
            Err(e) => Err(e),
            Ok((st1, b1)) => after(b1, enc_indexed(st1, els, is.drop_first())),
        },
{
}

/// Write the values of the elements at the indices `is`, in order.
fn write_indexed(enc: &mut AMF3Encoder, out: &mut Vec<u8>, els: &Vec<Element>, is: &Vec<usize>) -> (r: Result<(), EncodeError>)
    ensures
        wrote(r, enc_indexed(old(enc).state(), elements_view(els@), idx_view(is@)), final(enc).state(), final(out)@, old(out)@),
    decreases els, 1int, is@.len(),
{
    let ghost ev = elements_view(els@);
    let ghost all = idx_view(is@);
    let ghost st0 = enc.state();
    let ghost o = old(out)@;
    let ghost mut b: Seq<u8> = Seq::empty();
    proof {
        assert(all.subrange(0, all.len() as int) =~= all);
        lemma_after_empty(enc_indexed(st0, ev, all));
    }
    let mut k: usize = 0;
    while k < is.len()
        invariant
            k <= is@.len(),
            ev == elements_view(els@),
            all == idx_view(is@),
            out@ == o + b,
            o == old(out)@,
            st0 == old(enc).state(),
            enc_indexed(st0, ev, all) == after(b, enc_indexed(enc.state(), ev, all.subrange(k as int, all.len() as int))),
        decreases is.len() - k,
    {
        let ghost sub = all.subrange(k as int, all.len() as int);
        let ghost ob = out@;
        proof {
            assert(sub[0] == is@[k as int] as int);
            assert(sub.drop_first() =~= all.subrange(k + 1, all.len() as int));
        }
        let i = is[k];
        if i >= els.len() {
            return Err(EncodeError::NoExternalElements);
        }
        proof {
            assert(decreases_to!(els => els@[i as int]));
        }
        let ghost cur = enc.state();
        let rr = enc.write_value_element(out, &els[i].value);
        proof {
            lemma_wrote(rr, enc_value(cur, ev[i as int].value), enc.state(), out@, ob);
            lemma_indexed_step(cur, ev, sub);
        }
        if let Err(e) = rr {
            return Err(e);
        }
        proof {
            let b1 = out@.subrange(ob.len() as int, out@.len() as int);
            lemma_after_after(b, b1, enc_indexed(enc.state(), ev, all.subrange(k + 1, all.len() as int)));
            b = b + b1;
            assert(out@ =~= o + b);
        }
        k += 1;
    }
    proof {
        assert(all.subrange(k as int, all.len() as int).len() == 0);
        assert(b =~= b + Seq::<u8>::empty());
    }
    Ok(())
}

/// Write a message part: its flag bytes, then the values of the elements at the indices `is`.
fn write_part(enc: &mut AMF3Encoder, out: &mut Vec<u8>, els: &Vec<Element>, fs: &Vec<u8>, is: &Vec<usize>) -> (r: Result<(), EncodeError>)
    ensures
        wrote(r, enc_part(old(enc).state(), elements_view(els@), (fs@, idx_view(is@))), final(enc).state(), final(out)@, old(out)@),
    decreases els, 2int, 0int,
{
    let ghost o = old(out)@;
    write_flags(out, fs);
    let ghost o1 = out@;
    let ghost st = enc.state();
    let rr = write_indexed(enc, out, els, is);
    proof {
        lemma_wrote(rr, enc_indexed(st, elements_view(els@), idx_view(is@)), enc.state(), out@, o1);
    }
    if let Err(e) = rr {
        return Err(e);
    }
    proof {
        let b1 = out@.subrange(o1.len() as int, out@.len() as int);
        assert(out@ =~= o + (marked(fs@) + b1));
    }
    Ok(())
}

/// Write an abstract message.
fn write_abstract_message(enc: &mut AMF3Encoder, out: &mut Vec<u8>, els: &Vec<Element>) -> (r: Result<(), EncodeError>)
    ensures
        wrote(r, enc_abstract(old(enc).state(), elements_view(els@)), final(enc).state(), final(out)@, old(out)@),
    decreases els, 3int, 0int,
{
    let ghost ev = elements_view(els@);
    let (f0, mut i0) = field_flags(els, &abstract_first_list());
    let (f1, mut i1) = field_flags(els, &abstract_second_list());
    let (mut fs, mut is) = extension_flags(els, "children_", 8);
    let ghost v0 = idx_view(i0@);
    let ghost v1 = idx_view(i1@);
    let ghost vs = idx_view(is@);
    let ghost fsv = fs@;
    let mut flags = vec![f0, f1];
    flags.append(&mut fs);
    i0.append(&mut i1);
    i0.append(&mut is);
    proof {
        assert(flags@ =~= seq![f0, f1] + fsv);
        assert(idx_view(i0@) =~= v0 + v1 + vs);
    }
    write_part(enc, out, els, &flags, &i0)
}

/// Write an async message: the abstract part, then the async part.
fn write_async_message(enc: &mut AMF3Encoder, out: &mut Vec<u8>, els: &Vec<Element>) -> (r: Result<(), EncodeError>)
    ensures
        wrote(r, enc_async(old(enc).state(), elements_view(els@)), final(enc).state(), final(out)@, old(out)@),
    decreases els, 4int, 0int,
{
    let ghost o = old(out)@;
    let (f0, mut i0) = field_flags(els, &async_first_list());
    let (mut fs, mut is) = extension_flags(els, "children_async_", 7);
    let ghost v0 = idx_view(i0@);
    let ghost vs = idx_view(is@);
    let ghost fsv = fs@;
    let mut flags = vec![f0];
    flags.append(&mut fs);
    i0.append(&mut is);
    proof {
        assert(flags@ =~= seq![f0] + fsv);
        assert(idx_view(i0@) =~= v0 + vs);
    }
    let ghost st0 = enc.state();
    let rr = write_abstract_message(enc, out, els);
    proof {
        lemma_wrote(rr, enc_abstract(st0, elements_view(els@)), enc.state(), out@, o);
    }
    if let Err(e) = rr {
        return Err(e);
    }
    let ghost o1 = out@;
    let ghost st1 = enc.state();
    let rr2 = write_part(enc, out, els, &flags, &i0);
    proof {
        lemma_wrote(rr2, enc_part(st1, elements_view(els@), (flags@, idx_view(i0@))), enc.state(), out@, o1);
    }
    if let Err(e) = rr2 {
        return Err(e);
    }
    proof {
        let b1 = o1.subrange(o.len() as int, o1.len() as int);
        let b2 = out@.subrange(o1.len() as int, out@.len() as int);
        assert(out@ =~= o + (b1 + b2));
    }
    Ok(())
}

/// Write an async message followed by one more part with flag bytes `fs` and values at `is`.
fn write_async_extended(enc: &mut AMF3Encoder, out: &mut Vec<u8>, els: &Vec<Element>, fs: &Vec<u8>, is: &Vec<usize>) -> (r: Result<(), EncodeError>)
    ensures
        wrote(r, enc_async_extended(old(enc).state(), elements_view(els@), (fs@, idx_view(is@))), final(enc).state(), final(out)@, old(out)@),
    decreases els, 5int, 0int,
{
    let ghost o = old(out)@;
    let ghost st0 = enc.state();
    let rr = write_async_message(enc, out, els);
    proof {
        lemma_wrote(rr, enc_async(st0, elements_view(els@)), enc.state(), out@, o);
    }
    if let Err(e) = rr {
        return Err(e);
    }
    let ghost o1 = out@;
    let ghost st1 = enc.state();
    let rr2 = write_part(enc, out, els, fs, is);
    proof {
        lemma_wrote(rr2, enc_part(st1, elements_view(els@), (fs@, idx_view(is@))), enc.state(), out@, o1);
    }
    if let Err(e) = rr2 {
        return Err(e);
    }
    proof {
        let b1 = o1.subrange(o.len() as int, o1.len() as int);
        let b2 = out@.subrange(o1.len() as int, out@.len() as int);
        assert(out@ =~= o + (b1 + b2));
    }
    Ok(())
}

/// Write the external elements `els` of a value with the encoder `kind`.
pub fn flex_encode(enc: &mut AMF3Encoder, out: &mut Vec<u8>, els: &Vec<Element>, kind: FlexEncoder) -> (r: Result<(), EncodeError>)
    ensures
        wrote(r, spec_flex_encode(old(enc).state(), elements_view(els@), kind), final(enc).state(), final(out)@, old(out)@),
    decreases els, 6int, 0int,
{
    match kind {
        FlexEncoder::ArrayCollection | FlexEncoder::ObjectProxy => {
            if els.len() == 0 {
                return Err(EncodeError::NoExternalElements);
            }
            proof {
                assert(decreases_to!(els => els@[0]));
            }
            enc.write_value_element(out, &els[0].value)
        },
        FlexEncoder::AbstractMessage => write_abstract_message(enc, out, els),
        FlexEncoder::AsyncMessage => write_async_message(enc, out, els),
        FlexEncoder::AcknowledgeMessage => {
            let (fs, is) = extension_flags(els, "children_acknowledge_", 0);
            write_async_extended(enc, out, els, &fs, &is)
        },
        FlexEncoder::CommandMessage => {
            let (f0, mut i0) = field_flags(els, &command_first_list());
            let (mut fs, mut is) = extension_flags(els, "children_command_", 8);
            let ghost v0 = idx_view(i0@);
            let ghost vs = idx_view(is@);
            let ghost fsv = fs@;
            let mut flags = vec![f0];
            flags.append(&mut fs);
            i0.append(&mut is);
            proof {
                assert(flags@ =~= seq![f0] + fsv);
                assert(idx_view(i0@) =~= v0 + vs);
            }
            write_async_extended(enc, out, els, &flags, &i0)
        },
    }
}

/// Register the flex encoders into the given AMF3Encoder
pub fn register_encoders(encoder: &mut AMF3Encoder)
    ensures
        final(encoder).state() == (Amf3EncState {
            externals: old(encoder).state().externals + flex_registrations(),
            ..old(encoder).state()
        }),
{
    let ghost st0 = encoder.state();
    encoder.register_external("flex.messaging.io.ArrayCollection".to_owned(), ExternalEncoder::Flex(FlexEncoder::ArrayCollection));
    encoder.register_external("flex.messaging.io.ArrayList".to_owned(), ExternalEncoder::Flex(FlexEncoder::ArrayCollection));
    encoder.register_external("flex.messaging.io.AbstractMessage".to_owned(), ExternalEncoder::Flex(FlexEncoder::AbstractMessage));
    encoder.register_external("flex.messaging.io.AsyncMessage".to_owned(), ExternalEncoder::Flex(FlexEncoder::AsyncMessage));
    encoder.register_external("flex.messaging.io.AsyncMessageExt".to_owned(), ExternalEncoder::Flex(FlexEncoder::AsyncMessage));
    encoder.register_external("flex.messaging.io.AcknowledgeMessage".to_owned(), ExternalEncoder::Flex(FlexEncoder::AcknowledgeMessage));
    encoder.register_external("flex.messaging.io.AcknowledgeMessageExt".to_owned(), ExternalEncoder::Flex(FlexEncoder::AcknowledgeMessage));
    encoder.register_external("flex.messaging.io.CommandMessage".to_owned(), ExternalEncoder::Flex(FlexEncoder::CommandMessage));
    encoder.register_external("flex.messaging.io.CommandMessageExt".to_owned(), ExternalEncoder::Flex(FlexEncoder::CommandMessage));
    encoder.register_external("flex.messaging.io.ErrorMessage".to_owned(), ExternalEncoder::Flex(FlexEncoder::AcknowledgeMessage));
    encoder.register_external("flex.messaging.io.ObjectProxy".to_owned(), ExternalEncoder::Flex(FlexEncoder::ObjectProxy));
    encoder.register_external("flex.messaging.io.ManagedObjectProxy".to_owned(), ExternalEncoder::Flex(FlexEncoder::ObjectProxy));
    encoder.register_external("flex.messaging.io.SerializationProxy".to_owned(), ExternalEncoder::Flex(FlexEncoder::ObjectProxy));
    assert(encoder.state().externals =~= st0.externals + flex_registrations());
}

/// The encoders the flex registrations add, in the order they are added.
pub open spec fn flex_registrations() -> Seq<(Seq<char>, ExternalEncoder)> {
    seq![
        ("flex.messaging.io.ArrayCollection"@, ExternalEncoder::Flex(FlexEncoder::ArrayCollection)),
        ("flex.messaging.io.ArrayList"@, ExternalEncoder::Flex(FlexEncoder::ArrayCollection)),
        ("flex.messaging.io.AbstractMessage"@, ExternalEncoder::Flex(FlexEncoder::AbstractMessage)),
        ("flex.messaging.io.AsyncMessage"@, ExternalEncoder::Flex(FlexEncoder::AsyncMessage)),
        ("flex.messaging.io.AsyncMessageExt"@, ExternalEncoder::Flex(FlexEncoder::AsyncMessage)),
        ("flex.messaging.io.AcknowledgeMessage"@, ExternalEncoder::Flex(FlexEncoder::AcknowledgeMessage)),
        ("flex.messaging.io.AcknowledgeMessageExt"@, ExternalEncoder::Flex(FlexEncoder::AcknowledgeMessage)),
        ("flex.messaging.io.CommandMessage"@, ExternalEncoder::Flex(FlexEncoder::CommandMessage)),
        ("flex.messaging.io.CommandMessageExt"@, ExternalEncoder::Flex(FlexEncoder::CommandMessage)),
        ("flex.messaging.io.ErrorMessage"@, ExternalEncoder::Flex(FlexEncoder::AcknowledgeMessage)),
        ("flex.messaging.io.ObjectProxy"@, ExternalEncoder::Flex(FlexEncoder::ObjectProxy)),
        ("flex.messaging.io.ManagedObjectProxy"@, ExternalEncoder::Flex(FlexEncoder::ObjectProxy)),
        ("flex.messaging.io.SerializationProxy"@, ExternalEncoder::Flex(FlexEncoder::ObjectProxy)),
    ]
}

} // verus!
