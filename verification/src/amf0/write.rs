//! Encoding of AMF0 data.
use vstd::prelude::*;
use crate::bytes::{be16, be32, be64, push_u8, push_u16, push_u32, push_u64, push_str, str_bytes, str_len};
use crate::errors::EncodeError;
use crate::types::{Element, ElementV, Value, ValueV, elements_view, lemma_value_view_parts, values_view};
use crate::decimal::{decimal, decimal_string};
use crate::amf3::write::{AMF3Encoder, enc_value, lemma_wrote};

verus! {

/// One AMF0 encoding step: the bytes written.
pub type Enc0 = Result<Seq<u8>, EncodeError>;

/// The step `r` with `b` written before its bytes.
pub open spec fn after0(b: Seq<u8>, r: Enc0) -> Enc0 {
    match r {
        Ok(bs) => Ok(b + bs),
        Err(e) => Err(e),
    }
}

/// A string with a big-endian `u16` length, the length cut to 16 bits.
pub open spec fn enc0_string(s: Seq<char>) -> Seq<u8> {
    be16((str_bytes(s).len() % 65536) as u16) + str_bytes(s)
}

/// A string with a big-endian `u32` length, the length cut to 32 bits.
pub open spec fn enc0_long_string(s: Seq<char>) -> Seq<u8> {
    be32((str_bytes(s).len() % 0x1_0000_0000) as u32) + str_bytes(s)
}

/// The end of an object's properties: an empty name and the object-end marker.
pub open spec fn object_end() -> Seq<u8> {
    seq![0u8, 0u8, 0x09u8]
}

/// Writing one value in AMF0. Values that AMF0 cannot hold are written as unsupported; an
/// embedded AMF3 value is written with a fresh AMF3 encoder.
pub open spec fn enc0_value(v: ValueV) -> Enc0
    decreases v, 1int, 0int,
{
    match v {
        ValueV::Number(x) => Ok(seq![0x00u8] + be64(x)),
        ValueV::Bool(b) => Ok(seq![0x01u8, if b { 1u8 } else { 0u8 }]),
        ValueV::String(s) => if str_bytes(s).len() > 65535 {
            Ok(seq![0x0cu8] + enc0_long_string(s))
        } else {
            Ok(seq![0x02u8] + enc0_string(s))
        },
        ValueV::Object { elements, class_definition, .. } => match class_definition {
            Some(c) => after0(seq![0x10u8] + enc0_string(c.name), match enc0_elements(elements) {
                Ok(b) => Ok(b + object_end()),
                Err(e) => Err(e),
            }),
            None => after0(seq![0x03u8], match enc0_elements(elements) {
                Ok(b) => Ok(b + object_end()),
                Err(e) => Err(e),
            }),
        },
        ValueV::Null => Ok(seq![0x05u8]),
        ValueV::Undefined => Ok(seq![0x06u8]),
        ValueV::StrictArray { values, .. } => after0(
            seq![0x0au8] + be32((values.len() % 0x1_0000_0000) as u32),
            enc0_values(values),
        ),
        ValueV::Date { time, timezone_or_utc } => Ok(seq![0x0bu8] + be64(time) + be16(
            match timezone_or_utc {
                Some(z) => z,
                None => 0u16,
            },
        )),
        ValueV::Unsupported => Ok(seq![0x0du8]),
        ValueV::XML { value, .. } => Ok(seq![0x0fu8] + enc0_long_string(value)),
        ValueV::ECMAArray { dense, elements, length, .. } => after0(
            seq![0x08u8] + be32(length),
            match enc0_dense(dense, 0) {
                Err(e) => Err(e),
                Ok(b1) => after0(b1, match enc0_elements(elements) {
                    Ok(b) => Ok(b + object_end()),
                    Err(e) => Err(e),
                }),
            },
        ),
        ValueV::AMF3(e) => match enc_value(crate::amf3::write::AMF3Encoder::new_state(), *e) {
            Ok((_, b)) => Ok(seq![0x11u8] + b),
            Err(err) => Err(err),
        },
        ValueV::Reference(r) => Ok(seq![0x07u8] + be16(r)),
        _ => Ok(seq![0x0du8]),
    }
}

/// Writing values one after the other.
pub open spec fn enc0_values(vs: Seq<ValueV>) -> Enc0
    decreases vs, 0int, 0int,
{
    if vs.len() == 0 {
        Ok(Seq::empty())
    } else {
        match enc0_value(vs[0]) {
            Err(e) => Err(e),
            Ok(b) => after0(b, enc0_values(vs.subrange(1, vs.len() as int))),
        }
    }
}

/// Writing the dense part of an ECMA array from index `i` on: each value named by its index.
pub open spec fn enc0_dense(vs: Seq<ValueV>, i: int) -> Enc0
    decreases vs, 0int, vs.len() - i,
{
    if i < 0 || i >= vs.len() {
        Ok(Seq::empty())
    } else {
        match enc0_value(vs[i]) {
            Err(e) => Err(e),
            Ok(b) => after0(enc0_string(decimal(i as nat)) + b, enc0_dense(vs, i + 1)),
        }
    }
}

/// Writing named elements one after the other: each name, then its value.
pub open spec fn enc0_elements(els: Seq<ElementV>) -> Enc0
    decreases els, 0int, 0int,
{
    if els.len() == 0 {
        Ok(Seq::empty())
    } else {
        match enc0_value(els[0].value) {
            Err(e) => Err(e),
            Ok(b) => after0(enc0_string(els[0].name) + b, enc0_elements(els.subrange(1, els.len() as int))),
        }
    }
}

/// Writing an AMF0 body: each element followed by a padding byte.
pub open spec fn enc0_body(els: Seq<ElementV>) -> Enc0
    decreases els.len(),
{
    if els.len() == 0 {
        Ok(Seq::empty())
    } else {
        match enc0_value(els[0].value) {
            Err(e) => Err(e),
            Ok(b) => after0(enc0_string(els[0].name) + b + seq![0u8], enc0_body(els.drop_first())),
        }
    }
}

/// The result `r` of a write, and the output `o1` after it and `o0` before it, agree with the
/// encoding step `step`.
pub open spec fn wrote0(r: Result<(), EncodeError>, step: Enc0, o1: Seq<u8>, o0: Seq<u8>) -> bool {
    match step {
        Ok(b) => r is Ok && o1 == o0 + b,
        Err(e) => r == Err::<(), EncodeError>(e),
    }
}

/// What a write's outcome tells of its encoding step.
pub proof fn lemma_wrote0(r: Result<(), EncodeError>, step: Enc0, o1: Seq<u8>, o0: Seq<u8>)
    requires
        wrote0(r, step, o1, o0),
    ensures
        r is Ok ==> o0.len() <= o1.len() && o1 =~= o0 + o1.subrange(o0.len() as int, o1.len() as int)
            && step == Ok::<Seq<u8>, EncodeError>(o1.subrange(o0.len() as int, o1.len() as int)),
        r matches Err(e) ==> step == Err::<Seq<u8>, EncodeError>(e),
{
    if let Ok(b) = step {
        assert(o1.subrange(o0.len() as int, o1.len() as int) =~= b);
    }
}

/// Writing `b1` and then `r` after `b` is writing `b + b1` and then `r`.
pub proof fn lemma_after0_after0(b: Seq<u8>, b1: Seq<u8>, r: Enc0)
    ensures
        after0(b, after0(b1, r)) == after0(b + b1, r),
{
    if let Ok(bs) = r {
        assert(b + (b1 + bs) =~= (b + b1) + bs);
    }
}

/// Writing nothing before `r` is `r`.
pub proof fn lemma_after0_empty(r: Enc0)
    ensures
        after0(Seq::empty(), r) == r,
{
    if let Ok(bs) = r {
        assert(Seq::<u8>::empty() + bs =~= bs);
    }
}

} // verus!

verus! {

/// Append a string with a big-endian `u16` length, the length cut to 16 bits.
pub fn write_string(out: &mut Vec<u8>, s: &str)
    ensures
        final(out)@ == old(out)@ + enc0_string(s@),
{
    let n = str_len(s);
    push_u16(out, (n % 65536) as u16);
    push_str(out, s);
    assert(final(out)@ =~= old(out)@ + enc0_string(s@));
}

/// Append a string with a big-endian `u32` length, the length cut to 32 bits.
fn write_long_string(out: &mut Vec<u8>, s: &str)
    ensures
        final(out)@ == old(out)@ + enc0_long_string(s@),
{
    let n = str_len(s);
    push_u32(out, (n as u64 % 0x1_0000_0000) as u32);
    push_str(out, s);
    assert(final(out)@ =~= old(out)@ + enc0_long_string(s@));
}

/// Write values one after the other.
fn write_values(out: &mut Vec<u8>, vs: &Vec<Value>) -> (r: Result<(), EncodeError>)
    ensures
        wrote0(r, enc0_values(values_view(vs@)), final(out)@, old(out)@),
    decreases vs, 0int, 0int,
{
    let ghost all = values_view(vs@);
    let ghost o = old(out)@;
    let ghost mut b: Seq<u8> = Seq::empty();
    proof {
        assert(all.subrange(0, all.len() as int) =~= all);
        lemma_after0_empty(enc0_values(all));
    }
    let mut i: usize = 0;
    while i < vs.len()
        invariant
            i <= vs@.len(),
            all == values_view(vs@),
            o == old(out)@,
            out@ == o + b,
            enc0_values(all) == after0(b, enc0_values(all.subrange(i as int, all.len() as int))),
        decreases vs.len() - i,
    {
        let ghost sub = all.subrange(i as int, all.len() as int);
        let ghost ob = out@;
        proof {
            assert(decreases_to!(vs => vs@[i as int]));
            assert(sub[0] == vs@[i as int]@);
            assert(sub.subrange(1, sub.len() as int) =~= all.subrange(i + 1, all.len() as int));
        }
        let rr = write_value(out, &vs[i]);
        proof {
            lemma_wrote0(rr, enc0_value(sub[0]), out@, ob);
        }
        if let Err(e) = rr {
            return Err(e);
        }
        proof {
            let b1 = out@.subrange(ob.len() as int, out@.len() as int);
            lemma_after0_after0(b, b1, enc0_values(all.subrange(i + 1, all.len() as int)));
            b = b + b1;
            assert(out@ =~= o + b);
        }
        i += 1;
    }
    proof {
        assert(b =~= b + Seq::<u8>::empty());
    }
    Ok(())
}

/// Write the dense part of an ECMA array: each value named by its index.
fn write_dense(out: &mut Vec<u8>, vs: &Vec<Value>) -> (r: Result<(), EncodeError>)
    ensures
        wrote0(r, enc0_dense(values_view(vs@), 0), final(out)@, old(out)@),
    decreases vs, 0int, vs@.len(),
{
    let ghost all = values_view(vs@);
    let ghost o = old(out)@;
    let ghost mut b: Seq<u8> = Seq::empty();
    proof {
        lemma_after0_empty(enc0_dense(all, 0));
    }
    let mut i: usize = 0;
    while i < vs.len()
        invariant
            i <= vs@.len(),
            all == values_view(vs@),
            o == old(out)@,
            out@ == o + b,
            enc0_dense(all, 0) == after0(b, enc0_dense(all, i as int)),
        decreases vs.len() - i,
    {
        let ghost ob = out@;
        proof {
            assert(decreases_to!(vs => vs@[i as int]));
        }
        let name = decimal_string(i as u64);
        write_string(out, name.as_str());
        let ghost ob1 = out@;
        let rr = write_value(out, &vs[i]);
        proof {
            lemma_wrote0(rr, enc0_value(all[i as int]), out@, ob1);
        }
        if let Err(e) = rr {
            return Err(e);
        }
        proof {
            let b0 = enc0_string(decimal(i as nat));
            let b1 = out@.subrange(ob1.len() as int, out@.len() as int);
            assert(out@ =~= ob + (b0 + b1));
            lemma_after0_after0(b, b0 + b1, enc0_dense(all, i + 1));
            b = b + (b0 + b1);
            assert(out@ =~= o + b);
        }
        i += 1;
    }
    proof {
        assert(b =~= b + Seq::<u8>::empty());
    }
    Ok(())
}

/// Write named elements one after the other: each name, then its value.
fn write_elements(out: &mut Vec<u8>, els: &Vec<Element>) -> (r: Result<(), EncodeError>)
    ensures
        wrote0(r, enc0_elements(elements_view(els@)), final(out)@, old(out)@),
    decreases els, 0int, 0int,
{
    let ghost all = elements_view(els@);
    let ghost o = old(out)@;
    let ghost mut b: Seq<u8> = Seq::empty();
    proof {
        assert(all.subrange(0, all.len() as int) =~= all);
        lemma_after0_empty(enc0_elements(all));
    }
    let mut i: usize = 0;
    while i < els.len()
        invariant
            i <= els@.len(),
            all == elements_view(els@),
            o == old(out)@,
            out@ == o + b,
            enc0_elements(all) == after0(b, enc0_elements(all.subrange(i as int, all.len() as int))),
        decreases els.len() - i,
    {
        let ghost sub = all.subrange(i as int, all.len() as int);
        let ghost ob = out@;
        proof {
            assert(decreases_to!(els => els@[i as int]));
            assert(sub[0] == els@[i as int]@);
            assert(sub.subrange(1, sub.len() as int) =~= all.subrange(i + 1, all.len() as int));
        }
        write_string(out, els[i].name.as_str());
        let ghost ob1 = out@;
        let rr = write_value(out, &els[i].value);
        proof {
            lemma_wrote0(rr, enc0_value(sub[0].value), out@, ob1);
        }
        if let Err(e) = rr {
            return Err(e);
        }
        proof {
            let b0 = enc0_string(sub[0].name);
            let b1 = out@.subrange(ob1.len() as int, out@.len() as int);
            assert(out@ =~= ob + (b0 + b1));
            lemma_after0_after0(b, b0 + b1, enc0_elements(all.subrange(i + 1, all.len() as int)));
            b = b + (b0 + b1);
            assert(out@ =~= o + b);
        }
        i += 1;
    }
    proof {
        assert(b =~= b + Seq::<u8>::empty());
    }
    Ok(())
}

/// Write properties and the object end.
fn write_props_end(out: &mut Vec<u8>, els: &Vec<Element>) -> (r: Result<(), EncodeError>)
    ensures
        wrote0(r, match enc0_elements(elements_view(els@)) {
            Ok(b) => Ok(b + object_end()),
            Err(e) => Err(e),
        }, final(out)@, old(out)@),
    decreases els, 0int, 1int,
{
    let ghost o = old(out)@;
    let rr = write_elements(out, els);
    proof {
        lemma_wrote0(rr, enc0_elements(elements_view(els@)), out@, o);
    }
    if let Err(e) = rr {
        return Err(e);
    }
    let ghost o1 = out@;
    push_u8(out, 0);
    push_u8(out, 0);
    push_u8(out, 0x09);
    proof {
        let b1 = o1.subrange(o.len() as int, o1.len() as int);
        assert(out@ =~= o + (b1 + object_end()));
    }
    Ok(())
}

/// Write a value that holds no other values in AMF0.
fn write_scalar0(out: &mut Vec<u8>, v: &Value)
    requires
        !(v is Object || v is StrictArray || v is ECMAArray || v is AMF3),
    ensures
        wrote0(Ok(()), enc0_value(v@), final(out)@, old(out)@),
{
    let ghost o = old(out)@;
    match v {
        Value::Number(x) => {
            push_u8(out, 0x00);
            push_u64(out, *x);
            assert(out@ =~= o + (seq![0x00u8] + be64(*x)));
        },
        Value::Bool(b) => {
            push_u8(out, 0x01);
            push_u8(out, if *b { 1 } else { 0 });
            assert(out@ =~= o + seq![0x01u8, if *b { 1u8 } else { 0u8 }]);
        },
        Value::String(s) => {
            if str_len(s.as_str()) > 65535 {
                push_u8(out, 0x0c);
                write_long_string(out, s.as_str());
                assert(out@ =~= o + (seq![0x0cu8] + enc0_long_string(s@)));
            } else {
                push_u8(out, 0x02);
                write_string(out, s.as_str());
                assert(out@ =~= o + (seq![0x02u8] + enc0_string(s@)));
            }
        },
        Value::Null => {
            push_u8(out, 0x05);
            assert(out@ =~= o + seq![0x05u8]);
        },
        Value::Undefined => {
            push_u8(out, 0x06);
            assert(out@ =~= o + seq![0x06u8]);
        },
        Value::Date { time, timezone_or_utc } => {
            push_u8(out, 0x0b);
            push_u64(out, *time);
            let z = match timezone_or_utc {
                Some(z) => *z,
                None => 0,
            };
            push_u16(out, z);
            assert(out@ =~= o + (seq![0x0bu8] + be64(*time) + be16(z)));
        },
        Value::XML { value, .. } => {
            push_u8(out, 0x0f);
            write_long_string(out, value.as_str());
            assert(out@ =~= o + (seq![0x0fu8] + enc0_long_string(value@)));
        },
        Value::Reference(r) => {
            push_u8(out, 0x07);
            push_u16(out, r.0);
            assert(out@ =~= o + (seq![0x07u8] + be16(r.0)));
        },
        _ => {
            push_u8(out, 0x0d);
            assert(out@ =~= o + seq![0x0du8]);
        },
    }
}

/// Write an object, array or embedded AMF3 value in AMF0.
fn write_compound0(out: &mut Vec<u8>, v: &Value) -> (r: Result<(), EncodeError>)
    requires
        v is Object || v is StrictArray || v is ECMAArray || v is AMF3,
    ensures
        wrote0(r, enc0_value(v@), final(out)@, old(out)@),
    decreases v, 1int, 0int,
{
    let ghost o = old(out)@;
    proof { lemma_value_view_parts(*v); }
    match v {
        Value::Object { data, .. } => {
            match &data.class_definition {
                Some(c) => {
                    push_u8(out, 0x10);
                    write_string(out, c.name.as_str());
                },
                None => {
                    push_u8(out, 0x03);
                },
            }
            let ghost o1 = out@;
            let rr = write_props_end(out, &data.elements);
            proof {
                lemma_wrote0(rr, match enc0_elements(elements_view(data.elements@)) {
                    Ok(b) => Ok(b + object_end()),
                    Err(e) => Err(e),
                }, out@, o1);
                let h = if data.class_definition is Some {
                    seq![0x10u8] + enc0_string(data.class_definition->0.name@)
                } else {
                    seq![0x03u8]
                };
                assert(o1 =~= o + h);
                if rr is Ok {
                    let b1 = out@.subrange(o1.len() as int, out@.len() as int);
                    assert(out@ =~= o + (h + b1));
                }
            }
            rr
        },
        Value::StrictArray { values, .. } => {
            push_u8(out, 0x0a);
            push_u32(out, (values.len() as u64 % 0x1_0000_0000) as u32);
            let ghost o1 = out@;
            let rr = write_values(out, values);
            proof {
                lemma_wrote0(rr, enc0_values(values_view(values@)), out@, o1);
                let h = seq![0x0au8] + be32((values@.len() % 0x1_0000_0000) as u32);
                assert(o1 =~= o + h);
                if rr is Ok {
                    let b1 = out@.subrange(o1.len() as int, out@.len() as int);
                    assert(out@ =~= o + (h + b1));
                }
            }
            rr
        },
        Value::ECMAArray { data, .. } => {
            push_u8(out, 0x08);
            push_u32(out, data.length);
            let ghost o1 = out@;
            let rr = write_dense(out, &data.dense);
            proof {
                lemma_wrote0(rr, enc0_dense(values_view(data.dense@), 0), out@, o1);
            }
            if let Err(e) = rr {
                return Err(e);
            }
            let ghost o2 = out@;
            let rr2 = write_props_end(out, &data.elements);
            proof {
                lemma_wrote0(rr2, match enc0_elements(elements_view(data.elements@)) {
                    Ok(b) => Ok(b + object_end()),
                    Err(e) => Err(e),
                }, out@, o2);
                let h = seq![0x08u8] + be32(data.length);
                assert(o1 =~= o + h);
                if rr2 is Ok {
                    let b1 = o2.subrange(o1.len() as int, o2.len() as int);
                    let b2 = out@.subrange(o2.len() as int, out@.len() as int);
                    assert(out@ =~= o + (h + (b1 + b2)));
                }
            }
            rr2
        },
        Value::AMF3(e) => {
            push_u8(out, 0x11);
            let ghost o1 = out@;
            let mut enc = AMF3Encoder::new();
            let rr = enc.write_value_element(out, e);
            proof {
                lemma_wrote(rr, enc_value(AMF3Encoder::new_state(), (**e)@), enc.state(), out@, o1);
                if rr is Ok {
                    let b1 = out@.subrange(o1.len() as int, out@.len() as int);
                    assert(out@ =~= o + (seq![0x11u8] + b1));
                }
            }
            rr
        },
        _ => {
            assert(false);
            Ok(())
        },
    }
}

/// Write one value in AMF0.
pub fn write_value(out: &mut Vec<u8>, v: &Value) -> (r: Result<(), EncodeError>)
    ensures
        wrote0(r, enc0_value(v@), final(out)@, old(out)@),
    decreases v, 1int, 1int,
{
    match v {
        Value::Object { .. } | Value::StrictArray { .. } | Value::ECMAArray { .. } | Value::AMF3(_) => {
            write_compound0(out, v)
        },
        _ => {
            write_scalar0(out, v);
            Ok(())
        },
    }
}

/// Write an AMF0 body: each element followed by a padding byte.
pub fn write_body(out: &mut Vec<u8>, els: &Vec<Element>) -> (r: Result<(), EncodeError>)
    ensures
        wrote0(r, enc0_body(elements_view(els@)), final(out)@, old(out)@),
{
    let ghost all = elements_view(els@);
    let ghost o = old(out)@;
    let ghost mut b: Seq<u8> = Seq::empty();
    proof {
        assert(all.subrange(0, all.len() as int) =~= all);
        lemma_after0_empty(enc0_body(all));
    }
    let mut i: usize = 0;
    while i < els.len()
        invariant
            i <= els@.len(),
            all == elements_view(els@),
            o == old(out)@,
            out@ == o + b,
            enc0_body(all) == after0(b, enc0_body(all.subrange(i as int, all.len() as int))),
        decreases els.len() - i,
    {
        let ghost sub = all.subrange(i as int, all.len() as int);
        let ghost ob = out@;
        proof {
            assert(sub[0] == els@[i as int]@);
            assert(sub.drop_first() =~= all.subrange(i + 1, all.len() as int));
        }
        write_string(out, els[i].name.as_str());
        let ghost ob1 = out@;
        let rr = write_value(out, &els[i].value);
        proof {
            lemma_wrote0(rr, enc0_value(sub[0].value), out@, ob1);
        }
        if let Err(e) = rr {
            return Err(e);
        }
        let ghost ob2 = out@;
        push_u8(out, 0x00);
        proof {
            let b0 = enc0_string(sub[0].name);
            let b1 = ob2.subrange(ob1.len() as int, ob2.len() as int);
            assert(out@ =~= ob + (b0 + b1 + seq![0u8]));
            lemma_after0_after0(b, b0 + b1 + seq![0u8], enc0_body(all.subrange(i + 1, all.len() as int)));
            b = b + (b0 + b1 + seq![0u8]);
            assert(out@ =~= o + b);
        }
        i += 1;
    }
    proof {
        assert(b =~= b + Seq::<u8>::empty());
    }
    Ok(())
}

} // verus!
