use flash_lso::amf3::read::AMF3Decoder;
use flash_lso::amf3::write::AMF3Encoder;
use flash_lso::errors::EncodeError;
use flash_lso::types::{Attribute, AttributeSet, ClassDefinition, DictionaryEntry, DictionaryObjectValue, Element, ObjectId, ObjectValue, Reference, Value, VectorObjectValue};

fn class(name: &str, props: &[&str], attributes: AttributeSet) -> ClassDefinition {
    ClassDefinition {
        name: name.to_string(),
        attributes,
        static_properties: props.iter().map(|p| p.to_string()).collect(),
    }
}

fn object(def: ClassDefinition, children: Vec<Element>) -> Value {
    Value::Object {
        id: ObjectId(1),
        data: ObjectValue {
            elements: children,
            class_definition: Some(def),
        },
    }
}

fn int_el(name: &str, v: i32) -> Element {
    Element {
        name: name.to_string(),
        value: Value::Integer(v),
    }
}

fn empty_object(id: i64) -> Value {
    Value::Object {
        id: ObjectId(id),
        data: ObjectValue {
            elements: Vec::new(),
            class_definition: None,
        },
    }
}

#[test]
fn sealed_values_follow_trait_order() {
    let mut e = AMF3Encoder::default();
    let mut v = Vec::new();
    e.write_value_element(
        &mut v,
        &object(class("C", &["a", "b"], AttributeSet::empty()), vec![int_el("b", 2), int_el("a", 1)]),
    )
    .expect("Test fail");

    assert_eq!(&v[v.len() - 4..], &[0x04, 0x01, 0x04, 0x02]);
}

#[test]
fn duplicate_sealed_names_emit_one_value_each() {
    let mut e = AMF3Encoder::default();
    let mut v = Vec::new();
    e.write_value_element(
        &mut v,
        &object(class("C", &["a"], AttributeSet::empty()), vec![int_el("a", 1), int_el("a", 9)]),
    )
    .expect("Test fail");

    assert_eq!(&v[v.len() - 2..], &[0x04, 0x01]);
}

#[test]
fn missing_sealed_value_errors() {
    let mut e = AMF3Encoder::default();
    let mut v = Vec::new();
    assert!(e
        .write_value_element(
            &mut v,
            &object(class("C", &["a", "b"], AttributeSet::empty()), vec![int_el("a", 1)]),
        )
        .is_err());
}

#[test]
fn dynamic_section_excludes_sealed_names() {
    let mut e = AMF3Encoder::default();
    let mut v = Vec::new();
    e.write_value_element(
        &mut v,
        &object(class("C", &["a"], AttributeSet::only(Attribute::Dynamic)), vec![int_el("a", 1), int_el("d", 2)]),
    )
    .expect("Test fail");

    assert_eq!(&v[v.len() - 7..], &[0x04, 0x01, 0x03, b'd', 0x04, 0x02, 0x01]);
}

#[test]
fn payload_values_occupy_a_reference_slot() {
    let mut e = AMF3Encoder::default();
    let mut v = Vec::new();

    e.write_value_element(
        &mut v,
        &Value::Date {
            time: 0.0f64.to_bits(),
            timezone_or_utc: None,
        },
    )
    .expect("Test fail");
    e.write_value_element(&mut v, &empty_object(7)).expect("Test fail");

    let mut r = Vec::new();
    e.write_value_element(&mut r, &Value::Amf3ObjectReference(ObjectId(7)))
        .expect("Test fail");

    assert_eq!(r, &[0x0a, 0x02]);
}

#[test]
fn equal_payload_values_take_separate_slots() {
    let mut e = AMF3Encoder::default();
    let mut v = Vec::new();

    for _ in 0..3 {
        e.write_value_element(&mut v, &Value::ByteArray(vec![1, 2, 3]))
            .expect("Test fail");
    }
    e.write_value_element(&mut v, &empty_object(9)).expect("Test fail");

    let mut r = Vec::new();
    e.write_value_element(&mut r, &Value::Amf3ObjectReference(ObjectId(9)))
        .expect("Test fail");

    assert_eq!(r, &[0x0a, 0x06]);
}

#[test]
fn equal_objects_take_separate_slots() {
    let mut e = AMF3Encoder::default();
    let mut v = Vec::new();

    for _ in 0..2 {
        e.write_value_element(&mut v, &empty_object(ObjectId::invalid().0))
            .expect("Test fail");
    }
    e.write_value_element(&mut v, &empty_object(5)).expect("Test fail");

    let mut r = Vec::new();
    e.write_value_element(&mut r, &Value::Amf3ObjectReference(ObjectId(5)))
        .expect("Test fail");

    assert_eq!(r, &[0x0a, 0x04]);
}

#[test]
fn unresolvable_object_reference_errors() {
    let mut e = AMF3Encoder::default();
    let mut v = Vec::new();
    assert!(e
        .write_value_element(&mut v, &Value::Amf3ObjectReference(ObjectId(1)))
        .is_err());
    assert!(v.is_empty());
}

#[test]
fn amf0_reference_in_an_amf3_stream_errors() {
    let mut e = AMF3Encoder::default();
    let mut v = Vec::new();
    assert!(e
        .write_value_element(&mut v, &Value::Reference(Reference(0)))
        .is_err());
    assert!(v.is_empty());
}

#[test]
fn encode_error_variants() {
    let mut e = AMF3Encoder::default();
    let mut v = Vec::new();
    assert_eq!(
        e.write_value_element(&mut v, &Value::Reference(Reference(0))),
        Err(EncodeError::Amf0Reference)
    );
    assert_eq!(
        e.write_value_element(&mut v, &Value::Amf3ObjectReference(ObjectId(3))),
        Err(EncodeError::UnresolvableReference(3))
    );
    assert_eq!(
        e.write_value_element(
            &mut v,
            &object(class("C", &["a", "b"], AttributeSet::empty()), vec![int_el("a", 1)]),
        ),
        Err(EncodeError::MissingStaticProperty)
    );
}

#[test]
fn scalar_encodings() {
    let mut e = AMF3Encoder::default();
    let mut v = Vec::new();
    e.write_value_element(&mut v, &Value::Undefined).unwrap();
    e.write_value_element(&mut v, &Value::Null).unwrap();
    e.write_value_element(&mut v, &Value::Bool(false)).unwrap();
    e.write_value_element(&mut v, &Value::Bool(true)).unwrap();
    e.write_value_element(&mut v, &Value::Integer(5)).unwrap();
    e.write_value_element(&mut v, &Value::Number(1.5f64.to_bits())).unwrap();
    assert_eq!(v, vec![0x00, 0x01, 0x02, 0x03, 0x04, 0x05, 0x05, 0x3f, 0xf8, 0, 0, 0, 0, 0, 0]);
}

#[test]
fn repeated_string_is_written_as_reference() {
    let mut e = AMF3Encoder::default();
    let mut v = Vec::new();
    e.write_value_element(&mut v, &Value::String("ab".to_string())).unwrap();
    e.write_value_element(&mut v, &Value::String("ab".to_string())).unwrap();
    e.write_value_element(&mut v, &Value::String(String::new())).unwrap();
    assert_eq!(v, vec![0x06, 0x05, b'a', b'b', 0x06, 0x00, 0x06, 0x01]);
}

fn empty_vector() -> Value {
    Value::VectorObject {
        id: ObjectId::invalid(),
        data: VectorObjectValue { values: vec![], object_type_name: "".to_string(), fixed_length: false },
    }
}

#[test]
fn equal_vectors_take_separate_slots() {
    let mut e = AMF3Encoder::default();
    let mut v = Vec::new();
    e.write_value_element(&mut v, &empty_vector()).expect("Test fail");
    e.write_value_element(&mut v, &empty_vector()).expect("Test fail");
    e.write_value_element(&mut v, &empty_object(5)).expect("Test fail");
    assert_eq!(&v[0..8], &[0x10, 0x01, 0x00, 0x01, 0x10, 0x01, 0x00, 0x01]);
    let mut r = Vec::new();
    e.write_value_element(&mut r, &Value::Amf3ObjectReference(ObjectId(5))).expect("Test fail");
    assert_eq!(r, &[0x0a, 0x04]);
}

#[test]
fn equal_dictionaries_take_separate_slots() {
    let dict = || Value::Dictionary {
        id: ObjectId::invalid(),
        data: DictionaryObjectValue { elements: vec![], weak_keys: false },
    };
    let mut e = AMF3Encoder::default();
    let mut v = Vec::new();
    e.write_value_element(&mut v, &dict()).expect("Test fail");
    e.write_value_element(&mut v, &dict()).expect("Test fail");
    e.write_value_element(&mut v, &empty_object(5)).expect("Test fail");
    assert_eq!(&v[0..6], &[0x11, 0x01, 0x00, 0x11, 0x01, 0x00]);
    let mut r = Vec::new();
    e.write_value_element(&mut r, &Value::Amf3ObjectReference(ObjectId(5))).expect("Test fail");
    assert_eq!(r, &[0x0a, 0x04]);
}

#[test]
fn invalid_id_object_cannot_be_referenced() {
    let mut e = AMF3Encoder::default();
    let mut v = Vec::new();
    e.write_value_element(&mut v, &empty_object(ObjectId::invalid().0)).expect("Test fail");
    let mut r = Vec::new();
    assert!(e.write_value_element(&mut r, &Value::Amf3ObjectReference(ObjectId::invalid())).is_err());
    assert!(r.is_empty());
}

#[test]
fn written_references_read_back_to_the_same_object() {
    let mut e = AMF3Encoder::default();
    let mut v = Vec::new();
    e.write_value_element(&mut v, &Value::Date { time: 0, timezone_or_utc: None }).expect("Test fail");
    e.write_value_element(&mut v, &empty_vector()).expect("Test fail");
    e.write_value_element(&mut v, &empty_vector()).expect("Test fail");
    e.write_value_element(&mut v, &empty_object(7)).expect("Test fail");
    e.write_value_element(&mut v, &Value::Amf3ObjectReference(ObjectId(7))).expect("Test fail");

    let mut d = AMF3Decoder::new();
    let mut pos = 0;
    let mut read = Vec::new();
    for _ in 0..5 {
        let (p, x) = d.parse_value_at(&v, pos).expect("Test fail");
        pos = p;
        read.push(x);
    }
    assert_eq!(pos, v.len());
    let id = match &read[3] {
        Value::Object { id, .. } => *id,
        _ => panic!("expected an object"),
    };
    assert!(matches!(read[4], Value::Amf3ObjectReference(r) if r == id));
}

#[test]
fn dictionaries_read_back() {
    let dict = Value::Dictionary {
        id: ObjectId::invalid(),
        data: DictionaryObjectValue {
            elements: vec![
                DictionaryEntry { key: Value::String("a".to_string()), value: Value::Integer(1) },
                DictionaryEntry { key: Value::Integer(2), value: Value::Bool(true) },
            ],
            weak_keys: true,
        },
    };
    let mut e = AMF3Encoder::default();
    let mut v = Vec::new();
    e.write_value_element(&mut v, &dict).expect("Test fail");
    let mut d = AMF3Decoder::default();
    let (n, back) = d.parse_single_element(&v).expect("Test fail");
    assert_eq!(n, v.len());
    match back {
        Value::Dictionary { data, .. } => {
            assert!(data.weak_keys);
            assert_eq!(data.elements.len(), 2);
            assert!(matches!(&data.elements[0].key, Value::String(s) if s == "a"));
            assert!(matches!(data.elements[0].value, Value::Integer(1)));
            assert!(matches!(data.elements[1].key, Value::Integer(2)));
            assert!(matches!(data.elements[1].value, Value::Bool(true)));
        }
        _ => panic!("not a dictionary"),
    }
}

#[test]
fn vectors_of_objects_read_back() {
    let vector = Value::VectorObject {
        id: ObjectId::invalid(),
        data: VectorObjectValue {
            values: vec![Value::Integer(3), Value::String("x".to_string())],
            object_type_name: "Thing".to_string(),
            fixed_length: true,
        },
    };
    let mut e = AMF3Encoder::default();
    let mut v = Vec::new();
    e.write_value_element(&mut v, &vector).expect("Test fail");
    let mut d = AMF3Decoder::default();
    let (n, back) = d.parse_single_element(&v).expect("Test fail");
    assert_eq!(n, v.len());
    match back {
        Value::VectorObject { data, .. } => {
            assert!(data.fixed_length);
            assert_eq!(data.object_type_name, "Thing");
            assert_eq!(data.values.len(), 2);
            assert!(matches!(data.values[0], Value::Integer(3)));
            assert!(matches!(&data.values[1], Value::String(s) if s == "x"));
        }
        _ => panic!("not a vector of objects"),
    }
}
