use flash_lso::read::Reader;
use flash_lso::types::{AMFVersion, ClassDefinition, ECMAArrayObjectValue, Element, Lso, ObjectId, ObjectValue, Value, VectorPrimitiveValue};
use flash_lso::write::write_to_bytes;

fn el(name: &str, value: Value) -> Element {
    Element { name: name.to_string(), value }
}

#[test]
fn amf0_lso_reads_back() {
    let mut lso = Lso::new(
        vec![
            el("n", Value::Number(3.5f64.to_bits())),
            el("b", Value::Bool(true)),
            el("s", Value::String("hello".to_string())),
            el("z", Value::Null),
            el("u", Value::Undefined),
            el("d", Value::Date { time: 10.0f64.to_bits(), timezone_or_utc: None }),
        ],
        "Test".to_string(),
        AMFVersion::AMF0,
    );
    let bytes = write_to_bytes(&mut lso).unwrap();
    let back = Reader::new().parse(&bytes).unwrap();
    assert_eq!(back.header.name, "Test");
    assert_eq!(back.header.length, lso.header.length);
    assert!(matches!(back.header.format_version, AMFVersion::AMF0));
    assert_eq!(back.body.len(), 6);
    assert!(matches!(back.body[0].value, Value::Number(x) if x == 3.5f64.to_bits()));
    assert!(matches!(back.body[1].value, Value::Bool(true)));
    assert!(matches!(&back.body[2].value, Value::String(s) if s == "hello"));
    assert!(matches!(back.body[3].value, Value::Null));
    assert!(matches!(back.body[4].value, Value::Undefined));
    // a date without a time zone reads back with zone zero
    assert!(matches!(back.body[5].value, Value::Date { time, timezone_or_utc: Some(0) } if time == 10.0f64.to_bits()));
}

#[test]
fn amf3_lso_reads_back() {
    let mut lso = Lso::new(
        vec![
            el("i", Value::Integer(-7)),
            el("s", Value::String("abc".to_string())),
            el("again", Value::String("abc".to_string())),
            el("f", Value::Bool(false)),
        ],
        "Three".to_string(),
        AMFVersion::AMF3,
    );
    let bytes = write_to_bytes(&mut lso).unwrap();
    let back = Reader::new().parse(&bytes).unwrap();
    assert_eq!(back.header.name, "Three");
    assert!(matches!(back.header.format_version, AMFVersion::AMF3));
    assert_eq!(back.body.len(), 4);
    assert_eq!(back.body[2].name, "again");
    assert!(matches!(back.body[0].value, Value::Integer(-7)));
    assert!(matches!(&back.body[1].value, Value::String(s) if s == "abc"));
    assert!(matches!(&back.body[2].value, Value::String(s) if s == "abc"));
    assert!(matches!(back.body[3].value, Value::Bool(false)));
}

#[test]
fn header_bytes_and_length() {
    let mut lso = Lso::new(vec![el("a", Value::Null)], "ab".to_string(), AMFVersion::AMF0);
    let bytes = write_to_bytes(&mut lso).unwrap();
    // body: name "a" (3 bytes), null marker, padding
    let body = [0x00, 0x01, b'a', 0x05, 0x00];
    let mut expected = vec![0x00, 0xbf];
    let length: u32 = 10 + 2 + 2 + 3 + 1 + body.len() as u32;
    expected.extend_from_slice(&length.to_be_bytes());
    expected.extend_from_slice(&[0x54, 0x43, 0x53, 0x4f, 0x00, 0x04, 0x00, 0x00, 0x00, 0x00]);
    expected.extend_from_slice(&[0x00, 0x02, b'a', b'b', 0, 0, 0, 0x00]);
    expected.extend_from_slice(&body);
    assert_eq!(bytes, expected);
    assert_eq!(lso.header.length, length);
}

#[test]
fn empty_amf3_body_does_not_read_back() {
    let mut lso = Lso::new_empty("e".to_string(), AMFVersion::AMF3);
    let bytes = write_to_bytes(&mut lso).unwrap();
    assert!(Reader::new().parse(&bytes).is_err());
}

#[test]
fn empty_amf0_body_reads_back() {
    let mut lso = Lso::new_empty("e".to_string(), AMFVersion::AMF0);
    let bytes = write_to_bytes(&mut lso).unwrap();
    let back = Reader::new().parse(&bytes).unwrap();
    assert_eq!(back.body.len(), 0);
}

#[test]
fn nested_amf0_values_read_back() {
    let inner = Value::StrictArray { id: ObjectId(4), values: vec![Value::Bool(false), Value::String("q".to_string())] };
    let obj = Value::Object {
        id: ObjectId(3),
        data: ObjectValue { elements: vec![el("x", Value::Number(1.0f64.to_bits())), el("arr", inner)], class_definition: None },
    };
    let typed = Value::Object {
        id: ObjectId(9),
        data: ObjectValue {
            elements: vec![el("y", Value::Null)],
            class_definition: Some(ClassDefinition::default_with_name("Foo".to_string())),
        },
    };
    let ecma = Value::ECMAArray {
        id: ObjectId(2),
        data: ECMAArrayObjectValue { dense: vec![Value::Null], elements: vec![el("k", Value::Undefined)], length: 5 },
    };
    let mut lso = Lso::new(vec![el("o", obj), el("t", typed), el("e", ecma)], "Deep".to_string(), AMFVersion::AMF0);
    let bytes = write_to_bytes(&mut lso).unwrap();
    let back = Reader::new().parse(&bytes).unwrap();
    assert_eq!(back.body.len(), 3);
    if let Value::Object { id, data } = &back.body[0].value {
        assert_eq!(*id, ObjectId(-1));
        assert!(data.class_definition.is_none());
        assert_eq!(data.elements.len(), 2);
        assert!(matches!(data.elements[0].value, Value::Number(x) if x == 1.0f64.to_bits()));
        if let Value::StrictArray { id, values } = &data.elements[1].value {
            assert_eq!(*id, ObjectId(-1));
            assert_eq!(values.len(), 2);
            assert!(matches!(values[0], Value::Bool(false)));
            assert!(matches!(&values[1], Value::String(s) if s == "q"));
        } else {
            panic!("not a strict array");
        }
    } else {
        panic!("not an object");
    }
    if let Value::Object { data, .. } = &back.body[1].value {
        assert_eq!(data.class_definition.as_ref().unwrap().name, "Foo");
        assert!(matches!(data.elements[0].value, Value::Null));
    } else {
        panic!("not an object");
    }
    if let Value::ECMAArray { data, .. } = &back.body[2].value {
        assert_eq!(data.length, 5);
        assert_eq!(data.dense.len(), 0);
        assert_eq!(data.elements.len(), 2);
        assert_eq!(data.elements[0].name, "0");
        assert!(matches!(data.elements[0].value, Value::Null));
        assert_eq!(data.elements[1].name, "k");
        assert!(matches!(data.elements[1].value, Value::Undefined));
    } else {
        panic!("not an ECMA array");
    }
}

#[test]
fn amf3_payload_values_read_back() {
    let mut lso = Lso::new(
        vec![
            el("d", Value::Date { time: 5.0f64.to_bits(), timezone_or_utc: Some(3) }),
            el("x", Value::XML { value: "<a/>".to_string(), is_string: false }),
            el("b", Value::ByteArray(vec![1, 2])),
        ],
        "P".to_string(),
        AMFVersion::AMF3,
    );
    let bytes = write_to_bytes(&mut lso).unwrap();
    let back = Reader::new().parse(&bytes).unwrap();
    assert_eq!(back.body.len(), 3);
    // AMF3 dates hold no time zone
    assert!(matches!(back.body[0].value, Value::Date { time, timezone_or_utc: None } if time == 5.0f64.to_bits()));
    assert!(matches!(&back.body[1].value, Value::XML { value, is_string: false } if value == "<a/>"));
    assert!(matches!(&back.body[2].value, Value::ByteArray(b) if b == &vec![1u8, 2]));
}

#[test]
fn amf3_number_vectors_read_back() {
    let ints = Value::VectorInt(VectorPrimitiveValue { values: vec![-1, 0, 7], fixed_length: true });
    let uints = Value::VectorUInt(VectorPrimitiveValue { values: vec![0xffff_ffff, 2], fixed_length: false });
    let doubles = Value::VectorDouble(VectorPrimitiveValue { values: vec![1.5f64.to_bits()], fixed_length: false });
    let mut lso = Lso::new(
        vec![el("i", ints), el("u", uints), el("d", doubles)],
        "V".to_string(),
        AMFVersion::AMF3,
    );
    let bytes = write_to_bytes(&mut lso).unwrap();
    let back = Reader::new().parse(&bytes).unwrap();
    assert_eq!(back.body.len(), 3);
    assert!(matches!(&back.body[0].value, Value::VectorInt(v) if v.values == vec![-1, 0, 7] && v.fixed_length));
    assert!(matches!(&back.body[1].value, Value::VectorUInt(v) if v.values == vec![0xffff_ffffu32, 2] && !v.fixed_length));
    assert!(matches!(&back.body[2].value, Value::VectorDouble(v) if v.values == vec![1.5f64.to_bits()] && !v.fixed_length));
}

#[test]
fn amf3_objects_read_back() {
    let mut dynamic = flash_lso::types::AttributeSet::empty();
    dynamic.insert(flash_lso::types::Attribute::Dynamic);
    let point = ClassDefinition {
        name: "Point".to_string(),
        attributes: dynamic,
        static_properties: vec!["x".to_string(), "y".to_string()],
    };
    let sealed = ClassDefinition {
        name: "Sealed".to_string(),
        attributes: flash_lso::types::AttributeSet::empty(),
        static_properties: vec!["a".to_string()],
    };
    let p = Value::Object {
        id: ObjectId(7),
        data: ObjectValue {
            // the static properties are written in the class's order, the others after them
            elements: vec![
                el("extra", Value::Bool(true)),
                el("y", Value::Integer(2)),
                el("x", Value::Integer(1)),
                el("list", Value::StrictArray { id: ObjectId(3), values: vec![Value::Integer(4), Value::Null] }),
            ],
            class_definition: Some(point),
        },
    };
    let q = Value::Object {
        id: ObjectId(9),
        data: ObjectValue {
            // a sealed class writes only its static properties
            elements: vec![el("a", Value::String("s".to_string())), el("dropped", Value::Null)],
            class_definition: Some(sealed),
        },
    };
    let mut lso = Lso::new(vec![el("p", p), el("q", q)], "O".to_string(), AMFVersion::AMF3);
    let bytes = write_to_bytes(&mut lso).unwrap();
    let back = Reader::new().parse(&bytes).unwrap();
    assert_eq!(back.body.len(), 2);
    match &back.body[0].value {
        Value::Object { data, .. } => {
            let def = data.class_definition.as_ref().unwrap();
            assert_eq!(def.name, "Point");
            assert!(def.attributes.dynamic && !def.attributes.external);
            assert_eq!(def.static_properties, vec!["x".to_string(), "y".to_string()]);
            let names: Vec<&str> = data.elements.iter().map(|e| e.name.as_str()).collect();
            assert_eq!(names, vec!["x", "y", "extra", "list"]);
            assert!(matches!(data.elements[0].value, Value::Integer(1)));
            assert!(matches!(data.elements[1].value, Value::Integer(2)));
            assert!(matches!(data.elements[2].value, Value::Bool(true)));
            match &data.elements[3].value {
                Value::StrictArray { values, .. } => {
                    assert_eq!(values.len(), 2);
                    assert!(matches!(values[0], Value::Integer(4)));
                    assert!(matches!(values[1], Value::Null));
                },
                _ => panic!("expected an array"),
            }
        },
        _ => panic!("expected an object"),
    }
    match &back.body[1].value {
        Value::Object { data, .. } => {
            assert_eq!(data.class_definition.as_ref().unwrap().name, "Sealed");
            assert_eq!(data.elements.len(), 1);
            assert_eq!(data.elements[0].name, "a");
            assert!(matches!(&data.elements[0].value, Value::String(s) if s == "s"));
        },
        _ => panic!("expected an object"),
    }
}

#[test]
fn amf3_nested_objects_read_back() {
    let mut dynamic = flash_lso::types::AttributeSet::empty();
    dynamic.insert(flash_lso::types::Attribute::Dynamic);
    let class = |name: &str| ClassDefinition {
        name: name.to_string(),
        attributes: dynamic,
        static_properties: vec![],
    };
    let leaf = |n: i32| Value::Object {
        id: ObjectId(100 + n as i64),
        data: ObjectValue { elements: vec![el("n", Value::Integer(n))], class_definition: Some(class("Leaf")) },
    };
    let root = Value::Object {
        id: ObjectId(1),
        data: ObjectValue {
            elements: vec![
                el("first", leaf(1)),
                el("list", Value::StrictArray { id: ObjectId(2), values: vec![leaf(2), leaf(3)] }),
            ],
            class_definition: Some(class("Root")),
        },
    };
    let mut lso = Lso::new(vec![el("root", root)], "N".to_string(), AMFVersion::AMF3);
    let bytes = write_to_bytes(&mut lso).unwrap();
    let back = Reader::new().parse(&bytes).unwrap();
    assert_eq!(back.body.len(), 1);
    let leaf_value = |v: &Value| -> i32 {
        match v {
            Value::Object { data, .. } => {
                assert_eq!(data.class_definition.as_ref().unwrap().name, "Leaf");
                assert_eq!(data.elements.len(), 1);
                match data.elements[0].value {
                    Value::Integer(n) => n,
                    _ => panic!("expected an integer"),
                }
            },
            _ => panic!("expected an object"),
        }
    };
    match &back.body[0].value {
        Value::Object { data, .. } => {
            assert_eq!(data.class_definition.as_ref().unwrap().name, "Root");
            assert_eq!(data.elements.len(), 2);
            assert_eq!(data.elements[0].name, "first");
            assert_eq!(leaf_value(&data.elements[0].value), 1);
            match &data.elements[1].value {
                Value::StrictArray { values, .. } => {
                    assert_eq!(values.len(), 2);
                    assert_eq!(leaf_value(&values[0]), 2);
                    assert_eq!(leaf_value(&values[1]), 3);
                },
                _ => panic!("expected an array"),
            }
        },
        _ => panic!("expected an object"),
    }
}
