use flash_lso::amf3::custom_encoder::FlexDecoder;
use flash_lso::amf3::read::AMF3Decoder;
use flash_lso::amf3::write::AMF3Encoder;
use flash_lso::errors::EncodeError;
use flash_lso::extra::flex::read::{decode_external, register_decoders};
use flash_lso::extra::flex::write::register_encoders;
use flash_lso::types::{Attribute, AttributeSet, ClassDefinition, CustomObjectValue, Element, Value};

fn collection(class: &str, elements: Vec<Element>) -> Value {
    Value::Custom(CustomObjectValue {
        elements,
        dynamic_elements: Vec::new(),
        class_definition: ClassDefinition {
            name: class.to_string(),
            attributes: AttributeSet::only(Attribute::External),
            static_properties: Vec::new(),
        },
    })
}

#[test]
fn array_collection_reads_back() {
    let mut e = AMF3Encoder::default();
    register_encoders(&mut e);
    let mut v = Vec::new();
    let value = collection(
        "flex.messaging.io.ArrayCollection",
        vec![Element { name: "data".to_string(), value: Value::Integer(5) }],
    );
    e.write_value_element(&mut v, &value).unwrap();

    let mut d = AMF3Decoder::default();
    register_decoders(&mut d);
    let (n, back) = d.parse_single_element(&v).unwrap();
    assert_eq!(n, v.len());
    if let Value::Custom(c) = back {
        assert_eq!(c.class_definition.name, "flex.messaging.io.ArrayCollection");
        assert_eq!(c.elements.len(), 1);
        assert_eq!(c.elements[0].name, "data");
        assert!(matches!(c.elements[0].value, Value::Integer(5)));
    } else {
        panic!("not an external object");
    }
}

#[test]
fn external_without_encoder_errors() {
    let mut e = AMF3Encoder::default();
    let mut v = Vec::new();
    let value = collection("flex.messaging.io.ArrayCollection", vec![]);
    assert_eq!(e.write_value_element(&mut v, &value), Err(EncodeError::NoExternalEncoder));
    register_encoders(&mut e);
    let mut v = Vec::new();
    assert_eq!(e.write_value_element(&mut v, &value), Err(EncodeError::NoExternalElements));
}

#[test]
fn abstract_message_flags_read_back() {
    let mut e = AMF3Encoder::default();
    register_encoders(&mut e);
    let mut v = Vec::new();
    let value = collection(
        "flex.messaging.io.AbstractMessage",
        vec![
            Element { name: "body".to_string(), value: Value::Integer(5) },
            Element { name: "client_id_bytes".to_string(), value: Value::Integer(7) },
        ],
    );
    e.write_value_element(&mut v, &value).unwrap();
    // two flag bytes: the first carries the continuation bit, the last does not
    let flags = &v[v.len() - 6..v.len() - 4];
    assert_eq!(flags, &[0x81, 0x01]);

    let mut d = AMF3Decoder::default();
    register_decoders(&mut d);
    let (_, back) = d.parse_single_element(&v).unwrap();
    if let Value::Custom(c) = back {
        assert_eq!(c.elements.len(), 2);
        assert_eq!(c.elements[0].name, "body");
        assert!(matches!(c.elements[0].value, Value::Integer(5)));
        assert_eq!(c.elements[1].name, "client_id_bytes");
        assert!(matches!(c.elements[1].value, Value::Integer(7)));
    } else {
        panic!("not an external object");
    }
}

#[test]
fn abstract_message_ends_after_its_body() {
    let mut d = AMF3Decoder::default();
    // one flag byte with only the body flag, the body (null), then a byte of what follows
    let (end, elements) = decode_external(&mut d, &[0x01, 0x01, 0x06], 0, FlexDecoder::AbstractMessage).unwrap();
    assert_eq!(end, 2);
    assert_eq!(elements.len(), 1);
    assert_eq!(elements[0].name, "body");
    assert!(matches!(elements[0].value, Value::Null));
}

#[test]
fn async_message_is_followed_by_the_next_value() {
    let mut e = AMF3Encoder::default();
    register_encoders(&mut e);
    let mut v = Vec::new();
    let value = collection(
        "flex.messaging.io.AsyncMessage",
        vec![
            Element { name: "body".to_string(), value: Value::Integer(5) },
            Element { name: "correlation_id".to_string(), value: Value::Integer(9) },
        ],
    );
    e.write_value_element(&mut v, &value).unwrap();
    let first = v.len();
    e.write_value_element(&mut v, &Value::Integer(3)).unwrap();

    let mut d = AMF3Decoder::default();
    register_decoders(&mut d);
    let (n, back) = d.parse_single_element(&v).unwrap();
    assert_eq!(n, first);
    if let Value::Custom(c) = back {
        assert_eq!(c.elements.len(), 2);
        assert_eq!(c.elements[0].name, "body");
        assert!(matches!(c.elements[0].value, Value::Integer(5)));
        assert_eq!(c.elements[1].name, "correlation_id");
        assert!(matches!(c.elements[1].value, Value::Integer(9)));
    } else {
        panic!("not an external object");
    }
    let (m, next) = d.parse_single_element(&v[n..]).unwrap();
    assert_eq!(m, v.len() - n);
    assert!(matches!(next, Value::Integer(3)));
}
