use flash_lso::amf0::writer::{Amf0Writer, CacheKey, ObjWriter};
use flash_lso::types::{Reference, Value};

#[test]
fn fff() {
    let mut w = Amf0Writer::default();
    let (aw, _) = w.object(CacheKey::from_ptr(0));
    let mut aw = aw.unwrap();
    {
        aw.string("asdf", "asfd");
        {
            let (aw2, _) = aw.object(CacheKey::from_ptr(1));
            let mut aw2 = aw2.unwrap();
            aw2.string("asf", "asdf");
            aw2.commit("asf");
        }
    }
    aw.commit("foo");
    assert_eq!(w.elements.len(), 2);
    assert_eq!(w.elements[0].name, "asf");
    assert_eq!(w.elements[1].name, "foo");
}

#[test]
fn test_dates_are_referenced() {
    let mut writer = Amf0Writer::default();
    let (aw, _) = writer.array(CacheKey::from_ptr(1));
    if let Some(mut aw) = aw {
        aw.string("foo", "bar");
        aw.string("bar", "baz");
        aw.date(CacheKey::from_ptr(2), "date1", 0.0f64.to_bits(), None);
        aw.date(CacheKey::from_ptr(2), "date1", 0.0f64.to_bits(), None);
        aw.commit("arr");
    }
    let lso = writer.commit_lso("Lso");

    assert!(matches!(lso.body.get(0).unwrap().value, Value::ECMAArray { .. }));
    if let Value::ECMAArray { id: _, data } = &lso.body.get(0).unwrap().value {
        assert!(matches!(&data.elements.first().unwrap().value, Value::String(s) if s == "bar"));
        assert!(matches!(&data.elements.iter().nth(1).unwrap().value, Value::String(s) if s == "baz"));
        assert!(matches!(data.elements.iter().nth(2).unwrap().value, Value::Date { .. }));
        assert!(matches!(data.elements.iter().nth(3).unwrap().value, Value::Reference(Reference(1))));
    }
}

#[test]
fn test_xml_is_referenced() {
    let mut writer = Amf0Writer::default();
    let (aw, _) = writer.array(CacheKey::from_ptr(1));
    if let Some(mut aw) = aw {
        aw.xml(CacheKey::from_ptr(2), "xml1", "<1></1>", true);
        aw.xml(CacheKey::from_ptr(2), "xml2", "<1></1>", true);
        aw.xml(CacheKey::from_ptr(3), "xml3", "<2></2>", true);
        aw.xml(CacheKey::from_ptr(3), "xml4", "<2></2>", true);
        aw.commit("arr");
    }
    let lso = writer.commit_lso("Lso");

    assert!(matches!(lso.body.get(0).unwrap().value, Value::ECMAArray { .. }));
    if let Value::ECMAArray { id: _, data } = &lso.body.get(0).unwrap().value {
        assert!(matches!(data.elements.iter().nth(0).unwrap().value, Value::XML { .. }));
        assert!(matches!(data.elements.iter().nth(1).unwrap().value, Value::Reference(Reference(1))));
        assert!(matches!(data.elements.iter().nth(2).unwrap().value, Value::XML { .. }));
        assert!(matches!(data.elements.iter().nth(3).unwrap().value, Value::Reference(Reference(2))));
    }
}

#[test]
fn cached_object_key_gives_reference_without_writer() {
    let mut writer = Amf0Writer::new();
    let (first, r1) = writer.object(CacheKey::from_ptr(5));
    assert!(first.is_some());
    assert_eq!(r1, Reference(0));
    let (second, r2) = writer.object(CacheKey::from_ptr(5));
    assert!(second.is_none());
    assert_eq!(r2, Reference(0));
    let (third, r3) = writer.strict_array(CacheKey::from_ptr(6));
    assert!(third.is_some());
    assert_eq!(r3, Reference(1));
}

#[test]
fn strict_array_writer_keeps_values_only() {
    let mut writer = Amf0Writer::new();
    let (sw, _) = writer.strict_array(CacheKey::from_ptr(1));
    let mut sw = sw.unwrap();
    sw.string("ignored", "x");
    sw.bool("ignored", true);
    sw.null("ignored");
    sw.commit("list");
    let lso = writer.commit_lso("Lso");
    assert_eq!(lso.body.len(), 1);
    if let Value::StrictArray { values, .. } = &lso.body[0].value {
        assert_eq!(values.len(), 3);
        assert!(matches!(&values[0], Value::String(s) if s == "x"));
        assert!(matches!(values[1], Value::Bool(true)));
        assert!(matches!(values[2], Value::Null));
    } else {
        panic!("not a strict array");
    }
}

#[test]
fn root_writer_scalars() {
    let mut writer = Amf0Writer::new();
    writer.number("n", 2.0f64.to_bits());
    writer.undefined("u");
    writer.reference("r", Reference(4));
    let lso = writer.commit_lso("Name");
    assert_eq!(lso.header.name, "Name");
    assert_eq!(lso.header.length, 0);
    assert!(matches!(lso.body[0].value, Value::Number(b) if b == 2.0f64.to_bits()));
    assert!(matches!(lso.body[1].value, Value::Undefined));
    assert!(matches!(lso.body[2].value, Value::Reference(Reference(4))));
}

#[test]
fn references_are_fresh_until_a_key_repeats() {
    let mut w = Amf0Writer::default();
    let (o, r0) = w.object(CacheKey::from_ptr(10));
    drop(o);
    let (a, r1) = w.array(CacheKey::from_ptr(11));
    drop(a);
    let (s, r2) = w.strict_array(CacheKey::from_ptr(10));
    assert!(s.is_none());
    assert_eq!((r0, r1, r2), (Reference(0), Reference(1), Reference(0)));
}

#[test]
fn a_child_writer_dropped_without_commit_leaves_the_root() {
    let mut w = Amf0Writer::default();
    w.string("kept", "yes");
    {
        let (aw, _) = w.array(CacheKey::from_ptr(1));
        let mut aw = aw.unwrap();
        aw.string("a", "b");
        aw.number("n", 1.5f64.to_bits());
    }
    let lso = w.commit_lso("Lso");
    assert_eq!(lso.body.len(), 1);
    assert_eq!(lso.body[0].name, "kept");
    assert!(matches!(&lso.body[0].value, Value::String(s) if s == "yes"));
}

fn write_pair<W: ObjWriter>(w: &mut W) {
    w.string("name", "value");
    w.bool("flag", true);
}

#[test]
fn every_writer_takes_the_same_calls() {
    let mut root = Amf0Writer::default();
    write_pair(&mut root);
    {
        let (ow, _) = root.object(CacheKey::from_ptr(1));
        let mut ow = ow.unwrap();
        write_pair(&mut ow);
        ow.commit("obj");
    }
    {
        let (sw, _) = root.strict_array(CacheKey::from_ptr(2));
        let mut sw = sw.unwrap();
        write_pair(&mut sw);
        sw.commit("list");
    }
    assert_eq!(root.elements.len(), 4);
    assert_eq!(root.elements[0].name, "name");
    assert!(matches!(&root.elements[1].value, Value::Bool(true)));
    match &root.elements[2].value {
        Value::Object { data, .. } => {
            assert_eq!(data.elements.len(), 2);
            assert_eq!(data.elements[1].name, "flag");
        }
        _ => panic!("not an object"),
    }
    match &root.elements[3].value {
        Value::StrictArray { values, .. } => {
            assert_eq!(values.len(), 2);
            assert!(matches!(&values[0], Value::String(s) if s == "value"));
        }
        _ => panic!("not a strict array"),
    }
}
