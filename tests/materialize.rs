use dmxparser::dmx::{File, Vector3};
use dmxparser::error::{AttributeName, DmxError};
use dmxparser::materialize::{node_of_value, Leaf, Node, Shape, StringWrapper, Value};
use dmxparser::{from_file, from_slice, from_slice_owned};

struct Doc(Vec<u8>);

impl Doc {
    fn start(strings: &[&str], elements: usize) -> Doc {
        let mut d = Doc(Vec::new());
        d.cstr("<!-- dmx encoding binary 9 format generic 1 -->\n");
        d.i32(0);
        d.i32(0);
        d.i32(strings.len() as i32);
        for s in strings {
            d.cstr(s);
        }
        d.i32(elements as i32);
        d
    }
    fn i32(&mut self, v: i32) {
        self.0.extend_from_slice(&v.to_le_bytes());
    }
    fn u8(&mut self, v: u8) {
        self.0.push(v);
    }
    fn cstr(&mut self, s: &str) {
        self.0.extend_from_slice(s.as_bytes());
        self.0.push(0);
    }
    fn element(&mut self, type_: i32, name: i32) {
        self.i32(type_);
        self.i32(name);
        self.0.extend_from_slice(&[7; 16]);
    }
    fn body(&mut self, count: i32) {
        self.i32(count);
    }
    fn int_attr(&mut self, name: i32, v: i32) {
        self.i32(name);
        self.u8(2);
        self.i32(v);
    }
    fn element_attr(&mut self, name: i32, index: i32) {
        self.i32(name);
        self.u8(1);
        self.i32(index);
    }
    fn string_attr(&mut self, name: i32, r: i32) {
        self.i32(name);
        self.u8(5);
        self.i32(r);
    }
    fn float_attr(&mut self, name: i32, v: f32) {
        self.i32(name);
        self.u8(3);
        self.0.extend_from_slice(&v.to_bits().to_le_bytes());
    }
}

fn innermost(e: &DmxError) -> &DmxError {
    match e {
        DmxError::Attribute(_, inner) => innermost(inner),
        other => other,
    }
}

fn attr_node<'d>(file: &'d File<&[u8], &str>, element: usize, attr: usize) -> Node<'d, &'d [u8], &'d str> {
    node_of_value(&file.bodies[element].attributes[attr].value)
}

fn optional_any() -> Shape {
    Shape::Optional(Box::new(Shape::Any))
}

#[test]
fn negative_string_ref_is_absent_when_optional() {
    let mut d = Doc::start(&["Root", "label", "first"], 1);
    d.element(0, -1);
    d.body(2);
    d.string_attr(1, -1);
    d.string_attr(1, 2);
    let file = from_slice(&d.0).unwrap();
    let absent = file.materialize_node(&attr_node(&file, 0, 0), &optional_any(), 4).unwrap();
    assert_eq!(absent, Value::Absent);
    let present = file.materialize_node(&attr_node(&file, 0, 1), &optional_any(), 4).unwrap();
    assert_eq!(present, Value::Str(StringWrapper(&"first")));
}

#[test]
fn string_ref_zero_resolves_to_first_string() {
    let mut d = Doc::start(&["alpha", "label"], 1);
    d.element(0, -1);
    d.body(1);
    d.string_attr(1, 0);
    let file = from_slice(&d.0).unwrap();
    let v = file.materialize_node(&attr_node(&file, 0, 0), &Shape::Kind(dmxparser::dmx::AttributeType::String), 4).unwrap();
    assert_eq!(v, Value::Str(StringWrapper(&"alpha")));
    let v = file.materialize_node(&attr_node(&file, 0, 0), &optional_any(), 4).unwrap();
    assert_eq!(v, Value::Str(StringWrapper(&"alpha")));
}

#[test]
fn mapping_keeps_declaration_order() {
    let mut d = Doc::start(&["Root", "b", "a", "c"], 1);
    d.element(0, -1);
    d.body(3);
    d.int_attr(1, 10);
    d.int_attr(2, 20);
    d.int_attr(3, 30);
    let file = from_slice(&d.0).unwrap();
    let v = from_file(&file, &Shape::Mapping(Box::new(Shape::Any))).unwrap();
    match v {
        Value::Mapping(entries) => {
            let names: Vec<&str> = entries.iter().map(|(k, _)| *k.0).collect();
            assert_eq!(names, vec!["b", "a", "c"]);
            assert_eq!(entries[1].1, Value::Leaf(Leaf::Int(20)));
        },
        other => panic!("expected a mapping, got {:?}", other),
    }
}

fn union_document() -> Vec<u8> {
    let mut d = Doc::start(&["Root", "Foo", "child", "x"], 2);
    d.element(0, -1);
    d.element(1, -1);
    d.body(2);
    d.element_attr(2, 1);
    d.float_attr(3, 1.5);
    d.body(1);
    d.float_attr(3, -2.0);
    d.0
}

#[test]
fn element_dispatches_on_type_name() {
    let bytes = union_document();
    let file = from_slice(&bytes).unwrap();
    let node = attr_node(&file, 0, 0);
    assert_eq!(file.discriminant(&node), Ok("Foo"));
    let shape = Shape::Union(vec![
        ("Bar".to_string(), Shape::Any),
        ("Foo".to_string(), Shape::Mapping(Box::new(Shape::Any))),
    ]);
    let v = file.materialize_node(&node, &shape, 4).unwrap();
    match v {
        Value::Variant(j, payload) => {
            assert_eq!(j, 1);
            match *payload {
                Value::Mapping(entries) => {
                    assert_eq!(entries.len(), 1);
                    assert_eq!(*entries[0].0 .0, "x");
                    assert_eq!(entries[0].1, Value::Leaf(Leaf::Float((-2.0f32).to_bits())));
                },
                other => panic!("expected a mapping, got {:?}", other),
            }
        },
        other => panic!("expected a variant, got {:?}", other),
    }
}

#[test]
fn float_dispatches_on_kind_name() {
    let bytes = union_document();
    let file = from_slice(&bytes).unwrap();
    let node = attr_node(&file, 0, 1);
    assert_eq!(file.discriminant(&node), Ok("Float"));
    let shape = Shape::Union(vec![
        ("Int".to_string(), Shape::Any),
        ("Float".to_string(), Shape::Kind(dmxparser::dmx::AttributeType::Float)),
    ]);
    let v = file.materialize_node(&node, &shape, 4).unwrap();
    assert_eq!(v, Value::Variant(1, Box::new(Value::Leaf(Leaf::Float(1.5f32.to_bits())))));
    let only_int = Shape::Union(vec![("Int".to_string(), Shape::Any)]);
    assert_eq!(
        file.materialize_node(&node, &only_int, 4),
        Err(DmxError::UnknownVariant("Float".to_string()))
    );
}

fn fixture() -> Vec<u8> {
    let mut d = Doc::start(&["Root", "Child", "name", "kids", "pos", "tags", "blob", "nothing"], 3);
    d.element(0, 2);
    d.element(1, 2);
    d.element(1, -1);
    d.body(6);
    d.string_attr(2, 0);
    d.i32(3);
    d.u8(33);
    d.i32(3);
    d.i32(1);
    d.i32(2);
    d.i32(-1);
    d.i32(4);
    d.u8(10);
    for x in [1.0f32, 2.0, 3.0] {
        d.0.extend_from_slice(&x.to_bits().to_le_bytes());
    }
    d.i32(5);
    d.u8(37);
    d.i32(2);
    d.cstr("red");
    d.cstr("blue");
    d.i32(6);
    d.u8(6);
    d.i32(3);
    d.0.extend_from_slice(&[1, 2, 3]);
    d.string_attr(7, -1);
    d.body(1);
    d.int_attr(2, 5);
    d.body(0);
    d.0
}

#[test]
fn slice_and_owned_documents_agree() {
    let bytes = fixture();
    let a = from_slice(&bytes).unwrap();
    let b = from_slice_owned(&bytes).unwrap();
    assert_eq!(format!("{:?}", a.strings), format!("{:?}", b.strings));
    assert_eq!(a.headers, b.headers);
    assert_eq!(format!("{:?}", a.bodies), format!("{:?}", b.bodies));
    let va = from_file(&a, &Shape::Any).unwrap();
    let vb = from_file(&b, &Shape::Any).unwrap();
    assert_eq!(format!("{:?}", va), format!("{:?}", vb));
    match va {
        Value::Mapping(entries) => {
            assert_eq!(entries.len(), 6);
            assert_eq!(entries[0].1, Value::Str(StringWrapper(&"Root")));
            match &entries[1].1 {
                Value::Sequence(kids) => {
                    assert_eq!(kids.len(), 3);
                    assert_eq!(kids[2], Value::Absent);
                },
                other => panic!("expected a sequence, got {:?}", other),
            }
            assert_eq!(
                entries[2].1,
                Value::Leaf(Leaf::Vector3(Vector3 { x: 1.0f32.to_bits(), y: 2.0f32.to_bits(), z: 3.0f32.to_bits() }))
            );
            assert_eq!(entries[5].1, Value::Absent);
        },
        other => panic!("expected a mapping, got {:?}", other),
    }
}

#[test]
fn record_takes_fields_by_name() {
    let bytes = fixture();
    let file = from_slice(&bytes).unwrap();
    let shape = Shape::Record(vec![
        ("tags".to_string(), Shape::Sequence(Box::new(Shape::Kind(dmxparser::dmx::AttributeType::String)))),
        ("missing".to_string(), optional_any()),
        ("kids".to_string(), Shape::Sequence(Box::new(Shape::Optional(Box::new(Shape::Mapping(Box::new(Shape::Any))))))),
    ]);
    let v = from_file(&file, &shape).unwrap();
    match v {
        Value::Record(fields) => {
            assert_eq!(
                fields[0],
                Value::Sequence(vec![Value::Str(StringWrapper(&"red")), Value::Str(StringWrapper(&"blue"))])
            );
            assert_eq!(fields[1], Value::Absent);
            match &fields[2] {
                Value::Sequence(kids) => {
                    assert_eq!(kids.len(), 3);
                    assert_eq!(kids[2], Value::Absent);
                },
                other => panic!("expected a sequence, got {:?}", other),
            }
        },
        other => panic!("expected a record, got {:?}", other),
    }
    let strict = Shape::Record(vec![("missing".to_string(), Shape::Any)]);
    assert_eq!(from_file(&file, &strict), Err(DmxError::MissingField("missing".to_string())));
}

#[test]
fn out_of_range_element_is_reference_error() {
    let mut d = Doc::start(&["Root", "child"], 3);
    d.element(0, -1);
    d.element(0, -1);
    d.element(0, -1);
    d.body(1);
    d.element_attr(1, 999);
    d.body(0);
    d.body(0);
    let file = from_slice(&d.0).unwrap();
    assert_eq!(
        from_file(&file, &Shape::Any),
        Err(DmxError::Attribute(
            AttributeName::Resolved("child".to_string()),
            Box::new(DmxError::Reference(999))
        ))
    );
    assert_eq!(file.materialize_node(&Node::Element(999), &Shape::Any, 4), Err(DmxError::Reference(999)));
    assert_eq!(file.discriminant(&Node::Element(999)), Err(DmxError::Reference(999)));
}

#[test]
fn out_of_range_string_ref_is_reference_error() {
    let mut d = Doc::start(&["Root", "label"], 1);
    d.element(0, -1);
    d.body(1);
    d.string_attr(1, 50);
    let file = from_slice(&d.0).unwrap();
    assert_eq!(
        file.materialize_node(&attr_node(&file, 0, 0), &Shape::Any, 4),
        Err(DmxError::Reference(50))
    );
}

#[test]
fn cyclic_graph_hits_depth_limit() {
    let mut d = Doc::start(&["Root", "self"], 1);
    d.element(0, -1);
    d.body(1);
    d.element_attr(1, 0);
    let bytes = d.0;
    let file = from_slice_owned(&bytes).unwrap();
    let r = file.materialize_node(&Node::Element(0), &Shape::Any, 5);
    let e = r.unwrap_err();
    assert_eq!(innermost(&e), &DmxError::DepthLimit);
    match e {
        DmxError::Attribute(AttributeName::Resolved(name), _) => assert_eq!(name, "self"),
        other => panic!("expected a named failure, got {:?}", other),
    }
}

#[test]
fn shape_mismatch_is_reported() {
    let bytes = union_document();
    let file = from_slice(&bytes).unwrap();
    let float = attr_node(&file, 0, 1);
    assert_eq!(file.materialize_node(&float, &Shape::Kind(dmxparser::dmx::AttributeType::Int), 4), Err(DmxError::Mismatch));
    assert_eq!(file.materialize_node(&float, &Shape::Sequence(Box::new(Shape::Any)), 4), Err(DmxError::Mismatch));
    assert_eq!(file.materialize_node(&float, &Shape::Mapping(Box::new(Shape::Any)), 4), Err(DmxError::Mismatch));
    assert_eq!(
        file.materialize_node(&float, &optional_any(), 4),
        Ok(Value::Leaf(Leaf::Float(1.5f32.to_bits())))
    );
}
