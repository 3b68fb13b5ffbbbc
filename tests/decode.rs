use dmxparser::dmx::{
    AttributeType, AttributeValue, Color, FileHeader, Header, Qangle, Quaternion, StringRef, Time,
    Vector2, Vector3, Vector4, Vmatrix,
};
use dmxparser::error::{AttributeName, DmxError};
use dmxparser::read::{Readable, Slice};
use dmxparser::{from_slice, from_slice_owned};

struct Wire(Vec<u8>);

impl Wire {
    fn new() -> Wire {
        Wire(Vec::new())
    }
    fn u8(mut self, v: u8) -> Wire {
        self.0.push(v);
        self
    }
    fn i32(mut self, v: i32) -> Wire {
        self.0.extend_from_slice(&v.to_le_bytes());
        self
    }
    fn u32(mut self, v: u32) -> Wire {
        self.0.extend_from_slice(&v.to_le_bytes());
        self
    }
    fn u64(mut self, v: u64) -> Wire {
        self.0.extend_from_slice(&v.to_le_bytes());
        self
    }
    fn f32(self, v: f32) -> Wire {
        self.u32(v.to_bits())
    }
    fn cstr(mut self, s: &str) -> Wire {
        self.0.extend_from_slice(s.as_bytes());
        self.0.push(0);
        self
    }
    fn raw(mut self, b: &[u8]) -> Wire {
        self.0.extend_from_slice(b);
        self
    }
}

fn decode_value(bytes: &[u8]) -> (AttributeValue<&[u8], &str>, usize) {
    let mut src = Slice(bytes);
    let v = <AttributeValue<&[u8], &str> as Readable>::read(&mut src).unwrap();
    (v, src.0.len())
}

fn decode_owned_value(bytes: &[u8]) -> AttributeValue<Vec<u8>, String> {
    let mut src = Slice(bytes);
    <AttributeValue<Vec<u8>, String> as Readable>::read(&mut src).unwrap()
}

fn header_line() -> Wire {
    Wire::new().cstr("<!-- dmx encoding binary 9 format generic 1 -->\n")
}

#[test]
fn scalar_kinds_round_trip() {
    let m: [f32; 16] = [
        1.0, 0.0, 0.0, 0.0, 0.0, 1.0, 0.0, 0.0, 0.0, 0.0, 1.0, 0.0, 5.0, -6.0, 7.5, 1.0,
    ];
    let mut mw = Wire::new().u8(14);
    for x in m.iter() {
        mw = mw.f32(*x);
    }
    let cases: Vec<(Vec<u8>, AttributeValue<&[u8], &str>)> = vec![
        (Wire::new().u8(1).i32(7).0, AttributeValue::Element(7)),
        (Wire::new().u8(2).i32(-123456).0, AttributeValue::Int(-123456)),
        (Wire::new().u8(3).f32(2.5).0, AttributeValue::Float(2.5f32.to_bits())),
        (Wire::new().u8(4).u8(1).0, AttributeValue::Bool(true)),
        (Wire::new().u8(4).u8(0).0, AttributeValue::Bool(false)),
        (Wire::new().u8(5).cstr("héllo").0, AttributeValue::String("héllo")),
        (Wire::new().u8(6).i32(3).raw(&[9, 8, 7]).0, AttributeValue::Binary(&[9u8, 8, 7][..])),
        (Wire::new().u8(7).i32(-1500).0, AttributeValue::Time(Time { millis: -1500 })),
        (Wire::new().u8(8).raw(&[1, 2, 0xff, 0x80]).0, AttributeValue::Color(Color { r: 1, g: 2, b: -1, a: -128 })),
        (Wire::new().u8(9).f32(1.0).f32(-2.0).0, AttributeValue::Vector2(Vector2 { x: 1.0f32.to_bits(), y: (-2.0f32).to_bits() })),
        (Wire::new().u8(10).f32(1.0).f32(2.0).f32(3.0).0, AttributeValue::Vector3(Vector3 { x: 1.0f32.to_bits(), y: 2.0f32.to_bits(), z: 3.0f32.to_bits() })),
        (Wire::new().u8(11).f32(1.0).f32(2.0).f32(3.0).f32(4.0).0, AttributeValue::Vector4(Vector4 { x: 1.0f32.to_bits(), y: 2.0f32.to_bits(), z: 3.0f32.to_bits(), w: 4.0f32.to_bits() })),
        (Wire::new().u8(12).f32(10.0).f32(20.0).f32(30.0).0, AttributeValue::Qangle(Qangle { pitch: 10.0f32.to_bits(), yaw: 20.0f32.to_bits(), roll: 30.0f32.to_bits() })),
        (Wire::new().u8(13).f32(0.0).f32(0.0).f32(0.0).f32(1.0).0, AttributeValue::Quaternion(Quaternion { x: 0, y: 0, z: 0, w: 1.0f32.to_bits() })),
        (mw.0, AttributeValue::Vmatrix(Vmatrix(m.map(|x| x.to_bits())))),
        (Wire::new().u8(15).u64(0x0102_0304_0506_0708).0, AttributeValue::Uint64(0x0102_0304_0506_0708)),
        (Wire::new().u8(16).u8(200).0, AttributeValue::Uint8(200)),
    ];
    for (bytes, expected) in cases.iter() {
        let mut with_tail = bytes.clone();
        with_tail.push(0xaa);
        let (v, left) = decode_value(&with_tail);
        assert_eq!(&v, expected);
        assert_eq!(left, 1);
        assert_eq!(v.kind(), expected.kind());
    }
}

#[test]
fn array_kinds_round_trip_lengths_zero_one_many() {
    for n in [0usize, 1, 5] {
        let ints: Vec<i32> = (0..n as i32).map(|i| i * 1000 - 7).collect();
        let mut w = Wire::new().u8(34).i32(n as i32);
        for x in ints.iter() {
            w = w.i32(*x);
        }
        assert_eq!(decode_value(&w.0), (AttributeValue::IntArray(ints.clone()), 0));

        let mut w = Wire::new().u8(33).i32(n as i32);
        for x in ints.iter() {
            w = w.i32(*x);
        }
        assert_eq!(decode_value(&w.0).0, AttributeValue::ElementArray(ints.clone()));

        let floats: Vec<u32> = (0..n).map(|i| (i as f32 * 0.5).to_bits()).collect();
        let mut w = Wire::new().u8(35).i32(n as i32);
        for x in floats.iter() {
            w = w.u32(*x);
        }
        assert_eq!(decode_value(&w.0).0, AttributeValue::FloatArray(floats.clone()));

        let bools: Vec<bool> = (0..n).map(|i| i % 2 == 0).collect();
        let mut w = Wire::new().u8(36).i32(n as i32);
        for x in bools.iter() {
            w = w.u8(if *x { 1 } else { 0 });
        }
        assert_eq!(decode_value(&w.0).0, AttributeValue::BoolArray(bools.clone()));

        let strings: Vec<String> = (0..n).map(|i| format!("s{}", i)).collect();
        let mut w = Wire::new().u8(37).i32(n as i32);
        for x in strings.iter() {
            w = w.cstr(x);
        }
        let expected: Vec<&str> = strings.iter().map(|s| s.as_str()).collect();
        assert_eq!(decode_value(&w.0).0, AttributeValue::StringArray(expected));
        assert_eq!(decode_owned_value(&w.0), AttributeValue::StringArray(strings.clone()));

        let blobs: Vec<Vec<u8>> = (0..n).map(|i| vec![i as u8; i]).collect();
        let mut w = Wire::new().u8(38).i32(n as i32);
        for x in blobs.iter() {
            w = w.i32(x.len() as i32).raw(x);
        }
        let expected: Vec<&[u8]> = blobs.iter().map(|b| b.as_slice()).collect();
        assert_eq!(decode_value(&w.0).0, AttributeValue::BinaryArray(expected));
        assert_eq!(decode_owned_value(&w.0), AttributeValue::BinaryArray(blobs.clone()));

        let mut w = Wire::new().u8(39).i32(n as i32);
        for x in ints.iter() {
            w = w.i32(*x);
        }
        let times: Vec<Time> = ints.iter().map(|m| Time { millis: *m }).collect();
        assert_eq!(decode_value(&w.0).0, AttributeValue::TimeArray(times));

        let mut w = Wire::new().u8(40).i32(n as i32);
        for i in 0..n {
            w = w.raw(&[i as u8, 1, 2, 3]);
        }
        let colors: Vec<Color> = (0..n).map(|i| Color { r: i as i8, g: 1, b: 2, a: 3 }).collect();
        assert_eq!(decode_value(&w.0).0, AttributeValue::ColorArray(colors));

        let mut w = Wire::new().u8(41).i32(n as i32);
        for i in 0..n {
            w = w.u32(i as u32).u32(9);
        }
        let v2: Vec<Vector2> = (0..n).map(|i| Vector2 { x: i as u32, y: 9 }).collect();
        assert_eq!(decode_value(&w.0).0, AttributeValue::Vector2Array(v2));

        let mut w = Wire::new().u8(42).i32(n as i32);
        for i in 0..n {
            w = w.u32(i as u32).u32(1).u32(2);
        }
        let v3: Vec<Vector3> = (0..n).map(|i| Vector3 { x: i as u32, y: 1, z: 2 }).collect();
        assert_eq!(decode_value(&w.0).0, AttributeValue::Vector3Array(v3));

        let mut w = Wire::new().u8(43).i32(n as i32);
        for i in 0..n {
            w = w.u32(i as u32).u32(1).u32(2).u32(3);
        }
        let v4: Vec<Vector4> = (0..n).map(|i| Vector4 { x: i as u32, y: 1, z: 2, w: 3 }).collect();
        assert_eq!(decode_value(&w.0).0, AttributeValue::Vector4Array(v4));

        let mut w = Wire::new().u8(44).i32(n as i32);
        for i in 0..n {
            w = w.u32(i as u32).u32(4).u32(5);
        }
        let qa: Vec<Qangle> = (0..n).map(|i| Qangle { pitch: i as u32, yaw: 4, roll: 5 }).collect();
        assert_eq!(decode_value(&w.0).0, AttributeValue::QangleArray(qa));

        let mut w = Wire::new().u8(45).i32(n as i32);
        for i in 0..n {
            w = w.u32(i as u32).u32(6).u32(7).u32(8);
        }
        let qs: Vec<Quaternion> = (0..n).map(|i| Quaternion { x: i as u32, y: 6, z: 7, w: 8 }).collect();
        assert_eq!(decode_value(&w.0).0, AttributeValue::QuaternionArray(qs));

        let mut w = Wire::new().u8(46).i32(n as i32);
        for i in 0..n {
            for j in 0..16u32 {
                w = w.u32(i as u32 * 100 + j);
            }
        }
        let ms: Vec<Vmatrix> = (0..n)
            .map(|i| {
                let mut m = [0u32; 16];
                for j in 0..16 {
                    m[j] = i as u32 * 100 + j as u32;
                }
                Vmatrix(m)
            })
            .collect();
        assert_eq!(decode_value(&w.0).0, AttributeValue::VmatrixArray(ms));

        let mut w = Wire::new().u8(47).i32(n as i32);
        for i in 0..n {
            w = w.u64(u64::MAX - i as u64);
        }
        let us: Vec<u64> = (0..n).map(|i| u64::MAX - i as u64).collect();
        assert_eq!(decode_value(&w.0).0, AttributeValue::Uint64Array(us));
    }
}

#[test]
fn negative_array_count_reads_no_items() {
    let bytes = Wire::new().u8(34).i32(-4).0;
    assert_eq!(decode_value(&bytes), (AttributeValue::IntArray(vec![]), 0));
}

#[test]
fn unknown_tag_is_unsupported_type() {
    for tag in [0u8, 17, 32, 48, 255] {
        let bytes = Wire::new().u8(tag).i32(0).0;
        let mut src = Slice(&bytes);
        let r = <AttributeValue<&[u8], &str> as Readable>::read(&mut src);
        assert_eq!(r, Err(DmxError::UnsupportedType(tag)));
    }
    assert!(AttributeType::from_tag(16).is_ok());
    assert_eq!(AttributeType::from_tag(47), Ok(AttributeType::Uint64Array));
}

#[test]
fn truncated_input_is_io_error() {
    let bytes = Wire::new().u8(10).f32(1.0).f32(2.0).0;
    let mut src = Slice(&bytes);
    let r = <AttributeValue<&[u8], &str> as Readable>::read(&mut src);
    assert_eq!(r, Err(DmxError::Io));
    let bytes = Wire::new().u8(6).i32(-1).0;
    let mut src = Slice(&bytes);
    assert_eq!(<AttributeValue<&[u8], &str> as Readable>::read(&mut src), Err(DmxError::Io));
    let bytes = Wire::new().u8(5).raw(b"no terminator").0;
    let mut src = Slice(&bytes);
    assert_eq!(<AttributeValue<&[u8], &str> as Readable>::read(&mut src), Err(DmxError::Io));
}

#[test]
fn largest_count_on_short_input_is_io_error() {
    let bytes = Wire::new().u8(47).i32(i32::MAX).u64(1).u64(2).0;
    let mut src = Slice(&bytes);
    assert_eq!(<AttributeValue<&[u8], &str> as Readable>::read(&mut src), Err(DmxError::Io));
    let bytes = Wire::new().u8(6).i32(i32::MAX).raw(&[1, 2, 3]).0;
    let mut src = Slice(&bytes);
    assert_eq!(<AttributeValue<Vec<u8>, String> as Readable>::read(&mut src), Err(DmxError::Io));
}

#[test]
fn invalid_utf8_is_encoding_error_with_bytes() {
    let bytes = Wire::new().u8(5).raw(&[b'a', 0xff, b'b', 0]).0;
    let mut src = Slice(&bytes);
    let r = <AttributeValue<&[u8], &str> as Readable>::read(&mut src);
    assert_eq!(r, Err(DmxError::Encoding(vec![b'a', 0xff, b'b'])));
    let mut src = Slice(&bytes);
    let r = <AttributeValue<Vec<u8>, String> as Readable>::read(&mut src);
    assert_eq!(r, Err(DmxError::Encoding(vec![b'a', 0xff, b'b'])));
}

#[test]
fn byte_source_reads_until_delimiter() {
    let data = [1u8, 2, 3, 0, 4];
    let mut src = Slice(&data);
    assert_eq!(src.read_until(3), Ok(&[1u8, 2, 3][..]));
    assert_eq!(src.0, &[0u8, 4][..]);
    assert_eq!(src.read_until(9), Err(DmxError::Io));
    assert_eq!(src.read_u32(), Err(DmxError::Io));
    assert_eq!(src.read_bytes(2), Ok(&[0u8, 4][..]));
    let le = [0x78u8, 0x56, 0x34, 0x12];
    assert_eq!(Slice(&le).read_u32(), Ok(0x1234_5678));
}

#[test]
fn string_ref_index() {
    assert_eq!(StringRef(-1).index(), None);
    assert_eq!(StringRef(0).index(), Some(0));
    assert_eq!(StringRef(42).index(), Some(42));
}

#[test]
fn kind_names() {
    assert_eq!(AttributeType::Float.name(), "Float");
    assert_eq!(AttributeType::Vector3Array.name(), "Vector3Array");
    assert_eq!(AttributeType::Element.name(), "Element");
}

#[test]
fn header_line_parses() {
    let bytes = header_line().0;
    let h = FileHeader::<&str>::read(&mut Slice(&bytes)).unwrap();
    assert_eq!(
        h,
        FileHeader { encoding_name: "binary", encoding_version: 9, format_name: "generic", format_version: 1 }
    );
    let h = FileHeader::<String>::read(&mut Slice(&bytes)).unwrap();
    assert_eq!(h.encoding_name, "binary".to_string());
    assert_eq!(h.format_name, "generic".to_string());
}

#[test]
fn header_line_without_format_token_fails() {
    let bytes = Wire::new().cstr("<!-- dmx encoding binary 9 generic 1 -->\n").0;
    assert_eq!(FileHeader::<&str>::read(&mut Slice(&bytes)), Err(DmxError::Header));
    let bytes = Wire::new().cstr("<!-- dmx encoding binary nine format generic 1 -->\n").0;
    assert_eq!(FileHeader::<&str>::read(&mut Slice(&bytes)), Err(DmxError::Header));
    let bytes = Wire::new().cstr("<!-- dmx encoding binary 9 format generic 1 --").0;
    assert_eq!(FileHeader::<&str>::read(&mut Slice(&bytes)), Err(DmxError::Header));
    let bytes = Wire::new().cstr("<!-- dmx encoding binary -9 format generic +1 -->\n").0;
    let h = FileHeader::<&str>::read(&mut Slice(&bytes)).unwrap();
    assert_eq!((h.encoding_version, h.format_version), (-9, 1));
}

fn small_document() -> Vec<u8> {
    header_line()
        .i32(0)
        .i32(1)
        .cstr("note")
        .u8(5)
        .cstr("prefix text")
        .i32(4)
        .cstr("Root")
        .cstr("root")
        .cstr("name")
        .cstr("blob")
        .i32(2)
        .i32(0)
        .i32(1)
        .raw(&[1; 16])
        .i32(0)
        .i32(-1)
        .raw(&[2; 16])
        .i32(2)
        .i32(2)
        .u8(5)
        .i32(1)
        .i32(3)
        .u8(6)
        .i32(2)
        .raw(&[0xde, 0xad])
        .i32(0)
        .0
}

#[test]
fn document_decodes_in_both_modes() {
    let bytes = small_document();
    let a = from_slice(&bytes).unwrap();
    let b = from_slice_owned(&bytes).unwrap();
    assert_eq!(a.header.format_name, "generic");
    assert_eq!(a.prefix.len(), 1);
    assert_eq!(a.prefix[0].0, "note");
    assert_eq!(a.prefix[0].1, AttributeValue::String("prefix text"));
    assert_eq!(a.strings, vec!["Root", "root", "name", "blob"]);
    assert_eq!(a.headers, vec![
        Header { type_: StringRef(0), name: StringRef(1), guid: [1; 16] },
        Header { type_: StringRef(0), name: StringRef(-1), guid: [2; 16] },
    ]);
    assert_eq!(a.bodies.len(), 2);
    assert_eq!(a.bodies[0].attributes[0].value, AttributeValue::String(StringRef(1)));
    assert_eq!(a.bodies[0].attributes[1].value, AttributeValue::Binary(&[0xdeu8, 0xad][..]));
    assert!(a.bodies[1].attributes.is_empty());
    assert_eq!(format!("{:?}", a.strings), format!("{:?}", b.strings));
    assert_eq!(a.headers, b.headers);
    assert_eq!(format!("{:?}", a.bodies), format!("{:?}", b.bodies));
    assert_eq!(format!("{:?}", a.prefix), format!("{:?}", b.prefix));
}

#[test]
fn unsupported_profile_is_rejected() {
    let mut bytes = Wire::new().cstr("<!-- dmx encoding keyvalues2 1 format generic 1 -->\n").0;
    bytes.extend_from_slice(&small_document()[header_line().0.len()..]);
    assert_eq!(from_slice(&bytes).unwrap_err(), DmxError::Profile);
    let mut bytes = Wire::new().cstr("<!-- dmx encoding binary 5 format generic 1 -->\n").0;
    bytes.extend_from_slice(&small_document()[header_line().0.len()..]);
    assert_eq!(from_slice_owned(&bytes).unwrap_err(), DmxError::Profile);
}

#[test]
fn body_attribute_failure_is_named_through_string_table() {
    let bytes = header_line()
        .i32(0)
        .i32(0)
        .i32(2)
        .cstr("Root")
        .cstr("width")
        .i32(1)
        .i32(0)
        .i32(0)
        .raw(&[0; 16])
        .i32(1)
        .i32(1)
        .u8(99)
        .0;
    assert_eq!(
        from_slice(&bytes).unwrap_err(),
        DmxError::Attribute(
            AttributeName::Resolved("width".to_string()),
            Box::new(DmxError::UnsupportedType(99))
        )
    );
    let bytes = header_line()
        .i32(0)
        .i32(0)
        .i32(1)
        .cstr("Root")
        .i32(1)
        .i32(0)
        .i32(0)
        .raw(&[0; 16])
        .i32(1)
        .i32(7)
        .u8(2)
        .0;
    assert_eq!(
        from_slice(&bytes).unwrap_err(),
        DmxError::Attribute(AttributeName::Raw(7), Box::new(DmxError::Io))
    );
}

#[test]
fn prefix_attribute_failure_is_named_inline() {
    let bytes = header_line().i32(0).i32(1).cstr("broken").u8(3).raw(&[1, 2]).0;
    assert_eq!(
        from_slice_owned(&bytes).unwrap_err(),
        DmxError::Attribute(AttributeName::Resolved("broken".to_string()), Box::new(DmxError::Io))
    );
}
