//! The decoded document: attribute kinds, values, element headers and bodies.
use crate::error::{AttributeName, DmxError, ErrorModel, NameModel};
use crate::read::{
    encode_counted, le_u32, le_u32_at, lemma_counted_round_trip, lemma_parse_fixed,
    lemma_counted_same, lemma_many_same, lemma_words_bytes_len, lemma_words_round_trip,
    parse_counted, parse_cstring, parse_fixed,
    parse_many, read_counted, read_many, views, words_bytes, words_of, Parsed, ReaderString, Readable,
    Slice,
};
use crate::text::{
    decimal, parse_decimal, split_before, split_before_byte, str_eq, strip, strip_prefix,
};
use vstd::utf8::{decode_utf8, encode_utf8, valid_utf8};
use vstd::prelude::*;

verus! {

/// The kind of an attribute value: sixteen scalar kinds and the arrays of
/// all of them but `Uint8`.
#[derive(Debug, Clone, Copy, PartialEq, Eq, Hash, Structural)]
pub enum AttributeType {
    Element,
    Int,
    Float,
    Bool,
    String,
    Binary,
    Time,
    Color,
    Vector2,
    Vector3,
    Vector4,
    Qangle,
    Quaternion,
    Vmatrix,
    Uint64,
    Uint8,
    ElementArray,
    IntArray,
    FloatArray,
    BoolArray,
    StringArray,
    BinaryArray,
    TimeArray,
    ColorArray,
    Vector2Array,
    Vector3Array,
    Vector4Array,
    QangleArray,
    QuaternionArray,
    VmatrixArray,
    Uint64Array,
}

/// The wire tag of each kind: 1 to 16 for scalars, the scalar's tag plus 32
/// for arrays.
pub open spec fn tag_of(t: AttributeType) -> u8 {
    match t {
        AttributeType::Element => 1,
        AttributeType::Int => 2,
        AttributeType::Float => 3,
        AttributeType::Bool => 4,
        AttributeType::String => 5,
        AttributeType::Binary => 6,
        AttributeType::Time => 7,
        AttributeType::Color => 8,
        AttributeType::Vector2 => 9,
        AttributeType::Vector3 => 10,
        AttributeType::Vector4 => 11,
        AttributeType::Qangle => 12,
        AttributeType::Quaternion => 13,
        AttributeType::Vmatrix => 14,
        AttributeType::Uint64 => 15,
        AttributeType::Uint8 => 16,
        AttributeType::ElementArray => 33,
        AttributeType::IntArray => 34,
        AttributeType::FloatArray => 35,
        AttributeType::BoolArray => 36,
        AttributeType::StringArray => 37,
        AttributeType::BinaryArray => 38,
        AttributeType::TimeArray => 39,
        AttributeType::ColorArray => 40,
        AttributeType::Vector2Array => 41,
        AttributeType::Vector3Array => 42,
        AttributeType::Vector4Array => 43,
        AttributeType::QangleArray => 44,
        AttributeType::QuaternionArray => 45,
        AttributeType::VmatrixArray => 46,
        AttributeType::Uint64Array => 47,
    }
}

/// The symbolic name of each kind.
pub open spec fn kind_name(t: AttributeType) -> Seq<char> {
    match t {
        AttributeType::Element => "Element"@,
        AttributeType::Int => "Int"@,
        AttributeType::Float => "Float"@,
        AttributeType::Bool => "Bool"@,
        AttributeType::String => "String"@,
        AttributeType::Binary => "Binary"@,
        AttributeType::Time => "Time"@,
        AttributeType::Color => "Color"@,
        AttributeType::Vector2 => "Vector2"@,
        AttributeType::Vector3 => "Vector3"@,
        AttributeType::Vector4 => "Vector4"@,
        AttributeType::Qangle => "Qangle"@,
        AttributeType::Quaternion => "Quaternion"@,
        AttributeType::Vmatrix => "Vmatrix"@,
        AttributeType::Uint64 => "Uint64"@,
        AttributeType::Uint8 => "Uint8"@,
        AttributeType::ElementArray => "ElementArray"@,
        AttributeType::IntArray => "IntArray"@,
        AttributeType::FloatArray => "FloatArray"@,
        AttributeType::BoolArray => "BoolArray"@,
        AttributeType::StringArray => "StringArray"@,
        AttributeType::BinaryArray => "BinaryArray"@,
        AttributeType::TimeArray => "TimeArray"@,
        AttributeType::ColorArray => "ColorArray"@,
        AttributeType::Vector2Array => "Vector2Array"@,
        AttributeType::Vector3Array => "Vector3Array"@,
        AttributeType::Vector4Array => "Vector4Array"@,
        AttributeType::QangleArray => "QangleArray"@,
        AttributeType::QuaternionArray => "QuaternionArray"@,
        AttributeType::VmatrixArray => "VmatrixArray"@,
        AttributeType::Uint64Array => "Uint64Array"@,
    }
}

impl View for AttributeType {
    type V = AttributeType;

    open spec fn view(&self) -> AttributeType {
        *self
    }
}

impl AttributeType {
    /// The symbolic name of this kind, as used for tagged-union dispatch.
    pub fn name(&self) -> (r: &'static str)
        ensures
            r@ == kind_name(*self),
    {
        match self {
            AttributeType::Element => "Element",
            AttributeType::Int => "Int",
            AttributeType::Float => "Float",
            AttributeType::Bool => "Bool",
            AttributeType::String => "String",
            AttributeType::Binary => "Binary",
            AttributeType::Time => "Time",
            AttributeType::Color => "Color",
            AttributeType::Vector2 => "Vector2",
            AttributeType::Vector3 => "Vector3",
            AttributeType::Vector4 => "Vector4",
            AttributeType::Qangle => "Qangle",
            AttributeType::Quaternion => "Quaternion",
            AttributeType::Vmatrix => "Vmatrix",
            AttributeType::Uint64 => "Uint64",
            AttributeType::Uint8 => "Uint8",
            AttributeType::ElementArray => "ElementArray",
            AttributeType::IntArray => "IntArray",
            AttributeType::FloatArray => "FloatArray",
            AttributeType::BoolArray => "BoolArray",
            AttributeType::StringArray => "StringArray",
            AttributeType::BinaryArray => "BinaryArray",
            AttributeType::TimeArray => "TimeArray",
            AttributeType::ColorArray => "ColorArray",
            AttributeType::Vector2Array => "Vector2Array",
            AttributeType::Vector3Array => "Vector3Array",
            AttributeType::Vector4Array => "Vector4Array",
            AttributeType::QangleArray => "QangleArray",
            AttributeType::QuaternionArray => "QuaternionArray",
            AttributeType::VmatrixArray => "VmatrixArray",
            AttributeType::Uint64Array => "Uint64Array",
        }
    }

    /// The kind that a wire tag stands for.
    pub fn from_tag(tag: u8) -> (r: Result<AttributeType, DmxError>)
        ensures
            match r {
                Ok(t) => tag_of(t) == tag,
                Err(e) => e@ == ErrorModel::UnsupportedType(tag) && forall|t: AttributeType|
                    tag_of(t) != tag,
            },
    {
        match tag {
            1 => Ok(AttributeType::Element),
            2 => Ok(AttributeType::Int),
            3 => Ok(AttributeType::Float),
            4 => Ok(AttributeType::Bool),
            5 => Ok(AttributeType::String),
            6 => Ok(AttributeType::Binary),
            7 => Ok(AttributeType::Time),
            8 => Ok(AttributeType::Color),
            9 => Ok(AttributeType::Vector2),
            10 => Ok(AttributeType::Vector3),
            11 => Ok(AttributeType::Vector4),
            12 => Ok(AttributeType::Qangle),
            13 => Ok(AttributeType::Quaternion),
            14 => Ok(AttributeType::Vmatrix),
            15 => Ok(AttributeType::Uint64),
            16 => Ok(AttributeType::Uint8),
            33 => Ok(AttributeType::ElementArray),
            34 => Ok(AttributeType::IntArray),
            35 => Ok(AttributeType::FloatArray),
            36 => Ok(AttributeType::BoolArray),
            37 => Ok(AttributeType::StringArray),
            38 => Ok(AttributeType::BinaryArray),
            39 => Ok(AttributeType::TimeArray),
            40 => Ok(AttributeType::ColorArray),
            41 => Ok(AttributeType::Vector2Array),
            42 => Ok(AttributeType::Vector3Array),
            43 => Ok(AttributeType::Vector4Array),
            44 => Ok(AttributeType::QangleArray),
            45 => Ok(AttributeType::QuaternionArray),
            46 => Ok(AttributeType::VmatrixArray),
            47 => Ok(AttributeType::Uint64Array),
            _ => Err(DmxError::UnsupportedType(tag)),
        }
    }
}

/// The kind of the wire tag at the start of `b`.
pub open spec fn parse_kind(b: Seq<u8>) -> Parsed<AttributeType> {
    if b.len() < 1 {
        Err(ErrorModel::Io)
    } else if exists|t: AttributeType| tag_of(t) == b[0] {
        Ok((choose|t: AttributeType| tag_of(t) == b[0], 1))
    } else {
        Err(ErrorModel::UnsupportedType(b[0]))
    }
}

pub proof fn lemma_tag_injective(t1: AttributeType, t2: AttributeType)
    requires
        tag_of(t1) == tag_of(t2),
    ensures
        t1 == t2,
{
}

impl<'a> Readable<'a> for AttributeType {
    open spec fn parse(bytes: Seq<u8>) -> Parsed<AttributeType> {
        parse_kind(bytes)
    }

    open spec fn encode(v: AttributeType) -> Seq<u8> {
        seq![tag_of(v)]
    }

    open spec fn encodable(v: AttributeType) -> bool {
        true
    }

    fn read(src: &mut Slice<'a>) -> (r: Result<AttributeType, DmxError>) {
        let tag = src.read_u8()?;
        let r = AttributeType::from_tag(tag);
        proof {
            if let Ok(t) = r {
                let c = choose|c: AttributeType| tag_of(c) == tag;
                lemma_tag_injective(t, c);
            }
        }
        r
    }

    proof fn lemma_round_trip(v: AttributeType, rest: Seq<u8>) {
        let b = seq![tag_of(v)] + rest;
        assert(b[0] == tag_of(v));
        let c = choose|c: AttributeType| tag_of(c) == b[0];
        lemma_tag_injective(v, c);
    }
}

/// A time as a signed count of milliseconds.
#[derive(Debug, Clone, Copy, PartialEq, Eq, Structural)]
pub struct Time {
    pub millis: i32,
}

impl View for Time {
    type V = Time;

    open spec fn view(&self) -> Time {
        *self
    }
}

impl<'a> Readable<'a> for Time {
    open spec fn parse(bytes: Seq<u8>) -> Parsed<Time> {
        parse_fixed(bytes, 4, |b: Seq<u8>| Time { millis: le_u32(b) as i32 })
    }

    open spec fn encode(v: Time) -> Seq<u8> {
        <i32 as Readable>::encode(v.millis)
    }

    open spec fn encodable(v: Time) -> bool {
        true
    }

    fn read(src: &mut Slice<'a>) -> (r: Result<Time, DmxError>) {
        let millis = <i32 as Readable>::read(src)?;
        Ok(Time { millis })
    }

    proof fn lemma_round_trip(v: Time, rest: Seq<u8>) {
        <i32 as Readable>::lemma_round_trip(v.millis, rest);
    }
}

/// A colour as four signed bytes.
#[derive(Debug, Clone, Copy, PartialEq, Eq, Structural)]
pub struct Color {
    pub r: i8,
    pub g: i8,
    pub b: i8,
    pub a: i8,
}

impl View for Color {
    type V = Color;

    open spec fn view(&self) -> Color {
        *self
    }
}

impl<'a> Readable<'a> for Color {
    open spec fn parse(bytes: Seq<u8>) -> Parsed<Color> {
        parse_fixed(
            bytes,
            4,
            |b: Seq<u8>| Color { r: b[0] as i8, g: b[1] as i8, b: b[2] as i8, a: b[3] as i8 },
        )
    }

    open spec fn encode(v: Color) -> Seq<u8> {
        seq![v.r as u8, v.g as u8, v.b as u8, v.a as u8]
    }

    open spec fn encodable(v: Color) -> bool {
        true
    }

    fn read(src: &mut Slice<'a>) -> (r: Result<Color, DmxError>) {
        let b = src.read_bytes(4)?;
        Ok(
            Color {
                r: #[verifier::truncate] (b[0] as i8),
                g: #[verifier::truncate] (b[1] as i8),
                b: #[verifier::truncate] (b[2] as i8),
                a: #[verifier::truncate] (b[3] as i8),
            },
        )
    }

    proof fn lemma_round_trip(v: Color, rest: Seq<u8>) {
        let e = Self::encode(v);
        let f = |b: Seq<u8>| Color { r: b[0] as i8, g: b[1] as i8, b: b[2] as i8, a: b[3] as i8 };
        lemma_parse_fixed(e, rest, f);
        let (r, g, b, a) = (v.r, v.g, v.b, v.a);
        assert((r as u8) as i8 == r && (g as u8) as i8 == g && (b as u8) as i8 == b && (a as u8) as i8
            == a) by (bit_vector);
    }
}

/// A two-component vector; each component is the bit pattern of an IEEE-754 single.
#[derive(Debug, Clone, Copy, PartialEq, Eq, Structural)]
pub struct Vector2 {
    pub x: u32,
    pub y: u32,
}

/// The vector2 in the first 8 bytes of `b`.
pub open spec fn vector2_of(b: Seq<u8>) -> Vector2 {
    let w = words_of(b, 2);
    Vector2 {
        x: w[0],
        y: w[1],
    }
}

impl View for Vector2 {
    type V = Vector2;

    open spec fn view(&self) -> Vector2 {
        *self
    }
}

impl<'a> Readable<'a> for Vector2 {
    open spec fn parse(bytes: Seq<u8>) -> Parsed<Vector2> {
        parse_fixed(bytes, 8, |b: Seq<u8>| vector2_of(b))
    }

    open spec fn encode(v: Vector2) -> Seq<u8> {
        words_bytes(seq![v.x, v.y])
    }

    open spec fn encodable(v: Vector2) -> bool {
        true
    }

    fn read(src: &mut Slice<'a>) -> (r: Result<Vector2, DmxError>) {
        let b = src.read_bytes(8)?;
        Ok(
        Vector2 {
            x: le_u32_at(b, 0),
            y: le_u32_at(b, 4),
        },
        )
    }

    proof fn lemma_round_trip(v: Vector2, rest: Seq<u8>) {
        let ws = seq![v.x, v.y];
        let e = words_bytes(ws);
        lemma_words_bytes_len(ws);
        lemma_parse_fixed(e, rest, |b: Seq<u8>| vector2_of(b));
        lemma_words_round_trip(ws, seq![]);
        assert(e + seq![] =~= e);
    }
}

/// A three-component vector; each component is the bit pattern of an IEEE-754 single.
#[derive(Debug, Clone, Copy, PartialEq, Eq, Structural)]
pub struct Vector3 {
    pub x: u32,
    pub y: u32,
    pub z: u32,
}

/// The vector3 in the first 12 bytes of `b`.
pub open spec fn vector3_of(b: Seq<u8>) -> Vector3 {
    let w = words_of(b, 3);
    Vector3 {
        x: w[0],
        y: w[1],
        z: w[2],
    }
}

impl View for Vector3 {
    type V = Vector3;

    open spec fn view(&self) -> Vector3 {
        *self
    }
}

impl<'a> Readable<'a> for Vector3 {
    open spec fn parse(bytes: Seq<u8>) -> Parsed<Vector3> {
        parse_fixed(bytes, 12, |b: Seq<u8>| vector3_of(b))
    }

    open spec fn encode(v: Vector3) -> Seq<u8> {
        words_bytes(seq![v.x, v.y, v.z])
    }

    open spec fn encodable(v: Vector3) -> bool {
        true
    }

    fn read(src: &mut Slice<'a>) -> (r: Result<Vector3, DmxError>) {
        let b = src.read_bytes(12)?;
        Ok(
        Vector3 {
            x: le_u32_at(b, 0),
            y: le_u32_at(b, 4),
            z: le_u32_at(b, 8),
        },
        )
    }

    proof fn lemma_round_trip(v: Vector3, rest: Seq<u8>) {
        let ws = seq![v.x, v.y, v.z];
        let e = words_bytes(ws);
        lemma_words_bytes_len(ws);
        lemma_parse_fixed(e, rest, |b: Seq<u8>| vector3_of(b));
        lemma_words_round_trip(ws, seq![]);
        assert(e + seq![] =~= e);
    }
}

/// A four-component vector; each component is the bit pattern of an IEEE-754 single.
#[derive(Debug, Clone, Copy, PartialEq, Eq, Structural)]
pub struct Vector4 {
    pub x: u32,
    pub y: u32,
    pub z: u32,
    pub w: u32,
}

/// The vector4 in the first 16 bytes of `b`.
pub open spec fn vector4_of(b: Seq<u8>) -> Vector4 {
    let w = words_of(b, 4);
    Vector4 {
        x: w[0],
        y: w[1],
        z: w[2],
        w: w[3],
    }
}

impl View for Vector4 {
    type V = Vector4;

    open spec fn view(&self) -> Vector4 {
        *self
    }
}

impl<'a> Readable<'a> for Vector4 {
    open spec fn parse(bytes: Seq<u8>) -> Parsed<Vector4> {
        parse_fixed(bytes, 16, |b: Seq<u8>| vector4_of(b))
    }

    open spec fn encode(v: Vector4) -> Seq<u8> {
        words_bytes(seq![v.x, v.y, v.z, v.w])
    }

    open spec fn encodable(v: Vector4) -> bool {
        true
    }

    fn read(src: &mut Slice<'a>) -> (r: Result<Vector4, DmxError>) {
        let b = src.read_bytes(16)?;
        Ok(
        Vector4 {
            x: le_u32_at(b, 0),
            y: le_u32_at(b, 4),
            z: le_u32_at(b, 8),
            w: le_u32_at(b, 12),
        },
        )
    }

    proof fn lemma_round_trip(v: Vector4, rest: Seq<u8>) {
        let ws = seq![v.x, v.y, v.z, v.w];
        let e = words_bytes(ws);
        lemma_words_bytes_len(ws);
        lemma_parse_fixed(e, rest, |b: Seq<u8>| vector4_of(b));
        lemma_words_round_trip(ws, seq![]);
        assert(e + seq![] =~= e);
    }
}

/// Euler angles; each component is the bit pattern of an IEEE-754 single.
#[derive(Debug, Clone, Copy, PartialEq, Eq, Structural)]
pub struct Qangle {
    pub pitch: u32,
    pub yaw: u32,
    pub roll: u32,
}

/// The qangle in the first 12 bytes of `b`.
pub open spec fn qangle_of(b: Seq<u8>) -> Qangle {
    let w = words_of(b, 3);
    Qangle {
        pitch: w[0],
        yaw: w[1],
        roll: w[2],
    }
}

impl View for Qangle {
    type V = Qangle;

    open spec fn view(&self) -> Qangle {
        *self
    }
}

impl<'a> Readable<'a> for Qangle {
    open spec fn parse(bytes: Seq<u8>) -> Parsed<Qangle> {
        parse_fixed(bytes, 12, |b: Seq<u8>| qangle_of(b))
    }

    open spec fn encode(v: Qangle) -> Seq<u8> {
        words_bytes(seq![v.pitch, v.yaw, v.roll])
    }

    open spec fn encodable(v: Qangle) -> bool {
        true
    }

    fn read(src: &mut Slice<'a>) -> (r: Result<Qangle, DmxError>) {
        let b = src.read_bytes(12)?;
        Ok(
        Qangle {
            pitch: le_u32_at(b, 0),
            yaw: le_u32_at(b, 4),
            roll: le_u32_at(b, 8),
        },
        )
    }

    proof fn lemma_round_trip(v: Qangle, rest: Seq<u8>) {
        let ws = seq![v.pitch, v.yaw, v.roll];
        let e = words_bytes(ws);
        lemma_words_bytes_len(ws);
        lemma_parse_fixed(e, rest, |b: Seq<u8>| qangle_of(b));
        lemma_words_round_trip(ws, seq![]);
        assert(e + seq![] =~= e);
    }
}

/// A rotation quaternion; each component is the bit pattern of an IEEE-754 single.
#[derive(Debug, Clone, Copy, PartialEq, Eq, Structural)]
pub struct Quaternion {
    pub x: u32,
    pub y: u32,
    pub z: u32,
    pub w: u32,
}

/// The quaternion in the first 16 bytes of `b`.
pub open spec fn quaternion_of(b: Seq<u8>) -> Quaternion {
    let w = words_of(b, 4);
    Quaternion {
        x: w[0],
        y: w[1],
        z: w[2],
        w: w[3],
    }
}

impl View for Quaternion {
    type V = Quaternion;

    open spec fn view(&self) -> Quaternion {
        *self
    }
}

impl<'a> Readable<'a> for Quaternion {
    open spec fn parse(bytes: Seq<u8>) -> Parsed<Quaternion> {
        parse_fixed(bytes, 16, |b: Seq<u8>| quaternion_of(b))
    }

    open spec fn encode(v: Quaternion) -> Seq<u8> {
        words_bytes(seq![v.x, v.y, v.z, v.w])
    }

    open spec fn encodable(v: Quaternion) -> bool {
        true
    }

    fn read(src: &mut Slice<'a>) -> (r: Result<Quaternion, DmxError>) {
        let b = src.read_bytes(16)?;
        Ok(
        Quaternion {
            x: le_u32_at(b, 0),
            y: le_u32_at(b, 4),
            z: le_u32_at(b, 8),
            w: le_u32_at(b, 12),
        },
        )
    }

    proof fn lemma_round_trip(v: Quaternion, rest: Seq<u8>) {
        let ws = seq![v.x, v.y, v.z, v.w];
        let e = words_bytes(ws);
        lemma_words_bytes_len(ws);
        lemma_parse_fixed(e, rest, |b: Seq<u8>| quaternion_of(b));
        lemma_words_round_trip(ws, seq![]);
        assert(e + seq![] =~= e);
    }
}

/// A 4x4 matrix in row-major order; each entry is the bit pattern of an
/// IEEE-754 single.
#[derive(Debug, Clone, Copy, PartialEq, Eq)]
pub struct Vmatrix(pub [u32; 16]);

impl View for Vmatrix {
    type V = Seq<u32>;

    open spec fn view(&self) -> Seq<u32> {
        self.0@
    }
}

impl<'a> Readable<'a> for Vmatrix {
    open spec fn parse(bytes: Seq<u8>) -> Parsed<Seq<u32>> {
        parse_fixed(bytes, 64, |b: Seq<u8>| words_of(b, 16))
    }

    open spec fn encode(v: Seq<u32>) -> Seq<u8> {
        words_bytes(v)
    }

    open spec fn encodable(v: Seq<u32>) -> bool {
        v.len() == 16
    }

    fn read(src: &mut Slice<'a>) -> (r: Result<Vmatrix, DmxError>) {
        let b = src.read_bytes(64)?;
        let m = [
            le_u32_at(b, 0), le_u32_at(b, 4), le_u32_at(b, 8), le_u32_at(b, 12),
            le_u32_at(b, 16), le_u32_at(b, 20), le_u32_at(b, 24), le_u32_at(b, 28),
            le_u32_at(b, 32), le_u32_at(b, 36), le_u32_at(b, 40), le_u32_at(b, 44),
            le_u32_at(b, 48), le_u32_at(b, 52), le_u32_at(b, 56), le_u32_at(b, 60),
        ];
        assert(m@ =~= words_of(b@, 16));
        Ok(Vmatrix(m))
    }

    proof fn lemma_round_trip(v: Seq<u32>, rest: Seq<u8>) {
        let e = words_bytes(v);
        lemma_words_bytes_len(v);
        lemma_parse_fixed(e, rest, |b: Seq<u8>| words_of(b, 16));
        lemma_words_round_trip(v, seq![]);
        assert(e + seq![] =~= e);
    }
}

/// A position in the string table; a negative value stands for "absent".
#[derive(Debug, Clone, Copy, PartialEq, Eq, Structural)]
pub struct StringRef(pub i32);

impl View for StringRef {
    type V = StringRef;

    open spec fn view(&self) -> StringRef {
        *self
    }
}

impl StringRef {
    /// The table position this reference names, if it is not negative.
    pub fn index(&self) -> (r: Option<usize>)
        ensures
            self.0 < 0 ==> r is None,
            self.0 >= 0 ==> r == Some(self.0 as usize),
    {
        if self.0 < 0 {
            None
        } else {
            Some(self.0 as usize)
        }
    }
}

impl<'a> Readable<'a> for StringRef {
    open spec fn parse(bytes: Seq<u8>) -> Parsed<StringRef> {
        parse_fixed(bytes, 4, |b: Seq<u8>| StringRef(le_u32(b) as i32))
    }

    open spec fn encode(v: StringRef) -> Seq<u8> {
        <i32 as Readable>::encode(v.0)
    }

    open spec fn encodable(v: StringRef) -> bool {
        true
    }

    fn read(src: &mut Slice<'a>) -> (r: Result<StringRef, DmxError>) {
        let i = <i32 as Readable>::read(src)?;
        Ok(StringRef(i))
    }

    proof fn lemma_round_trip(v: StringRef, rest: Seq<u8>) {
        <i32 as Readable>::lemma_round_trip(v.0, rest);
    }
}

/// A decoded attribute value. `B` holds binary payloads, `S` strings, and
/// `R` the scalar `String` kind: the string itself, or a [`StringRef`] in
/// element bodies. Floating-point components are kept as their bit patterns.
#[derive(Debug, PartialEq)]
pub enum AttributeValue<B, S, R = S> {
    Element(i32),
    Int(i32),
    Float(u32),
    Bool(bool),
    String(R),
    Binary(B),
    Time(Time),
    Color(Color),
    Vector2(Vector2),
    Vector3(Vector3),
    Vector4(Vector4),
    Qangle(Qangle),
    Quaternion(Quaternion),
    Vmatrix(Vmatrix),
    Uint64(u64),
    Uint8(u8),
    ElementArray(Vec<i32>),
    IntArray(Vec<i32>),
    FloatArray(Vec<u32>),
    BoolArray(Vec<bool>),
    StringArray(Vec<S>),
    BinaryArray(Vec<B>),
    TimeArray(Vec<Time>),
    ColorArray(Vec<Color>),
    Vector2Array(Vec<Vector2>),
    Vector3Array(Vec<Vector3>),
    Vector4Array(Vec<Vector4>),
    QangleArray(Vec<Qangle>),
    QuaternionArray(Vec<Quaternion>),
    VmatrixArray(Vec<Vmatrix>),
    Uint64Array(Vec<u64>),
}

/// The mathematical model of an [`AttributeValue`]; `R` models the scalar string slot.
pub enum ValueModel<R> {
    Element(i32),
    Int(i32),
    Float(u32),
    Bool(bool),
    String(R),
    Binary(Seq<u8>),
    Time(Time),
    Color(Color),
    Vector2(Vector2),
    Vector3(Vector3),
    Vector4(Vector4),
    Qangle(Qangle),
    Quaternion(Quaternion),
    Vmatrix(Seq<u32>),
    Uint64(u64),
    Uint8(u8),
    ElementArray(Seq<i32>),
    IntArray(Seq<i32>),
    FloatArray(Seq<u32>),
    BoolArray(Seq<bool>),
    StringArray(Seq<Seq<char>>),
    BinaryArray(Seq<Seq<u8>>),
    TimeArray(Seq<Time>),
    ColorArray(Seq<Color>),
    Vector2Array(Seq<Vector2>),
    Vector3Array(Seq<Vector3>),
    Vector4Array(Seq<Vector4>),
    QangleArray(Seq<Qangle>),
    QuaternionArray(Seq<Quaternion>),
    VmatrixArray(Seq<Seq<u32>>),
    Uint64Array(Seq<u64>),
}

impl<B, S, R> View for AttributeValue<B, S, R> where
    B: View<V = Seq<u8>>,
    S: View<V = Seq<char>>,
    R: View,
{
    type V = ValueModel<R::V>;

    open spec fn view(&self) -> ValueModel<R::V> {
        match self {
            AttributeValue::Element(x) => ValueModel::Element(x@),
            AttributeValue::Int(x) => ValueModel::Int(x@),
            AttributeValue::Float(x) => ValueModel::Float(x@),
            AttributeValue::Bool(x) => ValueModel::Bool(x@),
            AttributeValue::String(x) => ValueModel::String(x@),
            AttributeValue::Binary(x) => ValueModel::Binary(x@),
            AttributeValue::Time(x) => ValueModel::Time(x@),
            AttributeValue::Color(x) => ValueModel::Color(x@),
            AttributeValue::Vector2(x) => ValueModel::Vector2(x@),
            AttributeValue::Vector3(x) => ValueModel::Vector3(x@),
            AttributeValue::Vector4(x) => ValueModel::Vector4(x@),
            AttributeValue::Qangle(x) => ValueModel::Qangle(x@),
            AttributeValue::Quaternion(x) => ValueModel::Quaternion(x@),
            AttributeValue::Vmatrix(x) => ValueModel::Vmatrix(x@),
            AttributeValue::Uint64(x) => ValueModel::Uint64(x@),
            AttributeValue::Uint8(x) => ValueModel::Uint8(x@),
            AttributeValue::ElementArray(x) => ValueModel::ElementArray(views(x@)),
            AttributeValue::IntArray(x) => ValueModel::IntArray(views(x@)),
            AttributeValue::FloatArray(x) => ValueModel::FloatArray(views(x@)),
            AttributeValue::BoolArray(x) => ValueModel::BoolArray(views(x@)),
            AttributeValue::StringArray(x) => ValueModel::StringArray(views(x@)),
            AttributeValue::BinaryArray(x) => ValueModel::BinaryArray(views(x@)),
            AttributeValue::TimeArray(x) => ValueModel::TimeArray(views(x@)),
            AttributeValue::ColorArray(x) => ValueModel::ColorArray(views(x@)),
            AttributeValue::Vector2Array(x) => ValueModel::Vector2Array(views(x@)),
            AttributeValue::Vector3Array(x) => ValueModel::Vector3Array(views(x@)),
            AttributeValue::Vector4Array(x) => ValueModel::Vector4Array(views(x@)),
            AttributeValue::QangleArray(x) => ValueModel::QangleArray(views(x@)),
            AttributeValue::QuaternionArray(x) => ValueModel::QuaternionArray(views(x@)),
            AttributeValue::VmatrixArray(x) => ValueModel::VmatrixArray(views(x@)),
            AttributeValue::Uint64Array(x) => ValueModel::Uint64Array(views(x@)),
        }
    }
}

/// The kind of a value model.
pub open spec fn model_kind<R>(m: ValueModel<R>) -> AttributeType {
    match m {
        ValueModel::Element(_) => AttributeType::Element,
        ValueModel::Int(_) => AttributeType::Int,
        ValueModel::Float(_) => AttributeType::Float,
        ValueModel::Bool(_) => AttributeType::Bool,
        ValueModel::String(_) => AttributeType::String,
        ValueModel::Binary(_) => AttributeType::Binary,
        ValueModel::Time(_) => AttributeType::Time,
        ValueModel::Color(_) => AttributeType::Color,
        ValueModel::Vector2(_) => AttributeType::Vector2,
        ValueModel::Vector3(_) => AttributeType::Vector3,
        ValueModel::Vector4(_) => AttributeType::Vector4,
        ValueModel::Qangle(_) => AttributeType::Qangle,
        ValueModel::Quaternion(_) => AttributeType::Quaternion,
        ValueModel::Vmatrix(_) => AttributeType::Vmatrix,
        ValueModel::Uint64(_) => AttributeType::Uint64,
        ValueModel::Uint8(_) => AttributeType::Uint8,
        ValueModel::ElementArray(_) => AttributeType::ElementArray,
        ValueModel::IntArray(_) => AttributeType::IntArray,
        ValueModel::FloatArray(_) => AttributeType::FloatArray,
        ValueModel::BoolArray(_) => AttributeType::BoolArray,
        ValueModel::StringArray(_) => AttributeType::StringArray,
        ValueModel::BinaryArray(_) => AttributeType::BinaryArray,
        ValueModel::TimeArray(_) => AttributeType::TimeArray,
        ValueModel::ColorArray(_) => AttributeType::ColorArray,
        ValueModel::Vector2Array(_) => AttributeType::Vector2Array,
        ValueModel::Vector3Array(_) => AttributeType::Vector3Array,
        ValueModel::Vector4Array(_) => AttributeType::Vector4Array,
        ValueModel::QangleArray(_) => AttributeType::QangleArray,
        ValueModel::QuaternionArray(_) => AttributeType::QuaternionArray,
        ValueModel::VmatrixArray(_) => AttributeType::VmatrixArray,
        ValueModel::Uint64Array(_) => AttributeType::Uint64Array,
    }
}

/// Applies `f` to the value of a successful parse.
pub open spec fn lift<A, C>(p: Parsed<A>, f: spec_fn(A) -> C) -> Parsed<C> {
    match p {
        Ok((a, n)) => Ok((f(a), n)),
        Err(e) => Err(e),
    }
}

/// The payload of a value of kind `t`.
#[verifier::opaque]
pub open spec fn parse_payload<'a, B, S, R>(t: AttributeType, b: Seq<u8>) -> Parsed<ValueModel<R::V>> where
    B: Readable<'a> + View<V = Seq<u8>>,
    S: Readable<'a> + View<V = Seq<char>>,
    R: Readable<'a>,
{
    match t {
        AttributeType::Element => lift(
            <i32 as Readable>::parse(b),
            |x: i32| ValueModel::Element(x),
        ),
        AttributeType::Int => lift(
            <i32 as Readable>::parse(b),
            |x: i32| ValueModel::Int(x),
        ),
        AttributeType::Float => lift(
            <u32 as Readable>::parse(b),
            |x: u32| ValueModel::Float(x),
        ),
        AttributeType::Bool => lift(
            <bool as Readable>::parse(b),
            |x: bool| ValueModel::Bool(x),
        ),
        AttributeType::String => lift(
            <R as Readable>::parse(b),
            |x: R::V| ValueModel::String(x),
        ),
        AttributeType::Binary => lift(
            <B as Readable>::parse(b),
            |x: Seq<u8>| ValueModel::Binary(x),
        ),
        AttributeType::Time => lift(
            <Time as Readable>::parse(b),
            |x: Time| ValueModel::Time(x),
        ),
        AttributeType::Color => lift(
            <Color as Readable>::parse(b),
            |x: Color| ValueModel::Color(x),
        ),
        AttributeType::Vector2 => lift(
            <Vector2 as Readable>::parse(b),
            |x: Vector2| ValueModel::Vector2(x),
        ),
        AttributeType::Vector3 => lift(
            <Vector3 as Readable>::parse(b),
            |x: Vector3| ValueModel::Vector3(x),
        ),
        AttributeType::Vector4 => lift(
            <Vector4 as Readable>::parse(b),
            |x: Vector4| ValueModel::Vector4(x),
        ),
        AttributeType::Qangle => lift(
            <Qangle as Readable>::parse(b),
            |x: Qangle| ValueModel::Qangle(x),
        ),
        AttributeType::Quaternion => lift(
            <Quaternion as Readable>::parse(b),
            |x: Quaternion| ValueModel::Quaternion(x),
        ),
        AttributeType::Vmatrix => lift(
            <Vmatrix as Readable>::parse(b),
            |x: Seq<u32>| ValueModel::Vmatrix(x),
        ),
        AttributeType::Uint64 => lift(
            <u64 as Readable>::parse(b),
            |x: u64| ValueModel::Uint64(x),
        ),
        AttributeType::Uint8 => lift(
            <u8 as Readable>::parse(b),
            |x: u8| ValueModel::Uint8(x),
        ),
        AttributeType::ElementArray => lift(
            parse_counted::<i32>(b),
            |x: Seq<i32>| ValueModel::ElementArray(x),
        ),
        AttributeType::IntArray => lift(
            parse_counted::<i32>(b),
            |x: Seq<i32>| ValueModel::IntArray(x),
        ),
        AttributeType::FloatArray => lift(
            parse_counted::<u32>(b),
            |x: Seq<u32>| ValueModel::FloatArray(x),
        ),
        AttributeType::BoolArray => lift(
            parse_counted::<bool>(b),
            |x: Seq<bool>| ValueModel::BoolArray(x),
        ),
        AttributeType::StringArray => lift(
            parse_counted::<S>(b),
            |x: Seq<Seq<char>>| ValueModel::StringArray(x),
        ),
        AttributeType::BinaryArray => lift(
            parse_counted::<B>(b),
            |x: Seq<Seq<u8>>| ValueModel::BinaryArray(x),
        ),
        AttributeType::TimeArray => lift(
            parse_counted::<Time>(b),
            |x: Seq<Time>| ValueModel::TimeArray(x),
        ),
        AttributeType::ColorArray => lift(
            parse_counted::<Color>(b),
            |x: Seq<Color>| ValueModel::ColorArray(x),
        ),
        AttributeType::Vector2Array => lift(
            parse_counted::<Vector2>(b),
            |x: Seq<Vector2>| ValueModel::Vector2Array(x),
        ),
        AttributeType::Vector3Array => lift(
            parse_counted::<Vector3>(b),
            |x: Seq<Vector3>| ValueModel::Vector3Array(x),
        ),
        AttributeType::Vector4Array => lift(
            parse_counted::<Vector4>(b),
            |x: Seq<Vector4>| ValueModel::Vector4Array(x),
        ),
        AttributeType::QangleArray => lift(
            parse_counted::<Qangle>(b),
            |x: Seq<Qangle>| ValueModel::QangleArray(x),
        ),
        AttributeType::QuaternionArray => lift(
            parse_counted::<Quaternion>(b),
            |x: Seq<Quaternion>| ValueModel::QuaternionArray(x),
        ),
        AttributeType::VmatrixArray => lift(
            parse_counted::<Vmatrix>(b),
            |x: Seq<Seq<u32>>| ValueModel::VmatrixArray(x),
        ),
        AttributeType::Uint64Array => lift(
            parse_counted::<u64>(b),
            |x: Seq<u64>| ValueModel::Uint64Array(x),
        ),
    }
}

/// A tag byte, then the payload of that kind.
pub open spec fn parse_value<'a, B, S, R>(b: Seq<u8>) -> Parsed<ValueModel<R::V>> where
    B: Readable<'a> + View<V = Seq<u8>>,
    S: Readable<'a> + View<V = Seq<char>>,
    R: Readable<'a>,
{
    match parse_kind(b) {
        Ok((t, _)) => match parse_payload::<B, S, R>(t, b.skip(1)) {
            Ok((v, n)) => Ok((v, n + 1)),
            Err(e) => Err(e),
        },
        Err(e) => Err(e),
    }
}

/// The encoding of a value's payload.
pub open spec fn encode_payload<'a, B, S, R>(m: ValueModel<R::V>) -> Seq<u8> where
    B: Readable<'a> + View<V = Seq<u8>>,
    S: Readable<'a> + View<V = Seq<char>>,
    R: Readable<'a>,
{
    match m {
        ValueModel::Element(x) => <i32 as Readable>::encode(x),
        ValueModel::Int(x) => <i32 as Readable>::encode(x),
        ValueModel::Float(x) => <u32 as Readable>::encode(x),
        ValueModel::Bool(x) => <bool as Readable>::encode(x),
        ValueModel::String(x) => <R as Readable>::encode(x),
        ValueModel::Binary(x) => <B as Readable>::encode(x),
        ValueModel::Time(x) => <Time as Readable>::encode(x),
        ValueModel::Color(x) => <Color as Readable>::encode(x),
        ValueModel::Vector2(x) => <Vector2 as Readable>::encode(x),
        ValueModel::Vector3(x) => <Vector3 as Readable>::encode(x),
        ValueModel::Vector4(x) => <Vector4 as Readable>::encode(x),
        ValueModel::Qangle(x) => <Qangle as Readable>::encode(x),
        ValueModel::Quaternion(x) => <Quaternion as Readable>::encode(x),
        ValueModel::Vmatrix(x) => <Vmatrix as Readable>::encode(x),
        ValueModel::Uint64(x) => <u64 as Readable>::encode(x),
        ValueModel::Uint8(x) => <u8 as Readable>::encode(x),
        ValueModel::ElementArray(x) => encode_counted::<i32>(x),
        ValueModel::IntArray(x) => encode_counted::<i32>(x),
        ValueModel::FloatArray(x) => encode_counted::<u32>(x),
        ValueModel::BoolArray(x) => encode_counted::<bool>(x),
        ValueModel::StringArray(x) => encode_counted::<S>(x),
        ValueModel::BinaryArray(x) => encode_counted::<B>(x),
        ValueModel::TimeArray(x) => encode_counted::<Time>(x),
        ValueModel::ColorArray(x) => encode_counted::<Color>(x),
        ValueModel::Vector2Array(x) => encode_counted::<Vector2>(x),
        ValueModel::Vector3Array(x) => encode_counted::<Vector3>(x),
        ValueModel::Vector4Array(x) => encode_counted::<Vector4>(x),
        ValueModel::QangleArray(x) => encode_counted::<Qangle>(x),
        ValueModel::QuaternionArray(x) => encode_counted::<Quaternion>(x),
        ValueModel::VmatrixArray(x) => encode_counted::<Vmatrix>(x),
        ValueModel::Uint64Array(x) => encode_counted::<u64>(x),
    }
}

/// The encoding of a value: its kind's tag, then its payload.
pub open spec fn encode_value<'a, B, S, R>(m: ValueModel<R::V>) -> Seq<u8> where
    B: Readable<'a> + View<V = Seq<u8>>,
    S: Readable<'a> + View<V = Seq<char>>,
    R: Readable<'a>,
 {
    seq![tag_of(model_kind(m))] + encode_payload::<B, S, R>(m)
}

/// The payload of `m` has an encoding.
pub open spec fn payload_encodable<'a, B, S, R>(m: ValueModel<R::V>) -> bool where
    B: Readable<'a> + View<V = Seq<u8>>,
    S: Readable<'a> + View<V = Seq<char>>,
    R: Readable<'a>,
{
    match m {
        ValueModel::Element(x) => <i32 as Readable>::encodable(x),
        ValueModel::Int(x) => <i32 as Readable>::encodable(x),
        ValueModel::Float(x) => <u32 as Readable>::encodable(x),
        ValueModel::Bool(x) => <bool as Readable>::encodable(x),
        ValueModel::String(x) => <R as Readable>::encodable(x),
        ValueModel::Binary(x) => <B as Readable>::encodable(x),
        ValueModel::Time(x) => <Time as Readable>::encodable(x),
        ValueModel::Color(x) => <Color as Readable>::encodable(x),
        ValueModel::Vector2(x) => <Vector2 as Readable>::encodable(x),
        ValueModel::Vector3(x) => <Vector3 as Readable>::encodable(x),
        ValueModel::Vector4(x) => <Vector4 as Readable>::encodable(x),
        ValueModel::Qangle(x) => <Qangle as Readable>::encodable(x),
        ValueModel::Quaternion(x) => <Quaternion as Readable>::encodable(x),
        ValueModel::Vmatrix(x) => <Vmatrix as Readable>::encodable(x),
        ValueModel::Uint64(x) => <u64 as Readable>::encodable(x),
        ValueModel::Uint8(x) => <u8 as Readable>::encodable(x),
        ValueModel::ElementArray(x) => x.len() <= i32::MAX && forall|i: int|
            0 <= i < x.len() ==> <i32 as Readable>::encodable(#[trigger] x[i]),
        ValueModel::IntArray(x) => x.len() <= i32::MAX && forall|i: int|
            0 <= i < x.len() ==> <i32 as Readable>::encodable(#[trigger] x[i]),
        ValueModel::FloatArray(x) => x.len() <= i32::MAX && forall|i: int|
            0 <= i < x.len() ==> <u32 as Readable>::encodable(#[trigger] x[i]),
        ValueModel::BoolArray(x) => x.len() <= i32::MAX && forall|i: int|
            0 <= i < x.len() ==> <bool as Readable>::encodable(#[trigger] x[i]),
        ValueModel::StringArray(x) => x.len() <= i32::MAX && forall|i: int|
            0 <= i < x.len() ==> <S as Readable>::encodable(#[trigger] x[i]),
        ValueModel::BinaryArray(x) => x.len() <= i32::MAX && forall|i: int|
            0 <= i < x.len() ==> <B as Readable>::encodable(#[trigger] x[i]),
        ValueModel::TimeArray(x) => x.len() <= i32::MAX && forall|i: int|
            0 <= i < x.len() ==> <Time as Readable>::encodable(#[trigger] x[i]),
        ValueModel::ColorArray(x) => x.len() <= i32::MAX && forall|i: int|
            0 <= i < x.len() ==> <Color as Readable>::encodable(#[trigger] x[i]),
        ValueModel::Vector2Array(x) => x.len() <= i32::MAX && forall|i: int|
            0 <= i < x.len() ==> <Vector2 as Readable>::encodable(#[trigger] x[i]),
        ValueModel::Vector3Array(x) => x.len() <= i32::MAX && forall|i: int|
            0 <= i < x.len() ==> <Vector3 as Readable>::encodable(#[trigger] x[i]),
        ValueModel::Vector4Array(x) => x.len() <= i32::MAX && forall|i: int|
            0 <= i < x.len() ==> <Vector4 as Readable>::encodable(#[trigger] x[i]),
        ValueModel::QangleArray(x) => x.len() <= i32::MAX && forall|i: int|
            0 <= i < x.len() ==> <Qangle as Readable>::encodable(#[trigger] x[i]),
        ValueModel::QuaternionArray(x) => x.len() <= i32::MAX && forall|i: int|
            0 <= i < x.len() ==> <Quaternion as Readable>::encodable(#[trigger] x[i]),
        ValueModel::VmatrixArray(x) => x.len() <= i32::MAX && forall|i: int|
            0 <= i < x.len() ==> <Vmatrix as Readable>::encodable(#[trigger] x[i]),
        ValueModel::Uint64Array(x) => x.len() <= i32::MAX && forall|i: int|
            0 <= i < x.len() ==> <u64 as Readable>::encodable(#[trigger] x[i]),
    }
}

#[verifier::rlimit(50)]
pub proof fn lemma_payload_round_trip<'a, B, S, R>(m: ValueModel<R::V>, rest: Seq<u8>) where
    B: Readable<'a> + View<V = Seq<u8>>,
    S: Readable<'a> + View<V = Seq<char>>,
    R: Readable<'a>,
    requires
        payload_encodable::<B, S, R>(m),
    ensures
        parse_payload::<B, S, R>(model_kind(m), encode_payload::<B, S, R>(m) + rest) == Ok::<
            (ValueModel<R::V>, nat),
            ErrorModel,
        >((m, encode_payload::<B, S, R>(m).len())),
{
    reveal(parse_payload);
    match m {
        ValueModel::Element(x) => <i32 as Readable>::lemma_round_trip(x, rest),
        ValueModel::Int(x) => <i32 as Readable>::lemma_round_trip(x, rest),
        ValueModel::Float(x) => <u32 as Readable>::lemma_round_trip(x, rest),
        ValueModel::Bool(x) => <bool as Readable>::lemma_round_trip(x, rest),
        ValueModel::String(x) => <R as Readable>::lemma_round_trip(x, rest),
        ValueModel::Binary(x) => <B as Readable>::lemma_round_trip(x, rest),
        ValueModel::Time(x) => <Time as Readable>::lemma_round_trip(x, rest),
        ValueModel::Color(x) => <Color as Readable>::lemma_round_trip(x, rest),
        ValueModel::Vector2(x) => <Vector2 as Readable>::lemma_round_trip(x, rest),
        ValueModel::Vector3(x) => <Vector3 as Readable>::lemma_round_trip(x, rest),
        ValueModel::Vector4(x) => <Vector4 as Readable>::lemma_round_trip(x, rest),
        ValueModel::Qangle(x) => <Qangle as Readable>::lemma_round_trip(x, rest),
        ValueModel::Quaternion(x) => <Quaternion as Readable>::lemma_round_trip(x, rest),
        ValueModel::Vmatrix(x) => <Vmatrix as Readable>::lemma_round_trip(x, rest),
        ValueModel::Uint64(x) => <u64 as Readable>::lemma_round_trip(x, rest),
        ValueModel::Uint8(x) => <u8 as Readable>::lemma_round_trip(x, rest),
        ValueModel::ElementArray(x) => lemma_counted_round_trip::<i32>(x, rest),
        ValueModel::IntArray(x) => lemma_counted_round_trip::<i32>(x, rest),
        ValueModel::FloatArray(x) => lemma_counted_round_trip::<u32>(x, rest),
        ValueModel::BoolArray(x) => lemma_counted_round_trip::<bool>(x, rest),
        ValueModel::StringArray(x) => lemma_counted_round_trip::<S>(x, rest),
        ValueModel::BinaryArray(x) => lemma_counted_round_trip::<B>(x, rest),
        ValueModel::TimeArray(x) => lemma_counted_round_trip::<Time>(x, rest),
        ValueModel::ColorArray(x) => lemma_counted_round_trip::<Color>(x, rest),
        ValueModel::Vector2Array(x) => lemma_counted_round_trip::<Vector2>(x, rest),
        ValueModel::Vector3Array(x) => lemma_counted_round_trip::<Vector3>(x, rest),
        ValueModel::Vector4Array(x) => lemma_counted_round_trip::<Vector4>(x, rest),
        ValueModel::QangleArray(x) => lemma_counted_round_trip::<Qangle>(x, rest),
        ValueModel::QuaternionArray(x) => lemma_counted_round_trip::<Quaternion>(x, rest),
        ValueModel::VmatrixArray(x) => lemma_counted_round_trip::<Vmatrix>(x, rest),
        ValueModel::Uint64Array(x) => lemma_counted_round_trip::<u64>(x, rest),
    }
}

impl<B, S, R> AttributeValue<B, S, R> where
    B: View<V = Seq<u8>>,
    S: View<V = Seq<char>>,
    R: View,
{
    /// The kind of this value.
    pub fn kind(&self) -> (r: AttributeType)
        ensures
            r == model_kind(self@),
    {
        match self {
            AttributeValue::Element(_) => AttributeType::Element,
            AttributeValue::Int(_) => AttributeType::Int,
            AttributeValue::Float(_) => AttributeType::Float,
            AttributeValue::Bool(_) => AttributeType::Bool,
            AttributeValue::String(_) => AttributeType::String,
            AttributeValue::Binary(_) => AttributeType::Binary,
            AttributeValue::Time(_) => AttributeType::Time,
            AttributeValue::Color(_) => AttributeType::Color,
            AttributeValue::Vector2(_) => AttributeType::Vector2,
            AttributeValue::Vector3(_) => AttributeType::Vector3,
            AttributeValue::Vector4(_) => AttributeType::Vector4,
            AttributeValue::Qangle(_) => AttributeType::Qangle,
            AttributeValue::Quaternion(_) => AttributeType::Quaternion,
            AttributeValue::Vmatrix(_) => AttributeType::Vmatrix,
            AttributeValue::Uint64(_) => AttributeType::Uint64,
            AttributeValue::Uint8(_) => AttributeType::Uint8,
            AttributeValue::ElementArray(_) => AttributeType::ElementArray,
            AttributeValue::IntArray(_) => AttributeType::IntArray,
            AttributeValue::FloatArray(_) => AttributeType::FloatArray,
            AttributeValue::BoolArray(_) => AttributeType::BoolArray,
            AttributeValue::StringArray(_) => AttributeType::StringArray,
            AttributeValue::BinaryArray(_) => AttributeType::BinaryArray,
            AttributeValue::TimeArray(_) => AttributeType::TimeArray,
            AttributeValue::ColorArray(_) => AttributeType::ColorArray,
            AttributeValue::Vector2Array(_) => AttributeType::Vector2Array,
            AttributeValue::Vector3Array(_) => AttributeType::Vector3Array,
            AttributeValue::Vector4Array(_) => AttributeType::Vector4Array,
            AttributeValue::QangleArray(_) => AttributeType::QangleArray,
            AttributeValue::QuaternionArray(_) => AttributeType::QuaternionArray,
            AttributeValue::VmatrixArray(_) => AttributeType::VmatrixArray,
            AttributeValue::Uint64Array(_) => AttributeType::Uint64Array,
        }
    }
}

impl<'a, B, S, R> AttributeValue<B, S, R> where
    B: Readable<'a> + View<V = Seq<u8>>,
    S: Readable<'a> + View<V = Seq<char>>,
    R: Readable<'a>,
{
    /// Reads the payload of a value of kind `t`.
    fn read_payload(t: AttributeType, src: &mut Slice<'a>) -> (r: Result<Self, DmxError>)
        ensures
            crate::read::read_post(parse_payload::<B, S, R>(t, old(src)@), r, old(src)@, final(src)@),
    {
        reveal(parse_payload);
        let v = match t {
            AttributeType::Element => AttributeValue::Element(<i32 as Readable>::read(src)?),
            AttributeType::Int => AttributeValue::Int(<i32 as Readable>::read(src)?),
            AttributeType::Float => AttributeValue::Float(<u32 as Readable>::read(src)?),
            AttributeType::Bool => AttributeValue::Bool(<bool as Readable>::read(src)?),
            AttributeType::String => AttributeValue::String(<R as Readable>::read(src)?),
            AttributeType::Binary => AttributeValue::Binary(<B as Readable>::read(src)?),
            AttributeType::Time => AttributeValue::Time(<Time as Readable>::read(src)?),
            AttributeType::Color => AttributeValue::Color(<Color as Readable>::read(src)?),
            AttributeType::Vector2 => AttributeValue::Vector2(<Vector2 as Readable>::read(src)?),
            AttributeType::Vector3 => AttributeValue::Vector3(<Vector3 as Readable>::read(src)?),
            AttributeType::Vector4 => AttributeValue::Vector4(<Vector4 as Readable>::read(src)?),
            AttributeType::Qangle => AttributeValue::Qangle(<Qangle as Readable>::read(src)?),
            AttributeType::Quaternion => AttributeValue::Quaternion(<Quaternion as Readable>::read(src)?),
            AttributeType::Vmatrix => AttributeValue::Vmatrix(<Vmatrix as Readable>::read(src)?),
            AttributeType::Uint64 => AttributeValue::Uint64(<u64 as Readable>::read(src)?),
            AttributeType::Uint8 => AttributeValue::Uint8(<u8 as Readable>::read(src)?),
            AttributeType::ElementArray => AttributeValue::ElementArray(read_counted::<i32>(src)?),
            AttributeType::IntArray => AttributeValue::IntArray(read_counted::<i32>(src)?),
            AttributeType::FloatArray => AttributeValue::FloatArray(read_counted::<u32>(src)?),
            AttributeType::BoolArray => AttributeValue::BoolArray(read_counted::<bool>(src)?),
            AttributeType::StringArray => AttributeValue::StringArray(read_counted::<S>(src)?),
            AttributeType::BinaryArray => AttributeValue::BinaryArray(read_counted::<B>(src)?),
            AttributeType::TimeArray => AttributeValue::TimeArray(read_counted::<Time>(src)?),
            AttributeType::ColorArray => AttributeValue::ColorArray(read_counted::<Color>(src)?),
            AttributeType::Vector2Array => AttributeValue::Vector2Array(read_counted::<Vector2>(src)?),
            AttributeType::Vector3Array => AttributeValue::Vector3Array(read_counted::<Vector3>(src)?),
            AttributeType::Vector4Array => AttributeValue::Vector4Array(read_counted::<Vector4>(src)?),
            AttributeType::QangleArray => AttributeValue::QangleArray(read_counted::<Qangle>(src)?),
            AttributeType::QuaternionArray => AttributeValue::QuaternionArray(
                read_counted::<Quaternion>(src)?,
            ),
            AttributeType::VmatrixArray => AttributeValue::VmatrixArray(read_counted::<Vmatrix>(src)?),
            AttributeType::Uint64Array => AttributeValue::Uint64Array(read_counted::<u64>(src)?),
        };
        Ok(v)
    }
}

impl<'a, B, S, R> Readable<'a> for AttributeValue<B, S, R> where
    B: Readable<'a> + View<V = Seq<u8>>,
    S: Readable<'a> + View<V = Seq<char>>,
    R: Readable<'a>,
{
    open spec fn parse(bytes: Seq<u8>) -> Parsed<ValueModel<R::V>> {
        parse_value::<B, S, R>(bytes)
    }

    open spec fn encode(v: ValueModel<R::V>) -> Seq<u8> {
        encode_value::<B, S, R>(v)
    }

    open spec fn encodable(v: ValueModel<R::V>) -> bool {
        payload_encodable::<B, S, R>(v)
    }

    fn read(src: &mut Slice<'a>) -> (r: Result<Self, DmxError>) {
        let ghost before = src@;
        let t = <AttributeType as Readable>::read(src)?;
        let ghost mid = src@;
        let r = Self::read_payload(t, src);
        proof {
            if let Ok((v, n)) = parse_payload::<B, S, R>(t, mid) {
                assert(mid.skip(n as int) =~= before.skip(n as int + 1));
            }
        }
        r
    }

    proof fn lemma_round_trip(v: ValueModel<R::V>, rest: Seq<u8>) {
        let t = model_kind(v);
        let p = encode_payload::<B, S, R>(v);
        let b = Self::encode(v) + rest;
        assert(b =~= seq![tag_of(t)] + (p + rest));
        <AttributeType as Readable>::lemma_round_trip(t, p + rest);
        assert(parse_kind(b) == Ok::<(AttributeType, nat), ErrorModel>((t, 1)));
        assert(b.skip(1) =~= p + rest);
        lemma_payload_round_trip::<B, S, R>(v, rest);
        assert(parse_payload::<B, S, R>(t, b.skip(1)) == Ok::<(ValueModel<R::V>, nat), ErrorModel>(
            (v, p.len()),
        ));
    }
}

/// The identity of one element: its type name, its name and a 16-byte GUID.
#[derive(Debug, Clone, Copy, PartialEq, Eq)]
pub struct Header {
    pub type_: StringRef,
    pub name: StringRef,
    pub guid: [u8; 16],
}

/// The mathematical model of a [`Header`].
pub struct HeaderModel {
    pub type_: StringRef,
    pub name: StringRef,
    pub guid: Seq<u8>,
}

impl View for Header {
    type V = HeaderModel;

    open spec fn view(&self) -> HeaderModel {
        HeaderModel { type_: self.type_, name: self.name, guid: self.guid@ }
    }
}

/// The header of an element: two string references and the GUID.
pub open spec fn header_of(b: Seq<u8>) -> HeaderModel {
    HeaderModel {
        type_: StringRef(le_u32(b.subrange(0, 4)) as i32),
        name: StringRef(le_u32(b.subrange(4, 8)) as i32),
        guid: b.subrange(8, 24),
    }
}

impl<'a> Readable<'a> for Header {
    open spec fn parse(bytes: Seq<u8>) -> Parsed<HeaderModel> {
        parse_fixed(bytes, 24, |b: Seq<u8>| header_of(b))
    }

    open spec fn encode(v: HeaderModel) -> Seq<u8> {
        <i32 as Readable>::encode(v.type_.0) + <i32 as Readable>::encode(v.name.0) + v.guid
    }

    open spec fn encodable(v: HeaderModel) -> bool {
        v.guid.len() == 16
    }

    fn read(src: &mut Slice<'a>) -> (r: Result<Header, DmxError>) {
        let b = src.read_bytes(24)?;
        let type_ = StringRef(#[verifier::truncate] (le_u32_at(b, 0) as i32));
        let name = StringRef(#[verifier::truncate] (le_u32_at(b, 4) as i32));
        let guid = [
            b[8], b[9], b[10], b[11], b[12], b[13], b[14], b[15],
            b[16], b[17], b[18], b[19], b[20], b[21], b[22], b[23],
        ];
        assert(guid@ =~= b@.subrange(8, 24));
        Ok(Header { type_, name, guid })
    }

    proof fn lemma_round_trip(v: HeaderModel, rest: Seq<u8>) {
        let t = v.type_.0;
        let n = v.name.0;
        let e = Self::encode(v);
        lemma_parse_fixed(e, rest, |b: Seq<u8>| header_of(b));
        crate::read::lemma_u32_bytes(t as u32);
        crate::read::lemma_u32_bytes(n as u32);
        assert(e.subrange(0, 4) =~= crate::read::u32_bytes(t as u32));
        assert(e.subrange(4, 8) =~= crate::read::u32_bytes(n as u32));
        assert(e.subrange(8, 24) =~= v.guid);
        assert((t as u32) as i32 == t && (n as u32) as i32 == n) by (bit_vector);
    }
}

/// One named attribute of an element body; its name is a string reference.
#[derive(Debug, PartialEq)]
pub struct Attribute<B, S> {
    pub name: StringRef,
    pub value: AttributeValue<B, S, StringRef>,
}

impl<B, S> View for Attribute<B, S> where B: View<V = Seq<u8>>, S: View<V = Seq<char>> {
    type V = (StringRef, ValueModel<StringRef>);

    open spec fn view(&self) -> (StringRef, ValueModel<StringRef>) {
        (self.name, self.value@)
    }
}

/// Wraps a failure inside an attribute with the attribute's name.
pub open spec fn wrap_error<V>(p: Parsed<V>, name: NameModel) -> Parsed<V> {
    match p {
        Ok(x) => Ok(x),
        Err(e) => Err(ErrorModel::Attribute(name, Box::new(e))),
    }
}

/// A name, then a value whose failure is named by it.
pub open spec fn parse_named<N, V>(
    b: Seq<u8>,
    name: Parsed<N>,
    value: spec_fn(Seq<u8>) -> Parsed<V>,
    label: spec_fn(N) -> NameModel,
) -> Parsed<(N, V)> {
    match name {
        Ok((n, k)) => match wrap_error(value(b.skip(k as int)), label(n)) {
            Ok((v, m)) => Ok(((n, v), k + m)),
            Err(e) => Err(e),
        },
        Err(e) => Err(e),
    }
}

impl<'a, B, S> Readable<'a> for Attribute<B, S> where
    B: Readable<'a> + View<V = Seq<u8>>,
    S: Readable<'a> + View<V = Seq<char>>,
 {
    open spec fn parse(bytes: Seq<u8>) -> Parsed<(StringRef, ValueModel<StringRef>)> {
        parse_named(
            bytes,
            <StringRef as Readable>::parse(bytes),
            |b: Seq<u8>| parse_value::<B, S, StringRef>(b),
            |n: StringRef| NameModel::Raw(n.0),
        )
    }

    open spec fn encode(v: (StringRef, ValueModel<StringRef>)) -> Seq<u8> {
        <StringRef as Readable>::encode(v.0) + <AttributeValue<B, S, StringRef> as Readable>::encode(v.1)
    }

    open spec fn encodable(v: (StringRef, ValueModel<StringRef>)) -> bool {
        <AttributeValue<B, S, StringRef> as Readable>::encodable(v.1)
    }

    fn read(src: &mut Slice<'a>) -> (r: Result<Attribute<B, S>, DmxError>) {
        let ghost before = src@;
        let name = <StringRef as Readable>::read(src)?;
        let ghost mid = src@;
        match <AttributeValue<B, S, StringRef> as Readable>::read(src) {
            Ok(value) => {
                proof {
                    let (v, m) = parse_value::<B, S, StringRef>(mid)->Ok_0;
                    assert(mid.skip(m as int) =~= before.skip(4 + m as int));
                }
                Ok(Attribute { name, value })
            },
            Err(e) => Err(DmxError::Attribute(AttributeName::Raw(name.0), Box::new(e))),
        }
    }

    proof fn lemma_round_trip(v: (StringRef, ValueModel<StringRef>), rest: Seq<u8>) {
        let e0 = <StringRef as Readable>::encode(v.0);
        let e1 = <AttributeValue<B, S, StringRef> as Readable>::encode(v.1);
        let b = e0 + e1 + rest;
        assert(b =~= e0 + (e1 + rest));
        <StringRef as Readable>::lemma_round_trip(v.0, e1 + rest);
        assert(b.skip(4) =~= e1 + rest);
        <AttributeValue<B, S, StringRef> as Readable>::lemma_round_trip(v.1, rest);
    }
}

/// A named attribute of the file's prefix block; its name is held inline.
impl<'a, B, S> Readable<'a> for (S, AttributeValue<B, S, S>) where
    B: Readable<'a> + View<V = Seq<u8>>,
    S: Readable<'a> + ReaderString<'a>,
 {
    open spec fn parse(bytes: Seq<u8>) -> Parsed<(Seq<char>, ValueModel<Seq<char>>)> {
        parse_named(
            bytes,
            <S as Readable>::parse(bytes),
            |b: Seq<u8>| parse_value::<B, S, S>(b),
            |n: Seq<char>| NameModel::Resolved(n),
        )
    }

    open spec fn encode(v: (Seq<char>, ValueModel<Seq<char>>)) -> Seq<u8> {
        <S as Readable>::encode(v.0) + <AttributeValue<B, S, S> as Readable>::encode(v.1)
    }

    open spec fn encodable(v: (Seq<char>, ValueModel<Seq<char>>)) -> bool {
        <S as Readable>::encodable(v.0) && <AttributeValue<B, S, S> as Readable>::encodable(v.1)
    }

    fn read(src: &mut Slice<'a>) -> (r: Result<(S, AttributeValue<B, S, S>), DmxError>) {
        let ghost before = src@;
        let name = <S as Readable>::read(src)?;
        let ghost mid = src@;
        let ghost k = (before.len() - mid.len()) as nat;
        match <AttributeValue<B, S, S> as Readable>::read(src) {
            Ok(value) => {
                proof {
                    let (v, m) = parse_value::<B, S, S>(mid)->Ok_0;
                    assert(mid.skip(m as int) =~= before.skip(k + m as int));
                }
                Ok((name, value))
            },
            Err(e) => Err(
                DmxError::Attribute(AttributeName::Resolved(name.to_owned_string()), Box::new(e)),
            ),
        }
    }

    proof fn lemma_round_trip(v: (Seq<char>, ValueModel<Seq<char>>), rest: Seq<u8>) {
        let e0 = <S as Readable>::encode(v.0);
        let e1 = <AttributeValue<B, S, S> as Readable>::encode(v.1);
        let b = e0 + e1 + rest;
        assert(b =~= e0 + (e1 + rest));
        <S as Readable>::lemma_round_trip(v.0, e1 + rest);
        assert(b.skip(e0.len() as int) =~= e1 + rest);
        <AttributeValue<B, S, S> as Readable>::lemma_round_trip(v.1, rest);
    }
}

/// The attributes of one element, in their order in the file.
#[derive(Debug, PartialEq)]
pub struct Body<B, S> {
    pub attributes: Vec<Attribute<B, S>>,
}

impl<B, S> View for Body<B, S> where B: View<V = Seq<u8>>, S: View<V = Seq<char>> {
    type V = Seq<(StringRef, ValueModel<StringRef>)>;

    open spec fn view(&self) -> Seq<(StringRef, ValueModel<StringRef>)> {
        views(self.attributes@)
    }
}

impl<'a, B, S> Readable<'a> for Body<B, S> where
    B: Readable<'a> + View<V = Seq<u8>>,
    S: Readable<'a> + View<V = Seq<char>>,
 {
    open spec fn parse(bytes: Seq<u8>) -> Parsed<Seq<(StringRef, ValueModel<StringRef>)>> {
        parse_counted::<Attribute<B, S>>(bytes)
    }

    open spec fn encode(v: Seq<(StringRef, ValueModel<StringRef>)>) -> Seq<u8> {
        encode_counted::<Attribute<B, S>>(v)
    }

    open spec fn encodable(v: Seq<(StringRef, ValueModel<StringRef>)>) -> bool {
        v.len() <= i32::MAX && forall|i: int|
            0 <= i < v.len() ==> <Attribute<B, S> as Readable>::encodable(#[trigger] v[i])
    }

    fn read(src: &mut Slice<'a>) -> (r: Result<Body<B, S>, DmxError>) {
        let attributes = read_counted::<Attribute<B, S>>(src)?;
        Ok(Body { attributes })
    }

    proof fn lemma_round_trip(v: Seq<(StringRef, ValueModel<StringRef>)>, rest: Seq<u8>) {
        lemma_counted_round_trip::<Attribute<B, S>>(v, rest);
    }
}

/// The header line: `<!-- dmx encoding {name} {ver} format {name} {ver} -->\n`.
#[derive(Debug, PartialEq)]
pub struct FileHeader<S> {
    pub encoding_name: S,
    pub encoding_version: i32,
    pub format_name: S,
    pub format_version: i32,
}

/// The mathematical model of a [`FileHeader`].
pub struct FileHeaderModel {
    pub encoding_name: Seq<char>,
    pub encoding_version: i32,
    pub format_name: Seq<char>,
    pub format_version: i32,
}

impl<S: View<V = Seq<char>>> View for FileHeader<S> {
    type V = FileHeaderModel;

    open spec fn view(&self) -> FileHeaderModel {
        FileHeaderModel {
            encoding_name: self.encoding_name@,
            encoding_version: self.encoding_version,
            format_name: self.format_name@,
            format_version: self.format_version,
        }
    }
}

pub open spec fn open_token() -> Seq<u8> {
    encode_utf8("<!-- dmx encoding "@)
}

pub open spec fn space_token() -> Seq<u8> {
    encode_utf8(" "@)
}

pub open spec fn format_token() -> Seq<u8> {
    encode_utf8(" format "@)
}

pub open spec fn close_token() -> Seq<u8> {
    encode_utf8(" -->\n"@)
}

/// A name and a version of the header line: the bytes up to the next space,
/// one space, then a decimal number up to the next space; and what follows.
pub open spec fn name_version(v: Seq<u8>) -> Option<(Seq<u8>, i32, Seq<u8>)> {
    match split_before(v, 32) {
        Some((name, v1)) => match strip(v1, space_token()) {
            Some(v2) => match split_before(v2, 32) {
                Some((ver, v3)) => match decimal(ver) {
                    Some(n) => Some((name, n, v3)),
                    None => None,
                },
                None => None,
            },
            None => None,
        },
        None => None,
    }
}

/// The four fields of a header line, found by locating its literal tokens
/// in order; the bytes after the closing token are not examined.
pub open spec fn header_fields(line: Seq<u8>) -> Option<(Seq<u8>, i32, Seq<u8>, i32)> {
    match strip(line, open_token()) {
        Some(v0) => match name_version(v0) {
            Some((enc, ev, v1)) => match strip(v1, format_token()) {
                Some(v2) => match name_version(v2) {
                    Some((fmt, fv, v3)) => match strip(v3, close_token()) {
                        Some(_) => Some((enc, ev, fmt, fv)),
                        None => None,
                    },
                    None => None,
                },
                None => None,
            },
            None => None,
        },
        None => None,
    }
}

/// The header line: a NUL-terminated UTF-8 string that follows the grammar.
pub open spec fn parse_file_header(b: Seq<u8>) -> Parsed<FileHeaderModel> {
    match parse_cstring(b) {
        Ok((line, n)) => if !valid_utf8(line) {
            Err(ErrorModel::Encoding(line))
        } else {
            match header_fields(line) {
                Some((enc, ev, fmt, fv)) => if !valid_utf8(enc) {
                    Err(ErrorModel::Encoding(enc))
                } else if !valid_utf8(fmt) {
                    Err(ErrorModel::Encoding(fmt))
                } else {
                    Ok(
                        (
                            FileHeaderModel {
                                encoding_name: decode_utf8(enc),
                                encoding_version: ev,
                                format_name: decode_utf8(fmt),
                                format_version: fv,
                            },
                            n,
                        ),
                    )
                },
                None => Err(ErrorModel::Header),
            }
        },
        Err(e) => Err(e),
    }
}

/// Reads a name and a version of the header line.
fn read_name_version<'a>(v: &'a [u8]) -> (r: Option<(&'a [u8], i32, &'a [u8])>)
    ensures
        match r {
            Some((name, n, rest)) => name_version(v@) == Some((name@, n, rest@)),
            None => name_version(v@) is None,
        },
{
    let (name, v1) = split_before_byte(v, 32)?;
    let v2 = strip_prefix(v1, " ".as_bytes())?;
    let (ver, v3) = split_before_byte(v2, 32)?;
    let n = parse_decimal(ver)?;
    Some((name, n, v3))
}

impl<'a, S: ReaderString<'a>> FileHeader<S> {
    /// Reads and parses the header line.
    pub fn read(src: &mut Slice<'a>) -> (r: Result<FileHeader<S>, DmxError>)
        ensures
            crate::read::read_post(parse_file_header(old(src)@), r, old(src)@, final(src)@),
    {
        let line = src.read_cstring()?;
        let _ = <&'a str as ReaderString>::from_utf8(line)?;
        let fields = match strip_prefix(line, "<!-- dmx encoding ".as_bytes()) {
            Some(v0) => match read_name_version(v0) {
                Some((enc, ev, v1)) => match strip_prefix(v1, " format ".as_bytes()) {
                    Some(v2) => match read_name_version(v2) {
                        Some((fmt, fv, v3)) => match strip_prefix(v3, " -->\n".as_bytes()) {
                            Some(_) => Some((enc, ev, fmt, fv)),
                            None => None,
                        },
                        None => None,
                    },
                    None => None,
                },
                None => None,
            },
            None => None,
        };
        match fields {
            Some((enc, ev, fmt, fv)) => {
                let encoding_name = S::from_utf8(enc)?;
                let format_name = S::from_utf8(fmt)?;
                Ok(
                    FileHeader {
                        encoding_name,
                        encoding_version: ev,
                        format_name,
                        format_version: fv,
                    },
                )
            },
            None => Err(DmxError::Header),
        }
    }
}

/// A decoded document: the header line, the prefix attributes, the string
/// table, and one header and one body per element, in file order.
#[derive(Debug, PartialEq)]
pub struct File<B, S> {
    pub header: FileHeader<S>,
    pub prefix: Vec<(S, AttributeValue<B, S>)>,
    pub strings: Vec<S>,
    pub headers: Vec<Header>,
    pub bodies: Vec<Body<B, S>>,
}

/// The mathematical model of a [`File`].
pub struct FileModel {
    pub header: FileHeaderModel,
    pub prefix: Seq<(Seq<char>, ValueModel<Seq<char>>)>,
    pub strings: Seq<Seq<char>>,
    pub headers: Seq<HeaderModel>,
    pub bodies: Seq<Seq<(StringRef, ValueModel<StringRef>)>>,
}

impl<B: View<V = Seq<u8>>, S: View<V = Seq<char>>> View for File<B, S> {
    type V = FileModel;

    open spec fn view(&self) -> FileModel {
        FileModel {
            header: self.header@,
            prefix: views(self.prefix@),
            strings: views(self.strings@),
            headers: views(self.headers@),
            bodies: views(self.bodies@),
        }
    }
}

impl<B: View<V = Seq<u8>>, S: View<V = Seq<char>>> File<B, S> {
    /// Every element has a header and a body.
    pub open spec fn wf(&self) -> bool {
        self.headers@.len() == self.bodies@.len()
    }
}

/// An attribute failure inside a body, with the raw name reference replaced
/// by the string it names when it is within the table.
pub open spec fn resolve_error(e: ErrorModel, strings: Seq<Seq<char>>) -> ErrorModel {
    match e {
        ErrorModel::Attribute(NameModel::Raw(i), inner) => if 0 <= i < strings.len() {
            ErrorModel::Attribute(NameModel::Resolved(strings[i as int]), inner)
        } else {
            e
        },
        _ => e,
    }
}

/// The only supported profile: encoding `binary`, version 9.
pub open spec fn supported(h: FileHeaderModel) -> bool {
    h.encoding_name == "binary"@ && h.encoding_version == 9
}

/// The element headers and bodies: a count, that many headers, then that
/// many bodies; a negative count stands for none.
pub open spec fn parse_elements<'a, B, S>(b: Seq<u8>, strings: Seq<Seq<char>>) -> Result<
    (Seq<HeaderModel>, Seq<Seq<(StringRef, ValueModel<StringRef>)>>),
    ErrorModel,
> where B: Readable<'a> + View<V = Seq<u8>>, S: Readable<'a> + View<V = Seq<char>> {
    match <i32 as Readable>::parse(b) {
        Ok((c, n)) => {
            let count: nat = if c < 0 {
                0
            } else {
                c as nat
            };
            match parse_many::<Header>(b.skip(n as int), count) {
                Ok((headers, m)) => match parse_many::<Body<B, S>>(b.skip((n + m) as int), count) {
                    Ok((bodies, _)) => Ok((headers, bodies)),
                    Err(e) => Err(resolve_error(e, strings)),
                },
                Err(e) => Err(e),
            }
        },
        Err(e) => Err(e),
    }
}

/// A whole document: header line, supported profile, a reserved 32-bit
/// field, the prefix attributes, the string table, then the elements.
/// Bytes after the last body are not examined.
pub open spec fn parse_file<'a, B, S>(b: Seq<u8>) -> Result<FileModel, ErrorModel> where
    B: Readable<'a> + View<V = Seq<u8>>,
    S: Readable<'a> + ReaderString<'a>,
 {
    match parse_file_header(b) {
        Ok((header, n1)) => if !supported(header) {
            Err(ErrorModel::Profile)
        } else {
            let b1 = b.skip(n1 as int);
            match <i32 as Readable>::parse(b1) {
                Ok((_, n2)) => {
                    let b2 = b1.skip(n2 as int);
                    match parse_counted::<(S, AttributeValue<B, S, S>)>(b2) {
                        Ok((prefix, n3)) => {
                            let b3 = b2.skip(n3 as int);
                            match parse_counted::<S>(b3) {
                                Ok((strings, n4)) => match parse_elements::<B, S>(
                                    b3.skip(n4 as int),
                                    strings,
                                ) {
                                    Ok((headers, bodies)) => Ok(
                                        FileModel { header, prefix, strings, headers, bodies },
                                    ),
                                    Err(e) => Err(e),
                                },
                                Err(e) => Err(e),
                            }
                        },
                        Err(e) => Err(e),
                    }
                },
                Err(e) => Err(e),
            }
        },
        Err(e) => Err(e),
    }
}

/// Names a failing body attribute by its string, when the table holds it.
fn resolve<'a, S: ReaderString<'a>>(e: DmxError, strings: &Vec<S>) -> (r: DmxError)
    ensures
        r@ == resolve_error(e@, views(strings@)),
{
    match e {
        DmxError::Attribute(AttributeName::Raw(i), inner) => {
            if 0 <= i && (i as usize) < strings.len() {
                DmxError::Attribute(
                    AttributeName::Resolved(strings[i as usize].to_owned_string()),
                    inner,
                )
            } else {
                DmxError::Attribute(AttributeName::Raw(i), inner)
            }
        },
        other => other,
    }
}

/// Reads the element headers and bodies.
fn read_elements<'a, B, S>(src: &mut Slice<'a>, strings: &Vec<S>) -> (r: Result<
    (Vec<Header>, Vec<Body<B, S>>),
    DmxError,
>) where B: Readable<'a> + View<V = Seq<u8>>, S: Readable<'a> + ReaderString<'a>
    ensures
        match parse_elements::<B, S>(old(src)@, views(strings@)) {
            Ok((hs, bs)) => r is Ok && views(r->Ok_0.0@) == hs && views(r->Ok_0.1@) == bs
                && r->Ok_0.0@.len() == r->Ok_0.1@.len(),
            Err(e) => r is Err && r->Err_0@ == e,
        },
{
    let ghost b = src@;
    let c = <i32 as Readable>::read(src)?;
    let count: u32 = if c < 0 {
        0
    } else {
        c as u32
    };
    let ghost b1 = src@;
    let headers = read_many::<Header>(src, count)?;
    proof {
        let m = parse_many::<Header>(b1, count as nat)->Ok_0.1;
        assert(b1.skip(m as int) =~= b.skip(4 + m as int));
    }
    let bodies = match read_many::<Body<B, S>>(src, count) {
        Ok(bodies) => bodies,
        Err(e) => return Err(resolve(e, strings)),
    };
    proof {
        assert(headers@.len() == views(headers@).len());
        assert(bodies@.len() == views(bodies@).len());
    }
    Ok((headers, bodies))
}

impl<'a, B: View<V = Seq<u8>>, S: ReaderString<'a>> File<B, S> {
    /// Whether the header names the supported profile.
    pub fn is_supported(&self) -> (r: bool)
        ensures
            r == supported(self.header@),
    {
        str_eq(self.header.encoding_name.as_str(), "binary") && self.header.encoding_version == 9
    }
}

impl<'a, B, S> File<B, S> where
    B: Readable<'a> + View<V = Seq<u8>>,
    S: Readable<'a> + ReaderString<'a>,
 {
    /// Decodes a whole document; no partial document comes out of a failure.
    pub fn read(src: &mut Slice<'a>) -> (r: Result<File<B, S>, DmxError>)
        ensures
            match parse_file::<B, S>(old(src)@) {
                Ok(m) => r is Ok && r->Ok_0@ == m && r->Ok_0.wf(),
                Err(e) => r is Err && r->Err_0@ == e,
            },
    {
        let ghost b = src@;
        let header = FileHeader::<S>::read(src)?;
        let ghost b1 = src@;
        if !(str_eq(header.encoding_name.as_str(), "binary") && header.encoding_version == 9) {
            return Err(DmxError::Profile);
        }
        let _reserved = <i32 as Readable>::read(src)?;
        let ghost b2 = src@;
        let prefix = read_counted::<(S, AttributeValue<B, S, S>)>(src)?;
        let ghost b3 = src@;
        let strings = read_counted::<S>(src)?;
        let ghost b4 = src@;
        let (headers, bodies) = read_elements::<B, S>(src, &strings)?;
        Ok(File { header, prefix, strings, headers, bodies })
    }
}

/// Decoding the encoding of an attribute value of any kind, scalar or
/// array, gives the value back and consumes exactly its encoding, whatever
/// bytes follow. Strings must not hold NUL, lengths and counts must fit the
/// wire's signed 32-bit fields.
pub proof fn value_round_trip<'a, B, S, R>(v: ValueModel<R::V>, rest: Seq<u8>) where
    B: Readable<'a> + View<V = Seq<u8>>,
    S: Readable<'a> + View<V = Seq<char>>,
    R: Readable<'a>,

    requires
        payload_encodable::<B, S, R>(v),
    ensures
        parse_value::<B, S, R>(encode_value::<B, S, R>(v) + rest) == Ok::<
            (ValueModel<R::V>, nat),
            ErrorModel,
        >((v, encode_value::<B, S, R>(v).len())),
{
    <AttributeValue<B, S, R> as Readable>::lemma_round_trip(v, rest);
}

pub proof fn lemma_value_same<'a, R1: Readable<'a>, R2: Readable<'a> + View<V = R1::V>>(b: Seq<u8>)
    requires
        forall|x: Seq<u8>| R1::parse(x) == R2::parse(x),
    ensures
        parse_value::<&'a [u8], &'a str, R1>(b) == parse_value::<Vec<u8>, String, R2>(b),
{
    reveal(parse_payload);
    let p = b.skip(1);
    lemma_counted_same::<&'a str, String>(p);
    lemma_counted_same::<&'a [u8], Vec<u8>>(p);
    lemma_counted_same::<i32, i32>(p);
    lemma_counted_same::<u32, u32>(p);
    lemma_counted_same::<bool, bool>(p);
    lemma_counted_same::<u64, u64>(p);
    lemma_counted_same::<Time, Time>(p);
    lemma_counted_same::<Color, Color>(p);
    lemma_counted_same::<Vector2, Vector2>(p);
    lemma_counted_same::<Vector3, Vector3>(p);
    lemma_counted_same::<Vector4, Vector4>(p);
    lemma_counted_same::<Qangle, Qangle>(p);
    lemma_counted_same::<Quaternion, Quaternion>(p);
    lemma_counted_same::<Vmatrix, Vmatrix>(p);
}

pub proof fn lemma_file_same<'a>(b: Seq<u8>)
    ensures
        parse_file::<&'a [u8], &'a str>(b) == parse_file::<Vec<u8>, String>(b),
{
    assert forall|x: Seq<u8>|
        parse_value::<&'a [u8], &'a str, StringRef>(x) == parse_value::<Vec<u8>, String, StringRef>(
            x,
        ) by {
        lemma_value_same::<StringRef, StringRef>(x);
    }
    assert forall|x: Seq<u8>|
        parse_value::<&'a [u8], &'a str, &'a str>(x) == parse_value::<Vec<u8>, String, String>(
            x,
        ) by {
        lemma_value_same::<&'a str, String>(x);
    }
    assert forall|x: Seq<u8>|
        <Attribute<&'a [u8], &'a str> as Readable>::parse(x) == <Attribute<
            Vec<u8>,
            String,
        > as Readable>::parse(x) by {}
    assert forall|x: Seq<u8>|
        <(&'a str, AttributeValue<&'a [u8], &'a str, &'a str>) as Readable>::parse(x) == <(
            String,
            AttributeValue<Vec<u8>, String, String>,
        ) as Readable>::parse(x) by {}
    assert forall|x: Seq<u8>|
        <Body<&'a [u8], &'a str> as Readable>::parse(x) == <Body<Vec<u8>, String> as Readable>::parse(
            x,
        ) by {
        lemma_counted_same::<Attribute<&'a [u8], &'a str>, Attribute<Vec<u8>, String>>(x);
    }
    if let Ok((header, n1)) = parse_file_header(b) {
        let b1 = b.skip(n1 as int);
        if let Ok((_, n2)) = <i32 as Readable>::parse(b1) {
            let b2 = b1.skip(n2 as int);
            lemma_counted_same::<
                (&'a str, AttributeValue<&'a [u8], &'a str, &'a str>),
                (String, AttributeValue<Vec<u8>, String, String>),
            >(b2);
            if let Ok((prefix, n3)) = parse_counted::<
                (&'a str, AttributeValue<&'a [u8], &'a str, &'a str>),
            >(b2) {
                let b3 = b2.skip(n3 as int);
                lemma_counted_same::<&'a str, String>(b3);
                if let Ok((strings, n4)) = parse_counted::<&'a str>(b3) {
                    let b4 = b3.skip(n4 as int);
                    if let Ok((c, n)) = <i32 as Readable>::parse(b4) {
                        let count: nat = if c < 0 {
                            0
                        } else {
                            c as nat
                        };
                        if let Ok((headers, m)) = parse_many::<Header>(b4.skip(n as int), count) {
                            lemma_many_same::<Body<&'a [u8], &'a str>, Body<Vec<u8>, String>>(
                                b4.skip((n + m) as int),
                                count,
                            );
                        }
                    }
                }
            }
        }
    }
}

} // verus!
