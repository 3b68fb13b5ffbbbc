//! Materialization: projecting a decoded document onto a requested shape.
//!
//! A request is a [`Shape`]: any value, a scalar of one kind, a sequence, a
//! mapping, a record of named fields, an optional value, or a tagged union
//! of named variants. The engine walks the document on demand from a
//! [`Node`] and yields a [`Value`] whose strings and byte payloads are views
//! of those held by the document, whichever ownership mode it was decoded in.
//! Element references are followed within a depth budget, so a cyclic
//! element graph ends in [`DmxError::DepthLimit`] rather than running forever.
use crate::dmx::{
    kind_name, model_kind, tag_of, AttributeType, AttributeValue, Body, Color, File, FileModel, Qangle,
    Quaternion, StringRef, Time, ValueModel, Vector2, Vector3, Vector4, Vmatrix,
};
use crate::error::{AttributeName, DmxError, ErrorModel, NameModel};
use crate::read::{views, ReaderString};
use crate::text::str_eq;
use vstd::prelude::*;

verus! {

broadcast use vstd::std_specs::vec::axiom_vec_index_decreases;

/// What the caller asks a node to become.
#[derive(Debug)]
pub enum Shape {
    /// Whatever the wire holds: elements become mappings, arrays sequences.
    Any,
    /// A value of exactly this scalar kind (not `Element`, not an array).
    Kind(AttributeType),
    /// An array, each item with the inner shape.
    Sequence(Box<Shape>),
    /// An element, as its attributes in file order, each with the inner shape.
    Mapping(Box<Shape>),
    /// An element, as the listed fields: wire name and shape of each.
    Record(Vec<(String, Shape)>),
    /// A value that may be absent (a negative string or element reference).
    Optional(Box<Shape>),
    /// One of the listed variants, chosen by the node's discriminant.
    Union(Vec<(String, Shape)>),
}

/// The mathematical model of a [`Shape`].
pub enum ShapeModel {
    Any,
    Kind(AttributeType),
    Sequence(Box<ShapeModel>),
    Mapping(Box<ShapeModel>),
    Record(Seq<(Seq<char>, ShapeModel)>),
    Optional(Box<ShapeModel>),
    Union(Seq<(Seq<char>, ShapeModel)>),
}

pub open spec fn shape_view(s: &Shape) -> ShapeModel
    decreases s via shape_view_decreases
{
    match s {
        Shape::Any => ShapeModel::Any,
        Shape::Kind(k) => ShapeModel::Kind(*k),
        Shape::Sequence(x) => ShapeModel::Sequence(Box::new(shape_view(x))),
        Shape::Mapping(x) => ShapeModel::Mapping(Box::new(shape_view(x))),
        Shape::Record(fs) => ShapeModel::Record(
            Seq::new(
                fs@.len(),
                |i: int|
                    if 0 <= i < fs@.len() {
                        (fs@[i].0@, shape_view(&fs@[i].1))
                    } else {
                        (Seq::empty(), ShapeModel::Any)
                    },
            ),
        ),
        Shape::Optional(x) => ShapeModel::Optional(Box::new(shape_view(x))),
        Shape::Union(vs) => ShapeModel::Union(
            Seq::new(
                vs@.len(),
                |i: int|
                    if 0 <= i < vs@.len() {
                        (vs@[i].0@, shape_view(&vs@[i].1))
                    } else {
                        (Seq::empty(), ShapeModel::Any)
                    },
            ),
        ),
    }
}

#[via_fn]
proof fn shape_view_decreases(s: &Shape) {
    broadcast use vstd::std_specs::vec::axiom_vec_decreases_to_view, vstd::seq::axiom_seq_index_decreases;

    match s {
        Shape::Record(fs) => {
            assert forall|i: int| 0 <= i < fs@.len() implies decreases_to!(s => fs@[i].1) by {
                assert(decreases_to!(fs => fs@));
            }
        },
        Shape::Union(vs) => {
            assert forall|i: int| 0 <= i < vs@.len() implies decreases_to!(s => vs@[i].1) by {
                assert(decreases_to!(vs => vs@));
            }
        },
        _ => {},
    }
}

impl View for Shape {
    type V = ShapeModel;

    open spec fn view(&self) -> ShapeModel {
        shape_view(self)
    }
}

/// A scalar that needs no further walking. Floating-point components are
/// bit patterns, as in the document.
#[derive(Debug, Clone, Copy, PartialEq)]
pub enum Leaf {
    Bool(bool),
    Int(i32),
    Float(u32),
    Uint8(u8),
    Uint64(u64),
    Time(Time),
    Color(Color),
    Vector2(Vector2),
    Vector3(Vector3),
    Vector4(Vector4),
    Qangle(Qangle),
    Quaternion(Quaternion),
    Vmatrix(Vmatrix),
}

/// The mathematical model of a [`Leaf`].
pub enum LeafModel {
    Bool(bool),
    Int(i32),
    Float(u32),
    Uint8(u8),
    Uint64(u64),
    Time(Time),
    Color(Color),
    Vector2(Vector2),
    Vector3(Vector3),
    Vector4(Vector4),
    Qangle(Qangle),
    Quaternion(Quaternion),
    Vmatrix(Seq<u32>),
}

impl View for Leaf {
    type V = LeafModel;

    open spec fn view(&self) -> LeafModel {
        match self {
            Leaf::Bool(x) => LeafModel::Bool(*x),
            Leaf::Int(x) => LeafModel::Int(*x),
            Leaf::Float(x) => LeafModel::Float(*x),
            Leaf::Uint8(x) => LeafModel::Uint8(*x),
            Leaf::Uint64(x) => LeafModel::Uint64(*x),
            Leaf::Time(x) => LeafModel::Time(*x),
            Leaf::Color(x) => LeafModel::Color(*x),
            Leaf::Vector2(x) => LeafModel::Vector2(*x),
            Leaf::Vector3(x) => LeafModel::Vector3(*x),
            Leaf::Vector4(x) => LeafModel::Vector4(*x),
            Leaf::Qangle(x) => LeafModel::Qangle(*x),
            Leaf::Quaternion(x) => LeafModel::Quaternion(*x),
            Leaf::Vmatrix(x) => LeafModel::Vmatrix(x@),
        }
    }
}

/// A string payload of a materialized value: a view of a string held by the
/// document, borrowed from the input or owned, as the document holds it.
#[derive(Debug, PartialEq)]
pub struct StringWrapper<'d, S>(pub &'d S);

impl<'d, S: View> View for StringWrapper<'d, S> {
    type V = S::V;

    open spec fn view(&self) -> S::V {
        self.0@
    }
}

/// A byte payload of a materialized value: a view of a buffer held by the
/// document, borrowed from the input or owned, as the document holds it.
#[derive(Debug, PartialEq)]
pub struct BufferWrapper<'d, B>(pub &'d B);

impl<'d, B: View> View for BufferWrapper<'d, B> {
    type V = B::V;

    open spec fn view(&self) -> B::V {
        self.0@
    }
}

/// A materialized value.
#[derive(Debug, PartialEq)]
pub enum Value<'d, B, S> {
    Absent,
    Leaf(Leaf),
    Str(StringWrapper<'d, S>),
    Bytes(BufferWrapper<'d, B>),
    Sequence(Vec<Value<'d, B, S>>),
    /// Attribute names and values, in the element's order.
    Mapping(Vec<(StringWrapper<'d, S>, Value<'d, B, S>)>),
    /// Field values, in the order of the request's fields.
    Record(Vec<Value<'d, B, S>>),
    /// The position of the chosen variant in the request, and its payload.
    Variant(usize, Box<Value<'d, B, S>>),
}

/// The mathematical model of a [`Value`].
pub enum Materialized {
    Absent,
    Leaf(LeafModel),
    Str(Seq<char>),
    Bytes(Seq<u8>),
    Sequence(Seq<Materialized>),
    Mapping(Seq<(Seq<char>, Materialized)>),
    Record(Seq<Materialized>),
    Variant(nat, Box<Materialized>),
}

pub open spec fn value_view<'d, B: View<V = Seq<u8>>, S: View<V = Seq<char>>>(
    v: &Value<'d, B, S>,
) -> Materialized
    decreases v via value_view_decreases::<B, S>
{
    match v {
        Value::Absent => Materialized::Absent,
        Value::Leaf(l) => Materialized::Leaf(l@),
        Value::Str(s) => Materialized::Str(s@),
        Value::Bytes(b) => Materialized::Bytes(b@),
        Value::Sequence(xs) => Materialized::Sequence(
            Seq::new(
                xs@.len(),
                |i: int|
                    if 0 <= i < xs@.len() {
                        value_view(&xs@[i])
                    } else {
                        Materialized::Absent
                    },
            ),
        ),
        Value::Mapping(xs) => Materialized::Mapping(
            Seq::new(
                xs@.len(),
                |i: int|
                    if 0 <= i < xs@.len() {
                        (xs@[i].0@, value_view(&xs@[i].1))
                    } else {
                        (Seq::empty(), Materialized::Absent)
                    },
            ),
        ),
        Value::Record(xs) => Materialized::Record(
            Seq::new(
                xs@.len(),
                |i: int|
                    if 0 <= i < xs@.len() {
                        value_view(&xs@[i])
                    } else {
                        Materialized::Absent
                    },
            ),
        ),
        Value::Variant(j, x) => Materialized::Variant(*j as nat, Box::new(value_view(x))),
    }
}

#[via_fn]
proof fn value_view_decreases<'d, B: View<V = Seq<u8>>, S: View<V = Seq<char>>>(
    v: &Value<'d, B, S>,
) {
    broadcast use vstd::std_specs::vec::axiom_vec_decreases_to_view, vstd::seq::axiom_seq_index_decreases;

    match v {
        Value::Sequence(xs) => {
            assert forall|i: int| 0 <= i < xs@.len() implies decreases_to!(v => xs@[i]) by {
                assert(decreases_to!(xs => xs@));
            }
        },
        Value::Mapping(xs) => {
            assert forall|i: int| 0 <= i < xs@.len() implies decreases_to!(v => xs@[i].1) by {
                assert(decreases_to!(xs => xs@));
            }
        },
        Value::Record(xs) => {
            assert forall|i: int| 0 <= i < xs@.len() implies decreases_to!(v => xs@[i]) by {
                assert(decreases_to!(xs => xs@));
            }
        },
        _ => {},
    }
}

impl<'d, B: View<V = Seq<u8>>, S: View<V = Seq<char>>> View for Value<'d, B, S> {
    type V = Materialized;

    open spec fn view(&self) -> Materialized {
        value_view(self)
    }
}

/// Where in a document materialization stands.
#[derive(Debug)]
pub enum Node<'d, B, S> {
    /// The element with this index; a negative index stands for "absent".
    Element(i32),
    /// A whole attribute value other than an element reference.
    Attr(&'d AttributeValue<B, S, StringRef>),
    /// One item of an array value other than an element array.
    Item(&'d AttributeValue<B, S, StringRef>, usize),
}

/// The mathematical model of a [`Node`].
pub enum NodeModel {
    Element(i32),
    Attr(ValueModel<StringRef>),
    Item(ValueModel<StringRef>, int),
}

impl<'d, B: View<V = Seq<u8>>, S: View<V = Seq<char>>> View for Node<'d, B, S> {
    type V = NodeModel;

    open spec fn view(&self) -> NodeModel {
        match self {
            Node::Element(i) => NodeModel::Element(*i),
            Node::Attr(v) => NodeModel::Attr(v@),
            Node::Item(v, k) => NodeModel::Item(v@, *k as int),
        }
    }
}

/// The string that a reference names in the document's table.
pub open spec fn string_at(doc: FileModel, r: StringRef) -> Result<Seq<char>, ErrorModel> {
    if 0 <= r.0 < doc.strings.len() {
        Ok(doc.strings[r.0 as int])
    } else {
        Err(ErrorModel::Reference(r.0))
    }
}

/// The node of a whole attribute value: element references become elements.
pub open spec fn node_of(v: ValueModel<StringRef>) -> NodeModel {
    match v {
        ValueModel::Element(i) => NodeModel::Element(i),
        _ => NodeModel::Attr(v),
    }
}

/// The number of items of an array value; none for a scalar.
pub open spec fn item_count(v: ValueModel<StringRef>) -> Option<nat> {
    match v {
        ValueModel::ElementArray(xs) => Some(xs.len()),
        ValueModel::IntArray(xs) => Some(xs.len()),
        ValueModel::FloatArray(xs) => Some(xs.len()),
        ValueModel::BoolArray(xs) => Some(xs.len()),
        ValueModel::StringArray(xs) => Some(xs.len()),
        ValueModel::BinaryArray(xs) => Some(xs.len()),
        ValueModel::TimeArray(xs) => Some(xs.len()),
        ValueModel::ColorArray(xs) => Some(xs.len()),
        ValueModel::Vector2Array(xs) => Some(xs.len()),
        ValueModel::Vector3Array(xs) => Some(xs.len()),
        ValueModel::Vector4Array(xs) => Some(xs.len()),
        ValueModel::QangleArray(xs) => Some(xs.len()),
        ValueModel::QuaternionArray(xs) => Some(xs.len()),
        ValueModel::VmatrixArray(xs) => Some(xs.len()),
        ValueModel::Uint64Array(xs) => Some(xs.len()),
        _ => None,
    }
}

/// The node of the `k`th item of an array value.
pub open spec fn item_node(v: ValueModel<StringRef>, k: int) -> NodeModel {
    match v {
        ValueModel::ElementArray(xs) => NodeModel::Element(xs[k]),
        _ => NodeModel::Item(v, k),
    }
}

/// A scalar kind other than `Element`.
pub open spec fn is_leaf_kind(k: AttributeType) -> bool {
    tag_of(k) <= 16 && k != AttributeType::Element
}

/// The kind of the items of an array kind.
pub open spec fn item_kind(k: AttributeType) -> AttributeType {
    match k {
        AttributeType::ElementArray => AttributeType::Element,
        AttributeType::IntArray => AttributeType::Int,
        AttributeType::FloatArray => AttributeType::Float,
        AttributeType::BoolArray => AttributeType::Bool,
        AttributeType::StringArray => AttributeType::String,
        AttributeType::BinaryArray => AttributeType::Binary,
        AttributeType::TimeArray => AttributeType::Time,
        AttributeType::ColorArray => AttributeType::Color,
        AttributeType::Vector2Array => AttributeType::Vector2,
        AttributeType::Vector3Array => AttributeType::Vector3,
        AttributeType::Vector4Array => AttributeType::Vector4,
        AttributeType::QangleArray => AttributeType::Qangle,
        AttributeType::QuaternionArray => AttributeType::Quaternion,
        AttributeType::VmatrixArray => AttributeType::Vmatrix,
        AttributeType::Uint64Array => AttributeType::Uint64,
        _ => k,
    }
}

/// The kind of what a node stands for.
pub open spec fn node_kind(n: NodeModel) -> AttributeType {
    match n {
        NodeModel::Element(_) => AttributeType::Element,
        NodeModel::Attr(v) => model_kind(v),
        NodeModel::Item(v, _) => item_kind(model_kind(v)),
    }
}

/// What a node that is neither an element nor an array holds; a negative
/// string reference is absent.
pub open spec fn plain(doc: FileModel, n: NodeModel) -> Result<Materialized, ErrorModel> {
    match n {
        NodeModel::Attr(v) => match v {
            ValueModel::String(r) => if r.0 < 0 {
                Ok(Materialized::Absent)
            } else {
                match string_at(doc, r) {
                    Ok(s) => Ok(Materialized::Str(s)),
                    Err(e) => Err(e),
                }
            },
            ValueModel::Binary(b) => Ok(Materialized::Bytes(b)),
            ValueModel::Int(x) => Ok(Materialized::Leaf(LeafModel::Int(x))),
            ValueModel::Float(x) => Ok(Materialized::Leaf(LeafModel::Float(x))),
            ValueModel::Bool(x) => Ok(Materialized::Leaf(LeafModel::Bool(x))),
            ValueModel::Time(x) => Ok(Materialized::Leaf(LeafModel::Time(x))),
            ValueModel::Color(x) => Ok(Materialized::Leaf(LeafModel::Color(x))),
            ValueModel::Vector2(x) => Ok(Materialized::Leaf(LeafModel::Vector2(x))),
            ValueModel::Vector3(x) => Ok(Materialized::Leaf(LeafModel::Vector3(x))),
            ValueModel::Vector4(x) => Ok(Materialized::Leaf(LeafModel::Vector4(x))),
            ValueModel::Qangle(x) => Ok(Materialized::Leaf(LeafModel::Qangle(x))),
            ValueModel::Quaternion(x) => Ok(Materialized::Leaf(LeafModel::Quaternion(x))),
            ValueModel::Vmatrix(x) => Ok(Materialized::Leaf(LeafModel::Vmatrix(x))),
            ValueModel::Uint64(x) => Ok(Materialized::Leaf(LeafModel::Uint64(x))),
            ValueModel::Uint8(x) => Ok(Materialized::Leaf(LeafModel::Uint8(x))),
            _ => Err(ErrorModel::Mismatch),
        },
        NodeModel::Item(v, k) => match v {
            ValueModel::StringArray(xs) => if 0 <= k < xs.len() {
                Ok(Materialized::Str(xs[k]))
            } else {
                Err(ErrorModel::Mismatch)
            },
            ValueModel::BinaryArray(xs) => if 0 <= k < xs.len() {
                Ok(Materialized::Bytes(xs[k]))
            } else {
                Err(ErrorModel::Mismatch)
            },
            ValueModel::IntArray(xs) => if 0 <= k < xs.len() {
                Ok(Materialized::Leaf(LeafModel::Int(xs[k])))
            } else {
                Err(ErrorModel::Mismatch)
            },
            ValueModel::FloatArray(xs) => if 0 <= k < xs.len() {
                Ok(Materialized::Leaf(LeafModel::Float(xs[k])))
            } else {
                Err(ErrorModel::Mismatch)
            },
            ValueModel::BoolArray(xs) => if 0 <= k < xs.len() {
                Ok(Materialized::Leaf(LeafModel::Bool(xs[k])))
            } else {
                Err(ErrorModel::Mismatch)
            },
            ValueModel::TimeArray(xs) => if 0 <= k < xs.len() {
                Ok(Materialized::Leaf(LeafModel::Time(xs[k])))
            } else {
                Err(ErrorModel::Mismatch)
            },
            ValueModel::ColorArray(xs) => if 0 <= k < xs.len() {
                Ok(Materialized::Leaf(LeafModel::Color(xs[k])))
            } else {
                Err(ErrorModel::Mismatch)
            },
            ValueModel::Vector2Array(xs) => if 0 <= k < xs.len() {
                Ok(Materialized::Leaf(LeafModel::Vector2(xs[k])))
            } else {
                Err(ErrorModel::Mismatch)
            },
            ValueModel::Vector3Array(xs) => if 0 <= k < xs.len() {
                Ok(Materialized::Leaf(LeafModel::Vector3(xs[k])))
            } else {
                Err(ErrorModel::Mismatch)
            },
            ValueModel::Vector4Array(xs) => if 0 <= k < xs.len() {
                Ok(Materialized::Leaf(LeafModel::Vector4(xs[k])))
            } else {
                Err(ErrorModel::Mismatch)
            },
            ValueModel::QangleArray(xs) => if 0 <= k < xs.len() {
                Ok(Materialized::Leaf(LeafModel::Qangle(xs[k])))
            } else {
                Err(ErrorModel::Mismatch)
            },
            ValueModel::QuaternionArray(xs) => if 0 <= k < xs.len() {
                Ok(Materialized::Leaf(LeafModel::Quaternion(xs[k])))
            } else {
                Err(ErrorModel::Mismatch)
            },
            ValueModel::VmatrixArray(xs) => if 0 <= k < xs.len() {
                Ok(Materialized::Leaf(LeafModel::Vmatrix(xs[k])))
            } else {
                Err(ErrorModel::Mismatch)
            },
            ValueModel::Uint64Array(xs) => if 0 <= k < xs.len() {
                Ok(Materialized::Leaf(LeafModel::Uint64(xs[k])))
            } else {
                Err(ErrorModel::Mismatch)
            },
            _ => Err(ErrorModel::Mismatch),
        },
        NodeModel::Element(_) => Err(ErrorModel::Mismatch),
    }
}

/// `r` names `name` in the document's table.
pub open spec fn names(doc: FileModel, r: StringRef, name: Seq<char>) -> bool {
    0 <= r.0 < doc.strings.len() && doc.strings[r.0 as int] == name
}

/// `k` is the first attribute of `body` named `name`.
pub open spec fn is_first_attr(
    doc: FileModel,
    body: Seq<(StringRef, ValueModel<StringRef>)>,
    name: Seq<char>,
    k: int,
) -> bool {
    0 <= k < body.len() && names(doc, body[k].0, name) && forall|j: int|
        0 <= j < k ==> !names(doc, #[trigger] body[j].0, name)
}

/// The first attribute of `body` named `name`, if any.
pub open spec fn find_attr(
    doc: FileModel,
    body: Seq<(StringRef, ValueModel<StringRef>)>,
    name: Seq<char>,
) -> Option<int> {
    if exists|k: int| is_first_attr(doc, body, name, k) {
        Some(choose|k: int| is_first_attr(doc, body, name, k))
    } else {
        None
    }
}

/// `j` is the first variant named `d`.
pub open spec fn is_first_variant(vs: Seq<(Seq<char>, ShapeModel)>, d: Seq<char>, j: int) -> bool {
    0 <= j < vs.len() && vs[j].0 == d && forall|i: int| 0 <= i < j ==> #[trigger] vs[i].0 != d
}

/// The first variant named `d`, if any.
pub open spec fn find_variant(vs: Seq<(Seq<char>, ShapeModel)>, d: Seq<char>) -> Option<int> {
    if exists|j: int| is_first_variant(vs, d, j) {
        Some(choose|j: int| is_first_variant(vs, d, j))
    } else {
        None
    }
}

/// The discriminant of a node for tagged-union dispatch: an element's type
/// name, or else the symbolic name of the node's kind.
pub open spec fn discriminant(doc: FileModel, n: NodeModel) -> Result<Seq<char>, ErrorModel> {
    match n {
        NodeModel::Element(i) => if i < 0 {
            Err(ErrorModel::Mismatch)
        } else if i >= doc.headers.len() {
            Err(ErrorModel::Reference(i))
        } else {
            string_at(doc, doc.headers[i as int].type_)
        },
        _ => Ok(kind_name(node_kind(n))),
    }
}

/// Wraps a failure with the name of the attribute it happened in.
pub open spec fn named<V>(r: Result<V, ErrorModel>, name: Seq<char>) -> Result<V, ErrorModel> {
    match r {
        Ok(v) => Ok(v),
        Err(e) => Err(ErrorModel::Attribute(NameModel::Resolved(name), Box::new(e))),
    }
}

pub open spec fn node_rank(n: NodeModel) -> nat {
    match n {
        NodeModel::Attr(_) => 2,
        _ => 0,
    }
}

/// Node `n` of `doc` materialized as shape `s`, following element references
/// at most `depth` deep.
pub open spec fn materialize(doc: FileModel, n: NodeModel, s: ShapeModel, depth: nat) -> Result<
    Materialized,
    ErrorModel,
>
    decreases depth, s, node_rank(n), 0nat,
{
    match s {
        ShapeModel::Any => match n {
            NodeModel::Element(i) => if i < 0 {
                Ok(Materialized::Absent)
            } else if i >= doc.bodies.len() {
                Err(ErrorModel::Reference(i))
            } else if depth == 0 {
                Err(ErrorModel::DepthLimit)
            } else {
                let body = doc.bodies[i as int];
                match materialize_attrs(doc, body, ShapeModel::Any, (depth - 1) as nat, body.len()) {
                    Ok(xs) => Ok(Materialized::Mapping(xs)),
                    Err(e) => Err(e),
                }
            },
            NodeModel::Attr(v) => match item_count(v) {
                Some(c) => match materialize_items(doc, v, ShapeModel::Any, depth, c) {
                    Ok(xs) => Ok(Materialized::Sequence(xs)),
                    Err(e) => Err(e),
                },
                None => plain(doc, n),
            },
            NodeModel::Item(_, _) => plain(doc, n),
        },
        ShapeModel::Kind(k) => if node_kind(n) == k && is_leaf_kind(k) {
            plain(doc, n)
        } else {
            Err(ErrorModel::Mismatch)
        },
        ShapeModel::Sequence(inner) => match n {
            NodeModel::Attr(v) => match item_count(v) {
                Some(c) => match materialize_items(doc, v, *inner, depth, c) {
                    Ok(xs) => Ok(Materialized::Sequence(xs)),
                    Err(e) => Err(e),
                },
                None => Err(ErrorModel::Mismatch),
            },
            _ => Err(ErrorModel::Mismatch),
        },
        ShapeModel::Mapping(inner) => match n {
            NodeModel::Element(i) => if i < 0 {
                Err(ErrorModel::Mismatch)
            } else if i >= doc.bodies.len() {
                Err(ErrorModel::Reference(i))
            } else if depth == 0 {
                Err(ErrorModel::DepthLimit)
            } else {
                let body = doc.bodies[i as int];
                match materialize_attrs(doc, body, *inner, (depth - 1) as nat, body.len()) {
                    Ok(xs) => Ok(Materialized::Mapping(xs)),
                    Err(e) => Err(e),
                }
            },
            _ => Err(ErrorModel::Mismatch),
        },
        ShapeModel::Record(fs) => match n {
            NodeModel::Element(i) => if i < 0 {
                Err(ErrorModel::Mismatch)
            } else if i >= doc.bodies.len() {
                Err(ErrorModel::Reference(i))
            } else if depth == 0 {
                Err(ErrorModel::DepthLimit)
            } else {
                match materialize_fields(doc, doc.bodies[i as int], s, (depth - 1) as nat, fs.len()) {
                    Ok(xs) => Ok(Materialized::Record(xs)),
                    Err(e) => Err(e),
                }
            },
            _ => Err(ErrorModel::Mismatch),
        },
        ShapeModel::Optional(inner) => match n {
            NodeModel::Element(i) if i < 0 => Ok(Materialized::Absent),
            NodeModel::Attr(ValueModel::String(r)) if r.0 < 0 => Ok(Materialized::Absent),
            _ => materialize(doc, n, *inner, depth),
        },
        ShapeModel::Union(vs) => match discriminant(doc, n) {
            Ok(d) => match find_variant(vs, d) {
                Some(j) => match materialize(doc, n, vs[j].1, depth) {
                    Ok(x) => Ok(Materialized::Variant(j as nat, Box::new(x))),
                    Err(e) => Err(e),
                },
                None => Err(ErrorModel::UnknownVariant(d)),
            },
            Err(e) => Err(e),
        },
    }
}

/// The first `count` items of array value `v`, each materialized as `s`.
pub open spec fn materialize_items(
    doc: FileModel,
    v: ValueModel<StringRef>,
    s: ShapeModel,
    depth: nat,
    count: nat,
) -> Result<Seq<Materialized>, ErrorModel>
    decreases depth, s, 1nat, count,
{
    if count == 0 {
        Ok(seq![])
    } else {
        match materialize_items(doc, v, s, depth, (count - 1) as nat) {
            Ok(xs) => match materialize(doc, item_node(v, count - 1), s, depth) {
                Ok(x) => Ok(xs.push(x)),
                Err(e) => Err(e),
            },
            Err(e) => Err(e),
        }
    }
}

/// The first `count` attributes of `body`: each name, and the value
/// materialized as `s`; a failure names its attribute.
pub open spec fn materialize_attrs(
    doc: FileModel,
    body: Seq<(StringRef, ValueModel<StringRef>)>,
    s: ShapeModel,
    depth: nat,
    count: nat,
) -> Result<Seq<(Seq<char>, Materialized)>, ErrorModel>
    decreases depth, s, 3nat, count,
{
    if count == 0 {
        Ok(seq![])
    } else {
        match materialize_attrs(doc, body, s, depth, (count - 1) as nat) {
            Ok(xs) => match string_at(doc, body[count - 1].0) {
                Ok(name) => match named(
                    materialize(doc, node_of(body[count - 1].1), s, depth),
                    name,
                ) {
                    Ok(x) => Ok(xs.push((name, x))),
                    Err(e) => Err(e),
                },
                Err(e) => Err(e),
            },
            Err(e) => Err(e),
        }
    }
}

/// The first `count` fields of record shape `rec` over `body`: each from the
/// first attribute with the field's name; a missing optional field is
/// absent, another missing field fails.
pub open spec fn materialize_fields(
    doc: FileModel,
    body: Seq<(StringRef, ValueModel<StringRef>)>,
    rec: ShapeModel,
    depth: nat,
    count: nat,
) -> Result<Seq<Materialized>, ErrorModel>
    decreases depth, rec, 3nat, count,
{
    match rec {
        ShapeModel::Record(fs) => if count == 0 || count > fs.len() {
            Ok(seq![])
        } else {
            match materialize_fields(doc, body, rec, depth, (count - 1) as nat) {
                Ok(xs) => {
                    let (name, shape) = fs[count - 1];
                    match find_attr(doc, body, name) {
                        Some(k) => match named(
                            materialize(doc, node_of(body[k].1), shape, depth),
                            name,
                        ) {
                            Ok(x) => Ok(xs.push(x)),
                            Err(e) => Err(e),
                        },
                        None => if shape is Optional {
                            Ok(xs.push(Materialized::Absent))
                        } else {
                            Err(ErrorModel::MissingField(name))
                        },
                    }
                },
                Err(e) => Err(e),
            }
        },
        _ => Ok(seq![]),
    }
}

/// The models of a sequence of values.
pub open spec fn vals<'d, B: View<V = Seq<u8>>, S: View<V = Seq<char>>>(
    xs: Seq<Value<'d, B, S>>,
) -> Seq<Materialized> {
    xs.map_values(|x: Value<'d, B, S>| x@)
}

/// The models of a sequence of named values.
pub open spec fn named_vals<'d, B: View<V = Seq<u8>>, S: View<V = Seq<char>>>(
    xs: Seq<(StringWrapper<'d, S>, Value<'d, B, S>)>,
) -> Seq<(Seq<char>, Materialized)> {
    xs.map_values(|x: (StringWrapper<'d, S>, Value<'d, B, S>)| (x.0@, x.1@))
}

/// The model of a materialization outcome.
pub open spec fn outcome<V: View, E: View>(r: Result<V, E>) -> Result<V::V, E::V> {
    match r {
        Ok(v) => Ok(v@),
        Err(e) => Err(e@),
    }
}

pub proof fn lemma_items_error(
    doc: FileModel,
    v: ValueModel<StringRef>,
    s: ShapeModel,
    depth: nat,
    k: nat,
    count: nat,
)
    requires
        k <= count,
        materialize_items(doc, v, s, depth, k) is Err,
    ensures
        materialize_items(doc, v, s, depth, count) == materialize_items(doc, v, s, depth, k),
    decreases count - k,
{
    if k < count {
        lemma_items_error(doc, v, s, depth, k, (count - 1) as nat);
    }
}

pub proof fn lemma_attrs_error(
    doc: FileModel,
    body: Seq<(StringRef, ValueModel<StringRef>)>,
    s: ShapeModel,
    depth: nat,
    k: nat,
    count: nat,
)
    requires
        k <= count,
        materialize_attrs(doc, body, s, depth, k) is Err,
    ensures
        materialize_attrs(doc, body, s, depth, count) == materialize_attrs(doc, body, s, depth, k),
    decreases count - k,
{
    if k < count {
        lemma_attrs_error(doc, body, s, depth, k, (count - 1) as nat);
    }
}

pub proof fn lemma_fields_error(
    doc: FileModel,
    body: Seq<(StringRef, ValueModel<StringRef>)>,
    rec: ShapeModel,
    depth: nat,
    k: nat,
    count: nat,
)
    requires
        k <= count,
        rec is Record,
        count <= rec->Record_0.len(),
        materialize_fields(doc, body, rec, depth, k) is Err,
    ensures
        materialize_fields(doc, body, rec, depth, count) == materialize_fields(doc, body, rec, depth, k),
    decreases count - k,
{
    if k < count {
        lemma_fields_error(doc, body, rec, depth, k, (count - 1) as nat);
    }
}

/// The node of a whole attribute value.
pub fn node_of_value<'d, B: View<V = Seq<u8>>, S: View<V = Seq<char>>>(
    v: &'d AttributeValue<B, S, StringRef>,
) -> (n: Node<'d, B, S>)
    ensures
        n@ == node_of(v@),
{
    match v {
        AttributeValue::Element(i) => Node::Element(*i),
        _ => Node::Attr(v),
    }
}

/// The number of items of an array value.
fn items_of<B: View<V = Seq<u8>>, S: View<V = Seq<char>>>(
    v: &AttributeValue<B, S, StringRef>,
) -> (r: Option<usize>)
    ensures
        match r {
            Some(c) => item_count(v@) == Some(c as nat),
            None => item_count(v@) is None,
        },
{
    match v {
        AttributeValue::ElementArray(xs) => Some(xs.len()),
        AttributeValue::IntArray(xs) => Some(xs.len()),
        AttributeValue::FloatArray(xs) => Some(xs.len()),
        AttributeValue::BoolArray(xs) => Some(xs.len()),
        AttributeValue::StringArray(xs) => Some(xs.len()),
        AttributeValue::BinaryArray(xs) => Some(xs.len()),
        AttributeValue::TimeArray(xs) => Some(xs.len()),
        AttributeValue::ColorArray(xs) => Some(xs.len()),
        AttributeValue::Vector2Array(xs) => Some(xs.len()),
        AttributeValue::Vector3Array(xs) => Some(xs.len()),
        AttributeValue::Vector4Array(xs) => Some(xs.len()),
        AttributeValue::QangleArray(xs) => Some(xs.len()),
        AttributeValue::QuaternionArray(xs) => Some(xs.len()),
        AttributeValue::VmatrixArray(xs) => Some(xs.len()),
        AttributeValue::Uint64Array(xs) => Some(xs.len()),
        _ => None,
    }
}

/// The node of the `k`th item of an array value.
fn item_node_of<'d, B: View<V = Seq<u8>>, S: View<V = Seq<char>>>(
    v: &'d AttributeValue<B, S, StringRef>,
    k: usize,
) -> (n: Node<'d, B, S>)
    requires
        item_count(v@) matches Some(c) && k < c,
    ensures
        n@ == item_node(v@, k as int),
{
    match v {
        AttributeValue::ElementArray(xs) => Node::Element(xs[k]),
        _ => Node::Item(v, k),
    }
}

/// The kind of the items of an array kind.
fn item_kind_of(k: AttributeType) -> (r: AttributeType)
    ensures
        r == item_kind(k),
{
    match k {
        AttributeType::ElementArray => AttributeType::Element,
        AttributeType::IntArray => AttributeType::Int,
        AttributeType::FloatArray => AttributeType::Float,
        AttributeType::BoolArray => AttributeType::Bool,
        AttributeType::StringArray => AttributeType::String,
        AttributeType::BinaryArray => AttributeType::Binary,
        AttributeType::TimeArray => AttributeType::Time,
        AttributeType::ColorArray => AttributeType::Color,
        AttributeType::Vector2Array => AttributeType::Vector2,
        AttributeType::Vector3Array => AttributeType::Vector3,
        AttributeType::Vector4Array => AttributeType::Vector4,
        AttributeType::QangleArray => AttributeType::Qangle,
        AttributeType::QuaternionArray => AttributeType::Quaternion,
        AttributeType::VmatrixArray => AttributeType::Vmatrix,
        AttributeType::Uint64Array => AttributeType::Uint64,
        _ => k,
    }
}

impl<'a, B: View<V = Seq<u8>>, S: ReaderString<'a>> File<B, S> {
    /// The string that a reference names in the table.
    pub fn string_at<'d>(&'d self, r: StringRef) -> (res: Result<&'d S, DmxError>)
        ensures
            outcome(res) == string_at(self@, r),
    {
        if 0 <= r.0 && (r.0 as usize) < self.strings.len() {
            Ok(&self.strings[r.0 as usize])
        } else {
            Err(DmxError::Reference(r.0))
        }
    }

    /// What a node that is neither an element nor an array holds.
    fn plain<'d>(&'d self, n: &Node<'d, B, S>) -> (r: Result<Value<'d, B, S>, DmxError>)
        ensures
            outcome(r) == plain(self@, n@),
    {
        match n {
            Node::Attr(v) => {
                let v: &'d AttributeValue<B, S, StringRef> = *v;
                match v {
                    AttributeValue::String(r) => {
                        if r.0 < 0 {
                            Ok(Value::Absent)
                        } else {
                            let s = self.string_at(*r)?;
                            Ok(Value::Str(StringWrapper(s)))
                        }
                    },
                    AttributeValue::Binary(b) => Ok(Value::Bytes(BufferWrapper(b))),
                    AttributeValue::Int(x) => Ok(Value::Leaf(Leaf::Int(*x))),
                    AttributeValue::Float(x) => Ok(Value::Leaf(Leaf::Float(*x))),
                    AttributeValue::Bool(x) => Ok(Value::Leaf(Leaf::Bool(*x))),
                    AttributeValue::Time(x) => Ok(Value::Leaf(Leaf::Time(*x))),
                    AttributeValue::Color(x) => Ok(Value::Leaf(Leaf::Color(*x))),
                    AttributeValue::Vector2(x) => Ok(Value::Leaf(Leaf::Vector2(*x))),
                    AttributeValue::Vector3(x) => Ok(Value::Leaf(Leaf::Vector3(*x))),
                    AttributeValue::Vector4(x) => Ok(Value::Leaf(Leaf::Vector4(*x))),
                    AttributeValue::Qangle(x) => Ok(Value::Leaf(Leaf::Qangle(*x))),
                    AttributeValue::Quaternion(x) => Ok(Value::Leaf(Leaf::Quaternion(*x))),
                    AttributeValue::Vmatrix(x) => Ok(Value::Leaf(Leaf::Vmatrix(*x))),
                    AttributeValue::Uint64(x) => Ok(Value::Leaf(Leaf::Uint64(*x))),
                    AttributeValue::Uint8(x) => Ok(Value::Leaf(Leaf::Uint8(*x))),
                    _ => Err(DmxError::Mismatch),
                }
            },
            Node::Item(v, k) => {
                let v: &'d AttributeValue<B, S, StringRef> = *v;
                let k: usize = *k;
                match v {
                    AttributeValue::StringArray(xs) => if k < xs.len() {
                        Ok(Value::Str(StringWrapper(&xs[k])))
                    } else {
                        Err(DmxError::Mismatch)
                    },
                    AttributeValue::BinaryArray(xs) => if k < xs.len() {
                        Ok(Value::Bytes(BufferWrapper(&xs[k])))
                    } else {
                        Err(DmxError::Mismatch)
                    },
                    AttributeValue::IntArray(xs) => if k < xs.len() {
                        Ok(Value::Leaf(Leaf::Int(xs[k])))
                    } else {
                        Err(DmxError::Mismatch)
                    },
                    AttributeValue::FloatArray(xs) => if k < xs.len() {
                        Ok(Value::Leaf(Leaf::Float(xs[k])))
                    } else {
                        Err(DmxError::Mismatch)
                    },
                    AttributeValue::BoolArray(xs) => if k < xs.len() {
                        Ok(Value::Leaf(Leaf::Bool(xs[k])))
                    } else {
                        Err(DmxError::Mismatch)
                    },
                    AttributeValue::TimeArray(xs) => if k < xs.len() {
                        Ok(Value::Leaf(Leaf::Time(xs[k])))
                    } else {
                        Err(DmxError::Mismatch)
                    },
                    AttributeValue::ColorArray(xs) => if k < xs.len() {
                        Ok(Value::Leaf(Leaf::Color(xs[k])))
                    } else {
                        Err(DmxError::Mismatch)
                    },
                    AttributeValue::Vector2Array(xs) => if k < xs.len() {
                        Ok(Value::Leaf(Leaf::Vector2(xs[k])))
                    } else {
                        Err(DmxError::Mismatch)
                    },
                    AttributeValue::Vector3Array(xs) => if k < xs.len() {
                        Ok(Value::Leaf(Leaf::Vector3(xs[k])))
                    } else {
                        Err(DmxError::Mismatch)
                    },
                    AttributeValue::Vector4Array(xs) => if k < xs.len() {
                        Ok(Value::Leaf(Leaf::Vector4(xs[k])))
                    } else {
                        Err(DmxError::Mismatch)
                    },
                    AttributeValue::QangleArray(xs) => if k < xs.len() {
                        Ok(Value::Leaf(Leaf::Qangle(xs[k])))
                    } else {
                        Err(DmxError::Mismatch)
                    },
                    AttributeValue::QuaternionArray(xs) => if k < xs.len() {
                        Ok(Value::Leaf(Leaf::Quaternion(xs[k])))
                    } else {
                        Err(DmxError::Mismatch)
                    },
                    AttributeValue::VmatrixArray(xs) => if k < xs.len() {
                        Ok(Value::Leaf(Leaf::Vmatrix(xs[k])))
                    } else {
                        Err(DmxError::Mismatch)
                    },
                    AttributeValue::Uint64Array(xs) => if k < xs.len() {
                        Ok(Value::Leaf(Leaf::Uint64(xs[k])))
                    } else {
                        Err(DmxError::Mismatch)
                    },
                    _ => Err(DmxError::Mismatch),
                }
            },
            Node::Element(_) => Err(DmxError::Mismatch),
        }
    }

    /// The discriminant of a node for tagged-union dispatch: an element's
    /// type name, or else the symbolic name of the node's kind.
    pub fn discriminant<'d>(&'d self, n: &Node<'d, B, S>) -> (r: Result<&'d str, DmxError>)
        ensures
            outcome(r) == discriminant(self@, n@),
    {
        match n {
            Node::Element(i) => {
                if *i < 0 {
                    Err(DmxError::Mismatch)
                } else if (*i as usize) >= self.headers.len() {
                    Err(DmxError::Reference(*i))
                } else {
                    let s = self.string_at(self.headers[*i as usize].type_)?;
                    Ok(s.as_str())
                }
            },
            Node::Attr(v) => Ok(v.kind().name()),
            Node::Item(v, _) => Ok(item_kind_of(v.kind()).name()),
        }
    }
}

impl<'a, B: View<V = Seq<u8>>, S: ReaderString<'a>> File<B, S> {
    /// The first attribute of `body` named `name`.
    fn find_attr(&self, body: &Body<B, S>, name: &str) -> (r: Option<usize>)
        ensures
            match r {
                Some(k) => find_attr(self@, body@, name@) == Some(k as int),
                None => find_attr(self@, body@, name@) is None,
            },
    {
        let ghost doc = self@;
        let ghost b = body@;
        let mut k: usize = 0;
        while k < body.attributes.len()
            invariant
                doc == self@,
                b == body@,
                b.len() == body.attributes@.len(),
                k <= b.len(),
                forall|j: int| 0 <= j < k ==> !names(doc, #[trigger] b[j].0, name@),
            decreases b.len() - k,
        {
            let r = body.attributes[k].name;
            assert(r == b[k as int].0);
            if 0 <= r.0 && (r.0 as usize) < self.strings.len() && str_eq(
                self.strings[r.0 as usize].as_str(),
                name,
            ) {
                assert(is_first_attr(doc, b, name@, k as int));
                proof {
                    let c = choose|c: int| is_first_attr(doc, b, name@, c);
                    assert(c == k);
                }
                return Some(k);
            }
            k = k + 1;
        }
        None
    }

    /// The body of element `i`, entered with `depth` levels left.
    fn enter<'d>(&'d self, i: i32, depth: usize) -> (r: Result<&'d Body<B, S>, DmxError>)
        requires
            i >= 0,
        ensures
            i >= self@.bodies.len() ==> r is Err && r->Err_0@ == ErrorModel::Reference(i),
            i < self@.bodies.len() && depth == 0 ==> r is Err && r->Err_0@ == ErrorModel::DepthLimit,
            i < self@.bodies.len() && depth > 0 ==> r is Ok && r->Ok_0@ == self@.bodies[i as int],
    {
        if (i as usize) >= self.bodies.len() {
            Err(DmxError::Reference(i))
        } else if depth == 0 {
            Err(DmxError::DepthLimit)
        } else {
            Ok(&self.bodies[i as usize])
        }
    }

    /// Materializes node `n` as shape `shape`, following element references
    /// at most `depth` deep.
    pub fn materialize_node<'d>(&'d self, n: &Node<'d, B, S>, shape: &Shape, depth: usize) -> (r:
        Result<Value<'d, B, S>, DmxError>)
        ensures
            outcome(r) == materialize(self@, n@, shape@, depth as nat),
        decreases depth, shape, node_rank(n@), 0nat,
    {
        match shape {
            Shape::Any => match n {
                Node::Element(i) => {
                    if *i < 0 {
                        return Ok(Value::Absent);
                    }
                    let body = self.enter(*i, depth)?;
                    let xs = self.materialize_attrs(body, shape, depth - 1)?;
                    let r = Value::Mapping(xs);
                    assert(r@->Mapping_0 =~= named_vals(xs@));
                    Ok(r)
                },
                Node::Attr(v) => match items_of(*v) {
                    Some(_) => {
                        let xs = self.materialize_items(*v, shape, depth)?;
                        let r = Value::Sequence(xs);
                        assert(r@->Sequence_0 =~= vals(xs@));
                        Ok(r)
                    },
                    None => self.plain(n),
                },
                Node::Item(_, _) => self.plain(n),
            },
            Shape::Kind(k) => {
                let kind = match n {
                    Node::Element(_) => AttributeType::Element,
                    Node::Attr(v) => v.kind(),
                    Node::Item(v, _) => item_kind_of(v.kind()),
                };
                let leaf = match k {
                    AttributeType::Element => false,
                    AttributeType::ElementArray => false,
                    AttributeType::IntArray => false,
                    AttributeType::FloatArray => false,
                    AttributeType::BoolArray => false,
                    AttributeType::StringArray => false,
                    AttributeType::BinaryArray => false,
                    AttributeType::TimeArray => false,
                    AttributeType::ColorArray => false,
                    AttributeType::Vector2Array => false,
                    AttributeType::Vector3Array => false,
                    AttributeType::Vector4Array => false,
                    AttributeType::QangleArray => false,
                    AttributeType::QuaternionArray => false,
                    AttributeType::VmatrixArray => false,
                    AttributeType::Uint64Array => false,
                    _ => true,
                };
                if kind == *k && leaf {
                    self.plain(n)
                } else {
                    Err(DmxError::Mismatch)
                }
            },
            Shape::Sequence(inner) => match n {
                Node::Attr(v) => match items_of(*v) {
                    Some(_) => {
                        let xs = self.materialize_items(*v, inner, depth)?;
                        let r = Value::Sequence(xs);
                        assert(r@->Sequence_0 =~= vals(xs@));
                        Ok(r)
                    },
                    None => Err(DmxError::Mismatch),
                },
                _ => Err(DmxError::Mismatch),
            },
            Shape::Mapping(inner) => match n {
                Node::Element(i) => {
                    if *i < 0 {
                        return Err(DmxError::Mismatch);
                    }
                    let body = self.enter(*i, depth)?;
                    let xs = self.materialize_attrs(body, inner, depth - 1)?;
                    let r = Value::Mapping(xs);
                    assert(r@->Mapping_0 =~= named_vals(xs@));
                    Ok(r)
                },
                _ => Err(DmxError::Mismatch),
            },
            Shape::Record(_) => match n {
                Node::Element(i) => {
                    if *i < 0 {
                        return Err(DmxError::Mismatch);
                    }
                    let body = self.enter(*i, depth)?;
                    let xs = self.materialize_fields(body, shape, depth - 1)?;
                    let r = Value::Record(xs);
                    assert(r@->Record_0 =~= vals(xs@));
                    Ok(r)
                },
                _ => Err(DmxError::Mismatch),
            },
            Shape::Optional(inner) => match n {
                Node::Element(i) if *i < 0 => Ok(Value::Absent),
                Node::Attr(AttributeValue::String(r)) if r.0 < 0 => Ok(Value::Absent),
                _ => self.materialize_node(n, inner, depth),
            },
            Shape::Union(vs) => {
                let d = self.discriminant(n)?;
                let ghost vm = shape@->Union_0;
                assert(forall|i: int| 0 <= i < vs@.len() ==> vm[i] == (vs@[i].0@, vs@[i].1@));
                let mut j: usize = 0;
                while j < vs.len()
                    invariant
                        *shape == Shape::Union(*vs),
                        discriminant(self@, n@) == Ok::<Seq<char>, ErrorModel>(d@),
                        vm == shape@->Union_0,
                        vm.len() == vs@.len(),
                        forall|i: int| 0 <= i < vs@.len() ==> vm[i] == (vs@[i].0@, vs@[i].1@),
                        j <= vs@.len(),
                        forall|i: int| 0 <= i < j ==> #[trigger] vm[i].0 != d@,
                    decreases vs@.len() - j,
                {
                    assert(vm[j as int].0 == vs@[j as int].0@);
                    if str_eq(vs[j].0.as_str(), d) {
                        assert(is_first_variant(vm, d@, j as int));
                        proof {
                            let c = choose|c: int| is_first_variant(vm, d@, c);
                            assert(c == j);
                        }
                        proof {
                            assert(decreases_to!(*vs => vs[j as int]));
                            assert(decreases_to!(*shape => vs[j as int].1));
                        }
                        let x = self.materialize_node(n, &vs[j].1, depth)?;
                        return Ok(Value::Variant(j, Box::new(x)));
                    }
                    j = j + 1;
                }
                Err(DmxError::UnknownVariant(d.to_owned()))
            },
        }
    }

    /// Every item of array value `v`, each materialized as `shape`.
    fn materialize_items<'d>(
        &'d self,
        v: &'d AttributeValue<B, S, StringRef>,
        shape: &Shape,
        depth: usize,
    ) -> (r: Result<Vec<Value<'d, B, S>>, DmxError>)
        requires
            item_count(v@) is Some,
        ensures
            outcome_seq(r) == materialize_items(
                self@,
                v@,
                shape@,
                depth as nat,
                item_count(v@)->Some_0,
            ),
        decreases depth, shape, 1nat, 0nat,
    {
        let count = match items_of(v) {
            Some(c) => c,
            None => 0,
        };
        let mut out: Vec<Value<'d, B, S>> = Vec::new();
        let mut k: usize = 0;
        assert(vals(out@) =~= seq![]);
        while k < count
            invariant
                item_count(v@) == Some(count as nat),
                k <= count,
                materialize_items(self@, v@, shape@, depth as nat, k as nat) == Ok::<
                    Seq<Materialized>,
                    ErrorModel,
                >(vals(out@)),
            decreases count - k,
        {
            let node = item_node_of(v, k);
            match self.materialize_node(&node, shape, depth) {
                Ok(x) => {
                    let ghost prev = out@;
                    out.push(x);
                    assert(vals(out@) =~= vals(prev).push(x@));
                },
                Err(e) => {
                    proof {
                        lemma_items_error(self@, v@, shape@, depth as nat, (k + 1) as nat, count as nat);
                    }
                    return Err(e);
                },
            }
            k = k + 1;
        }
        Ok(out)
    }

    /// Every attribute of `body`, with its name, materialized as `shape`.
    fn materialize_attrs<'d>(&'d self, body: &'d Body<B, S>, shape: &Shape, depth: usize) -> (r:
        Result<Vec<(StringWrapper<'d, S>, Value<'d, B, S>)>, DmxError>)
        ensures
            outcome_named(r) == materialize_attrs(self@, body@, shape@, depth as nat, body@.len()),
        decreases depth, shape, 3nat, 0nat,
    {
        let ghost b = body@;
        let mut out: Vec<(StringWrapper<'d, S>, Value<'d, B, S>)> = Vec::new();
        let mut k: usize = 0;
        assert(named_vals(out@) =~= seq![]);
        while k < body.attributes.len()
            invariant
                b == body@,
                b.len() == body.attributes@.len(),
                k <= b.len(),
                materialize_attrs(self@, b, shape@, depth as nat, k as nat) == Ok::<
                    Seq<(Seq<char>, Materialized)>,
                    ErrorModel,
                >(named_vals(out@)),
            decreases b.len() - k,
        {
            let attr = &body.attributes[k];
            assert(attr@ == b[k as int]);
            let name = match self.string_at(attr.name) {
                Ok(name) => name,
                Err(e) => {
                    proof {
                        lemma_attrs_error(self@, b, shape@, depth as nat, (k + 1) as nat, b.len());
                    }
                    return Err(e);
                },
            };
            let node = node_of_value(&attr.value);
            match self.materialize_node(&node, shape, depth) {
                Ok(x) => {
                    let ghost prev = out@;
                    out.push((StringWrapper(name), x));
                    assert(named_vals(out@) =~= named_vals(prev).push((name@, x@)));
                },
                Err(e) => {
                    proof {
                        lemma_attrs_error(self@, b, shape@, depth as nat, (k + 1) as nat, b.len());
                    }
                    return Err(
                        DmxError::Attribute(AttributeName::Resolved(name.to_owned_string()), Box::new(e)),
                    );
                },
            }
            k = k + 1;
        }
        Ok(out)
    }

    /// Every field of record shape `rec` over `body`.
    fn materialize_fields<'d>(&'d self, body: &'d Body<B, S>, rec: &Shape, depth: usize) -> (r:
        Result<Vec<Value<'d, B, S>>, DmxError>)
        requires
            rec is Record,
        ensures
            outcome_seq(r) == materialize_fields(
                self@,
                body@,
                rec@,
                depth as nat,
                rec@->Record_0.len(),
            ),
        decreases depth, rec, 3nat, 0nat,
    {
        let fs = match rec {
            Shape::Record(fs) => fs,
            _ => {
                return Ok(Vec::new());
            },
        };
        let ghost fm = rec@->Record_0;
        let ghost b = body@;
        assert(forall|i: int| 0 <= i < fs@.len() ==> fm[i] == (fs@[i].0@, fs@[i].1@));
        let mut out: Vec<Value<'d, B, S>> = Vec::new();
        let mut k: usize = 0;
        assert(vals(out@) =~= seq![]);
        while k < fs.len()
            invariant
                *rec == Shape::Record(*fs),
                b == body@,
                fm == rec@->Record_0,
                fm.len() == fs@.len(),
                forall|i: int| 0 <= i < fs@.len() ==> fm[i] == (fs@[i].0@, fs@[i].1@),
                rec@ is Record,
                k <= fs@.len(),
                materialize_fields(self@, b, rec@, depth as nat, k as nat) == Ok::<
                    Seq<Materialized>,
                    ErrorModel,
                >(vals(out@)),
            decreases fs@.len() - k,
        {
            let (name, fshape) = (&fs[k].0, &fs[k].1);
            assert(fm[k as int].0 == name@ && fm[k as int].1 == fshape@);
            match self.find_attr(body, name.as_str()) {
                Some(j) => {
                    let node = node_of_value(&body.attributes[j].value);
                    assert(body.attributes@[j as int]@ == b[j as int]);
                    proof {
                        assert(decreases_to!(*fs => fs[k as int]));
                        assert(decreases_to!(*rec => fs[k as int].1));
                    }
                    match self.materialize_node(&node, fshape, depth) {
                        Ok(x) => {
                            let ghost prev = out@;
                            out.push(x);
                            assert(vals(out@) =~= vals(prev).push(x@));
                        },
                        Err(e) => {
                            proof {
                                lemma_fields_error(self@, b, rec@, depth as nat, (k + 1) as nat, fm.len());
                            }
                            return Err(
                                DmxError::Attribute(AttributeName::Resolved(name.clone()), Box::new(e)),
                            );
                        },
                    }
                },
                None => {
                    if let Shape::Optional(_) = fshape {
                        let ghost prev = out@;
                        out.push(Value::Absent);
                        assert(vals(out@) =~= vals(prev).push(Materialized::Absent));
                    } else {
                        proof {
                            lemma_fields_error(self@, b, rec@, depth as nat, (k + 1) as nat, fm.len());
                        }
                        return Err(DmxError::MissingField(name.clone()));
                    }
                },
            }
            k = k + 1;
        }
        Ok(out)
    }
}

/// The model of an outcome that is a sequence of values.
pub open spec fn outcome_seq<'d, B: View<V = Seq<u8>>, S: View<V = Seq<char>>>(
    r: Result<Vec<Value<'d, B, S>>, DmxError>,
) -> Result<Seq<Materialized>, ErrorModel> {
    match r {
        Ok(xs) => Ok(vals(xs@)),
        Err(e) => Err(e@),
    }
}

/// The model of an outcome that is a sequence of named values.
pub open spec fn outcome_named<'d, B: View<V = Seq<u8>>, S: View<V = Seq<char>>>(
    r: Result<Vec<(StringWrapper<'d, S>, Value<'d, B, S>)>, DmxError>,
) -> Result<Seq<(Seq<char>, Materialized)>, ErrorModel> {
    match r {
        Ok(xs) => Ok(named_vals(xs@)),
        Err(e) => Err(e@),
    }
}

pub proof fn lemma_attrs_names(
    doc: FileModel,
    body: Seq<(StringRef, ValueModel<StringRef>)>,
    s: ShapeModel,
    depth: nat,
    count: nat,
)
    requires
        materialize_attrs(doc, body, s, depth, count) is Ok,
    ensures
        ({
            let xs = materialize_attrs(doc, body, s, depth, count)->Ok_0;
            xs.len() == count && forall|k: int|
                0 <= k < count ==> string_at(doc, body[k].0) == Ok::<Seq<char>, ErrorModel>(
                    #[trigger] xs[k].0,
                )
        }),
    decreases count,
{
    if count > 0 {
        lemma_attrs_names(doc, body, s, depth, (count - 1) as nat);
    }
}

/// Materializing an element as a mapping keeps the body's declaration
/// order: entry `k` is named by attribute `k`, for every attribute.
pub proof fn mapping_keeps_order(doc: FileModel, i: i32, inner: ShapeModel, depth: nat)
    requires
        materialize(doc, NodeModel::Element(i), ShapeModel::Mapping(Box::new(inner)), depth) is Ok,
    ensures
        ({
            let m = materialize(
                doc,
                NodeModel::Element(i),
                ShapeModel::Mapping(Box::new(inner)),
                depth,
            )->Ok_0;
            let body = doc.bodies[i as int];
            &&& m is Mapping
            &&& m->Mapping_0.len() == body.len()
            &&& forall|k: int|
                0 <= k < body.len() ==> string_at(doc, body[k].0) == Ok::<Seq<char>, ErrorModel>(
                    #[trigger] m->Mapping_0[k].0,
                )
        }),
{
    let body = doc.bodies[i as int];
    lemma_attrs_names(doc, body, inner, (depth - 1) as nat, body.len());
}

/// An element index outside the document yields a reference error wherever
/// the element would be walked (as any value, a mapping, a record or a
/// tagged union), never a crash.
pub proof fn out_of_range_element(doc: FileModel, i: i32, s: ShapeModel, depth: nat)
    requires
        i >= doc.bodies.len(),
        i >= doc.headers.len(),
        s is Any || s is Mapping || s is Record || s is Union,
    ensures
        materialize(doc, NodeModel::Element(i), s, depth) == Err::<Materialized, ErrorModel>(
            ErrorModel::Reference(i),
        ),
{
}

/// Under an optional request a negative string reference is absent, and a
/// reference into the table yields the string it names.
pub proof fn optional_string(doc: FileModel, r: StringRef, depth: nat)
    ensures
        r.0 < 0 ==> materialize(
            doc,
            NodeModel::Attr(ValueModel::String(r)),
            ShapeModel::Optional(Box::new(ShapeModel::Any)),
            depth,
        ) == Ok::<Materialized, ErrorModel>(Materialized::Absent),
        0 <= r.0 < doc.strings.len() ==> materialize(
            doc,
            NodeModel::Attr(ValueModel::String(r)),
            ShapeModel::Optional(Box::new(ShapeModel::Any)),
            depth,
        ) == Ok::<Materialized, ErrorModel>(Materialized::Str(doc.strings[r.0 as int])),
{
    let n = NodeModel::Attr(ValueModel::String(r));
    assert(materialize(doc, n, ShapeModel::Any, depth) == plain(doc, n));
}

pub proof fn lemma_items_count(
    doc: FileModel,
    v: ValueModel<StringRef>,
    s: ShapeModel,
    depth: nat,
    count: nat,
)
    requires
        materialize_items(doc, v, s, depth, count) is Ok,
    ensures
        materialize_items(doc, v, s, depth, count)->Ok_0.len() == count,
    decreases count,
{
    if count > 0 {
        lemma_items_count(doc, v, s, depth, (count - 1) as nat);
    }
}

/// An array value materializes as a sequence with exactly as many entries
/// as the array stores, whatever the item shape.
pub proof fn sequence_keeps_count(
    doc: FileModel,
    v: ValueModel<StringRef>,
    inner: ShapeModel,
    depth: nat,
)
    requires
        item_count(v) is Some,
        materialize(doc, NodeModel::Attr(v), ShapeModel::Sequence(Box::new(inner)), depth) is Ok,
    ensures
        ({
            let m = materialize(
                doc,
                NodeModel::Attr(v),
                ShapeModel::Sequence(Box::new(inner)),
                depth,
            )->Ok_0;
            m is Sequence && m->Sequence_0.len() == item_count(v)->Some_0
        }),
{
    lemma_items_count(doc, v, inner, depth, item_count(v)->Some_0);
}

} // verus!
