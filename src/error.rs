//! Errors raised while decoding or materializing a document.
use vstd::prelude::*;

verus! {

/// How a failing attribute is named in an error.
#[derive(Debug, PartialEq)]
pub enum AttributeName {
    /// The name as found in the string table or inline in the file.
    Resolved(String),
    /// The raw string-table index, when it does not resolve.
    Raw(i32),
}

/// Errors raised while decoding or materializing a document.
#[derive(Debug, PartialEq)]
pub enum DmxError {
    /// Fewer bytes remain than a read asked for, or a delimiter is missing.
    Io,
    /// A string is not valid UTF-8; carries the offending bytes.
    Encoding(Vec<u8>),
    /// The header line does not follow the fixed grammar.
    Header,
    /// The header names an encoding other than binary version 9.
    Profile,
    /// An attribute type tag outside the supported set.
    UnsupportedType(u8),
    /// A failure inside one attribute, with the attribute's name.
    Attribute(AttributeName, Box<DmxError>),
    /// An element index outside the document.
    Reference(i32),
    /// The value's kind does not fit the requested shape.
    Mismatch,
    /// A record field whose attribute is absent from the element.
    MissingField(String),
    /// A tagged-union discriminant that names no variant of the request.
    UnknownVariant(String),
    /// Element references nest deeper than the materialization budget.
    DepthLimit,
}

/// The mathematical model of an [`AttributeName`].
pub enum NameModel {
    Resolved(Seq<char>),
    Raw(i32),
}

/// The mathematical model of a [`DmxError`].
pub enum ErrorModel {
    Io,
    Encoding(Seq<u8>),
    Header,
    Profile,
    UnsupportedType(u8),
    Attribute(NameModel, Box<ErrorModel>),
    Reference(i32),
    Mismatch,
    MissingField(Seq<char>),
    UnknownVariant(Seq<char>),
    DepthLimit,
}

impl View for AttributeName {
    type V = NameModel;

    open spec fn view(&self) -> NameModel {
        match self {
            AttributeName::Resolved(s) => NameModel::Resolved(s@),
            AttributeName::Raw(i) => NameModel::Raw(*i),
        }
    }
}

impl View for DmxError {
    type V = ErrorModel;

    open spec fn view(&self) -> ErrorModel
        decreases self,
    {
        match self {
            DmxError::Io => ErrorModel::Io,
            DmxError::Encoding(b) => ErrorModel::Encoding(b@),
            DmxError::Header => ErrorModel::Header,
            DmxError::Profile => ErrorModel::Profile,
            DmxError::UnsupportedType(t) => ErrorModel::UnsupportedType(*t),
            DmxError::Attribute(n, e) => ErrorModel::Attribute(n@, Box::new((**e).view())),
            DmxError::Reference(i) => ErrorModel::Reference(*i),
            DmxError::Mismatch => ErrorModel::Mismatch,
            DmxError::MissingField(s) => ErrorModel::MissingField(s@),
            DmxError::UnknownVariant(s) => ErrorModel::UnknownVariant(s@),
            DmxError::DepthLimit => ErrorModel::DepthLimit,
        }
    }
}

} // verus!
