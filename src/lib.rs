//! Decoder for the binary DMX element-graph format and a shape-driven
//! materialization engine over the decoded document.
//!
//! A document is decoded in one of two ownership modes: borrowed, where
//! strings and byte payloads are views into the caller's buffer, or owned,
//! where they are fresh copies. Both modes run the same decoder and yield
//! the same model.
pub mod dmx;
pub mod error;
pub mod materialize;
pub mod read;
pub mod text;

use crate::dmx::{lemma_file_same, parse_file, File};
use crate::error::DmxError;
use crate::materialize::{materialize, Node, NodeModel, Shape, Value};
use crate::read::{Borrowed, Owned, Reader, Slice};
use vstd::prelude::*;

verus! {

/// How deep [`from_file`] follows element references.
pub const MAX_DEPTH: usize = 256;

/// Decodes a document from an in-memory buffer in ownership mode `R`.
pub fn decode<'a, R: Reader<'a>>(bytes: &'a [u8]) -> (r: Result<File<R::Buffer, R::String>, DmxError>)
    ensures
        match parse_file::<R::Buffer, R::String>(bytes@) {
            Ok(m) => r is Ok && r->Ok_0@ == m && r->Ok_0.wf(),
            Err(e) => r is Err && r->Err_0@ == e,
        },
{
    File::read(&mut Slice(bytes))
}

/// Decodes a document from an in-memory buffer; its strings and byte
/// payloads borrow from `bytes`.
pub fn from_slice<'a>(bytes: &'a [u8]) -> (r: Result<File<&'a [u8], &'a str>, DmxError>)
    ensures
        match parse_file::<&'a [u8], &'a str>(bytes@) {
            Ok(m) => r is Ok && r->Ok_0@ == m && r->Ok_0.wf(),
            Err(e) => r is Err && r->Err_0@ == e,
        },
{
    decode::<Borrowed>(bytes)
}

/// Decodes a document from an in-memory buffer into owned copies.
pub fn from_slice_owned<'a>(bytes: &'a [u8]) -> (r: Result<File<Vec<u8>, String>, DmxError>)
    ensures
        match parse_file::<Vec<u8>, String>(bytes@) {
            Ok(m) => r is Ok && r->Ok_0@ == m && r->Ok_0.wf(),
            Err(e) => r is Err && r->Err_0@ == e,
        },
{
    decode::<Owned>(bytes)
}

/// Materializes the document's root element (index 0) as `shape`.
pub fn from_file<'a, 'd, B: View<V = Seq<u8>>, S: crate::read::ReaderString<'a>>(
    file: &'d File<B, S>,
    shape: &Shape,
) -> (r: Result<Value<'d, B, S>, DmxError>)
    ensures
        crate::materialize::outcome(r) == materialize(
            file@,
            NodeModel::Element(0),
            shape@,
            MAX_DEPTH as nat,
        ),
{
    file.materialize_node(&Node::Element(0), shape, MAX_DEPTH)
}

/// The borrowed and the owned mode decode the same bytes to the same
/// document model, or fail with the same error; so anything materialized
/// from the two documents is the same too.
pub proof fn modes_agree<'a>(bytes: Seq<u8>)
    ensures
        parse_file::<&'a [u8], &'a str>(bytes) == parse_file::<Vec<u8>, String>(bytes),
{
    lemma_file_same(bytes);
}

} // verus!
