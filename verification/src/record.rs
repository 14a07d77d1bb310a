//! Operation records and their mathematical model.

use vstd::prelude::*;

verus! {

/// One logged storage operation.
///
/// `op` is the operation-type tag (GET, PUT, LIST, ...), `bytes` the payload
/// size (0 for metadata operations), `duration_ns` the latency, and
/// `start_ns`/`end_ns` the absolute time window of the operation in
/// nanoseconds since the epoch. The thread, client and endpoint identifiers
/// are optional auxiliary dimensions. Records are never mutated by the
/// engine.
pub struct OperationRecord {
    pub op: String,
    pub bytes: u64,
    pub duration_ns: u64,
    pub start_ns: u64,
    pub end_ns: u64,
    pub thread_id: Option<u64>,
    pub client_id: Option<String>,
    pub endpoint: Option<String>,
}

/// The mathematical content of a record: the same fields with text fields
/// abstracted to character sequences. All contracts of the engine speak of
/// sequences of these models.
pub struct RecordModel {
    pub op: Seq<char>,
    pub bytes: u64,
    pub duration_ns: u64,
    pub start_ns: u64,
    pub end_ns: u64,
    pub thread_id: Option<u64>,
    pub client_id: Option<Seq<char>>,
    pub endpoint: Option<Seq<char>>,
}

impl View for OperationRecord {
    type V = RecordModel;

    open spec fn view(&self) -> RecordModel {
        RecordModel {
            op: self.op@,
            bytes: self.bytes,
            duration_ns: self.duration_ns,
            start_ns: self.start_ns,
            end_ns: self.end_ns,
            thread_id: self.thread_id,
            client_id: self.client_id.deep_view(),
            endpoint: self.endpoint.deep_view(),
        }
    }
}

impl DeepView for OperationRecord {
    type V = RecordModel;

    open spec fn deep_view(&self) -> RecordModel {
        self.view()
    }
}

fn clone_opt_string(s: &Option<String>) -> (r: Option<String>)
    ensures
        r.deep_view() == s.deep_view(),
{
    match s {
        Some(x) => Some(x.clone()),
        None => None,
    }
}

impl Clone for OperationRecord {
    fn clone(&self) -> (r: Self)
        ensures
            r@ == self@,
    {
        OperationRecord {
            op: self.op.clone(),
            bytes: self.bytes,
            duration_ns: self.duration_ns,
            start_ns: self.start_ns,
            end_ns: self.end_ns,
            thread_id: self.thread_id,
            client_id: clone_opt_string(&self.client_id),
            endpoint: clone_opt_string(&self.endpoint),
        }
    }
}

/// A named operation category: META groups the metadata operation types
/// LIST, HEAD, DELETE and STAT; GET and PUT stand alone; everything else is
/// Other.
#[derive(Clone, Copy, Debug, PartialEq, Eq, Structural)]
pub enum OpCategory {
    Meta,
    Get,
    Put,
    Other,
}

/// The category that an operation tag belongs to.
pub open spec fn category_of_op(op: Seq<char>) -> OpCategory {
    if op == "GET"@ {
        OpCategory::Get
    } else if op == "PUT"@ {
        OpCategory::Put
    } else if op == "LIST"@ || op == "HEAD"@ || op == "DELETE"@ || op == "STAT"@ {
        OpCategory::Meta
    } else {
        OpCategory::Other
    }
}

/// Classify an operation tag into its category.
pub fn categorize(op: &str) -> (c: OpCategory)
    ensures
        c == category_of_op(op@),
{
    if crate::lexorder::str_eq(op, "GET") {
        OpCategory::Get
    } else if crate::lexorder::str_eq(op, "PUT") {
        OpCategory::Put
    } else if crate::lexorder::str_eq(op, "LIST") || crate::lexorder::str_eq(op, "HEAD")
        || crate::lexorder::str_eq(op, "DELETE") || crate::lexorder::str_eq(op, "STAT") {
        OpCategory::Meta
    } else {
        OpCategory::Other
    }
}

} // verus!
