//! The calls that the bridge asks of the engine, and what the engine answers.
//!
//! The bridge never calls the engine itself. It names the next call as a
//! [`Request`]; whoever drives it makes the call and hands the outcome back as
//! a [`Reply`]. Handles are the addresses that the engine gave out.
use vstd::prelude::*;

verus! {

/// One call into the engine.
#[derive(Debug, PartialEq, Eq)]
pub enum Request {
    /// Make the value that holds nothing.
    MakeEmpty,
    /// Make a value that refers to the tensor with this handle.
    MakeTensor(usize),
    /// Make a floating-point value from its bit pattern.
    MakeDouble(u64),
    /// Make an integer value.
    MakeInt(i64),
    /// Make a boolean value from 0 or 1.
    MakeBool(i32),
    /// Make a string value from a C string.
    MakeString(Vec<u8>),
    /// Make a tuple of the values with these handles, in this order.
    MakeTuple(Vec<usize>),
    /// Read the tag of a value.
    Tag(usize),
    /// Read a value as a tensor.
    ToTensor(usize),
    /// Read a value as a floating-point number.
    ToDouble(usize),
    /// Read a value as an integer.
    ToInt(usize),
    /// Read a value as a boolean.
    ToBool(usize),
    /// Read the number of elements of a tuple.
    TupleLength(usize),
    /// Read that many elements of a tuple, each as a value of its own.
    ToTuple(usize, usize),
    /// Read a value as a string.
    ToString(usize),
    /// Release a value.
    Free(usize),
    /// Release a tensor.
    FreeTensor(usize),
    /// Load the module stored under the path given as a C string.
    Load(Vec<u8>),
    /// Run a module on the tensors with these handles.
    Forward(usize, Vec<usize>),
    /// Run a module on the values with these handles.
    ForwardValues(usize, Vec<usize>),
    /// Release a module.
    FreeModule(usize),
}

/// A [`Request`] with sequences in place of vectors.
pub enum RequestView {
    MakeEmpty,
    MakeTensor(usize),
    MakeDouble(u64),
    MakeInt(i64),
    MakeBool(i32),
    MakeString(Seq<u8>),
    MakeTuple(Seq<usize>),
    Tag(usize),
    ToTensor(usize),
    ToDouble(usize),
    ToInt(usize),
    ToBool(usize),
    TupleLength(usize),
    ToTuple(usize, usize),
    ToString(usize),
    Free(usize),
    FreeTensor(usize),
    Load(Seq<u8>),
    Forward(usize, Seq<usize>),
    ForwardValues(usize, Seq<usize>),
    FreeModule(usize),
}

impl View for Request {
    type V = RequestView;

    open spec fn view(&self) -> RequestView {
        match self {
            Request::MakeEmpty => RequestView::MakeEmpty,
            Request::MakeTensor(t) => RequestView::MakeTensor(*t),
            Request::MakeDouble(bits) => RequestView::MakeDouble(*bits),
            Request::MakeInt(i) => RequestView::MakeInt(*i),
            Request::MakeBool(code) => RequestView::MakeBool(*code),
            Request::MakeString(c) => RequestView::MakeString(c@),
            Request::MakeTuple(items) => RequestView::MakeTuple(items@),
            Request::Tag(h) => RequestView::Tag(*h),
            Request::ToTensor(h) => RequestView::ToTensor(*h),
            Request::ToDouble(h) => RequestView::ToDouble(*h),
            Request::ToInt(h) => RequestView::ToInt(*h),
            Request::ToBool(h) => RequestView::ToBool(*h),
            Request::TupleLength(h) => RequestView::TupleLength(*h),
            Request::ToTuple(h, n) => RequestView::ToTuple(*h, *n),
            Request::ToString(h) => RequestView::ToString(*h),
            Request::Free(h) => RequestView::Free(*h),
            Request::FreeTensor(t) => RequestView::FreeTensor(*t),
            Request::Load(path) => RequestView::Load(path@),
            Request::Forward(m, args) => RequestView::Forward(*m, args@),
            Request::ForwardValues(m, args) => RequestView::ForwardValues(*m, args@),
            Request::FreeModule(m) => RequestView::FreeModule(*m),
        }
    }
}

/// What came of one call.
#[derive(Debug, PartialEq, Eq)]
pub enum Reply {
    /// The call raised an error, with the engine's message.
    Failed(String),
    /// A release was carried out.
    Done,
    /// The handle of a new value.
    Value(usize),
    /// The handle of a new tensor.
    Tensor(usize),
    /// The handle of a new module.
    Module(usize),
    /// The tag of a value.
    Tag(i32),
    /// The bit pattern of a floating-point number.
    Double(u64),
    /// An integer.
    Int(i64),
    /// A boolean as the engine reports it: 0, 1, or a negative number.
    Bool(i32),
    /// The number of elements of a tuple.
    Length(usize),
    /// The handles of the elements of a tuple, in order.
    Values(Vec<usize>),
    /// The bytes of a string, without the closing NUL.
    Bytes(Vec<u8>),
}

/// A [`Reply`] with sequences in place of vectors.
pub enum ReplyView {
    Failed(String),
    Done,
    Value(usize),
    Tensor(usize),
    Module(usize),
    Tag(i32),
    Double(u64),
    Int(i64),
    Bool(i32),
    Length(usize),
    Values(Seq<usize>),
    Bytes(Seq<u8>),
}

impl View for Reply {
    type V = ReplyView;

    open spec fn view(&self) -> ReplyView {
        match self {
            Reply::Failed(message) => ReplyView::Failed(*message),
            Reply::Done => ReplyView::Done,
            Reply::Value(h) => ReplyView::Value(*h),
            Reply::Tensor(t) => ReplyView::Tensor(*t),
            Reply::Module(m) => ReplyView::Module(*m),
            Reply::Tag(tag) => ReplyView::Tag(*tag),
            Reply::Double(bits) => ReplyView::Double(*bits),
            Reply::Int(i) => ReplyView::Int(*i),
            Reply::Bool(code) => ReplyView::Bool(*code),
            Reply::Length(n) => ReplyView::Length(*n),
            Reply::Values(items) => ReplyView::Values(items@),
            Reply::Bytes(bytes) => ReplyView::Bytes(bytes@),
        }
    }
}

/// The view of a request that may be there.
pub open spec fn request_view(req: Option<Request>) -> Option<RequestView> {
    match req {
        Some(r) => Some(r@),
        None => None,
    }
}

} // verus!
