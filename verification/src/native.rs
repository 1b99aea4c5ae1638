//! What the engine holds behind a value handle, as a mathematical term.
use vstd::prelude::*;
use vstd::utf8::*;
use crate::error::ConversionError;
use crate::value::{IValue, Value};

verus! {

/// The content of a native value.
pub enum Native {
    Empty,
    /// A reference to the tensor behind this handle.
    Tensor(usize),
    Double(u64),
    Int(i64),
    Bool(bool),
    Tuple(Seq<Native>),
    /// A string, as its bytes.
    Text(Seq<u8>),
    /// A value of a kind that has this tag and no variant here.
    Other(i32),
}

/// The tag under which the engine reports a native value.
pub open spec fn tag_of(n: Native) -> i32 {
    match n {
        Native::Empty => 0,
        Native::Tensor(_) => 1,
        Native::Double(_) => 2,
        Native::Int(_) => 3,
        Native::Bool(_) => 4,
        Native::Tuple(_) => 5,
        Native::Text(_) => 9,
        Native::Other(tag) => tag,
    }
}

/// The integer that stands for a boolean at the boundary.
pub open spec fn bool_code(b: bool) -> i32 {
    if b {
        1
    } else {
        0
    }
}

/// The native value that a tagged value asks the engine to build.
pub open spec fn native_of(v: Value) -> Native
    decreases v,
{
    match v {
        Value::Empty => Native::Empty,
        Value::Tensor(t) => Native::Tensor(t),
        Value::Double(bits) => Native::Double(bits),
        Value::Int(i) => Native::Int(i),
        Value::Bool(b) => Native::Bool(b),
        Value::Tuple(items) => Native::Tuple(
            Seq::new(
                items.len(),
                |i: int|
                    if 0 <= i < items.len() {
                        native_of(items[i])
                    } else {
                        Native::Empty
                    },
            ),
        ),
        Value::Text(chars) => Native::Text(encode_utf8(chars)),
    }
}

/// The native values of a sequence of tagged values.
pub open spec fn natives_of(items: Seq<Value>) -> Seq<Native> {
    Seq::new(items.len(), |i: int| native_of(items[i]))
}

/// True of the tags that stand for a variant of a tagged value.
pub open spec fn recognized(tag: i32) -> bool {
    tag == 0 || tag == 1 || tag == 2 || tag == 3 || tag == 4 || tag == 5 || tag == 9
}

/// What reading `n` gives: the tagged value that it stands for, or the error
/// of the first part of it, in order, that stands for none. A tensor is read
/// under a handle of its own, which this does not say.
pub open spec fn decode(n: Native) -> Result<Value, ConversionError>
    decreases n,
{
    match n {
        Native::Empty => Ok(Value::Empty),
        Native::Tensor(t) => Ok(Value::Tensor(t)),
        Native::Double(bits) => Ok(Value::Double(bits)),
        Native::Int(i) => Ok(Value::Int(i)),
        Native::Bool(b) => Ok(Value::Bool(b)),
        Native::Text(bytes) => if valid_utf8(bytes) {
            Ok(Value::Text(decode_utf8(bytes)))
        } else {
            Err(ConversionError::UndecodableStringBytes)
        },
        Native::Other(tag) => Err(ConversionError::UnrecognizedTag(tag)),
        Native::Tuple(items) => match decode_all(items, items.len()) {
            Ok(values) => Ok(Value::Tuple(values)),
            Err(e) => Err(e),
        },
    }
}

/// What reading the first `n` of `items` gives: their tagged values in
/// order, or the first error.
pub open spec fn decode_all(items: Seq<Native>, n: nat) -> Result<Seq<Value>, ConversionError>
    decreases items, n,
{
    if n == 0 || n > items.len() {
        Ok(Seq::empty())
    } else {
        match decode_all(items, (n - 1) as nat) {
            Err(e) => Err(e),
            Ok(values) => match decode(items[n - 1]) {
                Ok(v) => Ok(values.push(v)),
                Err(e) => Err(e),
            },
        }
    }
}

/// True of the native values that [`decode`] speaks for in full: no tensor
/// is in them, a tag without a variant is not the tag of one, and a tuple
/// has a length that the engine can report.
pub open spec fn plain(n: Native) -> bool
    decreases n,
{
    match n {
        Native::Tensor(_) => false,
        Native::Other(tag) => !recognized(tag),
        Native::Tuple(items) => items.len() <= usize::MAX && forall|i: int|
            0 <= i < items.len() ==> plain(#[trigger] items[i]),
        _ => true,
    }
}

/// True of the tagged values that hold no tensor.
pub open spec fn tensor_free(v: Value) -> bool
    decreases v,
{
    match v {
        Value::Tensor(_) => false,
        Value::Tuple(items) => forall|i: int|
            0 <= i < items.len() ==> tensor_free(#[trigger] items[i]),
        _ => true,
    }
}

/// True of the tagged values whose tuples have a length that fits the machine.
pub open spec fn sized(v: Value) -> bool
    decreases v,
{
    match v {
        Value::Tuple(items) => items.len() <= usize::MAX && forall|i: int|
            0 <= i < items.len() ==> sized(#[trigger] items[i]),
        _ => true,
    }
}

/// What a tagged value in memory says is sized.
pub proof fn lemma_sized(v: IValue)
    ensures
        sized(v@),
    decreases v,
{
    match v {
        IValue::Tuple(items) => {
            let inner = v@->Tuple_0;
            assert(inner.len() == items.len());
            assert forall|i: int| 0 <= i < inner.len() implies sized(#[trigger] inner[i]) by {
                vstd::std_specs::vec::axiom_vec_index_decreases(items, i);
                lemma_sized(items@[i]);
            }
        },
        _ => {},
    }
}

/// Reading what a tagged value without tensors asked for gives the value back.
pub proof fn lemma_decode_native(v: Value)
    requires
        tensor_free(v),
        sized(v),
    ensures
        plain(native_of(v)),
        decode(native_of(v)) == Ok::<Value, ConversionError>(v),
    decreases v,
{
    match v {
        Value::Text(chars) => {
            encode_utf8_valid_utf8(chars);
            encode_utf8_decode_utf8(chars);
        },
        Value::Tuple(items) => {
            let natives = native_of(v)->Tuple_0;
            assert forall|i: int| 0 <= i < natives.len() implies plain(#[trigger] natives[i]) by {
                lemma_decode_native(items[i]);
            }
            lemma_decode_natives(items, items.len());
            assert(items.take(items.len() as int) =~= items);
        },
        _ => {},
    }
}

/// Reading what the first `n` of `items` asked for gives them back.
pub proof fn lemma_decode_natives(items: Seq<Value>, n: nat)
    requires
        n <= items.len(),
        forall|i: int| 0 <= i < items.len() ==> tensor_free(#[trigger] items[i]),
        forall|i: int| 0 <= i < items.len() ==> sized(#[trigger] items[i]),
    ensures
        decode_all(native_of(Value::Tuple(items))->Tuple_0, n) == Ok::<
            Seq<Value>,
            ConversionError,
        >(items.take(n as int)),
    decreases items, n,
{
    if n == 0 {
        assert(items.take(0) =~= Seq::<Value>::empty());
    } else {
        lemma_decode_natives(items, (n - 1) as nat);
        lemma_decode_native(items[n - 1]);
        assert(items.take(n - 1).push(items[n - 1]) =~= items.take(n as int));
    }
}

} // verus!
