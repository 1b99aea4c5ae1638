//! Tagged values and their mathematical content.
use vstd::prelude::*;

verus! {

/// A tensor that lives in the engine, known here by its handle alone.
#[derive(Debug, PartialEq, Eq)]
pub struct Tensor {
    pub handle: usize,
}

/// An argument or a result of a scripted module.
///
/// A `Double` holds the IEEE 754 bit pattern of its number.
#[derive(Debug, PartialEq)]
pub enum IValue {
    /// The value that holds nothing.
    Empty,
    /// A tensor.
    Tensor(Tensor),
    /// A floating-point number, as its bit pattern.
    Double(u64),
    /// An integer.
    Int(i64),
    /// A boolean.
    Bool(bool),
    /// Values in an order.
    Tuple(Vec<IValue>),
    /// A text.
    String(String),
}

/// What an [`IValue`] says, with sequences in place of vectors and strings.
pub enum Value {
    Empty,
    Tensor(usize),
    Double(u64),
    Int(i64),
    Bool(bool),
    Tuple(Seq<Value>),
    Text(Seq<char>),
}

impl View for IValue {
    type V = Value;

    open spec fn view(&self) -> Value {
        view_of(*self)
    }
}

/// What `v` says.
pub open spec fn view_of(v: IValue) -> Value
    decreases v,
{
    match v {
        IValue::Empty => Value::Empty,
        IValue::Tensor(t) => Value::Tensor(t.handle),
        IValue::Double(bits) => Value::Double(bits),
        IValue::Int(i) => Value::Int(i),
        IValue::Bool(b) => Value::Bool(b),
        IValue::Tuple(items) => Value::Tuple(
            Seq::new(
                items@.len(),
                |i: int|
                    if 0 <= i < items@.len() {
                        view_of(items@[i])
                    } else {
                        Value::Empty
                    },
            ),
        ),
        IValue::String(s) => Value::Text(s@),
    }
}

/// The views of a sequence of tagged values.
pub open spec fn values_view(values: Seq<IValue>) -> Seq<Value> {
    Seq::new(values.len(), |i: int| values[i]@)
}

/// The views of a sequence grow with the sequence.
pub proof fn lemma_values_view_push(values: Seq<IValue>, v: IValue)
    ensures
        values_view(values.push(v)) == values_view(values).push(v@),
{
    assert(values_view(values.push(v)) =~= values_view(values).push(v@));
}

/// A tuple says what its items say, in their order.
pub proof fn lemma_tuple_view(items: Vec<IValue>)
    ensures
        IValue::Tuple(items)@ == Value::Tuple(values_view(items@)),
{
    assert(IValue::Tuple(items)@->Tuple_0 =~= values_view(items@));
}

} // verus!
