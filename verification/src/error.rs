//! The ways in which a conversion, a load or a forward pass can fail.
use vstd::prelude::*;

verus! {

/// A value could not cross the boundary, in one direction or the other.
#[derive(Debug, PartialEq, Eq)]
pub enum ConversionError {
    /// A text holds a NUL byte and has no C string.
    InvalidString,
    /// The engine reported a tag that stands for no variant.
    UnrecognizedTag(i32),
    /// The engine reported a negative number where a boolean was read.
    UnexpectedBoolEncoding(i32),
    /// The bytes of a native string are not UTF-8.
    UndecodableStringBytes,
    /// A call into the engine failed; the message is the engine's.
    Native(String),
}

/// A module could not be loaded.
#[derive(Debug, PartialEq, Eq)]
pub enum LoadError {
    /// The path holds a NUL byte and has no C string.
    InvalidPath,
    /// The engine could not open or read the file; the message is the engine's.
    Native(String),
}

/// The engine reported a failure of the forward pass itself.
#[derive(Debug, PartialEq, Eq)]
pub struct ExecutionError {
    pub message: String,
}

/// Why a forward pass on tagged values gave no result.
#[derive(Debug, PartialEq, Eq)]
pub enum ForwardError {
    /// An argument or the result could not be converted.
    Conversion(ConversionError),
    /// The forward pass failed in the engine.
    Execution(ExecutionError),
}

} // verus!
