//! A bridge between tagged values and the handles of a TorchScript engine.
//!
//! The crate makes no call into the engine. Each conversion, load and
//! forward pass is a state that names the next call as a
//! [`protocol::Request`] and takes its outcome as a [`protocol::Reply`];
//! what holds of such a run is proved against the model in [`world`].
pub mod decoder;
pub mod decoder_law;
pub mod encoder;
pub mod encoder_law;
pub mod error;
pub mod module;
pub mod module_law;
pub mod native;
pub mod protocol;
pub mod round_trip;
pub mod text;
pub mod value;
pub mod world;

pub use crate::module::CModule;
pub use crate::value::IValue;
