//! The core of a JSON codec that works directly on a host runtime's value
//! graph: the classifier that picks a serialization strategy for each value,
//! the per-context state that isolated runtime instances keep apart, the
//! decode-time key cache, and the encoder and decoder between values and the
//! token stream of the JSON writer and parser.
pub mod typeref;
pub mod obtype;
pub mod key_cache;
pub mod value;
pub mod interpreter_state;
pub mod pyobject;
pub mod serializer;
pub mod deserializer;
