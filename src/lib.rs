//! Core of a live shader previewer: the uniform data model, the byte layout of
//! uniform buffers, the classification of reflected shader bindings, the
//! migration of edited values between successive builds of a shader, and the
//! decisions of the reload pipeline.
pub mod layout;
pub mod migrate;
pub mod numeric;
pub mod pipeline;
pub mod program;
pub mod reflect;
pub mod variable;
pub mod watcher;
