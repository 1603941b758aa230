//! Core of a text-transformation script launcher: static metadata
//! extraction, a script registry built from bundled and user-supplied
//! sources, an invocation-scoped execution bridge with a cooperative
//! deadline, and a fuzzy-ranked command palette over the registry.
//!
//! All script text is handled as raw UTF-8 bytes. The host around this
//! core supplies the filesystem listing of the user scripts directory and
//! runs the embedded interpreter; everything the interpreter may do to the
//! host goes through [`sandbox::Bridge`].

pub mod metadata;
pub mod registry;
pub mod sandbox;
pub mod search;
