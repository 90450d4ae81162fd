//! Decoding and encoding of firmware boot options.
//!
//! A platform stores each boot option as an opaque byte blob in a named
//! variable (`Boot` followed by four uppercase hexadecimal digits).  This
//! crate turns such blobs into structured entries: it splits a blob into
//! attributes, a UTF-16 description and a device-path region, walks the
//! device path node by node, gathers the decoded entries into an ordered
//! catalog, and encodes a selected entry id back into the payload for the
//! platform's "next boot" variable.  Reading and writing the variables
//! themselves is left to the caller.

pub mod catalog;
pub mod device_path;
pub mod error;
pub mod load_option;
pub mod name;
pub mod selector;
pub mod text;
pub mod ui;
pub mod wire;
