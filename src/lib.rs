//! Version-query protocol between a changeset tool and its version plugins:
//! the protobuf wire format of the two messages, the plugin's answer, and the
//! host's reading of a finished plugin run.
use vstd::prelude::*;

pub mod varint;
pub mod wire;
pub mod messages;
pub mod plugin;
pub mod host;

verus! {

/// Kinds of failure of one version query.
#[derive(Clone, Copy, Debug, PartialEq, Eq, Structural)]
pub enum ErrorKind {
    /// Bytes that do not decode as the expected message.
    MalformedMessage,
    /// The plugin could not be started or exited with a non-zero status.
    PluginProcessFailure,
    /// The plugin could not read the file it was pointed at.
    InputUnreadable,
}

} // verus!
