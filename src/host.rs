//! The host's side of a version query: what a finished plugin run means.
use vstd::prelude::*;
use crate::ErrorKind;
use crate::messages::{decode_response, deserialize_get_version_response};

verus! {

/// The version that a plugin run reported, from whether it exited with status
/// 0 and the bytes it wrote. A failed run is reported as such and its output
/// is never decoded; a clean run whose output does not decode is a protocol
/// mismatch.
pub fn version_from_plugin_output(exit_success: bool, stdout: &[u8]) -> (r: Result<String, ErrorKind>)
    ensures
        !exit_success ==> r == Err::<String, ErrorKind>(ErrorKind::PluginProcessFailure),
        exit_success ==> match decode_response(stdout@) {
            Some(v) => r matches Ok(s) && s@ == v,
            None => r == Err::<String, ErrorKind>(ErrorKind::MalformedMessage),
        },
{
    if !exit_success {
        return Err(ErrorKind::PluginProcessFailure);
    }
    let resp = deserialize_get_version_response(stdout)?;
    Ok(resp.version)
}

} // verus!
