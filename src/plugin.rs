//! The plugin's side of a version query: from the bytes on its input to the
//! file it must read, and from that file's text to the bytes it answers with.
use vstd::prelude::*;
use vstd::string::StringExecFns;
use crate::ErrorKind;
use crate::messages::{
    decode_request, deserialize_get_version_request, response_bytes,
    serialize_codegen_response, GetVersionResponse,
};

verus! {

/// Characters with the Unicode White_Space property.
pub open spec fn is_white_space(c: char) -> bool {
    let u = c as u32;
    (0x09 <= u <= 0x0D) || u == 0x20 || u == 0x85 || u == 0xA0 || u == 0x1680
        || (0x2000 <= u <= 0x200A) || u == 0x2028 || u == 0x2029 || u == 0x202F || u == 0x205F
        || u == 0x3000
}

/// `s` without its leading white space.
pub open spec fn trim_start(s: Seq<char>) -> Seq<char>
    decreases s.len(),
{
    if s.len() > 0 && is_white_space(s[0]) {
        trim_start(s.drop_first())
    } else {
        s
    }
}

/// `s` without its trailing white space.
pub open spec fn trim_end(s: Seq<char>) -> Seq<char>
    decreases s.len(),
{
    if s.len() > 0 && is_white_space(s.last()) {
        trim_end(s.drop_last())
    } else {
        s
    }
}

/// `s` without white space at either end.
pub open spec fn trimmed(s: Seq<char>) -> Seq<char> {
    trim_end(trim_start(s))
}

/// Relies on str::trim: it drops leading and trailing characters that have
/// the Unicode White_Space property.
#[verifier::external_body]
fn trim_text(s: &str) -> (r: &str)
    ensures
        r@ == trimmed(s@),
{
    s.trim()
}

/// The version that a file with text `contents` gives.
pub open spec fn version_of(contents: Option<Seq<char>>) -> Seq<char> {
    match contents {
        Some(c) => trimmed(c),
        None => Seq::empty(),
    }
}

/// The response to a request: the text of the referenced file without white
/// space at either end, or the empty version when the request names no file.
pub fn create_get_version_response(contents: Option<&str>) -> (r: GetVersionResponse)
    ensures
        r@ == version_of(
            match contents {
                Some(c) => Some(c@),
                None => None,
            },
        ),
{
    match contents {
        Some(c) => GetVersionResponse { version: String::from_str(trim_text(c)) },
        None => GetVersionResponse { version: String::new() },
    }
}

/// What the plugin does next.
#[derive(Debug, PartialEq, Eq)]
pub enum PluginStep {
    /// Read this file and hand its text to `plugin_answer`.
    ReadFile(String),
    /// Write these bytes to the output and exit with status 0.
    Respond(Vec<u8>),
    /// Write nothing and exit with a non-zero status.
    Fail(ErrorKind),
}

/// The plugin's first decision, from everything read on its input.
pub fn plugin_start(input: &[u8]) -> (r: PluginStep)
    ensures
        match decode_request(input@) {
            None => r == PluginStep::Fail(ErrorKind::MalformedMessage),
            Some(Some(path)) => r matches PluginStep::ReadFile(p) && p@ == path,
            Some(None) => r matches PluginStep::Respond(b) && b@ == response_bytes(Seq::empty()),
        },
{
    match deserialize_get_version_request(input) {
        Err(e) => PluginStep::Fail(e),
        Ok(req) => match req.inputs {
            Some(file) => PluginStep::ReadFile(file.path),
            None => PluginStep::Respond(serialize_codegen_response(&create_get_version_response(None))),
        },
    }
}

/// The plugin's answer once it has tried to read its file: `None` when the
/// file could not be opened or read as text.
pub fn plugin_answer(contents: Option<&str>) -> (r: PluginStep)
    ensures
        match contents {
            None => r == PluginStep::Fail(ErrorKind::InputUnreadable),
            Some(c) => r matches PluginStep::Respond(b) && b@ == response_bytes(trimmed(c@)),
        },
{
    match contents {
        None => PluginStep::Fail(ErrorKind::InputUnreadable),
        Some(c) => PluginStep::Respond(serialize_codegen_response(&create_get_version_response(Some(c)))),
    }
}

} // verus!
