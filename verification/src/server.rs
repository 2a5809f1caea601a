//! What the test server answers.

use vstd::prelude::*;

verus! {

/// The answer to a ping: the method and the path of the request, as lines
/// in the format `key: value`.
pub open spec fn ping_text(method: Seq<char>, path: Seq<char>) -> Seq<char> {
    "method: "@ + method + "\n"@ + "path: "@ + path
}

/// Information about an incoming request, as the ping route sends it back.
///
/// The response is plain text with lines in the format `key: value`.
///
/// The following keys are provided:
///
/// - `method`
/// - `path`
pub fn ping_response(method: &str, path: &str) -> (output: String)
    ensures
        output@ == ping_text(method@, path@),
{
    let mut output = String::from_str("method: ");
    output.append(method);
    output.append("\n");
    output.append("path: ");
    output.append(path);
    output
}

} // verus!
