//! Running the binaries of the project: where they lie, and what to make of
//! a process that has ended.

use crate::text::chars::same_text;
use vstd::prelude::*;

verus! {

/// What is wrong with a process that has ended, if anything is.
///
/// `success` says whether the process ended with success, `status` is its
/// exit status as text and `stderr` what it wrote to its error output. A
/// process that failed is named with its status and with its error output,
/// if it wrote any. A process that ended with success but wrote error
/// output is named with that output.
pub open spec fn complaint_about(success: bool, status: Seq<char>, stderr: Seq<char>) -> Option<
    Seq<char>,
> {
    if !success {
        Some(
            "executable exited with error ("@ + status + ")"@ + if stderr.len() > 0 {
                " and error output: "@ + stderr
            } else {
                Seq::empty()
            },
        )
    } else if stderr.len() > 0 {
        Some("executable generated error output: "@ + stderr)
    } else {
        None
    }
}

/// Validates the exit status and the error output of a process that has
/// ended, before its standard output is used.
///
/// The process is described by whether it ended with success, by its exit
/// status as text and by what it wrote to its error output. The result is
/// the complaint to raise: about the exit status if it is not zero, else
/// about the error output if there is any. A process that ended well gives
/// no complaint.
pub fn process_complaint(success: bool, status: &str, stderr: &str) -> (complaint: Option<String>)
    ensures
        match complaint_about(success, status@, stderr@) {
            Some(text) => complaint is Some && complaint->0@ == text,
            None => complaint is None,
        },
{
    if !success {
        let mut message = String::from_str("executable exited with error (");
        message.append(status);
        message.append(")");
        if !stderr.is_empty() {
            message.append(" and error output: ");
            message.append(stderr);
        }
        Some(message)
    } else if !stderr.is_empty() {
        let mut message = String::from_str("executable generated error output: ");
        message.append(stderr);
        Some(message)
    } else {
        None
    }
}

/// Where Cargo puts the binary `name`, given where the running test
/// executable lies: in the directory of the executable, or in the directory
/// above it if the executable lies in a directory called `deps`.
///
/// A path is the list of its components.
pub open spec fn bin_location(exe_path: Seq<Seq<char>>, name: Seq<char>) -> Seq<Seq<char>> {
    let dir = if exe_path.len() > 0 {
        exe_path.drop_last()
    } else {
        exe_path
    };
    let build_dir = if dir.len() > 0 && dir.last() == "deps"@ {
        dir.drop_last()
    } else {
        dir
    };
    build_dir.push(name)
}

/// The components of paths as texts.
pub open spec fn components(path: Seq<String>) -> Seq<Seq<char>> {
    path.map_values(|part: String| part@)
}

/// The path of a binary from the project (i.e. a binary built by Cargo),
/// without the extension that executables have on the platform.
///
/// `exe_path` holds the components of the path of the running executable.
pub fn bin_path(exe_path: Vec<String>, name: &str) -> (bin_path: Vec<String>)
    ensures
        components(bin_path@) == bin_location(components(exe_path@), name@),
{
    // Cargo generates integration tests at `target/debug/deps`
    let mut exe_path = exe_path;
    let ghost given = components(exe_path@);
    exe_path.pop();
    proof {
        if given.len() > 0 {
            assert(components(exe_path@) == given.drop_last());
        }
    }
    let ghost dir = components(exe_path@);
    let len = exe_path.len();
    if len > 0 && same_text(exe_path[len - 1].as_str(), "deps") {
        exe_path.pop();
        proof {
            assert(components(exe_path@) == dir.drop_last());
        }
    }
    let ghost build_dir = components(exe_path@);
    exe_path.push(String::from_str(name));
    proof {
        assert(components(exe_path@) == build_dir.push(name@));
    }
    exe_path
}

} // verus!
