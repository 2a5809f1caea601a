//! The names of the files of a test case.

use crate::text::chars::{from_chars, to_chars};
use vstd::prelude::*;

verus! {

/// Index of the last dot of `name[..upto]`, or -1 where it has none.
pub open spec fn last_dot(name: Seq<char>, upto: int) -> int
    decreases upto,
{
    if upto <= 0 || upto > name.len() {
        -1
    } else if name[upto - 1] == '.' {
        upto - 1
    } else {
        last_dot(name, upto - 1)
    }
}

/// Where the extension of a file name starts: behind its last dot. A name
/// without a dot has no extension, and neither has one whose only dot is its
/// first character, nor the name `..`.
pub open spec fn extension_start(name: Seq<char>) -> Option<int> {
    let dot = last_dot(name, name.len() as int);
    if dot <= 0 || name == ".."@ {
        None
    } else {
        Some(dot + 1)
    }
}

/// The extension of a file name, without the dot before it.
pub open spec fn extension_of(name: Seq<char>) -> Option<Seq<char>> {
    match extension_start(name) {
        Some(start) => Some(name.skip(start)),
        None => None,
    }
}

/// The file name with its extension replaced by `extension`. A name without
/// an extension gets one.
pub open spec fn with_extension(name: Seq<char>, extension: Seq<char>) -> Seq<char> {
    match extension_start(name) {
        Some(start) => name.take(start) + extension,
        None => name + "."@ + extension,
    }
}

/// The name of a test case: the name of its file, with the names of the
/// directories that lead to it from the root of the test data.
pub open spec fn entry_name_of(directory: Seq<char>, file_name: Seq<char>) -> Seq<char> {
    if directory.len() > 0 {
        directory + "/"@ + file_name
    } else {
        file_name
    }
}

/// Where the extension of the file name starts, if it has one.
fn find_extension(name: &Vec<char>) -> (start: Option<usize>)
    ensures
        match start {
            Some(start) => extension_start(name@) == Some(start as int) && start <= name@.len(),
            None => extension_start(name@) is None,
        },
{
    let mut upto = name.len();
    while upto > 0 && name[upto - 1] != '.'
        invariant
            upto <= name@.len(),
            last_dot(name@, upto as int) == last_dot(name@, name@.len() as int),
        decreases upto,
    {
        upto -= 1;
    }
    proof {
        reveal_strlit("..");
        assert(last_dot(name@, name@.len() as int) == upto - 1);
        if name@ == ".."@ {
            assert(name@.len() == 2 && name@[0] == '.');
        }
        if name@.len() == 2 && name@[0] == '.' && upto == 2 {
            assert(name@ =~= ".."@);
        }
    }
    if upto <= 1 || (name.len() == 2 && name[0] == '.') {
        None
    } else {
        Some(upto)
    }
}

/// The name of the file `file_name` with another extension.
fn replace_extension(file_name: &str, extension: &str) -> (renamed: String)
    ensures
        renamed@ == with_extension(file_name@, extension@),
{
    let name = to_chars(file_name);
    let mut renamed = match find_extension(&name) {
        Some(start) => from_chars(name.as_slice(), 0, start),
        None => {
            let mut renamed = String::from_str(file_name);
            renamed.append(".");
            renamed
        },
    };
    renamed.append(extension);
    renamed
}

/// Whether a file holds the input of a test case: whether its extension is
/// `input`.
pub fn is_input_file(file_name: &str) -> (is_input: bool)
    ensures
        is_input == (extension_of(file_name@) == Some("input"@)),
{
    let name = to_chars(file_name);
    match find_extension(&name) {
        Some(start) => {
            let extension = from_chars(name.as_slice(), start, name.len());
            proof {
                assert(name@.skip(start as int) == name@.subrange(
                    start as int,
                    name@.len() as int,
                ));
            }
            crate::text::chars::same_text(extension.as_str(), "input")
        },
        None => false,
    }
}

/// Name of the file with the expected output for the test case in the file
/// `input_file_name`: the same name with the extension `valid`.
pub fn valid_file_name(input_file_name: &str) -> (name: String)
    ensures
        name@ == with_extension(input_file_name@, "valid"@),
{
    replace_extension(input_file_name, "valid")
}

/// Name of the file that is written with the actual output of a test case
/// for which `valid_file_name` is missing: the same name with the extension
/// `valid.new`.
pub fn new_valid_file_name(valid_file_name: &str) -> (name: String)
    ensures
        name@ == with_extension(valid_file_name@, "valid.new"@),
{
    replace_extension(valid_file_name, "valid.new")
}

/// The name of the entry `file_name` of the directory called `directory`:
/// the two joined by `/`, or the file name alone in the root directory,
/// whose name is empty.
pub fn entry_name(directory: &str, file_name: &str) -> (name: String)
    ensures
        name@ == entry_name_of(directory@, file_name@),
{
    if !directory.is_empty() {
        let mut name = String::from_str(directory);
        name.append("/");
        name.append(file_name);
        name
    } else {
        String::from_str(file_name)
    }
}

} // verus!
