//! Finding the test cases below a directory.
//!
//! The directories are read one after the other, in the order in which they
//! were found, each with its entries in the order of their names. Reading a
//! directory is left to the caller: the scan says which directory is next
//! and takes what was found in it.

use super::names::{entry_name, entry_name_of, extension_of, is_input_file};
use std::collections::VecDeque;
use vstd::prelude::*;

verus! {

/// A directory that is still to be read, or the file of a test case.
pub struct Located {
    /// Name from the root of the test data on, with `/` between its parts.
    /// The root itself has the empty name.
    pub name: String,
    /// Path by which it is read.
    pub path: String,
}

/// The name and the path of a [`Located`] as texts.
pub struct Place {
    pub name: Seq<char>,
    pub path: Seq<char>,
}

impl View for Located {
    type V = Place;

    open spec fn view(&self) -> Place {
        Place { name: self.name@, path: self.path@ }
    }
}

/// An entry of a directory, as it was read.
pub struct Entry {
    /// Name of the entry inside its directory.
    pub file_name: String,
    /// Path by which the entry is read.
    pub path: String,
    /// Whether the entry is a directory.
    pub is_dir: bool,
}

/// What is known of an [`Entry`], with its texts as sequences.
pub struct Listed {
    pub file_name: Seq<char>,
    pub path: Seq<char>,
    pub is_dir: bool,
}

impl View for Entry {
    type V = Listed;

    open spec fn view(&self) -> Listed {
        Listed { file_name: self.file_name@, path: self.path@, is_dir: self.is_dir }
    }
}

/// The views of a list of values.
pub open spec fn views<T: View>(list: Seq<T>) -> Seq<T::V> {
    list.map_values(|item: T| item@)
}

/// Whether `a` comes before `b`, or is equal to it, in the order of `str`:
/// character by character, by code point.
pub open spec fn text_le(a: Seq<char>, b: Seq<char>) -> bool
    decreases a.len(),
{
    if a.len() == 0 {
        true
    } else if b.len() == 0 {
        false
    } else if a[0] != b[0] {
        (a[0] as u32) < (b[0] as u32)
    } else {
        text_le(a.drop_first(), b.drop_first())
    }
}

/// The entries stand in the order of their names.
pub open spec fn sorted_by_name(entries: Seq<Listed>) -> bool {
    forall|i: int, j: int|
        0 <= i < j < entries.len() ==> text_le(
            (#[trigger] entries[i]).file_name,
            (#[trigger] entries[j]).file_name,
        )
}

/// `sorted` holds the entries of `listing`, in the order of their names.
pub open spec fn is_sorted_listing(listing: Seq<Listed>, sorted: Seq<Listed>) -> bool {
    sorted.to_multiset() == listing.to_multiset() && sorted_by_name(sorted)
}

/// The directories among the entries of the directory called `directory`,
/// under their full names and in the order of the entries.
pub open spec fn directories_in(directory: Seq<char>, entries: Seq<Listed>) -> Seq<Place>
    decreases entries.len(),
{
    if entries.len() == 0 {
        Seq::empty()
    } else {
        let before = directories_in(directory, entries.drop_last());
        let entry = entries.last();
        if entry.is_dir {
            before.push(
                Place { name: entry_name_of(directory, entry.file_name), path: entry.path },
            )
        } else {
            before
        }
    }
}

/// The files with the extension `input` among the entries of the directory
/// called `directory`, under their full names and in the order of the
/// entries.
pub open spec fn inputs_in(directory: Seq<char>, entries: Seq<Listed>) -> Seq<Place>
    decreases entries.len(),
{
    if entries.len() == 0 {
        Seq::empty()
    } else {
        let before = inputs_in(directory, entries.drop_last());
        let entry = entries.last();
        if !entry.is_dir && extension_of(entry.file_name) == Some("input"@) {
            before.push(
                Place { name: entry_name_of(directory, entry.file_name), path: entry.path },
            )
        } else {
            before
        }
    }
}

/// `sort_by_key` of slices, with the file name as the key: puts the entries
/// in the order of their names, as `str` orders them. No entry is lost and
/// none is added.
#[verifier::external_body]
fn sort_by_file_name(entries: &mut Vec<Entry>)
    ensures
        is_sorted_listing(views(old(entries)@), views(final(entries)@)),
{
    entries.sort_by_key(|x| x.file_name.clone());
}

/// The search for the test cases below a directory: the directories that
/// are still to be read and the test cases found so far.
pub struct InputScan {
    directories_to_scan: VecDeque<Located>,
    test_inputs: Vec<Located>,
}

impl InputScan {
    /// The directories that are still to be read, the next one first.
    pub closed spec fn waiting(&self) -> Seq<Place> {
        views(self.directories_to_scan@)
    }

    /// The files of the test cases found so far.
    pub closed spec fn found(&self) -> Seq<Place> {
        views(self.test_inputs@)
    }

    /// A search that starts at the directory `root_path`.
    pub fn new(root_path: String) -> (scan: InputScan)
        ensures
            scan.waiting() == seq![Place { name: Seq::empty(), path: root_path@ }],
            scan.found() == Seq::<Place>::empty(),
    {
        let mut directories_to_scan = VecDeque::new();
        directories_to_scan.push_back(Located { path: root_path, name: String::new() });
        let scan = InputScan { directories_to_scan, test_inputs: Vec::new() };
        proof {
            assert(scan.waiting() == seq![Place { name: Seq::empty(), path: root_path@ }]);
            assert(scan.found() == Seq::<Place>::empty());
        }
        scan
    }

    /// The directory to read next, which then waits no longer. There is none
    /// once the search is over.
    pub fn next_directory(&mut self) -> (next: Option<Located>)
        ensures
            final(self).found() == old(self).found(),
            match next {
                Some(directory) => old(self).waiting().len() > 0 && directory@ == old(
                    self,
                ).waiting()[0] && final(self).waiting() == old(self).waiting().drop_first(),
                None => old(self).waiting().len() == 0 && final(self).waiting() == old(
                    self,
                ).waiting(),
            },
    {
        let next = self.directories_to_scan.pop_front();
        proof {
            if next is Some {
                assert(self.waiting() == old(self).waiting().drop_first());
            }
        }
        next
    }

    /// Takes in the entries of the directory called `current_name`, in the
    /// order given: its directories are to be read behind those that wait
    /// already, and its files with the extension `input` are test cases.
    pub fn visit_sorted(&mut self, current_name: &str, entries: &[Entry])
        ensures
            final(self).waiting() == old(self).waiting() + directories_in(
                current_name@,
                views(entries@),
            ),
            final(self).found() == old(self).found() + inputs_in(current_name@, views(entries@)),
    {
        let ghost all = views(entries@);
        let mut at: usize = 0;
        while at < entries.len()
            invariant
                at <= entries@.len(),
                all == views(entries@),
                self.waiting() == old(self).waiting() + directories_in(
                    current_name@,
                    all.take(at as int),
                ),
                self.found() == old(self).found() + inputs_in(current_name@, all.take(at as int)),
            decreases entries@.len() - at,
        {
            let entry = &entries[at];
            let ghost waiting = self.waiting();
            let ghost found = self.found();
            proof {
                assert(all.take(at + 1).drop_last() == all.take(at as int));
                assert(all.take(at + 1).last() == entry@);
            }
            if entry.is_dir {
                let directory = Located {
                    name: entry_name(current_name, entry.file_name.as_str()),
                    path: entry.path.clone(),
                };
                self.directories_to_scan.push_back(directory);
                proof {
                    assert(self.waiting() == waiting.push(directory@));
                }
            } else if is_input_file(entry.file_name.as_str()) {
                let input = Located {
                    name: entry_name(current_name, entry.file_name.as_str()),
                    path: entry.path.clone(),
                };
                self.test_inputs.push(input);
                proof {
                    assert(self.found() == found.push(input@));
                }
            }
            at += 1;
        }
        proof {
            assert(all.take(at as int) == all);
        }
    }

    /// Takes in the entries of the directory called `current_name`, as they
    /// were read: they are put in the order of their names first.
    pub fn visit(&mut self, current_name: &str, entries: Vec<Entry>)
        ensures
            exists|sorted: Seq<Listed>|
                {
                    &&& #[trigger] is_sorted_listing(views(entries@), sorted)
                    &&& final(self).waiting() == old(self).waiting() + directories_in(
                        current_name@,
                        sorted,
                    )
                    &&& final(self).found() == old(self).found() + inputs_in(
                        current_name@,
                        sorted,
                    )
                },
    {
        // the order here is important to keep the sort order for tests
        let mut entries = entries;
        sort_by_file_name(&mut entries);
        self.visit_sorted(current_name, entries.as_slice());
    }

    /// The files of the test cases that were found, in the order in which
    /// they were found.
    pub fn into_inputs(self) -> (test_inputs: Vec<Located>)
        ensures
            views(test_inputs@) == self.found(),
    {
        self.test_inputs
    }
}

} // verus!
