//! Sources: what a file name stands for, and the line that reports a source
//! that failed.

use vstd::prelude::*;
use vstd::string::{StrSliceExecFns, StringExecFns};

verus! {

/// What a name in the file list stands for.
#[derive(Clone, Copy, Debug, PartialEq, Eq)]
pub enum Source {
    /// The standard input of the process, which is not closed after use.
    StandardInput,
    /// The file of that name, opened for reading.
    NamedFile,
}

/// The name that stands for the standard input: a single hyphen.
pub open spec fn standard_input_name() -> Seq<char> {
    seq!['-']
}

/// The source that `name` stands for.
pub open spec fn source_of(name: Seq<char>) -> Source {
    if name == standard_input_name() {
        Source::StandardInput
    } else {
        Source::NamedFile
    }
}

/// Tells which source `name` stands for: the standard input for a single
/// hyphen, a file of that name for anything else.
pub fn resolve(name: &str) -> (source: Source)
    ensures
        source == source_of(name@),
{
    if name.unicode_len() == 1 && name.get_char(0) == '-' {
        assert(name@ =~= standard_input_name());
        Source::StandardInput
    } else {
        Source::NamedFile
    }
}

/// The file list that a run works on: the one that was given, or the
/// standard input alone where none was given.
pub open spec fn files_or_standard_input(files: Seq<Seq<char>>) -> Seq<Seq<char>> {
    if files.len() == 0 {
        seq![standard_input_name()]
    } else {
        files
    }
}

/// Gives `files` back, or the name of the standard input where `files` is empty.
pub fn or_standard_input(files: Vec<String>) -> (list: Vec<String>)
    ensures
        list.deep_view() == files_or_standard_input(files.deep_view()),
        list.len() > 0,
{
    if files.len() == 0 {
        proof {
            reveal_strlit("-");
        }
        let mut list: Vec<String> = Vec::new();
        list.push(String::from_str("-"));
        assert("-"@ =~= standard_input_name());
        list
    } else {
        files
    }
}

/// The text between a source's name and the cause of its failure.
pub open spec fn separator() -> Seq<char> {
    seq![':', ' ']
}

/// The line that reports a failed source: its name, a colon and a space,
/// and the cause.
pub open spec fn diagnostic(name: Seq<char>, cause: Seq<char>) -> Seq<char> {
    name + separator() + cause
}

/// Writes the line that reports that the source `name` failed for `cause`.
pub fn diagnostic_line(name: &str, cause: &str) -> (text: String)
    ensures
        text@ == diagnostic(name@, cause@),
{
    proof {
        reveal_strlit(": ");
    }
    let mut text = String::from_str(name);
    text.append(": ");
    text.append(cause);
    text
}

} // verus!
