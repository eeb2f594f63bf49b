//! Prefixes: only the beginning of a source is written out, a number of
//! lines or a number of bytes, under a header where there are several sources.

use crate::batch::{inputs_fit, run_batch, transcript, Input};
use crate::count::{parse_positive_int, positive_count, InvalidCountError};
use crate::driver::{Emission, Policy};
use crate::source::{files_or_standard_input, or_standard_input};
use vstd::prelude::*;
use vstd::string::StringExecFns;

verus! {

/// How much of each source is written.
#[derive(Clone, Copy, Debug, PartialEq, Eq)]
pub enum Limit {
    /// That many lines, each as it was read.
    Lines(usize),
    /// That many bytes, wherever in a line or a character the last one falls.
    Bytes(usize),
}

impl Limit {
    /// The number of lines or bytes that the limit allows.
    pub open spec fn bound(self) -> usize {
        match self {
            Limit::Lines(n) => n,
            Limit::Bytes(n) => n,
        }
    }

    /// The number of lines or bytes that the limit allows.
    pub fn value(self) -> (n: usize)
        ensures
            n == self.bound(),
    {
        match self {
            Limit::Lines(n) => n,
            Limit::Bytes(n) => n,
        }
    }
}

/// The first `n` lines of `lines`, or all of them where there are fewer.
pub open spec fn first_lines(lines: Seq<Seq<char>>, n: nat) -> Seq<Seq<char>> {
    if n < lines.len() {
        lines.take(n as int)
    } else {
        lines
    }
}

/// The first `n` bytes of `bytes`, or all of them where there are fewer.
pub open spec fn first_bytes(bytes: Seq<u8>, n: nat) -> Seq<u8> {
    if n < bytes.len() {
        bytes.take(n as int)
    } else {
        bytes
    }
}

/// What stands before a source's name in its header.
pub open spec fn header_opening() -> Seq<char> {
    seq!['=', '=', '>', ' ']
}

/// What stands behind a source's name in its header.
pub open spec fn header_closing() -> Seq<char> {
    seq![' ', '<', '=', '=']
}

/// The header of the source `name`: the name between two arrows.
pub open spec fn header(name: Seq<char>) -> Seq<char> {
    header_opening() + name + header_closing()
}

/// Writes the header line of the source `name`.
pub fn header_line(name: &str) -> (text: String)
    ensures
        text@ == header(name@),
{
    proof {
        reveal_strlit("==> ");
        reveal_strlit(" <==");
    }
    let mut text = String::from_str("==> ");
    text.append(name);
    text.append(" <==");
    text
}

/// The state of limiting one source: how many units, lines or bytes, may be
/// written of it, and how many have been written so far.
#[derive(Clone, Copy, Debug)]
pub struct PrefixLimiter {
    pub bound: usize,
    pub taken: usize,
}

impl PrefixLimiter {
    /// Never more is taken than the bound allows.
    pub open spec fn wf(&self) -> bool {
        self.taken <= self.bound
    }

    /// What may still be written.
    pub open spec fn spec_remaining(&self) -> nat {
        (self.bound - self.taken) as nat
    }

    /// How many of `offered` units are written: all of them, or as many as
    /// may still be written where that is fewer.
    pub open spec fn grants(&self, offered: nat) -> nat {
        if offered <= self.spec_remaining() {
            offered
        } else {
            self.spec_remaining()
        }
    }

    /// A limiter for a source of which nothing has been written yet.
    pub fn new(bound: usize) -> (limiter: PrefixLimiter)
        ensures
            limiter.wf(),
            limiter.bound == bound,
            limiter.taken == 0,
    {
        PrefixLimiter { bound, taken: 0 }
    }

    /// How many units may still be written.
    pub fn remaining(&self) -> (left: usize)
        requires
            self.wf(),
        ensures
            left == self.spec_remaining(),
    {
        self.bound - self.taken
    }

    /// Whether the whole prefix has been written.
    pub fn is_done(&self) -> (done: bool)
        requires
            self.wf(),
        ensures
            done == (self.spec_remaining() == 0),
    {
        self.taken == self.bound
    }

    /// Takes as many of `offered` units as the bound still allows, counts
    /// them, and says how many that was.
    pub fn grant(&mut self, offered: usize) -> (granted: usize)
        requires
            old(self).wf(),
        ensures
            final(self).wf(),
            final(self).bound == old(self).bound,
            granted == old(self).grants(offered as nat),
            final(self).taken == old(self).taken + granted,
    {
        let left = self.bound - self.taken;
        let granted = if offered <= left {
            offered
        } else {
            left
        };
        self.taken = self.taken + granted;
        granted
    }
}

/// What a head run works on: a file list that is not empty, and one limit,
/// which is not zero.
#[derive(Debug)]
pub struct Config {
    files: Vec<String>,
    limit: Limit,
}

/// A configuration as a value of mathematics.
pub struct ConfigView {
    pub files: Seq<Seq<char>>,
    pub limit: Limit,
}

impl View for Config {
    type V = ConfigView;

    closed spec fn view(&self) -> ConfigView {
        ConfigView { files: self.files.deep_view(), limit: self.limit }
    }
}

impl Config {
    #[verifier::type_invariant]
    spec fn well_formed(&self) -> bool {
        self.files.len() > 0 && self.limit.bound() > 0
    }

    /// The file list, which is never empty.
    pub fn files(&self) -> (files: &Vec<String>)
        ensures
            files.deep_view() == self@.files,
            files.len() > 0,
    {
        proof {
            use_type_invariant(self);
        }
        &self.files
    }

    /// The limit, which is never zero.
    pub fn limit(&self) -> (limit: Limit)
        ensures
            limit == self@.limit,
            limit.bound() > 0,
    {
        proof {
            use_type_invariant(self);
        }
        self.limit
    }
}

/// A count argument of a head run that was refused.
#[derive(Debug)]
pub enum ArgsError {
    /// The number of lines is no positive count.
    IllegalLineCount(InvalidCountError),
    /// The number of bytes is no positive count.
    IllegalByteCount(InvalidCountError),
}

/// What stands before the refused text in the message about a line count.
pub open spec fn line_count_complaint() -> Seq<char> {
    "illegal line count -- "@
}

/// What stands before the refused text in the message about a byte count.
pub open spec fn byte_count_complaint() -> Seq<char> {
    "illegal byte count -- "@
}

impl ArgsError {
    /// The message for the user: which count is illegal, and the text that
    /// was given for it.
    pub open spec fn message(self) -> Seq<char> {
        match self {
            ArgsError::IllegalLineCount(error) => line_count_complaint() + error.value@,
            ArgsError::IllegalByteCount(error) => byte_count_complaint() + error.value@,
        }
    }

    /// The message for the user.
    pub fn to_string(&self) -> (text: String)
        ensures
            text@ == self.message(),
    {
        match self {
            ArgsError::IllegalLineCount(error) => {
                let mut text = String::from_str("illegal line count -- ");
                text.append(error.value.as_str());
                text
            },
            ArgsError::IllegalByteCount(error) => {
                let mut text = String::from_str("illegal byte count -- ");
                text.append(error.value.as_str());
                text
            },
        }
    }
}

/// The limit that the two count arguments ask for, where both are legal:
/// the number of bytes where one is given, else the number of lines.
pub open spec fn limit_of(lines: Seq<char>, bytes: Option<&str>) -> Option<Limit> {
    match (positive_count(lines), bytes) {
        (Some(n), None) => Some(Limit::Lines(n)),
        (Some(_), Some(text)) => match positive_count(text@) {
            Some(n) => Some(Limit::Bytes(n)),
            None => None,
        },
        (None, _) => None,
    }
}

/// Makes the configuration of a head run from the arguments as the command
/// line gave them: the file names, the text of the line count (which has a
/// default, so that there always is one), and the text of the byte count, if
/// there is one. Without a file name the run reads the standard input.
///
/// The line count is read first: where it is illegal it is the one that is
/// reported, whatever the byte count is.
pub fn get_args(files: Vec<String>, lines: &str, bytes: Option<&str>) -> (result: Result<
    Config,
    ArgsError,
>)
    ensures
        match result {
            Ok(config) => {
                &&& limit_of(lines@, bytes) == Some(config@.limit)
                &&& config@.files == files_or_standard_input(files.deep_view())
            },
            Err(ArgsError::IllegalLineCount(error)) => {
                &&& positive_count(lines@) is None
                &&& error.value@ == lines@
            },
            Err(ArgsError::IllegalByteCount(error)) => {
                &&& positive_count(lines@) is Some
                &&& bytes matches Some(text) && positive_count(text@) is None && error.value@
                    == text@
            },
        },
{
    let line_count = match parse_positive_int(lines) {
        Ok(n) => n,
        Err(error) => {
            return Err(ArgsError::IllegalLineCount(error));
        },
    };
    let limit = match bytes {
        Some(text) => match parse_positive_int(text) {
            Ok(n) => Limit::Bytes(n),
            Err(error) => {
                return Err(ArgsError::IllegalByteCount(error));
            },
        },
        None => Limit::Lines(line_count),
    };
    Ok(Config { files: or_standard_input(files), limit })
}

/// Writes the head of each source of the file list, where the source of each
/// name gives what stands at its position in `inputs`, and gives back what
/// is written: for each source in turn its header, where there are several
/// sources, and its first lines or bytes; one diagnostic where it failed.
pub fn run(config: &Config, inputs: &Vec<Input>) -> (written: Vec<Emission>)
    requires
        inputs_fit(Policy::Head(config@.limit), config@.files, inputs@),
    ensures
        written.deep_view() == transcript(Policy::Head(config@.limit), config@.files, inputs@),
{
    run_batch(config.files(), Policy::Head(config.limit()), inputs)
}

} // verus!
