//! Concatenation: every line of a source is written out, plain or with
//! its index in front.

use crate::batch::{inputs_fit, run_batch, transcript, Input};
use crate::driver::{Emission, Policy};
use crate::numbering::{number_line, numbered};
use crate::source::{files_or_standard_input, or_standard_input};
use vstd::prelude::*;

verus! {

/// Which lines get an index in front of them.
#[derive(Clone, Copy, Debug, PartialEq, Eq)]
pub enum Mode {
    /// No line is numbered.
    Plain,
    /// Every line is numbered, blank or not.
    NumberAll,
    /// Only the lines that are not blank are numbered.
    NumberNonblank,
}

/// A line is blank when nothing is left of it once its boundary is taken off.
pub open spec fn is_blank(line: Seq<char>) -> bool {
    line.len() == 0
}

/// Whether `line` gets an index under `mode`.
pub open spec fn takes_index(mode: Mode, line: Seq<char>) -> bool {
    match mode {
        Mode::Plain => false,
        Mode::NumberAll => true,
        Mode::NumberNonblank => !is_blank(line),
    }
}

/// How many of `lines` get an index under `mode`.
pub open spec fn indexed_among(mode: Mode, lines: Seq<Seq<char>>) -> nat
    decreases lines.len(),
{
    if lines.len() == 0 {
        0
    } else {
        indexed_among(mode, lines.drop_last()) + if takes_index(mode, lines.last()) {
            1nat
        } else {
            0nat
        }
    }
}

/// What is written for `line` when `count` lines of its source have been
/// given an index before it: the line with the next index in front where it
/// takes one, the line as it is where it does not.
pub open spec fn format_with(mode: Mode, count: nat, line: Seq<char>) -> Seq<char> {
    if takes_index(mode, line) {
        numbered(count + 1, line)
    } else {
        line
    }
}

/// What is written for the line at position `i` of `lines`.
pub open spec fn formatted_line(mode: Mode, lines: Seq<Seq<char>>, i: int) -> Seq<char>
    recommends
        0 <= i < lines.len(),
{
    format_with(mode, indexed_among(mode, lines.take(i)), lines[i])
}

/// What is written for a source that holds `lines`: one line for each of
/// them, in their order.
pub open spec fn formatted(mode: Mode, lines: Seq<Seq<char>>) -> Seq<Seq<char>> {
    Seq::new(lines.len(), |i: int| formatted_line(mode, lines, i))
}

/// The state of formatting one source: the mode, and how many of the
/// source's lines have been given an index so far.
#[derive(Clone, Copy, Debug)]
pub struct LineFormatter {
    pub mode: Mode,
    pub count: usize,
}

impl LineFormatter {
    /// A formatter for a source of which nothing has been read yet.
    pub fn new(mode: Mode) -> (formatter: LineFormatter)
        ensures
            formatter.mode == mode,
            formatter.count == 0,
    {
        LineFormatter { mode, count: 0 }
    }

    /// Whether the formatter can take `line`: a line that gets an index
    /// needs one more value of the counter.
    pub open spec fn has_room_for(&self, line: Seq<char>) -> bool {
        takes_index(self.mode, line) ==> self.count < usize::MAX
    }

    /// The exec form of `has_room_for`.
    pub fn can_format(&self, line: &str) -> (room: bool)
        ensures
            room == self.has_room_for(line@),
    {
        match self.mode {
            Mode::Plain => true,
            Mode::NumberAll => self.count < usize::MAX,
            Mode::NumberNonblank => line.is_empty() || self.count < usize::MAX,
        }
    }

    /// Formats the next line of the source and counts it if it took an index.
    pub fn format(&mut self, line: &str) -> (text: String)
        requires
            old(self).has_room_for(line@),
        ensures
            text@ == format_with(old(self).mode, old(self).count as nat, line@),
            final(self).mode == old(self).mode,
            final(self).count == old(self).count + if takes_index(old(self).mode, line@) {
                1int
            } else {
                0int
            },
    {
        let numbers = match self.mode {
            Mode::Plain => false,
            Mode::NumberAll => true,
            Mode::NumberNonblank => !line.is_empty(),
        };
        if numbers {
            self.count = self.count + 1;
            number_line(self.count, line)
        } else {
            line.to_owned()
        }
    }
}

/// The mode that the two numbering flags ask for. Numbering every line
/// goes before numbering the lines that are not blank.
pub open spec fn mode_of(number_lines: bool, number_nonblank_lines: bool) -> Mode {
    if number_lines {
        Mode::NumberAll
    } else if number_nonblank_lines {
        Mode::NumberNonblank
    } else {
        Mode::Plain
    }
}

/// What a concatenating run works on: a file list that is not empty, and
/// one mode.
#[derive(Debug)]
pub struct Config {
    files: Vec<String>,
    mode: Mode,
}

/// A configuration as a value of mathematics.
pub struct ConfigView {
    pub files: Seq<Seq<char>>,
    pub mode: Mode,
}

impl View for Config {
    type V = ConfigView;

    closed spec fn view(&self) -> ConfigView {
        ConfigView { files: self.files.deep_view(), mode: self.mode }
    }
}

impl Config {
    #[verifier::type_invariant]
    spec fn well_formed(&self) -> bool {
        self.files.len() > 0
    }

    /// The file list, which is never empty.
    pub fn files(&self) -> (files: &Vec<String>)
        ensures
            files.deep_view() == self@.files,
            files.len() > 0,
    {
        proof {
            use_type_invariant(self);
        }
        &self.files
    }

    /// The mode.
    pub fn mode(&self) -> (mode: Mode)
        ensures
            mode == self@.mode,
    {
        self.mode
    }
}

/// Makes the configuration of a concatenating run from the arguments as the
/// command line gave them: the file names, and the two numbering flags.
/// Without a file name the run reads the standard input.
pub fn get_args(files: Vec<String>, number_lines: bool, number_nonblank_lines: bool) -> (config:
    Config)
    ensures
        config@.files == files_or_standard_input(files.deep_view()),
        config@.mode == mode_of(number_lines, number_nonblank_lines),
{
    let mode = if number_lines {
        Mode::NumberAll
    } else if number_nonblank_lines {
        Mode::NumberNonblank
    } else {
        Mode::Plain
    };
    Config { files: or_standard_input(files), mode }
}

/// Concatenates the sources of the file list, where the source of each name
/// gives what stands at its position in `inputs`, and gives back what is
/// written: for each source in turn every line that could be read of it,
/// formatted as the mode says, and one diagnostic where it failed.
pub fn run(config: &Config, inputs: &Vec<Input>) -> (written: Vec<Emission>)
    requires
        inputs_fit(Policy::Concatenate(config@.mode), config@.files, inputs@),
    ensures
        written.deep_view() == transcript(
            Policy::Concatenate(config@.mode),
            config@.files,
            inputs@,
        ),
{
    run_batch(config.files(), Policy::Concatenate(config.mode()), inputs)
}

/// Taking one more line of a source into account adds one to the number of
/// indexed lines where that line takes an index, and nothing where it does not.
pub proof fn lemma_indexed_among_step(mode: Mode, lines: Seq<Seq<char>>, i: int)
    requires
        0 <= i < lines.len(),
    ensures
        indexed_among(mode, lines.take(i + 1)) == indexed_among(mode, lines.take(i))
            + if takes_index(mode, lines[i]) {
            1nat
        } else {
            0nat
        },
{
    assert(lines.take(i + 1).drop_last() =~= lines.take(i));
}

/// In plain mode the output is the input: as many lines, each as it was read,
/// in the same order.
pub proof fn lemma_plain_echoes(lines: Seq<Seq<char>>)
    ensures
        formatted(Mode::Plain, lines) == lines,
{
}

/// When every line is numbered, the line at position `i` carries the index
/// `i + 1`, whether it is blank or not.
pub proof fn lemma_number_all_counts_every_line(lines: Seq<Seq<char>>, i: int)
    requires
        0 <= i < lines.len(),
    ensures
        formatted(Mode::NumberAll, lines).len() == lines.len(),
        indexed_among(Mode::NumberAll, lines.take(i)) == i,
        formatted(Mode::NumberAll, lines)[i] == numbered((i + 1) as nat, lines[i]),
    decreases i,
{
    if i > 0 {
        lemma_number_all_counts_every_line(lines, i - 1);
        lemma_indexed_among_step(Mode::NumberAll, lines, i - 1);
    }
}

/// When only the lines that are not blank are numbered: a blank line is written
/// as an empty line and leaves the counter where it was; a line that is not
/// blank carries one more than the number of such lines before it, and moves
/// the counter by one.
pub proof fn lemma_number_nonblank_skips_blank_lines(lines: Seq<Seq<char>>, i: int)
    requires
        0 <= i < lines.len(),
    ensures
        formatted(Mode::NumberNonblank, lines).len() == lines.len(),
        is_blank(lines[i]) ==> {
            &&& formatted(Mode::NumberNonblank, lines)[i] == Seq::<char>::empty()
            &&& indexed_among(Mode::NumberNonblank, lines.take(i + 1)) == indexed_among(
                Mode::NumberNonblank,
                lines.take(i),
            )
        },
        !is_blank(lines[i]) ==> {
            &&& formatted(Mode::NumberNonblank, lines)[i] == numbered(
                indexed_among(Mode::NumberNonblank, lines.take(i)) + 1,
                lines[i],
            )
            &&& indexed_among(Mode::NumberNonblank, lines.take(i + 1)) == indexed_among(
                Mode::NumberNonblank,
                lines.take(i),
            ) + 1
        },
{
    lemma_indexed_among_step(Mode::NumberNonblank, lines, i);
}

/// The indices never go down along a source, and from a line that takes an
/// index to any later line they go up: no index is given twice.
pub proof fn lemma_indices_increase(mode: Mode, lines: Seq<Seq<char>>, i: int, j: int)
    requires
        0 <= i < j <= lines.len(),
    ensures
        indexed_among(mode, lines.take(i)) <= indexed_among(mode, lines.take(j)),
        takes_index(mode, lines[i]) ==> indexed_among(mode, lines.take(i)) < indexed_among(
            mode,
            lines.take(j),
        ),
    decreases j - i,
{
    lemma_indexed_among_step(mode, lines, j - 1);
    if i < j - 1 {
        lemma_indices_increase(mode, lines, i, j - 1);
    }
}

} // verus!
