//! A whole run, from what the sources hold to what is written: the
//! transcript of a file list, and the function that computes it by driving
//! the driver over sources held in memory.

use crate::catr::{
    formatted, indexed_among, is_blank, lemma_indexed_among_step, lemma_plain_echoes,
    lemma_number_all_counts_every_line, lemma_number_nonblank_skips_blank_lines, Mode,
};
use crate::driver::{Driver, DriverState, Emission, EmissionView, Event, Policy, Request, Stage};
use crate::headr::{first_bytes, first_lines, header, Limit};
use crate::numbering::numbered;
use crate::source::diagnostic;
use vstd::prelude::*;
use vstd::slice::{slice_subrange, slice_to_vec};

verus! {

/// What a source gives when it is opened and read to its end.
#[derive(Debug)]
pub enum Input {
    /// It cannot be opened, for that cause.
    Unopenable(String),
    /// It gives these lines and then ends, or fails for that cause.
    Lines { lines: Vec<String>, failure: Option<String> },
    /// It gives these bytes and then ends, or fails for that cause.
    Bytes { bytes: Vec<u8>, failure: Option<String> },
}

/// Whether sources are read as bytes under `policy`.
pub open spec fn reads_bytes(policy: Policy) -> bool {
    policy matches Policy::Head(Limit::Bytes(_))
}

/// Whether `input` holds what is read under `policy`: lines where lines are
/// read, bytes where bytes are read. A source that cannot be opened fits
/// every policy.
pub open spec fn readable_under(policy: Policy, input: Input) -> bool {
    match input {
        Input::Unopenable(_) => true,
        Input::Lines { .. } => !reads_bytes(policy),
        Input::Bytes { .. } => reads_bytes(policy),
    }
}

/// One line emission for each of `lines`, in their order.
pub open spec fn line_emissions(lines: Seq<Seq<char>>) -> Seq<EmissionView> {
    Seq::new(lines.len(), |i: int| EmissionView::Line(lines[i]))
}

/// One emission that holds `bytes`; none where there are no bytes.
pub open spec fn byte_emissions(bytes: Seq<u8>) -> Seq<EmissionView> {
    if bytes.len() > 0 {
        seq![EmissionView::Bytes(bytes)]
    } else {
        seq![]
    }
}

/// The diagnostic for the failure that ended the reading of `name`, if one did.
pub open spec fn failure_report(name: Seq<char>, failure: Option<String>) -> Seq<EmissionView> {
    match failure {
        Some(cause) => seq![EmissionView::Diagnostic(diagnostic(name, cause@))],
        None => seq![],
    }
}

/// What stands before the content of the source `name`: its header in head
/// mode where there are several sources (`several`), nothing otherwise.
pub open spec fn heading(policy: Policy, several: bool, name: Seq<char>) -> Seq<EmissionView> {
    if policy is Head && several {
        seq![EmissionView::Line(header(name))]
    } else {
        seq![]
    }
}

/// What is written of the content of an open source: every line, formatted,
/// in concatenate mode; the first lines or bytes in head mode. A failure is
/// reported where the reading got to it, that is unless the limit was
/// reached before.
pub open spec fn body(policy: Policy, name: Seq<char>, input: Input) -> Seq<EmissionView> {
    match (policy, input) {
        (Policy::Concatenate(mode), Input::Lines { lines, failure }) => line_emissions(
            formatted(mode, lines.deep_view()),
        ) + failure_report(name, failure),
        (Policy::Head(Limit::Lines(n)), Input::Lines { lines, failure }) => line_emissions(
            first_lines(lines.deep_view(), n as nat),
        ) + if lines.len() < n {
            failure_report(name, failure)
        } else {
            seq![]
        },
        (Policy::Head(Limit::Bytes(n)), Input::Bytes { bytes, failure }) => byte_emissions(
            first_bytes(bytes@, n as nat),
        ) + if bytes.len() < n {
            failure_report(name, failure)
        } else {
            seq![]
        },
        _ => seq![],
    }
}

/// Everything that is written for one source: a single diagnostic where it
/// cannot be opened, else its heading and its body.
pub open spec fn block(policy: Policy, several: bool, name: Seq<char>, input: Input) -> Seq<
    EmissionView,
> {
    match input {
        Input::Unopenable(cause) => seq![EmissionView::Diagnostic(diagnostic(name, cause@))],
        _ => heading(policy, several, name) + body(policy, name, input),
    }
}

/// Everything that is written for the sources at the positions from `from`
/// up to, not including, `to`: their blocks, one after the other.
pub open spec fn blocks(
    policy: Policy,
    files: Seq<Seq<char>>,
    inputs: Seq<Input>,
    from: int,
    to: int,
) -> Seq<EmissionView>
    decreases to - from,
{
    if to <= from {
        seq![]
    } else {
        blocks(policy, files, inputs, from, to - 1) + block(
            policy,
            files.len() > 1,
            files[to - 1],
            inputs[to - 1],
        )
    }
}

/// Everything that is written in a run over `files`, where the source of
/// each name gives what stands at its position in `inputs`.
pub open spec fn transcript(policy: Policy, files: Seq<Seq<char>>, inputs: Seq<Input>) -> Seq<
    EmissionView,
> {
    blocks(policy, files, inputs, 0, files.len() as int)
}

/// Whether `inputs` can stand for the sources of `files` in a run under
/// `policy`: there is one for each name, and each holds what is read under
/// the policy.
pub open spec fn inputs_fit(policy: Policy, files: Seq<Seq<char>>, inputs: Seq<Input>) -> bool {
    &&& inputs.len() == files.len()
    &&& forall|i: int| 0 <= i < inputs.len() ==> readable_under(policy, #[trigger] inputs[i])
}

/// Tells whether `inputs` can stand for the sources of `files` in a run
/// under `policy`.
pub fn check_inputs(policy: Policy, files: &Vec<String>, inputs: &Vec<Input>) -> (fit: bool)
    ensures
        fit == inputs_fit(policy, files.deep_view(), inputs@),
{
    if inputs.len() != files.len() {
        return false;
    }
    let bytewise = match policy {
        Policy::Head(Limit::Bytes(_)) => true,
        _ => false,
    };
    let mut i: usize = 0;
    while i < inputs.len()
        invariant
            i <= inputs.len(),
            bytewise == reads_bytes(policy),
            forall|j: int| 0 <= j < i ==> readable_under(policy, #[trigger] inputs[j]),
        decreases inputs.len() - i,
    {
        let readable = match &inputs[i] {
            Input::Unopenable(_) => true,
            Input::Lines { .. } => !bytewise,
            Input::Bytes { .. } => bytewise,
        };
        if !readable {
            return false;
        }
        i = i + 1;
    }
    true
}

/// What is written for the current source once `pos` of its lines or bytes
/// are read and it has not ended.
spec fn partial(policy: Policy, several: bool, name: Seq<char>, input: Input, pos: int) -> Seq<
    EmissionView,
> {
    heading(policy, several, name) + match (policy, input) {
        (Policy::Concatenate(mode), Input::Lines { lines, .. }) => line_emissions(
            formatted(mode, lines.deep_view()).take(pos),
        ),
        (Policy::Head(Limit::Lines(_)), Input::Lines { lines, .. }) => line_emissions(
            lines.deep_view().take(pos),
        ),
        (Policy::Head(Limit::Bytes(_)), Input::Bytes { bytes, .. }) => byte_emissions(
            bytes@.take(pos),
        ),
        _ => seq![],
    }
}

/// Whether the stage of `state` is the one reached by reading `pos` lines or
/// bytes of `input`.
spec fn stage_fits(state: DriverState, input: Input, pos: int) -> bool {
    match (state.stage, input) {
        (Stage::Opening, _) => true,
        (Stage::Formatting(formatter), Input::Lines { lines, .. }) => {
            &&& 0 <= pos <= lines.len()
            &&& formatter.count == indexed_among(formatter.mode, lines.deep_view().take(pos))
        },
        (Stage::Limiting(limiter), Input::Lines { lines, .. }) => {
            &&& 0 <= pos <= lines.len()
            &&& limiter.taken == pos
        },
        (Stage::Limiting(limiter), Input::Bytes { bytes, .. }) => {
            &&& 0 <= pos <= bytes.len()
            &&& limiter.taken == pos
            &&& pos > 0 ==> pos == bytes.len()
        },
        _ => false,
    }
}

/// How many lines or bytes `input` holds.
pub open spec fn content_len(input: Input) -> nat {
    match input {
        Input::Unopenable(_) => 0,
        Input::Lines { lines, .. } => lines.len() as nat,
        Input::Bytes { bytes, .. } => bytes.len() as nat,
    }
}

/// A bound on the steps that the current source can still take.
spec fn steps_left(state: DriverState, input: Input, pos: int) -> int {
    if state.stage is Opening {
        content_len(input) as int + 2
    } else {
        content_len(input) - pos + 1
    }
}

/// What holds between the steps of a run: the driver works on the file
/// list with the policy, and `written` is what the sources before the
/// current one give, followed by what was read of the current one so far.
spec fn run_inv(
    policy: Policy,
    files: Seq<Seq<char>>,
    inputs: Seq<Input>,
    state: DriverState,
    pos: int,
    written: Seq<EmissionView>,
) -> bool {
    &&& inputs_fit(policy, files, inputs)
    &&& state.wf()
    &&& state.files == files
    &&& state.policy == policy
    &&& if state.stage is Opening {
        written == blocks(policy, files, inputs, 0, state.current)
    } else {
        &&& stage_fits(state, inputs[state.current], pos)
        &&& written == blocks(policy, files, inputs, 0, state.current) + partial(
            policy,
            files.len() > 1,
            files[state.current],
            inputs[state.current],
            pos,
        )
    }
}

/// Whether `event` is the outcome of a reading that got to the end of what
/// a source holds: its failure where it has one, its end otherwise.
spec fn ends_with(failure: Option<String>, event: Event) -> bool {
    match failure {
        Some(cause) => event matches Event::ReadFailed(text) && text@ == cause@,
        None => event is EndOfInput,
    }
}

/// Whether `event` is what `request` finds in `input`, of which `pos` lines
/// or bytes are read, and `next_pos` lines or bytes are read after it.
spec fn answers(
    request: Request,
    input: Input,
    pos: int,
    event: Event,
    next_pos: int,
) -> bool {
    match request {
        Request::Finished => false,
        Request::Open => next_pos == 0 && match input {
            Input::Unopenable(cause) => event matches Event::OpenFailed(text) && text@ == cause@,
            _ => event is Opened,
        },
        Request::ReadLine => match input {
            Input::Lines { lines, failure } => if pos < lines.len() {
                &&& next_pos == pos + 1
                &&& event matches Event::Line(line) && line@ == lines@[pos]@
            } else {
                next_pos == pos && ends_with(failure, event)
            },
            _ => false,
        },
        Request::ReadBytes(wanted) => match input {
            Input::Bytes { bytes, failure } => if pos < bytes.len() {
                &&& pos < next_pos <= bytes.len()
                &&& next_pos - pos <= wanted
                &&& next_pos - pos == wanted || next_pos == bytes.len()
                &&& event matches Event::Chunk(chunk) && chunk@ == bytes@.subrange(pos, next_pos)
            } else {
                next_pos == pos && ends_with(failure, event)
            },
            _ => false,
        },
    }
}

/// The blocks up to a position are the blocks before it and its own.
proof fn lemma_blocks_extend(policy: Policy, files: Seq<Seq<char>>, inputs: Seq<Input>, to: int)
    requires
        0 <= to < files.len(),
    ensures
        blocks(policy, files, inputs, 0, to + 1) == blocks(policy, files, inputs, 0, to) + block(
            policy,
            files.len() > 1,
            files[to],
            inputs[to],
        ),
{
}

/// What a step of a run has to achieve: the event is accepted, what holds
/// between the steps holds after it, and the run is nearer to its end.
spec fn step_holds(
    policy: Policy,
    files: Seq<Seq<char>>,
    inputs: Seq<Input>,
    state: DriverState,
    pos: int,
    written: Seq<EmissionView>,
    event: Event,
    next_pos: int,
) -> bool {
    &&& state.accepts(event)
    &&& run_inv(
        policy,
        files,
        inputs,
        state.after(event),
        next_pos,
        written + state.emissions(event),
    )
    &&& state.after(event).current == state.current + 1 || (state.after(event).current
        == state.current && 0 <= steps_left(state.after(event), inputs[state.current], next_pos)
        < steps_left(state, inputs[state.current], pos))
}

/// The step that opens a source, or fails to.
proof fn lemma_opening_step(
    policy: Policy,
    files: Seq<Seq<char>>,
    inputs: Seq<Input>,
    state: DriverState,
    pos: int,
    written: Seq<EmissionView>,
    event: Event,
    next_pos: int,
)
    requires
        run_inv(policy, files, inputs, state, pos, written),
        !state.finished(),
        answers(state.request(), inputs[state.current], pos, event, next_pos),
        state.stage is Opening,
    ensures
        step_holds(policy, files, inputs, state, pos, written, event, next_pos),
{
    lemma_blocks_extend(policy, files, inputs, state.current);
}

/// The step that formats a line, or ends the source.
proof fn lemma_formatting_step(
    policy: Policy,
    files: Seq<Seq<char>>,
    inputs: Seq<Input>,
    state: DriverState,
    pos: int,
    written: Seq<EmissionView>,
    event: Event,
    next_pos: int,
)
    requires
        run_inv(policy, files, inputs, state, pos, written),
        !state.finished(),
        answers(state.request(), inputs[state.current], pos, event, next_pos),
        state.stage is Formatting,
    ensures
        step_holds(policy, files, inputs, state, pos, written, event, next_pos),
{
    let input = inputs[state.current];
    let name = files[state.current];
    let several = files.len() > 1;
    let before = blocks(policy, files, inputs, 0, state.current);
    let emitted = state.emissions(event);
    let mode = state.stage->Formatting_0.mode;
    lemma_blocks_extend(policy, files, inputs, state.current);
    if let Input::Lines { lines, failure } = input {
        if pos < lines.len() {
            lemma_indexed_among_step(mode, lines.deep_view(), pos);
            lemma_indexed_among_bounded(mode, lines.deep_view().take(pos));
            assert(written + emitted =~= before + partial(policy, several, name, input, pos + 1));
        } else {
            assert(written + emitted =~= before + block(policy, several, name, input));
        }
    }
}

/// The step that writes a line of a prefix, or ends the source.
proof fn lemma_limiting_lines_step(
    policy: Policy,
    files: Seq<Seq<char>>,
    inputs: Seq<Input>,
    state: DriverState,
    pos: int,
    written: Seq<EmissionView>,
    event: Event,
    next_pos: int,
)
    requires
        run_inv(policy, files, inputs, state, pos, written),
        !state.finished(),
        answers(state.request(), inputs[state.current], pos, event, next_pos),
        state.stage is Limiting,
        !reads_bytes(policy),
    ensures
        step_holds(policy, files, inputs, state, pos, written, event, next_pos),
{
    let input = inputs[state.current];
    let name = files[state.current];
    let several = files.len() > 1;
    let before = blocks(policy, files, inputs, 0, state.current);
    let emitted = state.emissions(event);
    let bound = state.stage->Limiting_0.bound;
    lemma_blocks_extend(policy, files, inputs, state.current);
    if let Input::Lines { lines, failure } = input {
        if pos < lines.len() && pos + 1 < bound {
            assert(written + emitted =~= before + partial(policy, several, name, input, pos + 1));
        } else {
            assert(written + emitted =~= before + block(policy, several, name, input));
        }
    }
}

/// The step that writes the bytes of a prefix, or ends the source.
proof fn lemma_limiting_bytes_step(
    policy: Policy,
    files: Seq<Seq<char>>,
    inputs: Seq<Input>,
    state: DriverState,
    pos: int,
    written: Seq<EmissionView>,
    event: Event,
    next_pos: int,
)
    requires
        run_inv(policy, files, inputs, state, pos, written),
        !state.finished(),
        answers(state.request(), inputs[state.current], pos, event, next_pos),
        state.stage is Limiting,
        reads_bytes(policy),
    ensures
        step_holds(policy, files, inputs, state, pos, written, event, next_pos),
{
    let input = inputs[state.current];
    let name = files[state.current];
    let several = files.len() > 1;
    let before = blocks(policy, files, inputs, 0, state.current);
    let emitted = state.emissions(event);
    let bound = state.stage->Limiting_0.bound;
    lemma_blocks_extend(policy, files, inputs, state.current);
    if let Input::Bytes { bytes, failure } = input {
        let all = bytes@;
        if pos < bytes.len() {
            let chunk = event->Chunk_0;
            assert(chunk@.take(next_pos) =~= chunk@);
            if next_pos >= bound {
                assert(first_bytes(all, bound as nat) =~= all.take(next_pos));
                assert(written + emitted =~= before + block(policy, several, name, input));
            } else {
                assert(written + emitted =~= before + partial(
                    policy,
                    several,
                    name,
                    input,
                    next_pos,
                ));
            }
        } else {
            assert(all.take(pos) =~= all);
            assert(written + emitted =~= before + block(policy, several, name, input));
        }
    }
}

/// A step of a run keeps what holds between the steps, and brings the run
/// nearer to its end.
proof fn lemma_run_step(
    policy: Policy,
    files: Seq<Seq<char>>,
    inputs: Seq<Input>,
    state: DriverState,
    pos: int,
    written: Seq<EmissionView>,
    event: Event,
    next_pos: int,
)
    requires
        run_inv(policy, files, inputs, state, pos, written),
        !state.finished(),
        answers(state.request(), inputs[state.current], pos, event, next_pos),
    ensures
        step_holds(policy, files, inputs, state, pos, written, event, next_pos),
{
    match state.stage {
        Stage::Opening => lemma_opening_step(
            policy,
            files,
            inputs,
            state,
            pos,
            written,
            event,
            next_pos,
        ),
        Stage::Formatting(_) => lemma_formatting_step(
            policy,
            files,
            inputs,
            state,
            pos,
            written,
            event,
            next_pos,
        ),
        Stage::Limiting(_) => if reads_bytes(policy) {
            lemma_limiting_bytes_step(policy, files, inputs, state, pos, written, event, next_pos)
        } else {
            lemma_limiting_lines_step(policy, files, inputs, state, pos, written, event, next_pos)
        },
    }
}

/// The event that ends the reading of a source in memory.
fn ending(failure: &Option<String>) -> (event: Event)
    ensures
        ends_with(*failure, event),
{
    match failure {
        Some(cause) => Event::ReadFailed(cause.clone()),
        None => Event::EndOfInput,
    }
}

/// Does in memory what `request` asks for, on a source that gives `input`
/// and of which `pos` lines or bytes are read. Gives back what was found,
/// and how many lines or bytes are read after it.
fn answer(request: Request, input: &Input, pos: usize) -> (found: (Event, usize))
    requires
        !(request is Finished),
        request is ReadLine ==> input is Lines && pos <= content_len(*input),
        request matches Request::ReadBytes(wanted) ==> input is Bytes && pos <= content_len(*input)
            && wanted > 0,
    ensures
        answers(request, *input, pos as int, found.0, found.1 as int),
{
    match request {
        Request::Open => match input {
            Input::Unopenable(cause) => (Event::OpenFailed(cause.clone()), 0),
            _ => (Event::Opened, 0),
        },
        Request::ReadLine => match input {
            Input::Lines { lines, failure } => if pos < lines.len() {
                (Event::Line(lines[pos].clone()), pos + 1)
            } else {
                (ending(failure), pos)
            },
            _ => (Event::EndOfInput, pos),
        },
        Request::ReadBytes(wanted) => match input {
            Input::Bytes { bytes, failure } => if pos < bytes.len() {
                let available = bytes.len() - pos;
                let taken = if wanted < available {
                    wanted
                } else {
                    available
                };
                let chunk = slice_to_vec(slice_subrange(bytes.as_slice(), pos, pos + taken));
                (Event::Chunk(chunk), pos + taken)
            } else {
                (ending(failure), pos)
            },
            _ => (Event::EndOfInput, pos),
        },
        Request::Finished => (Event::EndOfInput, pos),
    }
}

/// Runs the driver over `files`, where the source of each name gives what
/// stands at its position in `inputs`, and collects what is written.
///
/// The result is the transcript of the run: for each source in turn its
/// block, which depends on nothing but that source.
pub fn run_batch(files: &Vec<String>, policy: Policy, inputs: &Vec<Input>) -> (written: Vec<
    Emission,
>)
    requires
        inputs_fit(policy, files.deep_view(), inputs@),
    ensures
        written.deep_view() == transcript(policy, files.deep_view(), inputs@),
{
    let names = files.clone();
    let mut driver = Driver::new(names, policy);
    let mut written: Vec<Emission> = Vec::new();
    let mut pos: usize = 0;
    assert(written.deep_view() =~= Seq::empty());
    loop
        invariant
            run_inv(policy, files.deep_view(), inputs@, driver@, pos as int, written.deep_view()),
        ensures
            driver@.finished(),
            run_inv(policy, files.deep_view(), inputs@, driver@, pos as int, written.deep_view()),
        decreases
            files.len() - driver@.current,
            if driver@.finished() {
                0
            } else {
                steps_left(driver@, inputs@[driver@.current], pos as int)
            },
    {
        let request = driver.request();
        if let Request::Finished = request {
            break ;
        }
        let index = driver.position();
        let (event, next_pos) = answer(request, &inputs[index], pos);
        let ghost before = written.deep_view();
        let ghost state = driver@;
        proof {
            lemma_run_step(
                policy,
                files.deep_view(),
                inputs@,
                state,
                pos as int,
                before,
                event,
                next_pos as int,
            );
        }
        let mut emitted = driver.step(event);
        written.append(&mut emitted);
        assert(written.deep_view() =~= before + state.emissions(event));
        pos = next_pos;
    }
    written
}

/// No more lines take an index than there are lines.
proof fn lemma_indexed_among_bounded(mode: Mode, lines: Seq<Seq<char>>)
    ensures
        indexed_among(mode, lines) <= lines.len(),
    decreases lines.len(),
{
    if lines.len() > 0 {
        lemma_indexed_among_bounded(mode, lines.drop_last());
    }
}

/// Blocks over a range are the blocks of its first part followed by those
/// of its second part.
pub proof fn lemma_blocks_split(
    policy: Policy,
    files: Seq<Seq<char>>,
    inputs: Seq<Input>,
    from: int,
    mid: int,
    to: int,
)
    requires
        from <= mid <= to,
    ensures
        blocks(policy, files, inputs, from, to) == blocks(policy, files, inputs, from, mid)
            + blocks(policy, files, inputs, mid, to),
    decreases to - mid,
{
    if mid < to {
        lemma_blocks_split(policy, files, inputs, from, mid, to - 1);
    }
}

/// The transcript of a run is, for every source of the list, what is written
/// for the sources before it, then its own block, then what is written for
/// the sources after it: each source has one block, and the blocks stand in
/// the order of the list.
pub proof fn lemma_transcript_in_list_order(
    policy: Policy,
    files: Seq<Seq<char>>,
    inputs: Seq<Input>,
    i: int,
)
    requires
        files.len() == inputs.len(),
        0 <= i < files.len(),
    ensures
        transcript(policy, files, inputs) == blocks(policy, files, inputs, 0, i) + block(
            policy,
            files.len() > 1,
            files[i],
            inputs[i],
        ) + blocks(policy, files, inputs, i + 1, files.len() as int),
{
    lemma_blocks_split(policy, files, inputs, 0, i + 1, files.len() as int);
}

/// What is written for a range of sources depends on nothing but what these
/// sources give: two runs over the same list whose sources agree on the
/// range write the same for it, whatever the other sources do.
pub proof fn lemma_blocks_depend_on_own_sources(
    policy: Policy,
    files: Seq<Seq<char>>,
    inputs: Seq<Input>,
    others: Seq<Input>,
    from: int,
    to: int,
)
    requires
        0 <= from <= to,
        forall|i: int| from <= i < to ==> inputs[i] == others[i],
    ensures
        blocks(policy, files, inputs, from, to) == blocks(policy, files, others, from, to),
    decreases to - from,
{
    if from < to {
        lemma_blocks_depend_on_own_sources(policy, files, inputs, others, from, to - 1);
    }
}

/// A source that cannot be opened gives one diagnostic, which names it and
/// the cause, and nothing else; what is written for the sources before it
/// and after it is what would be written for them if it could be opened.
pub proof fn lemma_unopenable_source_is_passed_over(
    policy: Policy,
    files: Seq<Seq<char>>,
    inputs: Seq<Input>,
    i: int,
    replaced: Input,
)
    requires
        files.len() == inputs.len(),
        0 <= i < files.len(),
        inputs[i] is Unopenable,
    ensures
        block(policy, files.len() > 1, files[i], inputs[i]) == seq![
            EmissionView::Diagnostic(diagnostic(files[i], inputs[i]->Unopenable_0@)),
        ],
        transcript(policy, files, inputs) == blocks(policy, files, inputs, 0, i) + seq![
            EmissionView::Diagnostic(diagnostic(files[i], inputs[i]->Unopenable_0@)),
        ] + blocks(policy, files, inputs, i + 1, files.len() as int),
        blocks(policy, files, inputs.update(i, replaced), 0, i) == blocks(
            policy,
            files,
            inputs,
            0,
            i,
        ),
        blocks(policy, files, inputs.update(i, replaced), i + 1, files.len() as int) == blocks(
            policy,
            files,
            inputs,
            i + 1,
            files.len() as int,
        ),
{
    lemma_transcript_in_list_order(policy, files, inputs, i);
    lemma_blocks_depend_on_own_sources(policy, files, inputs.update(i, replaced), inputs, 0, i);
    lemma_blocks_depend_on_own_sources(
        policy,
        files,
        inputs.update(i, replaced),
        inputs,
        i + 1,
        files.len() as int,
    );
}

/// A failure while reading, like one while opening, ends the block of its
/// source with one diagnostic and leaves the other blocks alone: the block
/// is what could be read, and then the diagnostic. In head mode this holds
/// where the source gave less than the limit; a source that gave as much as
/// the limit is not read further, and a failure behind that never shows.
pub proof fn lemma_read_failure_ends_the_block(
    policy: Policy,
    several: bool,
    name: Seq<char>,
    input: Input,
)
    requires
        readable_under(policy, input),
        !(input is Unopenable),
    ensures
        ({
            let failure = match input {
                Input::Lines { failure, .. } => failure,
                Input::Bytes { failure, .. } => failure,
                _ => None,
            };
            let clean = match input {
                Input::Lines { lines, .. } => Input::Lines { lines, failure: None },
                Input::Bytes { bytes, .. } => Input::Bytes { bytes, failure: None },
                other => other,
            };
            let within = policy matches Policy::Head(limit) && content_len(input) >= limit.bound();
            block(policy, several, name, input) == block(policy, several, name, clean) + if within {
                seq![]
            } else {
                failure_report(name, failure)
            }
        }),
{
}

/// In head mode over several sources, the block of every source that could
/// be opened begins with the header of that source, and what follows the
/// header is the source's own prefix. Over a single source, and in
/// concatenate mode, no header is written: the block is the body.
pub proof fn lemma_one_header_before_each_source(
    policy: Policy,
    files: Seq<Seq<char>>,
    inputs: Seq<Input>,
    i: int,
)
    requires
        files.len() == inputs.len(),
        0 <= i < files.len(),
        !(inputs[i] is Unopenable),
    ensures
        policy is Head && files.len() > 1 ==> block(policy, true, files[i], inputs[i]) == seq![
            EmissionView::Line(header(files[i])),
        ] + body(policy, files[i], inputs[i]),
        policy is Concatenate || files.len() == 1 ==> block(
            policy,
            files.len() > 1,
            files[i],
            inputs[i],
        ) == body(policy, files[i], inputs[i]),
        transcript(policy, files, inputs) == blocks(policy, files, inputs, 0, i) + block(
            policy,
            files.len() > 1,
            files[i],
            inputs[i],
        ) + blocks(policy, files, inputs, i + 1, files.len() as int),
{
    lemma_transcript_in_list_order(policy, files, inputs, i);
}

/// A run over a single source writes that source's block, without a header.
pub proof fn lemma_transcript_of_one_source(policy: Policy, name: Seq<char>, input: Input)
    ensures
        transcript(policy, seq![name], seq![input]) == block(policy, false, name, input),
        !(input is Unopenable) ==> transcript(policy, seq![name], seq![input]) == body(
            policy,
            name,
            input,
        ),
{
    let files = seq![name];
    let inputs = seq![input];
    assert(blocks(policy, files, inputs, 0, 0) =~= Seq::empty());
}

/// Plain concatenation of a source that is read to its end writes as many
/// lines as the source holds, each as it was read, in the same order.
pub proof fn lemma_plain_writes_every_line(several: bool, name: Seq<char>, lines: Vec<String>)
    ensures
        block(
            Policy::Concatenate(Mode::Plain),
            several,
            name,
            Input::Lines { lines, failure: None },
        ) == line_emissions(lines.deep_view()),
        line_emissions(lines.deep_view()).len() == lines.len(),
        forall|i: int|
            0 <= i < lines.len() ==> #[trigger] line_emissions(lines.deep_view())[i]
                == EmissionView::Line(lines[i]@),
{
    lemma_plain_echoes(lines.deep_view());
}

/// Concatenation that numbers every line writes, for the line at position
/// `i` of a source, that line with the index `i + 1` in front, blank or not.
pub proof fn lemma_number_all_writes_position(
    several: bool,
    name: Seq<char>,
    lines: Vec<String>,
    failure: Option<String>,
    i: int,
)
    requires
        0 <= i < lines.len(),
    ensures
        block(
            Policy::Concatenate(Mode::NumberAll),
            several,
            name,
            Input::Lines { lines, failure },
        )[i] == EmissionView::Line(numbered((i + 1) as nat, lines[i]@)),
{
    lemma_number_all_counts_every_line(lines.deep_view(), i);
}

/// Concatenation that numbers the lines that are not blank writes an empty
/// line for a blank line, and for a line that is not blank that line with
/// its rank among the lines of the source that are not blank, counted from
/// one, in front.
pub proof fn lemma_number_nonblank_writes_rank(
    several: bool,
    name: Seq<char>,
    lines: Vec<String>,
    failure: Option<String>,
    i: int,
)
    requires
        0 <= i < lines.len(),
    ensures
        block(
            Policy::Concatenate(Mode::NumberNonblank),
            several,
            name,
            Input::Lines { lines, failure },
        )[i] == if is_blank(lines[i]@) {
            EmissionView::Line(Seq::<char>::empty())
        } else {
            EmissionView::Line(
                numbered(
                    indexed_among(Mode::NumberNonblank, lines.deep_view().take(i)) + 1,
                    lines[i]@,
                ),
            )
        },
{
    lemma_number_nonblank_skips_blank_lines(lines.deep_view(), i);
}

/// The head by lines of a source that is read without failure is its first
/// lines as they were read: as many as the limit says, or all where the
/// source holds fewer.
pub proof fn lemma_head_writes_first_lines(name: Seq<char>, lines: Vec<String>, n: usize)
    ensures
        block(
            Policy::Head(Limit::Lines(n)),
            false,
            name,
            Input::Lines { lines, failure: None },
        ) == line_emissions(first_lines(lines.deep_view(), n as nat)),
        first_lines(lines.deep_view(), n as nat).len() == if n <= lines.len() {
            n
        } else {
            lines.len()
        },
        forall|i: int|
            0 <= i < first_lines(lines.deep_view(), n as nat).len() ==> #[trigger] first_lines(
                lines.deep_view(),
                n as nat,
            )[i] == lines[i]@,
{
}

/// The head by bytes of a source that is read without failure is its first
/// bytes, as many as the limit says or all where the source holds fewer,
/// wherever in a line the last of them falls.
pub proof fn lemma_head_writes_first_bytes(name: Seq<char>, bytes: Vec<u8>, n: usize)
    ensures
        block(
            Policy::Head(Limit::Bytes(n)),
            false,
            name,
            Input::Bytes { bytes, failure: None },
        ) == byte_emissions(first_bytes(bytes@, n as nat)),
        first_bytes(bytes@, n as nat).len() == if n <= bytes.len() {
            n
        } else {
            bytes.len()
        },
        forall|i: int|
            0 <= i < first_bytes(bytes@, n as nat).len() ==> #[trigger] first_bytes(
                bytes@,
                n as nat,
            )[i] == bytes[i],
{
}

} // verus!
