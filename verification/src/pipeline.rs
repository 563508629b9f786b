//! The run as a whole: from a directory listing to the volume buffer.
//!
//! A run goes through the phases idle, discovering, decoding and assembling,
//! and ends ready or failed. What it holds in each phase is all that can be
//! had from it: the buffer exists in the ready state alone, so a failed run
//! exposes no partial volume. Reading the directory and the files is left to
//! the caller, who reports what was read as events.

use vstd::prelude::*;
use crate::assembler::{
    assemble,
    first_mismatch,
    lemma_concatenated_len,
    lemma_shape_failure_is_determined,
    lemma_stacked_by_content,
    lemma_stacked_sample,
    shape_failure,
    stacked,
    uniform,
    VolumeBuffer,
};
use crate::coordinator::{
    all_decoded,
    batch_failure,
    complete,
    empty_slots,
    lemma_decoded_is_determined,
    outcomes_of,
    DecodeBoard,
};
use crate::decoder::{container_outcome, decode_slice, lemma_outcome_is_filled};
use crate::error::{DecodeFault, ErrorKind, PipelineError};
use crate::locator::{
    discoverable,
    discovery_failure,
    is_located,
    lemma_index_follows_name,
    lemma_located_unique,
    lex_lt,
    locate,
    name_key,
    DirectoryEntry,
    DirectoryListing,
    DiscoveryPolicy,
    SliceRef,
};
use crate::slice::{DecodedSlice, Grid};

verus! {

/// How far a run has come.
#[derive(Clone, Copy, Debug, PartialEq, Eq, Structural)]
pub enum Phase {
    Idle,
    Discovering,
    Decoding,
    Assembling,
    Ready,
    Failed(ErrorKind),
}

/// A run, with what it holds in its phase.
#[derive(Debug)]
pub enum Pipeline {
    /// Nothing has happened yet.
    Idle,
    /// The directory is being enumerated.
    Discovering,
    /// The slice files are known, and their outcomes arrive on the board.
    Decoding { files: Vec<SliceRef>, board: DecodeBoard },
    /// Every slice is decoded.
    Assembling { files: Vec<SliceRef>, slices: Vec<DecodedSlice> },
    /// The volume is there, slice `z` of it from the `z`-th of the files.
    Ready { files: Vec<SliceRef>, buffer: VolumeBuffer },
    /// The run has failed, and holds nothing but the reason.
    Failed(PipelineError),
}

/// What the caller reports to a run.
#[derive(Debug)]
pub enum Event {
    /// The run is to begin.
    Start,
    /// The directory was enumerated, with this result, to be taken under this
    /// policy.
    Listed(DirectoryListing, DiscoveryPolicy),
    /// The slice at this position of the order was decoded, with this outcome.
    Arrived(usize, Result<DecodedSlice, DecodeFault>),
    /// No more outcomes will arrive.
    Joined,
    /// The decoded slices are to be assembled.
    Assemble,
}

impl Pipeline {
    pub open spec fn phase_spec(&self) -> Phase {
        match self {
            Pipeline::Idle => Phase::Idle,
            Pipeline::Discovering => Phase::Discovering,
            Pipeline::Decoding { .. } => Phase::Decoding,
            Pipeline::Assembling { .. } => Phase::Assembling,
            Pipeline::Ready { .. } => Phase::Ready,
            Pipeline::Failed(e) => Phase::Failed(e.kind()),
        }
    }

    /// The phase of the run.
    #[verifier::when_used_as_spec(phase_spec)]
    pub fn phase(&self) -> (phase: Phase)
        ensures
            phase == self.phase_spec(),
    {
        match self {
            Pipeline::Idle => Phase::Idle,
            Pipeline::Discovering => Phase::Discovering,
            Pipeline::Decoding { .. } => Phase::Decoding,
            Pipeline::Assembling { .. } => Phase::Assembling,
            Pipeline::Ready { .. } => Phase::Ready,
            Pipeline::Failed(e) => Phase::Failed(e.kind()),
        }
    }

    /// What the run holds belongs together: there is one slot, one decoded
    /// slice and one slice of the volume for each slice file, and the volume
    /// has a sample in every cell.
    pub open spec fn coherent(self) -> bool {
        match self {
            Pipeline::Decoding { files, board } => board@.len() == files@.len(),
            Pipeline::Assembling { files, slices } => slices@.len() == files@.len(),
            Pipeline::Ready { files, buffer } => buffer@.depth == files@.len() && buffer@.filled(),
            _ => true,
        }
    }

    /// The run has ended, ready or failed.
    pub open spec fn ended(self) -> bool {
        self is Ready || self is Failed
    }
}

/// The state `after` is what the event makes of the state `before`.
///
/// An event that does not belong to the phase changes nothing, and so does an
/// outcome for a slice that the batch does not have or whose outcome has
/// arrived before. A failed outcome fails the run when it arrives; outcomes
/// that arrive after that are dropped.
pub open spec fn steps_to(before: Pipeline, event: Event, after: Pipeline) -> bool {
    match (before, event) {
        (Pipeline::Idle, Event::Start) => after is Discovering,
        (Pipeline::Discovering, Event::Listed(listing, policy)) => {
            if discoverable(listing, policy) {
                &&& after matches Pipeline::Decoding { files, board }
                &&& listing matches DirectoryListing::Entries(entries)
                &&& is_located(entries@, files@)
                &&& board@ == empty_slots(files@.len())
            } else {
                &&& after matches Pipeline::Failed(e)
                &&& discovery_failure(listing, policy, e)
            }
        },
        (Pipeline::Decoding { files, board }, Event::Arrived(index, outcome)) => {
            if index < board@.len() && board@[index as int] is None {
                match outcome {
                    Err(fault) => after == Pipeline::Failed(fault.at(index)),
                    Ok(_) => {
                        &&& after matches Pipeline::Decoding { files: kept, board: filled }
                        &&& kept == files
                        &&& filled@ == board@.update(index as int, Some(outcome))
                    },
                }
            } else {
                after == before
            }
        },
        (Pipeline::Decoding { files, board }, Event::Joined) => {
            if !complete(board@) {
                after == before
            } else if (forall|i: int|
                0 <= i < board@.len() ==> (#[trigger] board@[i]) matches Some(Ok(_))) {
                &&& after matches Pipeline::Assembling { files: kept, slices }
                &&& kept == files
                &&& all_decoded(outcomes_of(board@), slices@)
            } else {
                &&& after matches Pipeline::Failed(e)
                &&& batch_failure(outcomes_of(board@), e)
            }
        },
        (Pipeline::Assembling { files, slices }, Event::Assemble) => {
            if uniform(slices@) {
                &&& after matches Pipeline::Ready { files: kept, buffer }
                &&& kept == files
                &&& buffer@ == stacked(slices@)
                &&& buffer@.filled()
            } else {
                &&& after matches Pipeline::Failed(e)
                &&& shape_failure(slices@, e)
            }
        },
        _ => after == before,
    }
}

/// Takes a run one event further.
pub fn step(state: Pipeline, event: Event) -> (next: Pipeline)
    ensures
        steps_to(state, event, next),
        state.coherent() ==> next.coherent(),
{
    match (state, event) {
        (Pipeline::Idle, Event::Start) => Pipeline::Discovering,
        (Pipeline::Discovering, Event::Listed(listing, policy)) => {
            match locate(&listing, policy) {
                Ok(files) => {
                    let board = DecodeBoard::new(files.len());
                    Pipeline::Decoding { files, board }
                },
                Err(e) => Pipeline::Failed(e),
            }
        },
        (Pipeline::Decoding { files, board }, Event::Arrived(index, outcome)) => {
            if !board.is_vacant(index) {
                return Pipeline::Decoding { files, board };
            }
            match outcome {
                Err(fault) => Pipeline::Failed(fault.at(index)),
                Ok(slice) => {
                    let mut board = board;
                    let _ = board.place(index, Ok(slice));
                    Pipeline::Decoding { files, board }
                },
            }
        },
        (Pipeline::Decoding { files, board }, Event::Joined) => {
            if board.is_complete() {
                match board.finish() {
                    Some(Ok(slices)) => Pipeline::Assembling { files, slices },
                    Some(Err(e)) => Pipeline::Failed(e),
                    None => unreached(),
                }
            } else {
                Pipeline::Decoding { files, board }
            }
        },
        (Pipeline::Assembling { files, slices }, Event::Assemble) => {
            match assemble(&slices) {
                Ok(buffer) => Pipeline::Ready { files, buffer },
                Err(e) => Pipeline::Failed(e),
            }
        },
        (state, _) => state,
    }
}

/// A run that has ended stays as it is, whatever is reported to it.
pub proof fn lemma_ended_is_final(before: Pipeline, event: Event, after: Pipeline)
    requires
        before.ended(),
        steps_to(before, event, after),
    ensures
        after == before,
{
}

/// The phase that follows `phase` when the run goes on.
pub open spec fn following(phase: Phase) -> Phase {
    match phase {
        Phase::Idle => Phase::Discovering,
        Phase::Discovering => Phase::Decoding,
        Phase::Decoding => Phase::Assembling,
        Phase::Assembling => Phase::Ready,
        Phase::Ready => Phase::Ready,
        Phase::Failed(kind) => Phase::Failed(kind),
    }
}

/// The failures that can arise in a phase: of the directory while
/// discovering, of a slice while decoding, of the shapes while assembling.
pub open spec fn arises_in(kind: ErrorKind, phase: Phase) -> bool {
    match phase {
        Phase::Discovering => kind == ErrorKind::NotFound || kind == ErrorKind::Discovery,
        Phase::Decoding => kind == ErrorKind::Decode || kind == ErrorKind::UnsupportedEncoding
            || kind == ErrorKind::Conversion,
        Phase::Assembling => kind == ErrorKind::ShapeMismatch,
        _ => false,
    }
}

/// A step leaves the phase as it is, takes it to the one that follows, or
/// fails the run with a failure that can arise in the phase. No phase is
/// skipped and none is gone back to.
pub proof fn lemma_phases_in_order(before: Pipeline, event: Event, after: Pipeline)
    requires
        steps_to(before, event, after),
    ensures
        ({
            ||| after.phase() == before.phase()
            ||| after.phase() == following(before.phase())
            ||| {
                &&& after.phase() matches Phase::Failed(kind)
                &&& arises_in(kind, before.phase())
            }
        }),
{
}

/// Depth order is name order. In the volume of a run whose slice files all
/// have different names, the sample in column `x` and row `y` at depth `i` is
/// that of the slice decoded from the `i`-th file, and the file at depth `i`
/// stands before the file at depth `j` exactly when its name comes before.
/// In which order the outcomes arrived plays no part in it.
pub proof fn lemma_depth_follows_name(
    entries: Seq<DirectoryEntry>,
    files: Seq<SliceRef>,
    outcomes: Seq<Result<DecodedSlice, DecodeFault>>,
    slices: Seq<DecodedSlice>,
    x: int,
    y: int,
    i: int,
    j: int,
)
    requires
        is_located(entries, files),
        forall|a: int, b: int|
            0 <= a < b < files.len() ==> name_key(#[trigger] files[a]) != name_key(
                #[trigger] files[b],
            ),
        outcomes.len() == files.len(),
        all_decoded(outcomes, slices),
        uniform(slices),
        forall|k: int| 0 <= k < slices.len() ==> (#[trigger] slices[k])@.filled(),
        0 <= i < files.len(),
        0 <= j < files.len(),
        0 <= x < slices[0]@.width,
        0 <= y < slices[0]@.height,
    ensures
        outcomes[i] == Ok::<DecodedSlice, DecodeFault>(slices[i]),
        stacked(slices).at(x, y, i) == slices[i]@.at(x, y),
        lex_lt(name_key(files[i]), name_key(files[j])) <==> i < j,
{
    lemma_stacked_sample(slices, x, y, i);
    lemma_index_follows_name(entries, files, i, j);
}

/// A run is a function of what it is given. Two runs on the same listing,
/// whose slices decode to the same outcomes, find the same slice files in the
/// same order, decode the same slices and stack them into the same volume.
pub proof fn lemma_rerun_is_identical(
    entries: Seq<DirectoryEntry>,
    outcomes: Seq<Result<DecodedSlice, DecodeFault>>,
    first_files: Seq<SliceRef>,
    second_files: Seq<SliceRef>,
    first_slices: Seq<DecodedSlice>,
    second_slices: Seq<DecodedSlice>,
)
    requires
        is_located(entries, first_files),
        is_located(entries, second_files),
        all_decoded(outcomes, first_slices),
        all_decoded(outcomes, second_slices),
    ensures
        first_files == second_files,
        first_slices == second_slices,
        stacked(first_slices) == stacked(second_slices),
{
    lemma_located_unique(entries, first_files, second_files);
    lemma_decoded_is_determined(outcomes, first_slices, second_slices);
}

/// The volume of a run, with the slice files that it was made from: slice `z`
/// of the volume is the `z`-th of the files.
#[derive(Debug)]
pub struct Assembly {
    pub files: Vec<SliceRef>,
    pub buffer: VolumeBuffer,
}

/// The entries of a listing; none where the directory is missing.
pub open spec fn listed(listing: DirectoryListing) -> Seq<DirectoryEntry> {
    match listing {
        DirectoryListing::Entries(entries) => entries@,
        DirectoryListing::Missing => Seq::empty(),
    }
}

/// What decoding makes of the `k`-th slice file: of its contents, which stand
/// at the position of its entry, or a malformed container where there are no
/// contents for it.
pub open spec fn outcome_at(files: Seq<SliceRef>, contents: Seq<Vec<u8>>, k: int) -> Result<
    Grid,
    DecodeFault,
> {
    if files[k].entry < contents.len() {
        container_outcome(contents[files[k].entry as int]@)
    } else {
        Err(DecodeFault::Malformed)
    }
}

/// Every slice file decodes, and `slices` are what they decode to, in the
/// order of the files.
pub open spec fn decoded_all(
    files: Seq<SliceRef>,
    contents: Seq<Vec<u8>>,
    slices: Seq<DecodedSlice>,
) -> bool {
    &&& slices.len() == files.len()
    &&& forall|k: int|
        0 <= k < files.len() ==> outcome_at(files, contents, k) == Ok::<Grid, DecodeFault>(
            (#[trigger] slices[k])@,
        )
}

/// The failure `e` is that of the first slice file that does not decode, and
/// it names that file by its position in the order.
pub open spec fn first_failure(
    files: Seq<SliceRef>,
    contents: Seq<Vec<u8>>,
    e: PipelineError,
) -> bool {
    &&& e.place() matches Some(index)
    &&& index < files.len()
    &&& outcome_at(files, contents, index as int) matches Err(fault)
    &&& e == fault.at(index)
    &&& forall|j: int| 0 <= j < index ==> (#[trigger] outcome_at(files, contents, j)) is Ok
}

/// What a run gives on these slice files and contents.
///
/// Where a slice file does not decode, the run fails with the failure of the
/// first such file. Where all decode but not to one shape, it fails with the
/// first slice of another shape. Otherwise it gives the files and the volume
/// that stacks what they decode to, in the order of the files.
pub open spec fn run_gives(
    files: Seq<SliceRef>,
    contents: Seq<Vec<u8>>,
    r: Result<Assembly, PipelineError>,
) -> bool {
    match r {
        Ok(assembly) => {
            &&& assembly.files@ == files
            &&& exists|slices: Seq<DecodedSlice>|
                #[trigger] decoded_all(files, contents, slices) && uniform(slices)
                    && assembly.buffer@ == stacked(slices)
        },
        Err(e) => {
            ||| first_failure(files, contents, e)
            ||| exists|slices: Seq<DecodedSlice>|
                #[trigger] decoded_all(files, contents, slices) && shape_failure(slices, e)
        },
    }
}

/// What all slice files decode to is a function of the files and contents.
proof fn lemma_decoded_all_agree(
    files: Seq<SliceRef>,
    contents: Seq<Vec<u8>>,
    a: Seq<DecodedSlice>,
    b: Seq<DecodedSlice>,
)
    requires
        decoded_all(files, contents, a),
        decoded_all(files, contents, b),
    ensures
        a.len() == b.len(),
        forall|k: int|
            #![trigger a[k]]
            #![trigger b[k]]
            0 <= k < a.len() ==> a[k]@ == b[k]@,
{
    assert forall|k: int|
        #![trigger a[k]]
        #![trigger b[k]]
        0 <= k < a.len() implies a[k]@ == b[k]@ by {
        assert(outcome_at(files, contents, k) == Ok::<Grid, DecodeFault>(a[k]@));
        assert(outcome_at(files, contents, k) == Ok::<Grid, DecodeFault>(b[k]@));
    }
}

/// A run is a function of the slice files and their contents: two runs on
/// the same files and contents give the same files and the same volume, or
/// fail with the same failure.
pub proof fn lemma_run_is_determined(
    files: Seq<SliceRef>,
    contents: Seq<Vec<u8>>,
    first: Result<Assembly, PipelineError>,
    second: Result<Assembly, PipelineError>,
)
    requires
        run_gives(files, contents, first),
        run_gives(files, contents, second),
    ensures
        match (first, second) {
            (Ok(a), Ok(b)) => a.files@ == b.files@ && a.buffer@ == b.buffer@,
            (Err(e), Err(f)) => e == f,
            _ => false,
        },
{
    lemma_run_or_failure(files, contents, first, second);
    lemma_run_or_failure(files, contents, second, first);
    match (first, second) {
        (Ok(a), Ok(b)) => {
            let sa = choose|slices: Seq<DecodedSlice>|
                #[trigger] decoded_all(files, contents, slices) && uniform(slices) && a.buffer@
                    == stacked(slices);
            let sb = choose|slices: Seq<DecodedSlice>|
                #[trigger] decoded_all(files, contents, slices) && uniform(slices) && b.buffer@
                    == stacked(slices);
            lemma_decoded_all_agree(files, contents, sa, sb);
            lemma_stacked_by_content(sa, sb);
        },
        (Err(e), Err(f)) => {
            if first_failure(files, contents, e) {
                if first_failure(files, contents, f) {
                } else {
                    let sb = choose|slices: Seq<DecodedSlice>|
                        #[trigger] decoded_all(files, contents, slices) && shape_failure(
                            slices,
                            f,
                        );
                    assert(outcome_at(files, contents, e.place()->0 as int) == Ok::<
                        Grid,
                        DecodeFault,
                    >(sb[e.place()->0 as int]@));
                }
            } else {
                let sa = choose|slices: Seq<DecodedSlice>|
                    #[trigger] decoded_all(files, contents, slices) && shape_failure(slices, e);
                if first_failure(files, contents, f) {
                    assert(outcome_at(files, contents, f.place()->0 as int) == Ok::<
                        Grid,
                        DecodeFault,
                    >(sa[f.place()->0 as int]@));
                } else {
                    let sb = choose|slices: Seq<DecodedSlice>|
                        #[trigger] decoded_all(files, contents, slices) && shape_failure(
                            slices,
                            f,
                        );
                    lemma_decoded_all_agree(files, contents, sa, sb);
                    lemma_stacked_by_content(sa, sb);
                    assert(shape_failure(sa, f) == shape_failure(sb, f));
                    lemma_shape_failure_is_determined(sa, e, f);
                }
            }
        },
        _ => {},
    }
}

/// A run that gives a volume on some files and contents cannot fail on them.
proof fn lemma_run_or_failure(
    files: Seq<SliceRef>,
    contents: Seq<Vec<u8>>,
    first: Result<Assembly, PipelineError>,
    second: Result<Assembly, PipelineError>,
)
    requires
        run_gives(files, contents, first),
        run_gives(files, contents, second),
    ensures
        !(first is Ok && second is Err),
{
    match (first, second) {
        (Ok(a), Err(f)) => {
            let sa = choose|slices: Seq<DecodedSlice>|
                #[trigger] decoded_all(files, contents, slices) && uniform(slices) && a.buffer@
                    == stacked(slices);
            if first_failure(files, contents, f) {
                assert(outcome_at(files, contents, f.place()->0 as int) == Ok::<
                    Grid,
                    DecodeFault,
                >(sa[f.place()->0 as int]@));
            } else {
                let sb = choose|slices: Seq<DecodedSlice>|
                    #[trigger] decoded_all(files, contents, slices) && shape_failure(slices, f);
                lemma_decoded_all_agree(files, contents, sa, sb);
                lemma_stacked_by_content(sa, sb);
                assert(first_mismatch(sb, f.place()->0 as int));
                assert(!sb[f.place()->0 as int]@.same_shape(sb[0]@));
                assert(sb[f.place()->0 as int]@.same_shape(sb[0]@));
            }
        },
        _ => {},
    }
}

/// In the volume of a run, slice `z` is what the `z`-th slice file decodes
/// to: it has the width and height of the volume, and its sample in column
/// `x` and row `y` is the sample of the volume at `(x, y, z)`.
pub proof fn lemma_run_sample(
    files: Seq<SliceRef>,
    contents: Seq<Vec<u8>>,
    assembly: Assembly,
    x: int,
    y: int,
    z: int,
)
    requires
        run_gives(files, contents, Ok::<Assembly, PipelineError>(assembly)),
        0 <= z < files.len(),
        0 <= x < assembly.buffer@.width,
        0 <= y < assembly.buffer@.height,
    ensures
        assembly.buffer@.depth == files.len(),
        assembly.buffer@.filled(),
        outcome_at(files, contents, z) matches Ok(grid) && grid.width == assembly.buffer@.width
            && grid.height == assembly.buffer@.height && assembly.buffer@.at(x, y, z) == grid.at(
            x,
            y,
        ),
{
    let slices = choose|slices: Seq<DecodedSlice>|
        #[trigger] decoded_all(files, contents, slices) && uniform(slices) && assembly.buffer@
            == stacked(slices);
    assert forall|k: int| 0 <= k < slices.len() implies (#[trigger] slices[k])@.filled() by {
        assert(outcome_at(files, contents, k) == Ok::<Grid, DecodeFault>(slices[k]@));
        if files[k].entry < contents.len() {
            lemma_outcome_is_filled(contents[files[k].entry as int]@);
        }
    }
    assert(outcome_at(files, contents, z) == Ok::<Grid, DecodeFault>(slices[z]@));
    assert(slices[z]@.same_shape(slices[0]@));
    lemma_concatenated_len(slices);
    lemma_stacked_sample(slices, x, y, z);
}

/// What a run gives on a listing and the contents of its entries: the
/// failure of discovery where discovery fails, and otherwise what it gives on
/// the slice files of the listing in their order.
pub open spec fn ran(
    listing: DirectoryListing,
    policy: DiscoveryPolicy,
    contents: Seq<Vec<u8>>,
    r: Result<Assembly, PipelineError>,
) -> bool {
    if discoverable(listing, policy) {
        exists|files: Seq<SliceRef>|
            #[trigger] is_located(listed(listing), files) && run_gives(files, contents, r)
    } else {
        &&& r matches Err(e)
        &&& discovery_failure(listing, policy, e)
    }
}

/// Running twice on an unchanged directory gives the same: the same files and
/// the same volume, sample for sample, or the same failure.
pub proof fn lemma_rerun_gives_the_same(
    listing: DirectoryListing,
    policy: DiscoveryPolicy,
    contents: Seq<Vec<u8>>,
    first: Result<Assembly, PipelineError>,
    second: Result<Assembly, PipelineError>,
)
    requires
        ran(listing, policy, contents, first),
        ran(listing, policy, contents, second),
    ensures
        match (first, second) {
            (Ok(a), Ok(b)) => a.files@ == b.files@ && a.buffer@ == b.buffer@,
            (Err(e), Err(f)) => e == f,
            _ => false,
        },
{
    if discoverable(listing, policy) {
        let fa = choose|files: Seq<SliceRef>|
            #[trigger] is_located(listed(listing), files) && run_gives(files, contents, first);
        let fb = choose|files: Seq<SliceRef>|
            #[trigger] is_located(listed(listing), files) && run_gives(files, contents, second);
        lemma_located_unique(listed(listing), fa, fb);
        lemma_run_is_determined(fa, contents, first, second);
    }
}

/// Runs the whole pipeline on a listing and the contents of its entries,
/// `contents[p]` being what the file of the entry at position `p` holds. An
/// entry without contents counts as a malformed container.
///
/// The slices are decoded one after the other in the total order, and the run
/// stops at the first failure. Where discovery fails, the run fails as
/// discovery does. Otherwise it fails with the failure of the first slice
/// file that does not decode, or of the first slice of another shape, or it
/// gives the volume that stacks the decoded slices in the order of their
/// files, with the files beside it.
pub fn run(listing: DirectoryListing, policy: DiscoveryPolicy, contents: &Vec<Vec<u8>>) -> (r:
    Result<Assembly, PipelineError>)
    ensures
        !discoverable(listing, policy) ==> {
            &&& r matches Err(e)
            &&& discovery_failure(listing, policy, e)
        },
        r matches Ok(assembly) ==> {
            &&& discoverable(listing, policy)
            &&& is_located(listed(listing), assembly.files@)
            &&& assembly.buffer@.depth == assembly.files@.len()
            &&& assembly.buffer@.filled()
        },
        ran(listing, policy, contents@, r),
{
    let started = step(Pipeline::Idle, Event::Start);
    let mut state = step(started, Event::Listed(listing, policy));
    let count = match &state {
        Pipeline::Decoding { files, .. } => files.len(),
        _ => 0,
    };
    let ghost located: Seq<SliceRef> = match &state {
        Pipeline::Decoding { files, .. } => files@,
        _ => Seq::empty(),
    };
    let mut index: usize = 0;
    while index < count
        invariant
            index <= count,
            discoverable(listing, policy) ==> {
                &&& is_located(listed(listing), located)
                &&& located.len() == count
            },
            match state {
                Pipeline::Decoding { files, board } => {
                    &&& discoverable(listing, policy)
                    &&& files@ == located
                    &&& board@.len() == count
                    &&& (forall|i: int|
                        0 <= i < index ==> {
                            &&& (#[trigger] board@[i]) matches Some(Ok(slice))
                            &&& outcome_at(located, contents@, i) == Ok::<Grid, DecodeFault>(
                                slice@,
                            )
                        })
                    &&& (forall|i: int| index <= i < count ==> (#[trigger] board@[i]) is None)
                },
                Pipeline::Failed(e) => if discoverable(listing, policy) {
                    first_failure(located, contents@, e)
                } else {
                    discovery_failure(listing, policy, e)
                },
                _ => false,
            },
        decreases count - index,
    {
        let entry = match &state {
            Pipeline::Decoding { files, .. } => Some(files[index].entry),
            _ => None,
        };
        match entry {
            None => {
                index = count;
            },
            Some(entry) => {
                let outcome = if entry < contents.len() {
                    decode_slice(contents[entry].as_slice())
                } else {
                    Err(DecodeFault::Malformed)
                };
                proof {
                    assert(located[index as int].entry == entry);
                    match &outcome {
                        Ok(slice) => {
                            assert(outcome_at(located, contents@, index as int) == Ok::<
                                Grid,
                                DecodeFault,
                            >(slice@));
                        },
                        Err(fault) => {
                            assert(outcome_at(located, contents@, index as int) == Err::<
                                Grid,
                                DecodeFault,
                            >(*fault));
                        },
                    }
                }
                let ghost arrived = outcome;
                let ghost previous = state;
                state = step(state, Event::Arrived(index, outcome));
                let ghost next = state;
                proof {
                    match (previous, next) {
                        (
                            Pipeline::Decoding { board: before, .. },
                            Pipeline::Decoding { board, .. },
                        ) => {
                            assert(board@ == before@.update(index as int, Some(arrived)));
                            assert forall|i: int| 0 <= i < index + 1 implies {
                                &&& (#[trigger] board@[i]) matches Some(Ok(slice))
                                &&& outcome_at(located, contents@, i) == Ok::<Grid, DecodeFault>(
                                    slice@,
                                )
                            } by {
                                if i < index {
                                    assert(board@[i] == before@[i]);
                                } else {
                                    assert(board@[i] == Some(arrived));
                                }
                            }
                        },
                        (Pipeline::Decoding { board: before, .. }, Pipeline::Failed(e)) => {
                            assert forall|j: int| 0 <= j < index implies (#[trigger] outcome_at(
                                located,
                                contents@,
                                j,
                            )) is Ok by {
                                assert(before@[j] is Some);
                            }
                            assert(first_failure(located, contents@, e));
                        },
                        _ => {},
                    }
                }
                index += 1;
            },
        }
    }
    proof {
        match &state {
            Pipeline::Decoding { board, .. } => {
                assert(complete(board@));
                assert(outcomes_of(board@).len() == count);
            },
            _ => {},
        }
    }
    let joined = step(state, Event::Joined);
    let ghost decoded: Seq<DecodedSlice> = match &joined {
        Pipeline::Assembling { slices, .. } => slices@,
        _ => Seq::empty(),
    };
    proof {
        if joined is Assembling {
            assert(state is Decoding);
            assert(decoded.len() == count);
            assert forall|k: int| 0 <= k < located.len() implies outcome_at(
                located,
                contents@,
                k,
            ) == Ok::<Grid, DecodeFault>((#[trigger] decoded[k])@) by {
                match &state {
                    Pipeline::Decoding { board, .. } => {
                        assert(board@[k] is Some);
                        assert(outcomes_of(board@)[k] == Ok::<DecodedSlice, DecodeFault>(
                            decoded[k],
                        ));
                    },
                    _ => {},
                }
            }
            assert(decoded_all(located, contents@, decoded));
        }
    }
    let ended = step(joined, Event::Assemble);
    let r = match ended {
        Pipeline::Ready { files, buffer } => Ok(Assembly { files, buffer }),
        Pipeline::Failed(e) => Err(e),
        _ => unreached(),
    };
    proof {
        if discoverable(listing, policy) {
            assert(is_located(listed(listing), located));
            assert(run_gives(located, contents@, r));
        }
    }
    r
}

} // verus!
