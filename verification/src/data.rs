//! A recording, step by step, and its pivot into one history per entity.

use crate::beam::{BeamBundle, BeamState};
use crate::polar::{PolarVec3, Vec3};
use crate::state::State;
use crate::timeseries::{chronological, Active, TimeSeries};
use vstd::prelude::*;

verus! {

/// The range every beam is drawn to, in length units. `beams` takes it in
/// the caller's scalar type.
pub const MAX_RANGE: u32 = 200_000;

/// The number of beams that every step of a recording holds.
pub const BEAM_COUNT: usize = 4;

/// One beam as recorded: its angular width, and its azimuth and elevation.
#[derive(Clone, Copy, Debug, PartialEq)]
pub struct Beam<S> {
    pub width: S,
    pub position: [S; 2],
}

/// One estimated track as recorded.
#[derive(Clone, Debug, PartialEq)]
pub struct Track<S> {
    pub state: [S; 6],
    pub uncertainty: Vec<S>,
}

/// One snapshot of the recording. `truths` and `tracks` are keyed by
/// entity identifier; where a step lists an identifier twice, its first
/// record counts.
#[derive(Clone, Debug, PartialEq)]
pub struct Step<S> {
    pub elapsed: i64,
    pub truths: Vec<(String, [S; 6])>,
    pub tracks: Vec<(String, Track<S>)>,
    pub beams: Vec<Beam<S>>,
}

/// Why a recording cannot be pivoted.
#[derive(Clone, Copy, Debug, PartialEq, Eq, Structural)]
pub enum FormatError {
    /// The recording has no step, so an entity would have no sample.
    EmptyHistory,
    /// The step at this position holds fewer than `BEAM_COUNT` beams.
    MissingBeam { step: usize },
}

/// A line of the recording that could not be decoded, and why.
#[derive(Clone, Copy, Debug, PartialEq, Eq)]
pub struct ParseError<E> {
    /// The position of the line among the lines of the recording.
    pub line: usize,
    pub cause: E,
}

/// A recording held in memory, in step order.
pub struct SimulationRun<S> {
    steps: Vec<Step<S>>,
}

/// The identifiers of a keyed list, in its order.
pub open spec fn ids_of<R>(entries: Seq<(String, R)>) -> Seq<Seq<char>> {
    entries.map_values(|entry: (String, R)| entry.0@)
}

/// The record that a keyed list holds for `id`: that of the first entry
/// with this identifier.
pub open spec fn lookup<R>(entries: Seq<(String, R)>, id: Seq<char>) -> Option<R>
    decreases entries.len(),
{
    if entries.len() == 0 {
        None
    } else if entries.first().0@ == id {
        Some(entries.first().1)
    } else {
        lookup(entries.drop_first(), id)
    }
}

/// `known`, followed by those of `ids` that are new, each once and in
/// order of first occurrence.
pub open spec fn merge_ids(known: Seq<Seq<char>>, ids: Seq<Seq<char>>) -> Seq<Seq<char>>
    decreases ids.len(),
{
    if ids.len() == 0 {
        known
    } else {
        let merged = merge_ids(known, ids.drop_last());
        if merged.contains(ids.last()) {
            merged
        } else {
            merged.push(ids.last())
        }
    }
}

/// The display state that a raw six-component record stands for. The
/// recording interleaves its axes; position is read from components
/// 2, 4, 0 and velocity from components 1, 3, 5.
pub open spec fn record_state<S>(record: [S; 6]) -> State<S> {
    State {
        pos: Vec3 { x: record[2], y: record[4], z: record[0] },
        vel: Vec3 { x: record[1], y: record[3], z: record[5] },
    }
}

/// The identifiers that a run of keyed lists holds, each once, in order of
/// first appearance.
pub open spec fn seen_ids<R>(frames: Seq<(i64, Seq<(String, R)>)>) -> Seq<Seq<char>>
    decreases frames.len(),
{
    if frames.len() == 0 {
        Seq::empty()
    } else {
        merge_ids(seen_ids(frames.drop_last()), ids_of(frames.last().1))
    }
}

/// The timestamped records of `id`: one for each frame that holds the
/// identifier, in frame order. Frames without it contribute nothing.
pub open spec fn records_of<R>(frames: Seq<(i64, Seq<(String, R)>)>, id: Seq<char>) -> Seq<
    (i64, R),
> {
    frames.filter_map(record_in(id))
}

/// What one frame contributes to the history of `id`: its time and the
/// record it holds for `id`, or nothing.
pub open spec fn record_in<R>(id: Seq<char>) -> spec_fn((i64, Seq<(String, R)>)) -> Option<(i64, R)> {
    |frame: (i64, Seq<(String, R)>)|
        match lookup(frame.1, id) {
            Some(record) => Some((frame.0, record)),
            None => None,
        }
}

/// A timestamped raw record as a timestamped display state.
pub open spec fn truth_sample<S>() -> spec_fn((i64, [S; 6])) -> (i64, State<S>) {
    |sample: (i64, [S; 6])| (sample.0, record_state(sample.1))
}

/// A timestamped track as a timestamped display state.
pub open spec fn track_sample<S>() -> spec_fn((i64, Track<S>)) -> (i64, State<S>) {
    |sample: (i64, Track<S>)| (sample.0, record_state(sample.1.state))
}

/// The ground-truth part of a recording: each step's time and truth list.
pub open spec fn truth_frames<S>(steps: Seq<Step<S>>) -> Seq<(i64, Seq<(String, [S; 6])>)> {
    steps.map_values(|step: Step<S>| (step.elapsed, step.truths@))
}

/// The estimated-track part of a recording: each step's time and track list.
pub open spec fn track_frames<S>(steps: Seq<Step<S>>) -> Seq<(i64, Seq<(String, Track<S>)>)> {
    steps.map_values(|step: Step<S>| (step.elapsed, step.tracks@))
}

/// Every ground-truth identifier of the recording, each once, in order of
/// first appearance.
pub open spec fn truth_ids<S>(steps: Seq<Step<S>>) -> Seq<Seq<char>> {
    seen_ids(truth_frames(steps))
}

/// Every track identifier of the recording, each once, in order of first
/// appearance.
pub open spec fn track_ids<S>(steps: Seq<Step<S>>) -> Seq<Seq<char>> {
    seen_ids(track_frames(steps))
}

/// The history of ground truth `id`: its state at each step that lists it.
pub open spec fn truth_history<S>(steps: Seq<Step<S>>, id: Seq<char>) -> Seq<(i64, State<S>)> {
    records_of(truth_frames(steps), id).map_values(truth_sample())
}

/// The history of track `id`: its estimated state at each step that lists it.
pub open spec fn track_history<S>(steps: Seq<Step<S>>, id: Seq<char>) -> Seq<(i64, State<S>)> {
    records_of(track_frames(steps), id).map_values(track_sample())
}

/// Whether a step holds every beam that the format promises.
pub open spec fn has_all_beams<S>(step: Step<S>) -> bool {
    step.beams@.len() >= BEAM_COUNT
}

/// What beam number `index` shows for a record: the recorded width, and
/// the recorded direction drawn out to `max_range`.
pub open spec fn beam_state<S>(beam: Beam<S>, index: usize, max_range: S) -> BeamState<S> {
    BeamState {
        width: beam.width,
        target: PolarVec3 {
            range: max_range,
            azimuth: beam.position[0],
            elevation: beam.position[1],
        },
        index,
    }
}

/// The sample that one step contributes to beam number `index`.
pub open spec fn beam_sample<S>(index: usize, max_range: S) -> spec_fn(Step<S>) -> (
    i64,
    BeamState<S>,
) {
    |step: Step<S>| (step.elapsed, beam_state(step.beams@[index as int], index, max_range))
}

/// The history of beam number `index`: beams have no names, so it is the
/// record at position `index` of every step.
pub open spec fn beam_history<S>(steps: Seq<Step<S>>, index: usize, max_range: S) -> Seq<
    (i64, BeamState<S>),
> {
    steps.map_values(beam_sample(index, max_range))
}

/// Steps never go back in time.
pub open spec fn in_time_order<S>(steps: Seq<Step<S>>) -> bool {
    forall|i: int, j: int| 0 <= i <= j < steps.len() ==> steps[i].elapsed <= steps[j].elapsed
}

/// The identifiers that borrowed strings stand for.
pub open spec fn id_views(ids: Seq<&String>) -> Seq<Seq<char>> {
    ids.map_values(|id: &String| id@)
}

/// `lookup` finds a record exactly for the identifiers that the list holds,
/// and the record is that of the first entry with the identifier.
pub proof fn lemma_lookup<R>(entries: Seq<(String, R)>, id: Seq<char>)
    ensures
        match lookup(entries, id) {
            Some(record) => exists|j: int|
                {
                    &&& 0 <= j < entries.len()
                    &&& (#[trigger] entries[j]).0@ == id
                    &&& entries[j].1 == record
                    &&& forall|k: int| 0 <= k < j ==> (#[trigger] entries[k]).0@ != id
                },
            None => forall|j: int| 0 <= j < entries.len() ==> (#[trigger] entries[j]).0@ != id,
        },
        lookup(entries, id) is Some <==> ids_of(entries).contains(id),
    decreases entries.len(),
{
    if entries.len() == 0 {
    } else if entries.first().0@ == id {
        assert(entries[0].0@ == id);
        assert(ids_of(entries)[0] == id);
    } else {
        let rest = entries.drop_first();
        lemma_lookup(rest, id);
        assert forall|j: int| 0 <= j < rest.len() implies rest[j] == entries[j + 1] by {}
        match lookup(rest, id) {
            Some(record) => {
                let j = choose|j: int|
                    {
                        &&& 0 <= j < rest.len()
                        &&& (#[trigger] rest[j]).0@ == id
                        &&& rest[j].1 == record
                        &&& forall|k: int| 0 <= k < j ==> (#[trigger] rest[k]).0@ != id
                    };
                assert(entries[j + 1].0@ == id);
                assert forall|k: int| 0 <= k < j + 1 implies (#[trigger] entries[k]).0@ != id by {
                    if k > 0 {
                        assert(rest[k - 1] == entries[k]);
                    }
                }
                assert(ids_of(entries)[j + 1] == id);
            },
            None => {
                assert forall|j: int| 0 <= j < entries.len() implies (#[trigger] entries[j]).0@
                    != id by {
                    if j > 0 {
                        assert(rest[j - 1] == entries[j]);
                    }
                }
                if ids_of(entries).contains(id) {
                    let j = choose|j: int| 0 <= j < ids_of(entries).len() && ids_of(entries)[j] == id;
                    assert(entries[j].0@ == id);
                }
            },
        }
    }
}

/// Merging keeps what was known in place, adds exactly the new
/// identifiers, and never adds one twice.
pub proof fn lemma_merge_ids(known: Seq<Seq<char>>, ids: Seq<Seq<char>>)
    ensures
        known.is_prefix_of(merge_ids(known, ids)),
        forall|id: Seq<char>|
            merge_ids(known, ids).contains(id) <==> known.contains(id) || ids.contains(id),
        known.no_duplicates() ==> merge_ids(known, ids).no_duplicates(),
    decreases ids.len(),
{
    if ids.len() > 0 {
        let fewer = ids.drop_last();
        let merged = merge_ids(known, fewer);
        let all = merge_ids(known, ids);
        lemma_merge_ids(known, fewer);
        assert forall|id: Seq<char>| all.contains(id) <==> known.contains(id) || ids.contains(
            id,
        ) by {
            if ids.contains(id) {
                let j = choose|j: int| 0 <= j < ids.len() && ids[j] == id;
                if j < fewer.len() {
                    assert(fewer[j] == id);
                    assert(fewer.contains(id));
                    assert(merged.contains(id));
                }
            }
            if merged.contains(id) {
                let j = choose|j: int| 0 <= j < merged.len() && merged[j] == id;
                assert(all[j] == id);
                if fewer.contains(id) {
                    let k = choose|k: int| 0 <= k < fewer.len() && fewer[k] == id;
                    assert(ids[k] == id);
                }
            }
            if all.contains(id) && !merged.contains(id) {
                let j = choose|j: int| 0 <= j < all.len() && all[j] == id;
                if j < merged.len() {
                    assert(merged[j] == id);
                }
                assert(id == ids.last());
                assert(ids[ids.len() - 1] == id);
            }
            if id == ids.last() {
                assert(ids[ids.len() - 1] == id);
                if !merged.contains(id) {
                    assert(all[merged.len() as int] == id);
                }
            }
        }
    }
}

/// What the pivot finds is what the recording holds: an identifier is seen
/// exactly when some frame has a record for it, which is exactly when its
/// history is not empty; and no identifier is seen twice.
pub proof fn lemma_seen_ids<R>(frames: Seq<(i64, Seq<(String, R)>)>)
    ensures
        seen_ids(frames).no_duplicates(),
        forall|id: Seq<char>|
            seen_ids(frames).contains(id) <==> exists|i: int|
                0 <= i < frames.len() && lookup((#[trigger] frames[i]).1, id) is Some,
        forall|id: Seq<char>|
            seen_ids(frames).contains(id) <==> #[trigger] records_of(frames, id).len() > 0,
    decreases frames.len(),
{
    if frames.len() == 0 {
        assert forall|id: Seq<char>| !seen_ids(frames).contains(id) by {}
    } else {
        let rest = frames.drop_last();
        let last = frames.last();
        lemma_seen_ids(rest);
        lemma_merge_ids(seen_ids(rest), ids_of(last.1));
        assert forall|i: int| 0 <= i < rest.len() implies rest[i] == frames[i] by {}
        assert forall|id: Seq<char>|
            {
                &&& seen_ids(frames).contains(id) <==> exists|i: int|
                    0 <= i < frames.len() && lookup((#[trigger] frames[i]).1, id) is Some
                &&& seen_ids(frames).contains(id) <==> records_of(frames, id).len() > 0
            } by {
            lemma_lookup(last.1, id);
            let here = lookup(last.1, id) is Some;
            let earlier = exists|i: int|
                0 <= i < rest.len() && lookup((#[trigger] rest[i]).1, id) is Some;
            assert(seen_ids(frames).contains(id) <==> earlier || here);
            if earlier {
                let i = choose|i: int|
                    0 <= i < rest.len() && lookup((#[trigger] rest[i]).1, id) is Some;
                assert(lookup(frames[i].1, id) is Some);
            }
            if here {
                assert(lookup(frames[frames.len() - 1].1, id) is Some);
            }
            if exists|i: int| 0 <= i < frames.len() && lookup((#[trigger] frames[i]).1, id) is Some {
                let i = choose|i: int|
                    0 <= i < frames.len() && lookup((#[trigger] frames[i]).1, id) is Some;
                if i < rest.len() {
                    assert(lookup(rest[i].1, id) is Some);
                }
            }
            assert(records_of(frames, id).len() == records_of(rest, id).len() + if here {
                1int
            } else {
                0int
            });
        }
    }
}

/// Along a recording whose steps never go back in time, every history
/// that the pivot builds is chronological.
pub proof fn lemma_records_chronological<R>(frames: Seq<(i64, Seq<(String, R)>)>, id: Seq<char>)
    requires
        forall|i: int, j: int| 0 <= i <= j < frames.len() ==> frames[i].0 <= frames[j].0,
    ensures
        forall|a: int, b: int|
            0 <= a <= b < records_of(frames, id).len() ==> records_of(frames, id)[a].0
                <= records_of(frames, id)[b].0,
        forall|a: int|
            0 <= a < records_of(frames, id).len() && frames.len() > 0 ==> records_of(
                frames,
                id,
            )[a].0 <= frames.last().0,
    decreases frames.len(),
{
    if frames.len() > 0 {
        let rest = frames.drop_last();
        assert forall|i: int| 0 <= i < rest.len() implies rest[i] == frames[i] by {}
        lemma_records_chronological(rest, id);
        let all = records_of(frames, id);
        let fewer = records_of(rest, id);
        if rest.len() > 0 {
            assert(rest.last() == frames[rest.len() - 1]);
        }
        assert forall|a: int| 0 <= a < fewer.len() implies fewer[a].0 <= frames.last().0 by {
            assert(fewer[a].0 <= rest.last().0);
        }
        assert forall|a: int| 0 <= a < fewer.len() implies all[a] == fewer[a] by {}
    }
}

/// The pivot is complete and exact: every ground truth that some step
/// lists gets one history and no other identifier gets any, and a history
/// has a sample for a step exactly when the step lists its identifier.
pub proof fn lemma_truths_complete<S>(steps: Seq<Step<S>>)
    ensures
        truth_ids(steps).no_duplicates(),
        forall|id: Seq<char>|
            truth_ids(steps).contains(id) <==> exists|i: int|
                0 <= i < steps.len() && lookup((#[trigger] steps[i]).truths@, id) is Some,
        forall|id: Seq<char>|
            truth_ids(steps).contains(id) <==> #[trigger] truth_history(steps, id).len() > 0,
{
    let frames = truth_frames(steps);
    lemma_seen_ids(frames);
    assert forall|id: Seq<char>|
        truth_ids(steps).contains(id) <==> exists|i: int|
            0 <= i < steps.len() && lookup((#[trigger] steps[i]).truths@, id) is Some by {
        if truth_ids(steps).contains(id) {
            let i = choose|i: int|
                0 <= i < frames.len() && lookup((#[trigger] frames[i]).1, id) is Some;
            assert(lookup(steps[i].truths@, id) is Some);
        }
        if exists|i: int|
            0 <= i < steps.len() && lookup((#[trigger] steps[i]).truths@, id) is Some {
            let i = choose|i: int|
                0 <= i < steps.len() && lookup((#[trigger] steps[i]).truths@, id) is Some;
            assert(lookup(frames[i].1, id) is Some);
        }
    }
    assert forall|id: Seq<char>|
        truth_ids(steps).contains(id) <==> #[trigger] truth_history(steps, id).len() > 0 by {
        assert(truth_history(steps, id).len() == records_of(frames, id).len());
    }
}

/// As `lemma_truths_complete`, for the estimated tracks.
pub proof fn lemma_tracks_complete<S>(steps: Seq<Step<S>>)
    ensures
        track_ids(steps).no_duplicates(),
        forall|id: Seq<char>|
            track_ids(steps).contains(id) <==> exists|i: int|
                0 <= i < steps.len() && lookup((#[trigger] steps[i]).tracks@, id) is Some,
        forall|id: Seq<char>|
            track_ids(steps).contains(id) <==> #[trigger] track_history(steps, id).len() > 0,
{
    let frames = track_frames(steps);
    lemma_seen_ids(frames);
    assert forall|id: Seq<char>|
        track_ids(steps).contains(id) <==> exists|i: int|
            0 <= i < steps.len() && lookup((#[trigger] steps[i]).tracks@, id) is Some by {
        if track_ids(steps).contains(id) {
            let i = choose|i: int|
                0 <= i < frames.len() && lookup((#[trigger] frames[i]).1, id) is Some;
            assert(lookup(steps[i].tracks@, id) is Some);
        }
        if exists|i: int|
            0 <= i < steps.len() && lookup((#[trigger] steps[i]).tracks@, id) is Some {
            let i = choose|i: int|
                0 <= i < steps.len() && lookup((#[trigger] steps[i]).tracks@, id) is Some;
            assert(lookup(frames[i].1, id) is Some);
        }
    }
    assert forall|id: Seq<char>|
        track_ids(steps).contains(id) <==> #[trigger] track_history(steps, id).len() > 0 by {
        assert(track_history(steps, id).len() == records_of(frames, id).len());
    }
}

/// From a recording in time order the pivot builds chronological
/// histories, for ground truths, tracks and beams alike.
pub proof fn lemma_histories_chronological<S>(
    steps: Seq<Step<S>>,
    id: Seq<char>,
    index: usize,
    max_range: S,
)
    requires
        in_time_order(steps),
    ensures
        chronological(truth_history(steps, id)),
        chronological(track_history(steps, id)),
        chronological(beam_history(steps, index, max_range)),
{
    let truths = truth_frames(steps);
    let tracks = track_frames(steps);
    assert forall|i: int, j: int| 0 <= i <= j < truths.len() implies truths[i].0
        <= truths[j].0 by {
        assert(steps[i].elapsed <= steps[j].elapsed);
    }
    assert forall|i: int, j: int| 0 <= i <= j < tracks.len() implies tracks[i].0
        <= tracks[j].0 by {
        assert(steps[i].elapsed <= steps[j].elapsed);
    }
    lemma_records_chronological(truths, id);
    lemma_records_chronological(tracks, id);
    let beams = beam_history(steps, index, max_range);
    assert forall|i: int, j: int| 0 <= i <= j < beams.len() implies beams[i].0 <= beams[j].0 by {
        assert(steps[i].elapsed <= steps[j].elapsed);
    }
}

/// The record for `id` in a keyed list, if the list holds the identifier.
pub fn find<'a, R>(entries: &'a Vec<(String, R)>, id: &String) -> (found: Option<&'a R>)
    ensures
        match found {
            Some(record) => lookup(entries@, id@) == Some(*record),
            None => lookup(entries@, id@) is None,
        },
{
    let mut j: usize = 0;
    assert(entries@.skip(0) == entries@);
    while j < entries.len()
        invariant
            j <= entries@.len(),
            lookup(entries@, id@) == lookup(entries@.skip(j as int), id@),
        decreases entries@.len() - j,
    {
        assert(entries@.skip(j as int).first() == entries@[j as int]);
        if entries[j].0 == *id {
            return Some(&entries[j].1);
        }
        assert(entries@.skip(j as int).drop_first() == entries@.skip(j + 1));
        j += 1;
    }
    None
}

/// Whether `id` is among `known`.
fn is_known(known: &Vec<&String>, id: &String) -> (yes: bool)
    ensures
        yes == id_views(known@).contains(id@),
{
    let mut k: usize = 0;
    while k < known.len()
        invariant
            k <= known@.len(),
            forall|m: int| 0 <= m < k ==> id_views(known@)[m] != id@,
        decreases known@.len() - k,
    {
        if *known[k] == *id {
            assert(id_views(known@)[k as int] == id@);
            return true;
        }
        k += 1;
    }
    false
}

/// Adds to `known` the identifiers of `entries` that it does not hold yet.
fn note_ids<'a, R>(known: &mut Vec<&'a String>, entries: &'a Vec<(String, R)>)
    ensures
        id_views(final(known)@) == merge_ids(id_views(old(known)@), ids_of(entries@)),
{
    let mut j: usize = 0;
    assert(ids_of(entries@).take(0) == Seq::<Seq<char>>::empty());
    while j < entries.len()
        invariant
            j <= entries@.len(),
            id_views(known@) == merge_ids(id_views(old(known)@), ids_of(entries@).take(j as int)),
        decreases entries@.len() - j,
    {
        let ghost before = id_views(known@);
        let ghost ids = ids_of(entries@);
        assert(ids.take(j + 1).drop_last() == ids.take(j as int));
        assert(ids.take(j + 1).last() == entries@[j as int].0@);
        if !is_known(known, &entries[j].0) {
            known.push(&entries[j].0);
            assert(id_views(known@) == before.push(entries@[j as int].0@));
        }
        j += 1;
    }
    assert(ids_of(entries@).take(j as int) == ids_of(entries@));
}

/// The display state of a raw record.
pub fn state_of<S: Copy>(record: &[S; 6]) -> (state: State<S>)
    ensures
        state == record_state(*record),
{
    State::new(
        Vec3::new(record[2], record[4], record[0]),
        Vec3::new(record[1], record[3], record[5]),
    )
}

impl<S> View for SimulationRun<S> {
    type V = Seq<Step<S>>;

    closed spec fn view(&self) -> Seq<Step<S>> {
        self.steps@
    }
}

impl<S: Copy> SimulationRun<S> {
    /// A recording of the given steps, in their order.
    pub fn new(steps: Vec<Step<S>>) -> (run: Self)
        ensures
            run@ == steps@,
    {
        SimulationRun { steps }
    }

    /// A recording from its lines as they were decoded, in their order.
    /// It is all or nothing: one line that could not be decoded refuses the
    /// whole recording, and the error names the first such line.
    pub fn from_decoded<E>(decoded: Vec<Result<Step<S>, E>>) -> (result: Result<
        Self,
        ParseError<E>,
    >)
        ensures
            match result {
                Ok(run) => {
                    &&& run@.len() == decoded@.len()
                    &&& forall|i: int|
                        0 <= i < decoded@.len() ==> #[trigger] decoded@[i] == Ok::<Step<S>, E>(
                            run@[i],
                        )
                },
                Err(error) => {
                    &&& error.line < decoded@.len()
                    &&& decoded@[error.line as int] == Err::<Step<S>, E>(error.cause)
                    &&& forall|j: int| 0 <= j < error.line ==> (#[trigger] decoded@[j]) is Ok
                },
            },
    {
        let mut steps: Vec<Step<S>> = Vec::new();
        let mut line: usize = 0;
        let ghost count = decoded.len();
        for item in lines: decoded.into_iter()
            invariant
                count == lines.seq().len(),
                line == lines.index(),
                steps@.len() == line,
                forall|i: int|
                    0 <= i < line ==> #[trigger] lines.seq()[i] == Ok::<Step<S>, E>(steps@[i]),
        {
            match item {
                Ok(step) => {
                    steps.push(step);
                },
                Err(cause) => {
                    return Err(ParseError { line, cause });
                },
            }
            line += 1;
        }
        Ok(SimulationRun { steps })
    }

    /// The ground-truth identifiers of the recording, each once, in order
    /// of first appearance.
    pub fn truth_ids(&self) -> (ids: Vec<&String>)
        ensures
            id_views(ids@) == truth_ids(self@),
    {
        let mut ids: Vec<&String> = Vec::new();
        let mut i: usize = 0;
        assert(id_views(ids@) == Seq::<Seq<char>>::empty());
        while i < self.steps.len()
            invariant
                i <= self.steps@.len(),
                id_views(ids@) == truth_ids(self.steps@.take(i as int)),
            decreases self.steps@.len() - i,
        {
            proof {
                let longer = truth_frames(self.steps@.take(i + 1));
                assert(longer.drop_last() == truth_frames(self.steps@.take(i as int)));
                assert(longer.last().1 == self.steps@[i as int].truths@);
            }
            note_ids(&mut ids, &self.steps[i].truths);
            i += 1;
        }
        assert(self.steps@.take(i as int) == self.steps@);
        ids
    }

    /// The history of ground truth `id`: one sample for each step that
    /// lists it. Steps without it are skipped, so a gap in the recording
    /// stays a gap in the history.
    pub fn truth_history(&self, id: &String) -> (history: Vec<(i64, State<S>)>)
        ensures
            history@ == truth_history(self@, id@),
    {
        let mut history: Vec<(i64, State<S>)> = Vec::new();
        let mut i: usize = 0;
        let ghost frames = truth_frames(self.steps@);
        let ghost pick = record_in::<[S; 6]>(id@);
        let ghost shape = truth_sample::<S>();
        while i < self.steps.len()
            invariant
                i <= self.steps@.len(),
                frames == truth_frames(self.steps@),
                pick == record_in::<[S; 6]>(id@),
                shape == truth_sample::<S>(),
                history@ == frames.take(i as int).filter_map(pick).map_values(shape),
            decreases self.steps@.len() - i,
        {
            proof {
                frames.lemma_filter_map_take_succ(pick, i as int);
            }
            let step = &self.steps[i];
            let ghost so_far = history@;
            match find(&step.truths, id) {
                Some(record) => {
                    history.push((step.elapsed, state_of(record)));
                    assert(history@ == so_far.push(shape((step.elapsed, *record))));
                },
                None => {},
            }
            i += 1;
        }
        assert(frames.take(i as int) == frames);
        history
    }

    /// One entity for each ground truth of the recording, in the order of
    /// `truth_ids`: its history, the state of its first sample as the value
    /// shown, and inactive until the clock first resolves it.
    pub fn truths(&self) -> (entities: Vec<(TimeSeries<State<S>>, State<S>, Active)>)
        ensures
            entities@.len() == truth_ids(self@).len(),
            forall|k: int|
                0 <= k < entities@.len() ==> {
                    &&& (#[trigger] entities@[k]).0@ == truth_history(self@, truth_ids(self@)[k])
                    &&& entities@[k].0@.len() > 0
                    &&& entities@[k].1 == entities@[k].0@[0].1
                    &&& entities@[k].2 == Active(false)
                },
    {
        let ids = self.truth_ids();
        let mut entities: Vec<(TimeSeries<State<S>>, State<S>, Active)> = Vec::new();
        let mut k: usize = 0;
        while k < ids.len()
            invariant
                k <= ids@.len(),
                id_views(ids@) == truth_ids(self@),
                entities@.len() == k,
                forall|m: int|
                    0 <= m < k ==> {
                        &&& (#[trigger] entities@[m]).0@ == truth_history(
                            self@,
                            truth_ids(self@)[m],
                        )
                        &&& entities@[m].0@.len() > 0
                        &&& entities@[m].1 == entities@[m].0@[0].1
                        &&& entities@[m].2 == Active(false)
                    },
            decreases ids@.len() - k,
        {
            let id = ids[k];
            assert(id@ == id_views(ids@)[k as int]);
            let history = self.truth_history(id);
            proof {
                lemma_seen_ids(truth_frames(self@));
                assert(truth_ids(self@).contains(id@));
                assert(records_of(truth_frames(self@), id@).len() > 0);
            }
            let series = TimeSeries::new(history);
            let first = *series.first();
            entities.push((series, first, Active(false)));
            k += 1;
        }
        entities
    }

    /// The track identifiers of the recording, each once, in order of
    /// first appearance.
    pub fn track_ids(&self) -> (ids: Vec<&String>)
        ensures
            id_views(ids@) == track_ids(self@),
    {
        let mut ids: Vec<&String> = Vec::new();
        let mut i: usize = 0;
        assert(id_views(ids@) == Seq::<Seq<char>>::empty());
        while i < self.steps.len()
            invariant
                i <= self.steps@.len(),
                id_views(ids@) == track_ids(self.steps@.take(i as int)),
            decreases self.steps@.len() - i,
        {
            proof {
                let longer = track_frames(self.steps@.take(i + 1));
                assert(longer.drop_last() == track_frames(self.steps@.take(i as int)));
                assert(longer.last().1 == self.steps@[i as int].tracks@);
            }
            note_ids(&mut ids, &self.steps[i].tracks);
            i += 1;
        }
        assert(self.steps@.take(i as int) == self.steps@);
        ids
    }

    /// The history of track `id`: one sample for each step that lists it.
    pub fn track_history(&self, id: &String) -> (history: Vec<(i64, State<S>)>)
        ensures
            history@ == track_history(self@, id@),
    {
        let mut history: Vec<(i64, State<S>)> = Vec::new();
        let mut i: usize = 0;
        let ghost frames = track_frames(self.steps@);
        let ghost pick = record_in::<Track<S>>(id@);
        let ghost shape = track_sample::<S>();
        while i < self.steps.len()
            invariant
                i <= self.steps@.len(),
                frames == track_frames(self.steps@),
                pick == record_in::<Track<S>>(id@),
                shape == track_sample::<S>(),
                history@ == frames.take(i as int).filter_map(pick).map_values(shape),
            decreases self.steps@.len() - i,
        {
            proof {
                frames.lemma_filter_map_take_succ(pick, i as int);
            }
            let step = &self.steps[i];
            let ghost so_far = history@;
            match find(&step.tracks, id) {
                Some(track) => {
                    history.push((step.elapsed, state_of(&track.state)));
                    assert(history@ == so_far.push(shape((step.elapsed, *track))));
                },
                None => {},
            }
            i += 1;
        }
        assert(frames.take(i as int) == frames);
        history
    }

    /// One entity for each estimated track of the recording, in the order
    /// of `track_ids`, built as `truths` builds the ground truths.
    pub fn tracks(&self) -> (entities: Vec<(TimeSeries<State<S>>, State<S>, Active)>)
        ensures
            entities@.len() == track_ids(self@).len(),
            forall|k: int|
                0 <= k < entities@.len() ==> {
                    &&& (#[trigger] entities@[k]).0@ == track_history(self@, track_ids(self@)[k])
                    &&& entities@[k].0@.len() > 0
                    &&& entities@[k].1 == entities@[k].0@[0].1
                    &&& entities@[k].2 == Active(false)
                },
    {
        let ids = self.track_ids();
        let mut entities: Vec<(TimeSeries<State<S>>, State<S>, Active)> = Vec::new();
        let mut k: usize = 0;
        while k < ids.len()
            invariant
                k <= ids@.len(),
                id_views(ids@) == track_ids(self@),
                entities@.len() == k,
                forall|m: int|
                    0 <= m < k ==> {
                        &&& (#[trigger] entities@[m]).0@ == track_history(
                            self@,
                            track_ids(self@)[m],
                        )
                        &&& entities@[m].0@.len() > 0
                        &&& entities@[m].1 == entities@[m].0@[0].1
                        &&& entities@[m].2 == Active(false)
                    },
            decreases ids@.len() - k,
        {
            let id = ids[k];
            assert(id@ == id_views(ids@)[k as int]);
            let history = self.track_history(id);
            proof {
                lemma_seen_ids(track_frames(self@));
                assert(track_ids(self@).contains(id@));
                assert(records_of(track_frames(self@), id@).len() > 0);
            }
            let series = TimeSeries::new(history);
            let first = *series.first();
            entities.push((series, first, Active(false)));
            k += 1;
        }
        entities
    }

    /// The position of the first step that holds fewer than `BEAM_COUNT`
    /// beams, if there is one.
    pub fn first_short_step(&self) -> (found: Option<usize>)
        ensures
            match found {
                Some(i) => {
                    &&& i < self@.len()
                    &&& !has_all_beams(self@[i as int])
                    &&& forall|j: int| 0 <= j < i ==> has_all_beams(#[trigger] self@[j])
                },
                None => forall|j: int| 0 <= j < self@.len() ==> has_all_beams(#[trigger] self@[j]),
            },
    {
        let mut i: usize = 0;
        while i < self.steps.len()
            invariant
                i <= self.steps@.len(),
                forall|j: int| 0 <= j < i ==> has_all_beams(#[trigger] self.steps@[j]),
            decreases self.steps@.len() - i,
        {
            if self.steps[i].beams.len() < BEAM_COUNT {
                return Some(i);
            }
            i += 1;
        }
        None
    }

    /// The history of beam number `index`, drawn out to `max_range`.
    fn beam_history(&self, index: usize, max_range: S) -> (history: Vec<(i64, BeamState<S>)>)
        requires
            index < BEAM_COUNT,
            forall|j: int| 0 <= j < self@.len() ==> has_all_beams(#[trigger] self@[j]),
        ensures
            history@ == beam_history(self@, index, max_range),
    {
        let mut history: Vec<(i64, BeamState<S>)> = Vec::new();
        let mut i: usize = 0;
        while i < self.steps.len()
            invariant
                i <= self.steps@.len(),
                index < BEAM_COUNT,
                forall|j: int| 0 <= j < self@.len() ==> has_all_beams(#[trigger] self@[j]),
                history@ == beam_history(self.steps@.take(i as int), index, max_range),
            decreases self.steps@.len() - i,
        {
            let step = &self.steps[i];
            assert(has_all_beams(self@[i as int]));
            let beam = &step.beams[index];
            let target = PolarVec3::new(max_range, beam.position[0], beam.position[1]);
            let state = BeamState { width: beam.width, target, index };
            history.push((step.elapsed, state));
            assert(history@ == beam_history(self.steps@.take(i + 1), index, max_range));
            i += 1;
        }
        assert(self.steps@.take(i as int) == self.steps@);
        history
    }

    /// The sensor's beams, `BEAM_COUNT` of them, each with its history
    /// drawn out to `max_range`, showing its first sample, and active from
    /// the start. A recording without steps, or with a step that holds too
    /// few beams, is refused.
    pub fn beams(&self, max_range: S) -> (result: Result<Vec<BeamBundle<S>>, FormatError>)
        ensures
            match result {
                Ok(bundles) => {
                    &&& self@.len() > 0
                    &&& forall|j: int| 0 <= j < self@.len() ==> has_all_beams(#[trigger] self@[j])
                    &&& bundles@.len() == BEAM_COUNT
                    &&& forall|k: int|
                        0 <= k < BEAM_COUNT ==> {
                            &&& (#[trigger] bundles@[k]).history@ == beam_history(
                                self@,
                                k as usize,
                                max_range,
                            )
                            &&& bundles@[k].state == bundles@[k].history@[0].1
                            &&& bundles@[k].active == Active(true)
                        }
                },
                Err(FormatError::EmptyHistory) => self@.len() == 0,
                Err(FormatError::MissingBeam { step }) => {
                    &&& step < self@.len()
                    &&& !has_all_beams(self@[step as int])
                    &&& forall|j: int| 0 <= j < step ==> has_all_beams(#[trigger] self@[j])
                },
            },
    {
        if self.steps.len() == 0 {
            return Err(FormatError::EmptyHistory);
        }
        match self.first_short_step() {
            Some(step) => {
                return Err(FormatError::MissingBeam { step });
            },
            None => {},
        }
        let mut bundles: Vec<BeamBundle<S>> = Vec::new();
        let mut index: usize = 0;
        while index < BEAM_COUNT
            invariant
                index <= BEAM_COUNT,
                self.steps@.len() > 0,
                forall|j: int| 0 <= j < self@.len() ==> has_all_beams(#[trigger] self@[j]),
                bundles@.len() == index,
                forall|k: int|
                    0 <= k < index ==> {
                        &&& (#[trigger] bundles@[k]).history@ == beam_history(
                            self@,
                            k as usize,
                            max_range,
                        )
                        &&& bundles@[k].state == bundles@[k].history@[0].1
                        &&& bundles@[k].active == Active(true)
                    },
            decreases BEAM_COUNT - index,
        {
            let history = self.beam_history(index, max_range);
            let series = TimeSeries::new(history);
            let state = *series.first();
            bundles.push(BeamBundle { state, history: series, active: Active(true) });
            index += 1;
        }
        Ok(bundles)
    }
}

} // verus!
