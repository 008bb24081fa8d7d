use sim_replay::beam::{BeamBundle, BeamState};
use sim_replay::data::{
    find, state_of, Beam, FormatError, ParseError, SimulationRun, Step, Track, BEAM_COUNT,
    MAX_RANGE,
};
use sim_replay::polar::{PolarVec3, Vec3};
use sim_replay::state::State;
use sim_replay::timeseries::{
    advance_time, update_current_time, Active, Time, TimeFlow, TimeSeries,
};

fn record(base: f32) -> [f32; 6] {
    [base, base + 1.0, base + 2.0, base + 3.0, base + 4.0, base + 5.0]
}

fn beam(width: f32, azimuth: f32, elevation: f32) -> Beam<f32> {
    Beam { width, position: [azimuth, elevation] }
}

fn four_beams(step: f32) -> Vec<Beam<f32>> {
    vec![
        beam(0.1, step, 0.0),
        beam(0.2, step + 0.25, 0.5),
        beam(0.3, step + 0.5, 1.0),
        beam(0.4, step + 0.75, 1.5),
    ]
}

fn step(elapsed: i64, truths: &[(&str, f32)]) -> Step<f32> {
    Step {
        elapsed,
        truths: truths.iter().map(|(id, base)| (id.to_string(), record(*base))).collect(),
        tracks: Vec::new(),
        beams: four_beams(elapsed as f32),
    }
}

fn times<T>(series: &TimeSeries<T>) -> Vec<i64> {
    let mut found = Vec::new();
    for t in -1..200 {
        let time = t * 10_000;
        if series.at_or_before_within(time, 1).is_some() {
            found.push(time);
        }
    }
    found
}

#[test]
fn constants_of_the_format() {
    assert_eq!(BEAM_COUNT, 4);
    assert_eq!(MAX_RANGE, 200_000);
}

#[test]
fn record_axes_are_permuted() {
    let state = state_of(&[10.0f32, 11.0, 12.0, 13.0, 14.0, 15.0]);
    assert_eq!(state.pos, Vec3 { x: 12.0, y: 14.0, z: 10.0 });
    assert_eq!(state.vel, Vec3 { x: 11.0, y: 13.0, z: 15.0 });
}

#[test]
fn find_takes_the_first_record_of_an_identifier() {
    let entries = vec![
        ("a".to_string(), 1u8),
        ("b".to_string(), 2),
        ("a".to_string(), 3),
        ("".to_string(), 4),
    ];
    assert_eq!(find(&entries, &"a".to_string()), Some(&1));
    assert_eq!(find(&entries, &"b".to_string()), Some(&2));
    assert_eq!(find(&entries, &"".to_string()), Some(&4));
    assert_eq!(find(&entries, &"c".to_string()), None);
    assert_eq!(find(&entries, &"A".to_string()), None);
    assert_eq!(find(&Vec::<(String, u8)>::new(), &"a".to_string()), None);
}

#[test]
fn pivot_completeness() {
    let run = SimulationRun::new(vec![
        step(0, &[("A", 0.0)]),
        step(10_000, &[("A", 10.0)]),
        step(20_000, &[("A", 20.0)]),
        step(30_000, &[("B", 30.0)]),
        step(40_000, &[("B", 40.0)]),
    ]);
    assert_eq!(run.truth_ids(), vec!["A", "B"]);
    let truths = run.truths();
    assert_eq!(truths.len(), 2);
    assert_eq!(times(&truths[0].0), vec![0, 10_000, 20_000]);
    assert_eq!(times(&truths[1].0), vec![30_000, 40_000]);
    assert_eq!(truths[0].0.len(), 3);
    assert_eq!(truths[1].0.len(), 2);
    let a: Vec<State<f32>> = truths[0].0.before(i64::MAX).into_iter().copied().collect();
    assert_eq!(a, vec![state_of(&record(0.0)), state_of(&record(10.0)), state_of(&record(20.0))]);
    let b: Vec<State<f32>> = truths[1].0.before(i64::MAX).into_iter().copied().collect();
    assert_eq!(b, vec![state_of(&record(30.0)), state_of(&record(40.0))]);
}

#[test]
fn truths_start_inactive_showing_their_first_sample() {
    let run = SimulationRun::new(vec![
        step(0, &[("A", 0.0)]),
        step(10_000, &[("A", 10.0), ("B", 50.0)]),
        step(20_000, &[("B", 60.0)]),
    ]);
    let truths = run.truths();
    assert_eq!(truths.len(), 2);
    assert_eq!(truths[0].1, State { pos: Vec3::new(2.0, 4.0, 0.0), vel: Vec3::new(1.0, 3.0, 5.0) });
    assert_eq!(truths[0].2, Active(false));
    assert_eq!(
        truths[1].1,
        State { pos: Vec3::new(52.0, 54.0, 50.0), vel: Vec3::new(51.0, 53.0, 55.0) }
    );
    assert_eq!(truths[1].2, Active(false));
    assert_eq!(truths[1].0.first(), &truths[1].1);
}

#[test]
fn identifiers_come_in_order_of_first_appearance() {
    let run = SimulationRun::new(vec![
        step(0, &[("zulu", 0.0), ("alpha", 1.0)]),
        step(10_000, &[("mike", 2.0), ("zulu", 3.0)]),
        step(20_000, &[]),
        step(30_000, &[("alpha", 4.0), ("bravo", 5.0), ("mike", 6.0)]),
    ]);
    assert_eq!(run.truth_ids(), vec!["zulu", "alpha", "mike", "bravo"]);
    let truths = run.truths();
    let sizes: Vec<usize> = truths.iter().map(|entity| entity.0.len()).collect();
    assert_eq!(sizes, vec![2, 2, 2, 1]);
    assert_eq!(times(&truths[1].0), vec![0, 30_000]);
}

#[test]
fn a_gap_in_the_steps_is_a_gap_in_the_history() {
    let run = SimulationRun::new(vec![
        step(0, &[("A", 0.0)]),
        step(10_000, &[]),
        step(20_000, &[]),
        step(30_000, &[("A", 3.0)]),
    ]);
    let history = run.truth_history(&"A".to_string());
    assert_eq!(history, vec![(0, state_of(&record(0.0))), (30_000, state_of(&record(3.0)))]);
    let truths = run.truths();
    let series = &truths[0].0;
    assert!(series.at_or_before(0).is_some());
    assert!(series.at_or_before(10_000).is_none());
    assert!(series.at_or_before(20_000).is_none());
    assert!(series.at_or_before(30_000).is_some());
}

#[test]
fn unknown_identifier_has_no_history() {
    let run = SimulationRun::new(vec![step(0, &[("A", 0.0)])]);
    assert_eq!(run.truth_history(&"B".to_string()), Vec::new());
    assert_eq!(run.track_history(&"A".to_string()), Vec::new());
}

#[test]
fn a_recording_without_truths_has_no_truth_entities() {
    let run = SimulationRun::new(vec![step(0, &[]), step(10_000, &[])]);
    assert!(run.truth_ids().is_empty());
    assert!(run.truths().is_empty());
    let empty: SimulationRun<f32> = SimulationRun::new(Vec::new());
    assert!(empty.truths().is_empty());
    assert!(empty.tracks().is_empty());
}

#[test]
fn a_repeated_identifier_counts_once_per_step() {
    let run = SimulationRun::new(vec![step(0, &[("A", 0.0), ("A", 100.0)])]);
    assert_eq!(run.truth_ids(), vec!["A"]);
    assert_eq!(run.truth_history(&"A".to_string()), vec![(0, state_of(&record(0.0)))]);
}

#[test]
fn tracks_pivot_like_truths() {
    let track = |base: f32| Track { state: record(base), uncertainty: vec![base; 3] };
    let with_tracks = |elapsed: i64, tracks: Vec<(&str, f32)>| Step {
        elapsed,
        truths: vec![("truth".to_string(), record(-1.0))],
        tracks: tracks.into_iter().map(|(id, base)| (id.to_string(), track(base))).collect(),
        beams: four_beams(0.0),
    };
    let run = SimulationRun::new(vec![
        with_tracks(0, vec![]),
        with_tracks(10_000, vec![("t2", 20.0)]),
        with_tracks(20_000, vec![("t1", 10.0), ("t2", 21.0)]),
        with_tracks(30_000, vec![("t1", 11.0)]),
    ]);
    assert_eq!(run.track_ids(), vec!["t2", "t1"]);
    assert_eq!(run.truth_ids(), vec!["truth"]);
    let tracks = run.tracks();
    assert_eq!(tracks.len(), 2);
    assert_eq!(
        run.track_history(&"t2".to_string()),
        vec![(10_000, state_of(&record(20.0))), (20_000, state_of(&record(21.0)))]
    );
    assert_eq!(times(&tracks[0].0), vec![10_000, 20_000]);
    assert_eq!(times(&tracks[1].0), vec![20_000, 30_000]);
    assert_eq!(tracks[1].1, state_of(&record(10.0)));
    assert_eq!(tracks[1].2, Active(false));
    assert_eq!(tracks[1].1.pos, Vec3::new(12.0, 14.0, 10.0));
}

#[test]
fn beams_are_tracked_by_position() {
    let run = SimulationRun::new(vec![step(0, &[]), step(10_000, &[]), step(20_000, &[])]);
    let beams: Vec<BeamBundle<f32>> = run.beams(MAX_RANGE as f32).unwrap();
    assert_eq!(beams.len(), 4);
    for (index, bundle) in beams.iter().enumerate() {
        assert_eq!(bundle.active, Active(true));
        assert_eq!(bundle.history.len(), 3);
        assert_eq!(bundle.state.index, index);
        assert_eq!(bundle.history.first(), &bundle.state);
        assert_eq!(times(&bundle.history), vec![0, 10_000, 20_000]);
    }
    assert_eq!(
        beams[1].state,
        BeamState { width: 0.2, target: PolarVec3::new(200_000.0, 0.25, 0.5), index: 1 }
    );
    assert_eq!(
        beams[3].history.at_or_before(20_000),
        Some(&BeamState {
            width: 0.4,
            target: PolarVec3 { range: 200_000.0, azimuth: 20_000.75, elevation: 1.5 },
            index: 3,
        })
    );
    assert_eq!(
        beams[0].history.at_or_before(10_000).map(|state| state.target.azimuth),
        Some(10_000.0)
    );
}

#[test]
fn beams_reach_the_range_they_are_given() {
    let run = SimulationRun::new(vec![step(0, &[])]);
    let beams = run.beams(5.0f32).unwrap();
    assert!(beams.iter().all(|bundle| bundle.state.target.range == 5.0));
}

#[test]
fn extra_beams_are_ignored() {
    let mut first = step(0, &[]);
    first.beams.push(beam(9.0, 9.0, 9.0));
    let run = SimulationRun::new(vec![first]);
    let beams = run.beams(1.0f32).unwrap();
    assert_eq!(beams.len(), 4);
    assert!(beams.iter().all(|bundle| bundle.state.width < 1.0));
}

#[test]
fn a_step_with_too_few_beams_is_refused() {
    let mut short = step(20_000, &[]);
    short.beams.pop();
    let mut shorter = step(30_000, &[]);
    shorter.beams.clear();
    let run = SimulationRun::new(vec![step(0, &[]), step(10_000, &[]), short, shorter]);
    assert_eq!(run.first_short_step(), Some(2));
    assert_eq!(run.beams(1.0f32).err(), Some(FormatError::MissingBeam { step: 2 }));
    assert_eq!(run.truths().len(), 0);
}

#[test]
fn a_recording_without_steps_has_no_beams() {
    let run: SimulationRun<f32> = SimulationRun::new(Vec::new());
    assert_eq!(run.first_short_step(), None);
    assert_eq!(run.beams(1.0).err(), Some(FormatError::EmptyHistory));
}

#[test]
fn replay_of_a_pivoted_truth() {
    let run = SimulationRun::new(vec![
        step(0, &[("A", 0.0)]),
        step(10_000, &[("A", 1.0)]),
        step(20_000, &[]),
        step(30_000, &[("A", 3.0)]),
    ]);
    let mut truths = run.truths();
    let (series, mut current, mut active) = truths.remove(0);
    let mut time = Time(0);
    let flow = TimeFlow::default();
    let mut shown = Vec::new();
    for _ in 0..4 {
        update_current_time(&time, &series, &mut current, &mut active);
        shown.push((active.0, current.pos.z));
        advance_time(&mut time, &flow);
    }
    assert_eq!(shown, vec![(true, 0.0), (true, 1.0), (false, 1.0), (true, 3.0)]);
}

#[test]
fn decoded_lines_make_a_recording() {
    let decoded: Vec<Result<Step<f32>, String>> =
        vec![Ok(step(0, &[("A", 0.0)])), Ok(step(10_000, &[("A", 1.0)]))];
    let run = SimulationRun::from_decoded(decoded).ok().unwrap();
    assert_eq!(
        run.truth_history(&"A".to_string()),
        vec![(0, state_of(&record(0.0))), (10_000, state_of(&record(1.0)))]
    );
    let nothing: Vec<Result<Step<f32>, String>> = Vec::new();
    let run = SimulationRun::from_decoded(nothing).ok().unwrap();
    assert!(run.truths().is_empty());
    assert_eq!(run.beams(1.0).err(), Some(FormatError::EmptyHistory));
}

#[test]
fn one_undecodable_line_refuses_the_recording() {
    let decoded: Vec<Result<Step<f32>, &str>> = vec![
        Ok(step(0, &[])),
        Ok(step(10_000, &[])),
        Err("expected value"),
        Ok(step(30_000, &[])),
        Err("trailing characters"),
    ];
    let error = SimulationRun::from_decoded(decoded).err().unwrap();
    assert_eq!(error, ParseError { line: 2, cause: "expected value" });
    let first: Vec<Result<Step<f32>, u8>> = vec![Err(7)];
    assert_eq!(SimulationRun::from_decoded(first).err(), Some(ParseError { line: 0, cause: 7 }));
}
