use raytracer::color::Color;
use raytracer::compaction::{compact_in_place, compact_into, permute, CombinedIndex};
use raytracer::geometry::Vec3;
use raytracer::lanes::{LaneOutcome, LaneState, TraceBatch, TraceLane};
use raytracer::packed::{Packed, Scaler};
use raytracer::ray::{PackedRays, Ray};

#[derive(Clone, Copy, Debug, PartialEq, PartialOrd)]
struct Real(f64);

impl Scaler for Real {
    type MaskType = u64;
}

fn ray(n: f64) -> Ray<Real> {
    Ray::new(Vec3::new(Real(n), Real(0.0), Real(0.0)), Vec3::new(Real(0.0), Real(0.0), Real(-1.0)))
}

fn gray(n: f64) -> Color<Real> {
    Color::new(Real(n), Real(n), Real(n))
}

/// Batches of `N` lanes whose lanes are numbered from 0 on; a lane is
/// active where `pattern` says `A`, escaped where it says `E`, and at rest
/// elsewhere.
fn batches<const N: usize>(pattern: &str) -> Vec<TraceBatch<Real, N>> {
    let states: Vec<char> = pattern.chars().filter(|c| !c.is_whitespace()).collect();
    assert_eq!(states.len() % N, 0);
    let mut list = Vec::new();
    for chunk in 0..states.len() / N {
        let mut batch = TraceBatch::new(PackedRays::from_iter(&[], ray(-1.0)), gray(1.0), gray(0.0));
        for slot in 0..N {
            let number = (chunk * N + slot) as f64;
            let state = match states[chunk * N + slot] {
                'A' => LaneState::Active,
                'E' => LaneState::Escaped,
                _ => LaneState::Absorbed,
            };
            batch.set_lane(slot, TraceLane { ray: ray(number), color: gray(number / 100.0), state });
        }
        list.push(batch);
    }
    list
}

fn numbers<const N: usize>(list: &Vec<TraceBatch<Real, N>>) -> Vec<(u32, LaneState)> {
    let mut out = Vec::new();
    for batch in list {
        for slot in 0..N {
            let lane = batch.lane(slot);
            assert_eq!(lane.color, gray(lane.ray.origin.x.0 / 100.0));
            out.push((lane.ray.origin.x.0 as u32, lane.state));
        }
    }
    out
}

fn pattern_of<const N: usize>(list: &Vec<TraceBatch<Real, N>>) -> String {
    numbers(list)
        .iter()
        .map(|(_, state)| match state {
            LaneState::Active => 'A',
            LaneState::Escaped => 'E',
            LaneState::Absorbed => '.',
        })
        .collect()
}

fn check_in_place<const N: usize>(pattern: &str) -> usize {
    let mut list = batches::<N>(pattern);
    let before = numbers(&list);
    let active = compact_in_place(&mut list);
    let after = numbers(&list);
    let mut sorted_before = before.clone();
    let mut sorted_after = after.clone();
    sorted_before.sort_by_key(|(n, _)| *n);
    sorted_after.sort_by_key(|(n, _)| *n);
    assert_eq!(sorted_before, sorted_after);
    let live = before.iter().filter(|(_, s)| *s == LaneState::Active).count();
    assert_eq!(active, (live + N - 1) / N);
    for (k, (_, state)) in after.iter().enumerate() {
        if k / N + 1 < active {
            assert_eq!(*state, LaneState::Active);
        }
        if k / N >= active {
            assert_ne!(*state, LaneState::Active);
        }
    }
    active
}

#[test]
fn cursor_ends() {
    let list = batches::<4>("AAAA AAAA");
    let first = CombinedIndex::<4>::before_first(&list);
    assert_eq!((first.chunk_index, first.slot_index), (0, 4));
    assert!(!first.valid(&list));
    let last = CombinedIndex::<4>::after_last(&list);
    assert_eq!((last.chunk_index, last.slot_index), (2, 0));
    assert!(!last.valid(&list));
    assert!(CombinedIndex::<4> { chunk_index: 1, slot_index: 3 }.valid(&list));
    assert!(!CombinedIndex::<4> { chunk_index: 2, slot_index: 0 }.valid(&list));
}

#[test]
fn cursor_steps_forward_through_every_lane() {
    let list = batches::<2>("AA AA AA");
    let mut at = CombinedIndex::<2>::before_first(&list);
    let mut seen = Vec::new();
    while let Some(next) = at.increment(&list) {
        seen.push((next.chunk_index, next.slot_index));
        at = next;
    }
    assert_eq!(seen, vec![(0, 0), (0, 1), (1, 0), (1, 1), (2, 0), (2, 1)]);
}

#[test]
fn cursor_steps_backward_through_every_lane() {
    let list = batches::<2>("AA AA AA");
    let mut at = CombinedIndex::<2>::after_last(&list);
    let mut seen = Vec::new();
    while let Some(next) = at.decrement(&list) {
        seen.push((next.chunk_index, next.slot_index));
        at = next;
    }
    assert_eq!(seen, vec![(2, 1), (2, 0), (1, 1), (1, 0), (0, 1), (0, 0)]);
}

#[test]
fn cursor_on_an_empty_list() {
    let list: Vec<TraceBatch<Real, 4>> = Vec::new();
    assert!(CombinedIndex::<4>::before_first(&list).increment(&list).is_none());
    assert!(CombinedIndex::<4>::after_last(&list).decrement(&list).is_none());
    assert!(CombinedIndex::<4>::before_first(&list).next_disabled(&list).is_none());
    assert!(CombinedIndex::<4>::after_last(&list).previous_enabled(&list).is_none());
}

#[test]
fn next_disabled_finds_the_first_lane_at_rest() {
    let list = batches::<2>("AA A. .A");
    let found = CombinedIndex::<2>::before_first(&list).next_disabled(&list).unwrap();
    assert_eq!((found.chunk_index, found.slot_index), (1, 1));
    let again = found.next_disabled(&list).unwrap();
    assert_eq!((again.chunk_index, again.slot_index), (2, 0));
    assert!(again.next_disabled(&list).is_none());
    let all = batches::<2>("AA AA");
    assert!(CombinedIndex::<2>::before_first(&all).next_disabled(&all).is_none());
}

#[test]
fn previous_enabled_finds_the_last_active_lane() {
    let list = batches::<2>(".A A. ..");
    let found = CombinedIndex::<2>::after_last(&list).previous_enabled(&list).unwrap();
    assert_eq!((found.chunk_index, found.slot_index), (1, 0));
    let again = found.previous_enabled(&list).unwrap();
    assert_eq!((again.chunk_index, again.slot_index), (0, 1));
    assert!(again.previous_enabled(&list).is_none());
    let none = batches::<2>(".. E.");
    assert!(CombinedIndex::<2>::after_last(&none).previous_enabled(&none).is_none());
}

#[test]
fn in_place_compaction_fills_the_front() {
    assert_eq!(check_in_place::<4>(".A.A E.AA A..A"), 2);
    assert_eq!(check_in_place::<4>("AAAA AAAA"), 2);
    assert_eq!(check_in_place::<4>(".... E..."), 0);
    assert_eq!(check_in_place::<4>("...A"), 1);
    assert_eq!(check_in_place::<4>(".... .... ...A"), 1);
    assert_eq!(check_in_place::<4>("A... .... ...."), 1);
    assert_eq!(check_in_place::<4>("AAA. AAAA"), 2);
    assert_eq!(check_in_place::<1>(". A . A A"), 3);
    assert_eq!(check_in_place::<2>("E. A. AA .A .."), 2);
    assert_eq!(check_in_place::<4>(""), 0);
}

#[test]
fn in_place_compaction_exchanges_front_and_back() {
    let mut list = batches::<2>(".A .. AA");
    let active = compact_in_place(&mut list);
    assert_eq!(active, 2);
    assert_eq!(pattern_of(&list), "AAA...");
    let lanes: Vec<u32> = numbers(&list).iter().map(|(n, _)| *n).collect();
    assert_eq!(lanes, vec![5, 1, 4, 3, 2, 0]);
}

#[test]
fn compaction_into_a_second_list_keeps_the_order_within_each_group() {
    let source = batches::<4>(".A.A E.AA A..A");
    let mut target = batches::<4>(".... .... ....");
    let active = compact_into(&source, &mut target);
    assert_eq!(active, 2);
    assert_eq!(pattern_of(&target), "AAAAAA..E...");
    let lanes: Vec<u32> = numbers(&target).iter().map(|(n, _)| *n).collect();
    assert_eq!(lanes, vec![1, 3, 6, 7, 8, 11, 0, 2, 4, 5, 9, 10]);
    assert_eq!(pattern_of(&source), ".A.AE.AAA..A");
}

#[test]
fn compaction_into_a_second_list_counts_the_batches_in_use() {
    for (pattern, expected) in [
        ("AAAA AAAA", 2),
        (".... ....", 0),
        ("...A ....", 1),
        ("AAAA A...", 2),
        (".AAA AA.A", 2),
        ("", 0),
    ] {
        let source = batches::<4>(pattern);
        let mut target = batches::<4>(&".".repeat(source.len() * 4));
        assert_eq!(compact_into(&source, &mut target), expected);
    }
}

#[test]
fn both_compactions_agree_on_the_batches_in_use() {
    for pattern in ["A.A. .A.A ....", "E... A.A. ...A AAAA", ".... .... ....", "AAAA AAAA AAAA"] {
        let source = batches::<4>(pattern);
        let mut target = batches::<4>(&".".repeat(source.len() * 4));
        let mut moved = batches::<4>(pattern);
        let into = compact_into(&source, &mut target);
        let in_place = compact_in_place(&mut moved);
        assert_eq!(into, in_place);
        let mut a = numbers(&target);
        let mut b = numbers(&moved);
        a.sort_by_key(|(n, _)| *n);
        b.sort_by_key(|(n, _)| *n);
        assert_eq!(a, b);
    }
}

#[test]
fn a_trace_starts_white_where_a_ray_is_enabled() {
    let batch = TraceBatch::<Real, 4>::new(
        PackedRays::from_iter(&[ray(1.0), ray(2.0)], ray(0.0)),
        gray(1.0),
        gray(0.0),
    );
    assert_eq!(batch.lane(0).state, LaneState::Active);
    assert_eq!(batch.lane(0).color, gray(1.0));
    assert_eq!(batch.lane(1).ray, ray(2.0));
    assert_eq!(batch.lane(2).state, LaneState::Absorbed);
    assert_eq!(batch.lane(2).color, gray(0.0));
    assert!(batch.is_active(1));
    assert!(!batch.is_active(3));
    assert!(batch.any_active());
    assert_eq!(batch.rays().at(1), Some(ray(2.0)));
    assert_eq!(batch.rays().at(2), None);
    assert_eq!(batch.colors().at(0), gray(1.0));
}

#[test]
fn a_bounce_moves_a_lane_between_states() {
    let mut batch = TraceBatch::<Real, 4>::new(
        PackedRays::from_iter(&[ray(1.0), ray(2.0), ray(3.0)], ray(0.0)),
        gray(1.0),
        gray(0.0),
    );
    batch.apply(0, LaneOutcome::Scattered { color: gray(0.5), ray: ray(10.0) });
    batch.apply(1, LaneOutcome::Absorbed { color: gray(0.25) });
    batch.apply(2, LaneOutcome::Missed);
    batch.apply(3, LaneOutcome::Scattered { color: gray(0.75), ray: ray(30.0) });
    let lane = batch.lane(0);
    assert_eq!((lane.state, lane.color, lane.ray), (LaneState::Active, gray(0.5), ray(10.0)));
    let lane = batch.lane(1);
    assert_eq!((lane.state, lane.color, lane.ray), (LaneState::Absorbed, gray(0.25), ray(2.0)));
    let lane = batch.lane(2);
    assert_eq!((lane.state, lane.color, lane.ray), (LaneState::Escaped, gray(1.0), ray(3.0)));
    let lane = batch.lane(3);
    assert_eq!((lane.state, lane.color, lane.ray), (LaneState::Absorbed, gray(0.0), ray(0.0)));
}

#[test]
fn a_lane_at_rest_takes_no_further_outcome() {
    let mut batch = TraceBatch::<Real, 2>::new(
        PackedRays::from_iter(&[ray(1.0), ray(2.0)], ray(0.0)),
        gray(1.0),
        gray(0.0),
    );
    batch.apply(0, LaneOutcome::Missed);
    batch.apply(1, LaneOutcome::Absorbed { color: gray(0.5) });
    batch.apply(0, LaneOutcome::Scattered { color: gray(0.1), ray: ray(9.0) });
    batch.apply(1, LaneOutcome::Missed);
    assert_eq!(batch.lane(0).state, LaneState::Escaped);
    assert_eq!(batch.lane(0).color, gray(1.0));
    assert_eq!(batch.lane(1).state, LaneState::Absorbed);
    assert_eq!(batch.lane(1).color, gray(0.5));
    assert!(!batch.any_active());
}

#[test]
fn the_end_of_a_trace_colors_each_lane_by_its_state() {
    let mut batch = TraceBatch::<Real, 3>::new(
        PackedRays::from_iter(&[ray(1.0), ray(2.0), ray(3.0)], ray(0.0)),
        gray(1.0),
        gray(0.0),
    );
    batch.apply(0, LaneOutcome::Missed);
    batch.apply(1, LaneOutcome::Absorbed { color: gray(0.25) });
    let lit = raytracer::color::PackedColor::splat(gray(0.6));
    let colors = batch.finish(&lit, gray(0.0));
    assert_eq!(colors.at(0), gray(0.6));
    assert_eq!(colors.at(1), gray(0.25));
    assert_eq!(colors.at(2), gray(0.0));
}

#[test]
fn permute_gathers_lanes_by_index() {
    let mut list = batches::<2>("A. EA");
    let chunks = vec![Packed::from_array([1, 1]), Packed::from_array([0, 0])];
    let slots = vec![Packed::from_array([1, 0]), Packed::from_array([0, 0])];
    let fallback = TraceLane { ray: ray(99.0), color: gray(0.99), state: LaneState::Absorbed };
    permute(&mut list, &chunks, &slots, fallback);
    let lanes: Vec<u32> = numbers(&list).iter().map(|(n, _)| *n).collect();
    assert_eq!(lanes, vec![3, 2, 0, 0]);
    assert_eq!(pattern_of(&list), "AEAA");
}

#[test]
fn permute_falls_back_where_no_lane_is_named() {
    let mut list = batches::<2>("AA AA");
    let chunks = vec![Packed::from_array([0, 2]), Packed::from_array([1, usize::MAX])];
    let slots = vec![Packed::from_array([2, 0]), Packed::from_array([1, 0])];
    let fallback = TraceLane { ray: ray(99.0), color: gray(0.99), state: LaneState::Escaped };
    permute(&mut list, &chunks, &slots, fallback);
    let lanes: Vec<u32> = numbers(&list).iter().map(|(n, _)| *n).collect();
    assert_eq!(lanes, vec![99, 99, 3, 99]);
    assert_eq!(pattern_of(&list), "EEAE");
}
