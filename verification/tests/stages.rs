use weldscope::ai::class_index;
use weldscope::features::{count_falling_edges, count_flags, sub_windows, SampleWindow};
use weldscope::peak::{centroid_span, search_window, profile_window};
use weldscope::percentile::{key_of, nearest_rank};
use weldscope::sim::{defect_label, frame_hash, Defect, HASH_DENOM};

#[test]
fn class_index_maps() {
    let classes: Vec<String> = vec!["ok".to_string(), "incomplete".to_string(), "pore".to_string()];
    assert_eq!(class_index(&classes, "incomplete"), 1);
    assert_eq!(class_index(&classes, "pore"), 2);
    assert_eq!(class_index(&classes, "nope"), 0); // defaults to 0
}

#[test]
fn class_index_takes_first_match_and_wraps_to_a_byte() {
    let mut classes: Vec<String> = (0..300).map(|i| format!("c{i}")).collect();
    classes.push("c5".to_string());
    assert_eq!(class_index(&classes, "c5"), 5);
    assert_eq!(class_index(&classes, "c260"), 4);
    assert_eq!(class_index(&[], "ok"), 0);
}

#[test]
fn window_emits_every_window_samples() {
    let mut w: SampleWindow<Option<u32>> = SampleWindow::new(4);
    assert!(w.push(Some(1)).is_none());
    assert!(w.push(None).is_none());
    assert!(w.push(Some(3)).is_none());
    assert_eq!(w.push(Some(4)), Some(vec![Some(1), None, Some(3), Some(4)]));
    assert!(w.push(Some(5)).is_none());
    assert_eq!(w.window(), 4);
}

#[test]
fn window_cadence_over_many_samples() {
    let mut w: SampleWindow<u32> = SampleWindow::new(9);
    let mut emitted = 0;
    for i in 0..100u32 {
        if let Some(v) = w.push(i) {
            assert_eq!(v.len(), 9);
            assert_eq!(v[8], i);
            emitted += 1;
        }
    }
    assert_eq!(emitted, 100 / 9);
}

#[test]
fn zero_window_emits_each_sample() {
    let mut w: SampleWindow<u8> = SampleWindow::new(0);
    assert_eq!(w.push(7), Some(vec![7]));
    assert_eq!(w.push(8), Some(vec![8]));
}

#[test]
fn pore_count_counts_falling_edges() {
    assert_eq!(count_falling_edges(&[]), 0);
    assert_eq!(count_falling_edges(&[false, true]), 0);
    assert_eq!(count_falling_edges(&[true, true, true, true, false]), 1);
    assert_eq!(count_falling_edges(&[true, false, true, false, false, true, false]), 3);
}

#[test]
fn sub_windows_partition() {
    assert_eq!(sub_windows(0), vec![]);
    assert_eq!(sub_windows(3), vec![(0, 1), (1, 2), (2, 3)]);
    assert_eq!(sub_windows(10), (0..8).map(|k| (k, k + 1)).collect::<Vec<_>>());
    assert_eq!(sub_windows(80), (0..8).map(|k| (10 * k, 10 * k + 10)).collect::<Vec<_>>());
    assert_eq!(sub_windows(17), (0..8).map(|k| (2 * k, 2 * k + 2)).collect::<Vec<_>>());
}

#[test]
fn peak_gates() {
    assert_eq!(profile_window(1024), Some((40, 1000)));
    assert_eq!(profile_window(500), Some((40, 500)));
    assert_eq!(profile_window(3), None);
    assert_eq!(profile_window(41), None);
    assert_eq!(profile_window(42), Some((40, 42)));
    assert_eq!(profile_window(0), None);
    assert_eq!(search_window(250, 350, 1024), Some((250, 350)));
    assert_eq!(search_window(100, 101, 1024), None);
    assert_eq!(search_window(750, 1025, 1024), None);
    assert_eq!(centroid_span(0, 10), (0, 3));
    assert_eq!(centroid_span(5, 10), (3, 8));
    assert_eq!(centroid_span(9, 10), (7, 10));
}

/// Nearest-rank index of the percentile `p`, as the depth estimator rounds it.
fn rank(p: f32, n: usize) -> usize {
    (p.clamp(0.0, 1.0) * (n - 1) as f32).round() as usize
}

fn bits(v: &[f32]) -> Vec<u32> {
    v.iter().map(|x| x.to_bits()).collect()
}

#[test]
fn nearest_rank_ignores_spatter_spikes() {
    let some = [300.0f32, 300.0, 300.0, 300.0, 300.0, 300.0, 300.0, 850.0, 950.0, 100.0];
    let b = bits(&some);
    assert_eq!(f32::from_bits(nearest_rank(&b, rank(0.5, some.len()))), 300.0);
    let dropout = [300.0f32, 300.0, 300.0, 300.0, 300.0, 300.0, 300.0, 100.0, 100.0, 100.0];
    assert_eq!(f32::from_bits(nearest_rank(&bits(&dropout), rank(0.5, 10))), 300.0);
    let cluster = [300.0f32, 300.0, 300.0, 300.0, 300.0, 320.0, 900.0, 910.0, 920.0];
    assert_eq!(f32::from_bits(nearest_rank(&bits(&cluster), rank(0.75, 9))), 900.0);
}

#[test]
fn nearest_rank_follows_total_order() {
    let v = [f32::NAN, -1.0, 0.0, -0.0, f32::NEG_INFINITY, 2.0];
    let b = bits(&v);
    let picks: Vec<u32> = (0..6).map(|k| nearest_rank(&b, k)).collect();
    let mut sorted = v.to_vec();
    sorted.sort_by(f32::total_cmp);
    assert_eq!(picks, bits(&sorted));
    assert_eq!(nearest_rank(&b, 100), f32::NAN.to_bits());
    assert!(key_of((-0.0f32).to_bits()) < key_of(0.0f32.to_bits()));
}

#[test]
fn frame_hash_matches_reference() {
    for k in [0u64, 1, 2, 77, 12345, u64::MAX] {
        let s = k.wrapping_mul(2_654_435_761).wrapping_add(40_503);
        assert_eq!(frame_hash(k) as u64, (s >> 16) & 0x7fff);
    }
    assert_eq!(frame_hash(0), 0);
    assert!(frame_hash(123) <= 0x7fff);
}

#[test]
fn defect_labels() {
    assert_eq!(defect_label(Defect::NoDefect), "ok");
    assert_eq!(defect_label(Defect::Spatter), "spatter");
    assert_eq!(defect_label(Defect::Pore), "pore");
    assert_eq!(defect_label(Defect::Incomplete), "incomplete");
    assert_eq!(defect_label(Defect::Humping), "humping");
}

#[test]
fn frame_value_stays_below_one() {
    assert_eq!(frame_hash(39603), 0x7fff);
    assert!((frame_hash(39603) as f32 / HASH_DENOM as f32) < 1.0);
}

#[test]
fn flag_counts() {
    assert_eq!(count_flags(&[]), 0);
    assert_eq!(count_flags(&[true, false, true, true]), 3);
}

#[test]
fn nearest_rank_ignores_sample_order() {
    let a = [300.0f32, 850.0, 100.0, 300.0, 950.0];
    let b = [950.0f32, 300.0, 300.0, 100.0, 850.0];
    for k in 0..5 {
        assert_eq!(nearest_rank(&bits(&a), k), nearest_rank(&bits(&b), k));
    }
}
