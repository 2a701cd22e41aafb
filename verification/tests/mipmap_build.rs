use rstrf::mipmap::{mipmap_level_count, mipmap_level_offset_chan, mipmap_levels_len};
use rstrf::mipmap_build::{aggregate_level, mipmap_levels};

const MAX_HOLD: bool = false;
const AVERAGE: bool = true;

fn max_hold(a: f32, b: f32, c: f32, d: f32) -> f32 {
    let mut max = a;
    for v in [b, c, d] {
        max = max.max(v);
    }
    max
}

fn average(a: f32, b: f32, c: f32, d: f32) -> f32 {
    let mut sum = 0.0;
    for v in [a, b, c, d] {
        sum += v;
    }
    sum / 4.0
}

fn compute_mipmap(data: &[f32], nslices: usize, nchan_in: usize, mode: bool) -> Vec<f32> {
    if mode == AVERAGE {
        aggregate_level(data, 0, nslices, nchan_in, &average)
    } else {
        aggregate_level(data, 0, nslices, nchan_in, &max_hold)
    }
}

fn cpu_mipmap_levels(data: &[f32], nslices: usize, nchan: usize, mode: bool) -> Vec<f32> {
    if mode == AVERAGE {
        mipmap_levels(data, nslices, nchan, &average)
    } else {
        mipmap_levels(data, nslices, nchan, &max_hold)
    }
}

/// `data[x][y] = x * 100 + y`, so every value identifies its slice and channel.
fn ramp(nslices: usize, nchan: usize) -> Vec<f32> {
    (0..nslices)
        .flat_map(|x| (0..nchan).map(move |y| (x * 100 + y) as f32))
        .collect()
}

fn assert_close(actual: &[f32], expected: &[f32]) {
    assert_eq!(actual.len(), expected.len(), "length mismatch");
    for (i, (a, e)) in actual.iter().zip(expected.iter()).enumerate() {
        assert!((a - e).abs() < 1e-3, "bin {}: {} != {}", i, a, e);
    }
}

#[test]
fn max_hold_takes_maximum_of_each_group() {
    let data = ramp(1, 8);
    let mipmap = compute_mipmap(&data, 1, 8, MAX_HOLD);
    assert_close(&mipmap, &[3.0, 7.0]);
}

#[test]
fn average_takes_mean_of_each_group() {
    let data = ramp(1, 8);
    let mipmap = compute_mipmap(&data, 1, 8, AVERAGE);
    assert_close(&mipmap, &[1.5, 5.5]);
}

#[test]
fn output_length_is_nslices_times_floored_nchan() {
    for (nslices, nchan) in [(1, 8), (3, 10), (7, 63), (5, 4)] {
        let data = ramp(nslices, nchan);
        let mipmap = compute_mipmap(&data, nslices, nchan, MAX_HOLD);
        assert_eq!(mipmap.len(), nslices * (nchan / 4), "nslices={}, nchan={}", nslices, nchan);
    }
}

#[test]
fn slices_are_not_mixed_when_nchan_is_not_a_multiple_of_four() {
    let data = ramp(3, 10);

    let max_hold = compute_mipmap(&data, 3, 10, MAX_HOLD);
    assert_close(&max_hold, &[3.0, 7.0, 103.0, 107.0, 203.0, 207.0]);

    let average = compute_mipmap(&data, 3, 10, AVERAGE);
    assert_close(&average, &[1.5, 5.5, 101.5, 105.5, 201.5, 205.5]);
}

#[test]
fn trailing_partial_group_is_dropped() {
    let data = [0.0, 0.0, 0.0, 0.0, 99.0, 99.0];
    let mipmap = compute_mipmap(&data, 1, 6, MAX_HOLD);
    assert_close(&mipmap, &[0.0]);
}

#[test]
fn max_hold_handles_all_negative_values() {
    let data = [-90.0, -80.0, -85.0, -95.0];
    let mipmap = compute_mipmap(&data, 1, 4, MAX_HOLD);
    assert_close(&mipmap, &[-80.0]);
}

#[test]
fn fewer_than_four_channels_produces_no_mipmap() {
    for nchan in 0..4 {
        let data = ramp(2, nchan);
        let mipmap = compute_mipmap(&data, 2, nchan, MAX_HOLD);
        assert!(mipmap.is_empty(), "nchan={}", nchan);
    }
}

#[test]
fn levels_compose_like_a_direct_aggregation() {
    for mode in [MAX_HOLD, AVERAGE] {
        let data = ramp(3, 20);
        let level1 = compute_mipmap(&data, 3, 20, mode);
        let level2 = compute_mipmap(&level1, 3, 20 / 4, mode);

        // Slice x, bin 0 aggregates the raw channels 0..16; channels 16..20 are dropped.
        let expected: Vec<f32> = (0..3)
            .map(|x| {
                let base = (x * 100) as f32;
                if mode == AVERAGE {
                    base + 7.5
                } else {
                    base + 15.0
                }
            })
            .collect();
        assert_close(&level2, &expected);
    }
}

#[test]
fn cpu_mipmap_levels_places_each_level_at_its_offset() {
    for mode in [MAX_HOLD, AVERAGE] {
        let (nslices, nchan) = (3usize, 20usize);
        let data = ramp(nslices, nchan);
        let levels = cpu_mipmap_levels(&data, nslices, nchan, mode);

        let mut prev = data.clone();
        let mut nchan_in = nchan;
        for level in 1..=mipmap_level_count(nchan) {
            let expected = compute_mipmap(&prev, nslices, nchan_in, mode);
            // Offsets are absolute within the chunk; `levels` starts after level 0.
            let start = nslices * mipmap_level_offset_chan(nchan, level) - data.len();
            assert_close(&levels[start..start + expected.len()], &expected);
            prev = expected;
            nchan_in /= 4;
        }
        assert_eq!(levels.len(), mipmap_levels_len(nslices, nchan));
    }
}

#[test]
fn levels_of_a_wide_spectrum_use_the_whole_budget_layout() {
    let (nslices, nchan) = (2usize, 70usize);
    let data = ramp(nslices, nchan);
    let levels = cpu_mipmap_levels(&data, nslices, nchan, MAX_HOLD);
    // levels of 17, 4 and 1 channels
    assert_eq!(levels.len(), nslices * (17 + 4 + 1));
    assert_close(&levels[2 * 17..2 * 17 + 8], &[15.0, 31.0, 47.0, 63.0, 115.0, 131.0, 147.0, 163.0]);
    assert_close(&levels[2 * 21..], &[63.0, 163.0]);
}
