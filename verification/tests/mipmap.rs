use rstrf::mipmap::{
    chunk_len, chunk_sizes, mip_params, mip_params_bytes, mipmap_buffer_size, mipmap_dispatches,
    mipmap_level_count, mipmap_level_nchan, mipmap_level_offset_chan, mipmap_levels_len, Dispatch,
    MipParams, MIP_PARAMS_STRIDE, MIP_PARAMS_WORDS,
};

const MAX_HOLD: bool = false;
const AVERAGE: bool = true;

fn params_at(bytes: &[u8], level: u32) -> MipParams {
    let at = (level as usize - 1) * MIP_PARAMS_STRIDE;
    let word = |i: usize| {
        let mut w = [0u8; 4];
        w.copy_from_slice(&bytes[at + 4 * i..at + 4 * i + 4]);
        u32::from_ne_bytes(w)
    };
    for pad in 5..MIP_PARAMS_WORDS {
        assert_eq!(word(pad), 0);
    }
    MipParams {
        src_offset: word(0),
        dst_offset: word(1),
        nchan_in: word(2),
        nslices: word(3),
        average: word(4),
    }
}

#[test]
fn level_offsets_are_the_running_sum_of_level_sizes() {
    for nchan in [4usize, 10, 63, 1024, 1250, 80000] {
        let mut expected = 0;
        for level in 0..=mipmap_level_count(nchan) {
            assert_eq!(
                mipmap_level_offset_chan(nchan, level),
                expected,
                "nchan={}, level={}",
                nchan,
                level
            );
            expected += mipmap_level_nchan(nchan, level);
        }
    }
}

#[test]
fn levels_len_covers_every_level_above_zero() {
    let nslices = 7;
    for nchan in [4usize, 10, 63, 1024, 1250, 80000] {
        let past_last = mipmap_level_offset_chan(nchan, mipmap_level_count(nchan) + 1);
        assert_eq!(
            mipmap_levels_len(nslices, nchan),
            nslices * (past_last - nchan),
            "nchan={}",
            nchan
        );
    }
}

#[test]
fn levels_fit_within_the_mipmap_buffer_budget() {
    let nslices = 7;
    for nchan in [4usize, 10, 63, 1024, 1250, 80000] {
        let data_len = nslices * nchan;
        let budget = mipmap_buffer_size(data_len * std::mem::size_of::<f32>())
            / std::mem::size_of::<f32>();
        assert!(
            data_len + mipmap_levels_len(nslices, nchan) <= budget,
            "nchan={}: {} + {} > {}",
            nchan,
            data_len,
            mipmap_levels_len(nslices, nchan),
            budget
        );
    }
}

#[test]
fn fewer_than_four_channels_has_no_levels() {
    for nchan in 0..4 {
        assert_eq!(mipmap_level_count(nchan), 0, "nchan={}", nchan);
        assert_eq!(mipmap_levels_len(9, nchan), 0, "nchan={}", nchan);
    }
}

#[test]
fn mip_params_offsets_match_the_level_layout() {
    let (nslices, nchan) = (314usize, 80000usize);
    let bytes = mip_params_bytes(nslices, nchan, MAX_HOLD);

    assert_eq!(
        bytes.len(),
        mipmap_level_count(nchan) as usize * MIP_PARAMS_STRIDE
    );

    for level in 1..=mipmap_level_count(nchan) {
        let p = params_at(&bytes, level);
        assert_eq!(
            p.src_offset as usize,
            nslices * mipmap_level_offset_chan(nchan, level - 1),
            "level {} src",
            level
        );
        assert_eq!(
            p.dst_offset as usize,
            nslices * mipmap_level_offset_chan(nchan, level),
            "level {} dst",
            level
        );
        assert_eq!(
            p.nchan_in as usize,
            mipmap_level_nchan(nchan, level - 1),
            "level {} nchan_in",
            level
        );
        assert_eq!(p.nslices as usize, nslices, "level {} nslices", level);
    }
}

#[test]
fn mip_params_first_level_reads_from_zero() {
    let bytes = mip_params_bytes(7, 1024, MAX_HOLD);
    let p = params_at(&bytes, 1);
    assert_eq!(p.src_offset, 0);
    assert_eq!(p.dst_offset, 7 * 1024);
    assert_eq!(p.nchan_in, 1024);
}

#[test]
fn mip_params_carries_the_plotting_mode() {
    for average in [MAX_HOLD, AVERAGE] {
        let bytes = mip_params_bytes(7, 1024, average);
        for level in 1..=mipmap_level_count(1024) {
            assert_eq!(params_at(&bytes, level).average, average as u32);
        }
    }
}

#[test]
fn mip_params_is_empty_when_there_are_no_levels() {
    for nchan in 0..4 {
        assert!(
            mip_params_bytes(7, nchan, MAX_HOLD).is_empty(),
            "nchan={}",
            nchan
        );
    }
}

#[test]
fn level_nchan_divides_by_powers_of_four() {
    assert_eq!(mipmap_level_nchan(80000, 0), 80000);
    assert_eq!(mipmap_level_nchan(80000, 1), 20000);
    assert_eq!(mipmap_level_nchan(80000, 2), 5000);
    assert_eq!(mipmap_level_nchan(63, 1), 15);
    assert_eq!(mipmap_level_nchan(63, 3), 0);
}

#[test]
fn level_count_of_typical_channel_counts() {
    assert_eq!(mipmap_level_count(4), 1);
    assert_eq!(mipmap_level_count(15), 1);
    assert_eq!(mipmap_level_count(16), 2);
    assert_eq!(mipmap_level_count(63), 2);
    assert_eq!(mipmap_level_count(1024), 5);
    assert_eq!(mipmap_level_count(80000), 8);
}

#[test]
fn levels_len_exact_values() {
    // 1024 -> 256 + 64 + 16 + 4 + 1 = 341 channels above level 0
    assert_eq!(mipmap_levels_len(7, 1024), 7 * 341);
    // 10 -> 2 channels above level 0
    assert_eq!(mipmap_levels_len(3, 10), 6);
}

#[test]
fn buffer_size_is_four_thirds_rounded_up() {
    assert_eq!(mipmap_buffer_size(0), 0);
    assert_eq!(mipmap_buffer_size(3), 4);
    assert_eq!(mipmap_buffer_size(4), 6);
    assert_eq!(mipmap_buffer_size(4096), 5462);
}

#[test]
fn chunk_len_is_bounded_by_buffer_and_workgroups() {
    // 1024 channels: 4096 bytes per slice, 5462 with the mipmap
    assert_eq!(chunk_len(128 << 20, 256 << 20, 65535, 100, 1024), 100);
    assert_eq!(chunk_len(54620, 1 << 30, 65535, 100, 1024), 10);
    assert_eq!(chunk_len(128 << 20, 256 << 20, 65535, 1_000_000, 1024), 24573);
    assert_eq!(chunk_len(128 << 20, 256 << 20, 50, 1_000_000, 1024), 50);
    assert_eq!(chunk_len(1000, 1 << 30, 65535, 100, 1024), 0);
    // the smaller of the binding size and the buffer size counts
    assert_eq!(chunk_len(1 << 30, 54620, 65535, 100, 1024), 10);
}

#[test]
fn mip_params_records_per_level() {
    let ps = mip_params(7, 1024, AVERAGE);
    assert_eq!(ps.len(), 5);
    assert_eq!(
        ps[1],
        MipParams { src_offset: 7 * 1024, dst_offset: 7 * 1280, nchan_in: 256, nslices: 7, average: 1 }
    );
}

#[test]
fn dispatches_cover_each_level_in_order() {
    let ds = mipmap_dispatches(1024, 7);
    assert_eq!(ds.len(), 5);
    assert_eq!(ds[0], Dispatch { params_offset: 0, groups_x: 4, groups_y: 7 });
    assert_eq!(ds[1], Dispatch { params_offset: 256, groups_x: 1, groups_y: 7 });
    assert_eq!(ds[4], Dispatch { params_offset: 1024, groups_x: 1, groups_y: 7 });
    assert!(mipmap_dispatches(3, 7).is_empty());
}

#[test]
fn chunks_cut_the_slices_like_slice_chunks() {
    for (nslices, chunk) in [(0usize, 3usize), (1, 3), (3, 3), (10, 3), (7, 1), (5, 100)] {
        let data: Vec<u32> = (0..nslices as u32).collect();
        let expected: Vec<usize> = data.chunks(chunk).map(|c| c.len()).collect();
        let sizes = chunk_sizes(nslices, chunk);
        assert_eq!(sizes, expected, "nslices={nslices}, chunk={chunk}");
        assert_eq!(sizes.iter().sum::<usize>(), nslices);
    }
}

#[test]
fn buffer_size_is_accepted_wherever_the_result_fits() {
    let n = usize::MAX / 4 * 3;
    assert_eq!(mipmap_buffer_size(n), usize::MAX / 4 * 4);
    assert_eq!(mipmap_buffer_size(5), 7);
}
