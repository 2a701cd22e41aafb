//! Layout of the frequency-axis mipmap that the spectrogram renderer keeps next to the raw data.
//!
//! Level 0 is the raw spectrogram (`nslices` slices of `nchan` channels). Level `k` has
//! `nchan / 4^k` channels per slice; each channel of level `k` aggregates four consecutive
//! channels of level `k - 1`, and a trailing partial group is dropped. The chain stops once a
//! level has fewer than four channels left. All levels of one chunk are stored back to back,
//! level by level, each level slice-major.
use vstd::prelude::*;

verus! {

/// Channels aggregated into one channel of the next level.
pub const MIPMAP_FACTOR: usize = 4;

/// `4^k`.
pub open spec fn pow4(k: nat) -> nat
    decreases k,
{
    if k == 0 {
        1
    } else {
        4 * pow4((k - 1) as nat)
    }
}

/// Channels per slice at `level` (level 0 is the raw data).
pub open spec fn level_nchan(nchan: nat, level: nat) -> nat {
    nchan / pow4(level)
}

/// Number of levels above level 0: how often `nchan` can be divided by four while at least one
/// full group of four channels is left.
pub open spec fn level_count(nchan: nat) -> nat
    decreases nchan,
{
    if nchan < 4 {
        0
    } else {
        1 + level_count(nchan / 4)
    }
}

/// Offset of `level` within one chunk's mipmap block, in channels: the sum of the channel counts
/// of every level below it.
pub open spec fn level_offset(nchan: nat, level: nat) -> nat
    decreases level,
{
    if level == 0 {
        0
    } else {
        level_offset(nchan, (level - 1) as nat) + level_nchan(nchan, (level - 1) as nat)
    }
}

/// Channels per slice occupied by levels 1.. together.
pub open spec fn levels_nchan(nchan: nat) -> nat {
    (level_offset(nchan, level_count(nchan) + 1) - nchan) as nat
}

/// `ceil(4 * size / 3)`: the room the mipmap needs on top of a buffer of `size` bytes, since
/// `sum(1/4^n for n = 0..) = 4/3`.
pub open spec fn buffer_size_spec(size: nat) -> nat {
    (4 * size + 2) / 3
}

pub proof fn lemma_pow4_positive(k: nat)
    ensures
        pow4(k) >= 1,
    decreases k,
{
    if k > 0 {
        lemma_pow4_positive((k - 1) as nat);
    }
}

pub proof fn lemma_pow4_monotonic(i: nat, j: nat)
    requires
        i <= j,
    ensures
        pow4(i) <= pow4(j),
    decreases j,
{
    if i < j {
        lemma_pow4_monotonic(i, (j - 1) as nat);
        lemma_pow4_positive((j - 1) as nat);
    }
}

proof fn lemma_pow4_exceeds_usize()
    ensures
        pow4(32) > usize::MAX,
{
    reveal_with_fuel(pow4, 33);
}

/// Dividing by four once more gives the next level: `level_nchan(n, k + 1) == level_nchan(n, k) / 4`.
pub proof fn lemma_level_nchan_step(nchan: nat, level: nat)
    ensures
        level_nchan(nchan, level + 1) == level_nchan(nchan, level) / 4,
        level_nchan(nchan / 4, level) == level_nchan(nchan, level + 1),
{
    lemma_pow4_positive(level);
    vstd::arithmetic::div_mod::lemma_div_denominator(nchan as int, pow4(level) as int, 4);
    vstd::arithmetic::div_mod::lemma_div_denominator(nchan as int, 4, pow4(level) as int);
    assert(pow4(level + 1) == 4 * pow4(level));
    vstd::arithmetic::mul::lemma_mul_is_commutative(4, pow4(level) as int);
}

proof fn lemma_level_count_bound(n: nat, k: nat)
    requires
        n < pow4(k),
    ensures
        level_count(n) <= k,
    decreases k,
{
    if n >= 4 {
        assert(k > 0) by {
            if k == 0 {
                assert(pow4(0) == 1);
            }
        }
        assert(pow4(k) == 4 * pow4((k - 1) as nat));
        lemma_level_count_bound(n / 4, (k - 1) as nat);
    }
}

/// The level count is at most 31 for any channel count a `usize` can hold.
pub proof fn lemma_level_count_small(n: nat)
    requires
        n <= usize::MAX,
    ensures
        level_count(n) < 32,
{
    lemma_pow4_exceeds_usize();
    lemma_level_count_bound(n, 32);
    if level_count(n) == 32 {
        lemma_count_pow4_le(n);
    }
}

/// Every level up to the last one still has at least one channel: `4^count <= nchan`.
pub proof fn lemma_count_pow4_le(n: nat)
    requires
        n >= 1,
    ensures
        pow4(level_count(n)) <= n,
    decreases n,
{
    if n >= 4 {
        lemma_count_pow4_le(n / 4);
        assert(pow4(level_count(n)) == 4 * pow4(level_count(n / 4)));
    }
}

/// Channels per slice at `level`, where level 0 is the raw data.
pub fn mipmap_level_nchan(nchan: usize, level: u32) -> (r: usize)
    requires
        pow4(level as nat) <= usize::MAX,
    ensures
        r == level_nchan(nchan as nat, level as nat),
{
    let mut factor: usize = 1;
    let mut i: u32 = 0;
    while i < level
        invariant
            i <= level,
            factor == pow4(i as nat),
            pow4(level as nat) <= usize::MAX,
        decreases level - i,
    {
        proof {
            lemma_pow4_monotonic((i + 1) as nat, level as nat);
        }
        factor = factor * MIPMAP_FACTOR;
        i = i + 1;
    }
    proof {
        lemma_pow4_positive(level as nat);
    }
    nchan / factor
}

/// Number of mipmap levels above level 0. The chain stops once a level would have no full group
/// of `MIPMAP_FACTOR` input channels left.
pub fn mipmap_level_count(nchan: usize) -> (r: u32)
    ensures
        r == level_count(nchan as nat),
{
    let mut n: usize = nchan;
    let mut levels: u32 = 0;
    proof {
        lemma_level_count_small(nchan as nat);
    }
    while n >= MIPMAP_FACTOR
        invariant
            levels + level_count(n as nat) == level_count(nchan as nat),
            level_count(nchan as nat) < 32,
        decreases n,
    {
        n = n / MIPMAP_FACTOR;
        levels = levels + 1;
    }
    levels
}


pub proof fn lemma_level_offset_monotonic(nchan: nat, i: nat, j: nat)
    requires
        i <= j,
    ensures
        level_offset(nchan, i) <= level_offset(nchan, j),
    decreases j,
{
    if i < j {
        lemma_level_offset_monotonic(nchan, i, (j - 1) as nat);
    }
}

/// Peeling off level 0: `offset(n, k + 1) == n + offset(n / 4, k)`.
proof fn lemma_level_offset_peel(nchan: nat, level: nat)
    ensures
        level_offset(nchan, level + 1) == nchan + level_offset(nchan / 4, level),
    decreases level,
{
    if level == 0 {
        assert(pow4(0) == 1);
        assert(level_offset(nchan, 1) == level_offset(nchan, 0) + level_nchan(nchan, 0));
    } else {
        lemma_level_offset_peel(nchan, (level - 1) as nat);
        lemma_level_nchan_step(nchan, (level - 1) as nat);
    }
}

/// The levels together take at most a third of level 0 (in integers: `3 * sum <= 4 * nchan`).
proof fn lemma_level_offset_third(nchan: nat, level: nat)
    ensures
        3 * level_offset(nchan, level) <= 4 * nchan,
    decreases level,
{
    if level > 0 {
        lemma_level_offset_peel(nchan, (level - 1) as nat);
        lemma_level_offset_third(nchan / 4, (level - 1) as nat);
    }
}

/// Levels 1.. take at most a third of the channels of level 0.
pub proof fn lemma_levels_nchan_third(nchan: nat)
    ensures
        level_offset(nchan, level_count(nchan) + 1) >= nchan,
        3 * levels_nchan(nchan) <= nchan,
        levels_nchan(nchan) == level_offset(nchan / 4, level_count(nchan)),
{
    lemma_level_offset_peel(nchan, level_count(nchan));
    lemma_level_offset_third(nchan / 4, level_count(nchan));
}

/// The offset of every level is the running sum of the sizes of the levels below it, so the
/// offsets that the renderer reads with and the sizes that the pyramid builder writes with
/// describe one layout.
pub proof fn lemma_offsets_are_running_sums(nchan: nat, level: nat)
    ensures
        level_offset(nchan, 0) == 0,
        level_offset(nchan, level + 1) == level_offset(nchan, level) + level_nchan(nchan, level),
{
}

/// The level count is exactly where the chain of full groups stops: for at least one channel,
/// `4^count <= nchan < 4^(count + 1)`, so the last level has between one and three channels; with
/// fewer than four channels there are no levels at all.
pub proof fn lemma_level_count_is_last_full_group(nchan: nat)
    ensures
        nchan >= 1 ==> pow4(level_count(nchan)) <= nchan < pow4(level_count(nchan) + 1),
        nchan >= 1 ==> 1 <= level_nchan(nchan, level_count(nchan)) < 4,
        nchan < 4 ==> level_count(nchan) == 0 && levels_nchan(nchan) == 0,
    decreases nchan,
{
    if nchan >= 4 {
        lemma_level_count_is_last_full_group(nchan / 4);
        let c = level_count(nchan / 4);
        assert(pow4(c + 1) == 4 * pow4(c));
        assert(pow4(c + 2) == 4 * pow4(c + 1));
    } else {
        reveal_with_fuel(pow4, 2);
        reveal_with_fuel(level_offset, 2);
    }
    if nchan >= 1 {
        let c = level_count(nchan);
        lemma_pow4_positive(c);
        let q = nchan / pow4(c);
        vstd::arithmetic::div_mod::lemma_fundamental_div_mod(nchan as int, pow4(c) as int);
        assert(pow4(c + 1) == 4 * pow4(c));
        assert(1 <= q) by {
            vstd::arithmetic::div_mod::lemma_div_is_ordered(pow4(c) as int, nchan as int, pow4(c) as int);
            vstd::arithmetic::div_mod::lemma_div_by_self(pow4(c) as int);
        }
        assert(q < 4) by {
            vstd::arithmetic::div_mod::lemma_div_is_ordered(nchan as int, 4 * pow4(c) - 1, pow4(c) as int);
            vstd::arithmetic::div_mod::lemma_fundamental_div_mod(4 * pow4(c) - 1, pow4(c) as int);
            vstd::arithmetic::mul::lemma_mul_is_commutative(4, pow4(c) as int);
            vstd::arithmetic::div_mod::lemma_div_multiples_vanish_fancy(3, pow4(c) - 1, pow4(c) as int);
        }
    }
}

/// The 4/3 budget of `mipmap_buffer_size` holds for the levels that are actually built: raw data
/// plus every level fits in the buffer size reserved for a chunk of `nslices` slices of `nchan`
/// `f32` channels.
pub proof fn lemma_levels_fit_budget(nslices: nat, nchan: nat)
    ensures
        nslices * nchan + nslices * levels_nchan(nchan) <= buffer_size_spec(nslices * nchan * 4) / 4,
{
    lemma_levels_nchan_third(nchan);
    let lv = levels_nchan(nchan);
    let n = nslices * nchan;
    assert(3 * (nslices * lv) <= n) by (nonlinear_arith)
        requires
            3 * lv <= nchan,
            n == nslices * nchan,
    ;
    assert(nslices * nchan * 4 == 4 * n) by (nonlinear_arith)
        requires
            n == nslices * nchan,
    ;
}

/// Offset of `level` within one chunk's mipmap block, in channels. Multiply by the chunk's slice
/// count to get the offset in `f32` elements.
pub fn mipmap_level_offset_chan(nchan: usize, level: u32) -> (r: usize)
    requires
        level == 0 || pow4((level - 1) as nat) <= usize::MAX,
        level_offset(nchan as nat, level as nat) <= usize::MAX,
    ensures
        r == level_offset(nchan as nat, level as nat),
{
    let mut sum: usize = 0;
    let mut i: u32 = 0;
    while i < level
        invariant
            i <= level,
            sum == level_offset(nchan as nat, i as nat),
            level == 0 || pow4((level - 1) as nat) <= usize::MAX,
            level_offset(nchan as nat, level as nat) <= usize::MAX,
        decreases level - i,
    {
        proof {
            lemma_pow4_monotonic(i as nat, (level - 1) as nat);
            lemma_level_offset_monotonic(nchan as nat, (i + 1) as nat, level as nat);
        }
        let part = mipmap_level_nchan(nchan, i);
        sum = sum + part;
        i = i + 1;
    }
    sum
}

/// Total `f32` elements occupied by levels 1.. of one chunk of `nslices` slices.
pub fn mipmap_levels_len(nslices: usize, nchan: usize) -> (r: usize)
    requires
        nchan + levels_nchan(nchan as nat) <= usize::MAX,
        nslices * levels_nchan(nchan as nat) <= usize::MAX,
    ensures
        r == nslices * levels_nchan(nchan as nat),
{
    let count = mipmap_level_count(nchan);
    proof {
        lemma_level_count_small(nchan as nat);
        lemma_levels_nchan_third(nchan as nat);
        if nchan >= 1 {
            lemma_count_pow4_le(nchan as nat);
        }
    }
    let past_last = mipmap_level_offset_chan(nchan, count + 1);
    nslices * (past_last - nchan)
}

/// Size of a buffer that holds `normal_size` bytes of raw data plus its mipmap: the raw size
/// times 4/3, rounded up.
pub fn mipmap_buffer_size(normal_size: usize) -> (r: usize)
    requires
        buffer_size_spec(normal_size as nat) <= usize::MAX,
    ensures
        r == buffer_size_spec(normal_size as nat),
{
    let third = normal_size / 3;
    let rest = if normal_size % 3 != 0 {
        1usize
    } else {
        0usize
    };
    assert(normal_size + third + rest == (4 * normal_size + 2) / 3);
    normal_size + third + rest
}


/// Slices per GPU chunk for a device whose limits are given, bounded by the largest storage
/// buffer the device will bind (mipmap included) and by the workgroup count of one dispatch
/// dimension.
pub open spec fn chunk_len_spec(
    max_storage_buffer_binding_size: u32,
    max_buffer_size: u64,
    max_compute_workgroups_per_dimension: u32,
    nslices: nat,
    nchan: nat,
) -> nat {
    let bound = if (max_storage_buffer_binding_size as u64) < max_buffer_size {
        max_storage_buffer_binding_size as u64
    } else {
        max_buffer_size
    };
    let max_buf = (bound as usize) as nat;
    let by_size = max_buf / buffer_size_spec(nchan * 4);
    let by_groups = (max_compute_workgroups_per_dimension as usize) as nat;
    let m = if nslices < by_size {
        nslices
    } else {
        by_size
    };
    if m < by_groups {
        m
    } else {
        by_groups
    }
}

/// Slices per GPU chunk, bounded by the largest storage buffer the device will bind. Returns 0 if
/// a single slice does not fit.
pub fn chunk_len(
    max_storage_buffer_binding_size: u32,
    max_buffer_size: u64,
    max_compute_workgroups_per_dimension: u32,
    nslices: usize,
    nchan: usize,
) -> (r: usize)
    requires
        nchan >= 1,
        4 * nchan <= usize::MAX,
        buffer_size_spec(4 * nchan as nat) <= usize::MAX,
    ensures
        r == chunk_len_spec(
            max_storage_buffer_binding_size,
            max_buffer_size,
            max_compute_workgroups_per_dimension,
            nslices as nat,
            nchan as nat,
        ),
{
    let binding = max_storage_buffer_binding_size as u64;
    let bound: u64 = if binding < max_buffer_size {
        binding
    } else {
        max_buffer_size
    };
    let max_buf_size = bound as usize;
    let slice_size = mipmap_buffer_size(nchan * 4);
    let by_size = max_buf_size / slice_size;
    let by_groups = max_compute_workgroups_per_dimension as usize;
    let m = if nslices < by_size {
        nslices
    } else {
        by_size
    };
    if m < by_groups {
        m
    } else {
        by_groups
    }
}

/// The slice counts of the chunks a spectrogram of `nslices` slices is cut into, `chunk` slices
/// per chunk and the rest in the last one, as `slice::chunks` cuts the data.
pub open spec fn chunk_sizes_spec(nslices: nat, chunk: nat) -> Seq<nat>
    decreases nslices,
{
    if nslices == 0 || chunk == 0 {
        seq![]
    } else if nslices <= chunk {
        seq![nslices]
    } else {
        seq![chunk] + chunk_sizes_spec((nslices - chunk) as nat, chunk)
    }
}

/// The sum of the chunk sizes.
pub open spec fn sum_sizes(s: Seq<nat>) -> nat
    decreases s.len(),
{
    if s.len() == 0 {
        0
    } else {
        s[0] + sum_sizes(s.drop_first())
    }
}

/// The chunks cover the spectrogram exactly, each with between one and `chunk` slices.
pub proof fn lemma_chunks_cover(nslices: nat, chunk: nat)
    requires
        chunk > 0,
    ensures
        sum_sizes(chunk_sizes_spec(nslices, chunk)) == nslices,
        forall|i: int|
            0 <= i < chunk_sizes_spec(nslices, chunk).len() ==> 1 <= #[trigger] chunk_sizes_spec(
                nslices,
                chunk,
            )[i] <= chunk,
    decreases nslices,
{
    if nslices > chunk {
        lemma_chunks_cover((nslices - chunk) as nat, chunk);
        let s = chunk_sizes_spec(nslices, chunk);
        assert(s.drop_first() =~= chunk_sizes_spec((nslices - chunk) as nat, chunk));
        assert(s[0] == chunk);
        assert(sum_sizes(s) == s[0] + sum_sizes(s.drop_first()));
        assert forall|i: int| 0 <= i < s.len() implies 1 <= #[trigger] s[i] <= chunk by {
            if i > 0 {
                assert(s[i] == s.drop_first()[i - 1]);
            }
        }
    } else if nslices > 0 {
        let s = chunk_sizes_spec(nslices, chunk);
        assert(s.drop_first() =~= Seq::<nat>::empty());
        assert(sum_sizes(s.drop_first()) == 0);
        assert(sum_sizes(s) == s[0] + sum_sizes(s.drop_first()));
    } else {
        assert(sum_sizes(chunk_sizes_spec(nslices, chunk)) == 0);
    }
}

/// The slice counts of the chunks of a spectrogram of `nslices` slices, `chunk` per chunk.
pub fn chunk_sizes(nslices: usize, chunk: usize) -> (r: Vec<usize>)
    requires
        chunk > 0,
    ensures
        r@.map_values(|k: usize| k as nat) == chunk_sizes_spec(nslices as nat, chunk as nat),
{
    let mut out: Vec<usize> = Vec::new();
    let mut remaining = nslices;
    while remaining > 0
        invariant
            chunk > 0,
            remaining <= nslices,
            out@.map_values(|k: usize| k as nat) + chunk_sizes_spec(remaining as nat, chunk as nat)
                == chunk_sizes_spec(nslices as nat, chunk as nat),
        decreases remaining,
    {
        let ghost before = out@;
        let k = if remaining < chunk {
            remaining
        } else {
            chunk
        };
        out.push(k);
        proof {
            let f = |k: usize| k as nat;
            assert(out@.map_values(f) =~= before.map_values(f).push(k as nat));
            if remaining > chunk {
                assert(chunk_sizes_spec(remaining as nat, chunk as nat) == seq![k as nat]
                    + chunk_sizes_spec((remaining - k) as nat, chunk as nat));
            } else {
                assert(chunk_sizes_spec((remaining - k) as nat, chunk as nat) =~= Seq::<nat>::empty());
            }
            assert(before.map_values(f).push(k as nat) + chunk_sizes_spec(
                (remaining - k) as nat,
                chunk as nat,
            ) =~= before.map_values(f) + (seq![k as nat] + chunk_sizes_spec(
                (remaining - k) as nat,
                chunk as nat,
            )));
        }
        remaining = remaining - k;
    }
    assert(chunk_sizes_spec(0, chunk as nat) =~= Seq::<nat>::empty());
    assert(out@.map_values(|k: usize| k as nat) + Seq::<nat>::empty() =~= out@.map_values(
        |k: usize| k as nat,
    ));
    out
}

/// Invocations per workgroup of the mipmap compute pass.
pub const WORKGROUP_SIZE: u32 = 64;

/// Stride in bytes between consecutive `MipParams` in the uniform buffer. Dynamic offsets must be
/// a multiple of the device's uniform offset alignment, which is a power of two no greater than
/// 256.
pub const MIP_PARAMS_STRIDE: usize = 256;

/// Words of a `MipParams` record as the compute shader reads it: five fields and three words of
/// padding.
pub const MIP_PARAMS_WORDS: usize = 8;

/// One dispatch's worth of parameters of the mipmap compute pass.
#[derive(Clone, Copy, Debug, PartialEq, Eq)]
pub struct MipParams {
    pub src_offset: u32,
    pub dst_offset: u32,
    pub nchan_in: u32,
    pub nslices: u32,
    pub average: u32,
}

/// The parameters of the dispatch that builds `level` (at least 1) from `level - 1`. Offsets are
/// in `f32` elements from the start of the chunk and, like the channel count, are truncated to
/// the `u32` the shader reads.
pub open spec fn mip_params_spec(nslices: nat, nchan: nat, average: bool, level: nat) -> MipParams {
    MipParams {
        src_offset: (nslices * level_offset(nchan, (level - 1) as nat)) as u32,
        dst_offset: (nslices * level_offset(nchan, level)) as u32,
        nchan_in: level_nchan(nchan, (level - 1) as nat) as u32,
        nslices: nslices as u32,
        average: if average {
            1
        } else {
            0
        },
    }
}

/// Overflow-free range of the layout arithmetic for a chunk: every level offset, also multiplied
/// by the slice count, fits in a `usize`.
pub open spec fn layout_fits(nslices: nat, nchan: nat) -> bool {
    &&& level_offset(nchan, level_count(nchan)) <= usize::MAX
    &&& nslices * level_offset(nchan, level_count(nchan)) <= usize::MAX
}

/// The parameters of every dispatch of one chunk, one per level above level 0, in level order.
pub fn mip_params(nslices: usize, nchan: usize, average: bool) -> (r: Vec<MipParams>)
    requires
        layout_fits(nslices as nat, nchan as nat),
    ensures
        r@.len() == level_count(nchan as nat),
        forall|i: int|
            0 <= i < r@.len() ==> #[trigger] r@[i] == mip_params_spec(
                nslices as nat,
                nchan as nat,
                average,
                (i + 1) as nat,
            ),
{
    let levels = mipmap_level_count(nchan);
    let mut out: Vec<MipParams> = Vec::new();
    let mut level: u32 = 1;
    proof {
        lemma_level_count_small(nchan as nat);
        if nchan >= 1 {
            lemma_count_pow4_le(nchan as nat);
        }
    }
    while level <= levels
        invariant
            1 <= level <= levels + 1,
            levels == level_count(nchan as nat),
            levels < 32,
            nchan >= 1 ==> pow4(levels as nat) <= nchan,
            layout_fits(nslices as nat, nchan as nat),
            out@.len() == level - 1,
            forall|i: int|
                0 <= i < out@.len() ==> #[trigger] out@[i] == mip_params_spec(
                    nslices as nat,
                    nchan as nat,
                    average,
                    (i + 1) as nat,
                ),
        decreases levels + 1 - level,
    {
        proof {
            lemma_pow4_monotonic(level as nat, levels as nat);
            lemma_pow4_monotonic((level - 1) as nat, levels as nat);
            lemma_level_offset_monotonic(nchan as nat, level as nat, levels as nat);
            lemma_level_offset_monotonic(nchan as nat, (level - 1) as nat, levels as nat);
            let lo = level_offset(nchan as nat, (level - 1) as nat);
            let hi = level_offset(nchan as nat, level as nat);
            let top = level_offset(nchan as nat, levels as nat);
            assert(nslices * lo <= nslices * top) by (nonlinear_arith)
                requires
                    lo <= top,
            ;
            assert(nslices * hi <= nslices * top) by (nonlinear_arith)
                requires
                    hi <= top,
            ;
        }
        let src = nslices * mipmap_level_offset_chan(nchan, level - 1);
        let dst = nslices * mipmap_level_offset_chan(nchan, level);
        let nchan_in = mipmap_level_nchan(nchan, level - 1);
        let params = MipParams {
            src_offset: src as u32,
            dst_offset: dst as u32,
            nchan_in: nchan_in as u32,
            nslices: nslices as u32,
            average: if average {
                1
            } else {
                0
            },
        };
        out.push(params);
        level = level + 1;
    }
    out
}


/// Byte `k` (0 = least significant) of `w`.
pub open spec fn byte_of(w: u32, k: int) -> u8 {
    let d: int = if k == 0 {
        1
    } else if k == 1 {
        256
    } else if k == 2 {
        65536
    } else {
        16777216
    };
    ((w as int / d) % 256) as u8
}

/// The words laid out as little-endian bytes.
pub open spec fn le_bytes(words: Seq<u32>) -> Seq<u8> {
    Seq::new(4 * words.len(), |i: int| byte_of(words[i / 4], i % 4))
}

/// The words laid out as big-endian bytes.
pub open spec fn be_bytes(words: Seq<u32>) -> Seq<u8> {
    Seq::new(4 * words.len(), |i: int| byte_of(words[i / 4], 3 - i % 4))
}

/// Word `j` of the 256-byte slot that holds `p`: the five fields, then zeros.
pub open spec fn param_word(p: MipParams, j: int) -> u32 {
    if j == 0 {
        p.src_offset
    } else if j == 1 {
        p.dst_offset
    } else if j == 2 {
        p.nchan_in
    } else if j == 3 {
        p.nslices
    } else if j == 4 {
        p.average
    } else {
        0
    }
}

/// The uniform buffer contents, as words: one slot per record, records in order.
pub open spec fn params_words(ps: Seq<MipParams>) -> Seq<u32> {
    Seq::new(ps.len() * 64, |i: int| param_word(ps[i / 64], i % 64))
}

/// Reinterprets the words as bytes in the machine's own byte order.
///
/// Trusted: calls `bytemuck::cast_slice::<u32, u8>` and copies the result. bytemuck
/// reinterprets the memory of the slice, so the bytes are the words in native byte order; the
/// contract states only that this is one of the two orders, since which one depends on the
/// machine.
#[verifier::external_body]
fn native_bytes(words: &[u32]) -> (bytes: Vec<u8>)
    ensures
        bytes@ == le_bytes(words@) || bytes@ == be_bytes(words@),
{
    bytemuck::cast_slice::<u32, u8>(words).to_vec()
}

/// Lays the records out one per `MIP_PARAMS_STRIDE` slot.
pub fn params_layout(ps: &Vec<MipParams>) -> (words: Vec<u32>)
    requires
        ps@.len() * 64 <= usize::MAX,
    ensures
        words@ == params_words(ps@),
{
    let mut words: Vec<u32> = Vec::new();
    let mut k: usize = 0;
    while k < ps.len()
        invariant
            k <= ps@.len(),
            ps@.len() * 64 <= usize::MAX,
            words@.len() == k * 64,
            forall|i: int| 0 <= i < words@.len() ==> #[trigger] words@[i] == param_word(ps@[i / 64], i % 64),
        decreases ps@.len() - k,
    {
        let p = ps[k];
        let mut j: usize = 0;
        while j < 64
            invariant
                k < ps@.len(),
                p == ps@[k as int],
                j <= 64,
                words@.len() == k * 64 + j,
                forall|i: int| 0 <= i < words@.len() ==> #[trigger] words@[i] == param_word(ps@[i / 64], i % 64),
            decreases 64 - j,
        {
            let w: u32 = if j == 0 {
                p.src_offset
            } else if j == 1 {
                p.dst_offset
            } else if j == 2 {
                p.nchan_in
            } else if j == 3 {
                p.nslices
            } else if j == 4 {
                p.average
            } else {
                0
            };
            proof {
                let idx = (k * 64 + j) as int;
                assert(idx / 64 == k as int && idx % 64 == j as int);
            }
            words.push(w);
            j = j + 1;
        }
        k = k + 1;
    }
    assert(words@ =~= params_words(ps@));
    words
}

/// Parameters for every dispatch of one chunk, laid out at `MIP_PARAMS_STRIDE` intervals so a
/// dynamic offset can select a level, as the bytes of the uniform buffer.
pub fn mip_params_bytes(nslices: usize, nchan: usize, average: bool) -> (bytes: Vec<u8>)
    requires
        layout_fits(nslices as nat, nchan as nat),
    ensures
        exists|ps: Seq<MipParams>|
            {
                &&& ps.len() == level_count(nchan as nat)
                &&& forall|i: int|
                    0 <= i < ps.len() ==> #[trigger] ps[i] == mip_params_spec(
                        nslices as nat,
                        nchan as nat,
                        average,
                        (i + 1) as nat,
                    )
                &&& (bytes@ == le_bytes(params_words(ps)) || bytes@ == be_bytes(params_words(ps)))
            },
        bytes@.len() == level_count(nchan as nat) * MIP_PARAMS_STRIDE,
{
    let ps = mip_params(nslices, nchan, average);
    proof {
        lemma_level_count_small(nchan as nat);
    }
    let words = params_layout(&ps);
    native_bytes(words.as_slice())
}

/// One dispatch of the mipmap compute pass: the dynamic offset of its `MipParams` and its
/// workgroup counts.
#[derive(Clone, Copy, Debug, PartialEq, Eq)]
pub struct Dispatch {
    pub params_offset: u32,
    pub groups_x: u32,
    pub groups_y: u32,
}

/// The dispatch that builds `level` (at least 1): one invocation per output channel along x,
/// rounded up to whole workgroups, and one workgroup row per slice.
pub open spec fn dispatch_spec(nchan: nat, nslices: u32, level: nat) -> Dispatch {
    let nchan_out = level_nchan(nchan, level) as u32;
    Dispatch {
        params_offset: ((level - 1) * MIP_PARAMS_STRIDE) as u32,
        groups_x: ((nchan_out + 63) / 64) as u32,
        groups_y: nslices,
    }
}

/// The dispatches of one chunk's mipmap pass, one per level above level 0, in level order: each
/// reads the level below it, so they must run in this order.
pub fn mipmap_dispatches(nchan: usize, nslices: u32) -> (r: Vec<Dispatch>)
    ensures
        r@.len() == level_count(nchan as nat),
        forall|i: int|
            0 <= i < r@.len() ==> #[trigger] r@[i] == dispatch_spec(
                nchan as nat,
                nslices,
                (i + 1) as nat,
            ),
{
    let levels = mipmap_level_count(nchan);
    let mut out: Vec<Dispatch> = Vec::new();
    let mut level: u32 = 1;
    proof {
        lemma_level_count_small(nchan as nat);
        if nchan >= 1 {
            lemma_count_pow4_le(nchan as nat);
        }
    }
    while level <= levels
        invariant
            1 <= level <= levels + 1,
            levels == level_count(nchan as nat),
            levels < 32,
            nchan >= 1 ==> pow4(levels as nat) <= nchan,
            out@.len() == level - 1,
            forall|i: int|
                0 <= i < out@.len() ==> #[trigger] out@[i] == dispatch_spec(
                    nchan as nat,
                    nslices,
                    (i + 1) as nat,
                ),
        decreases levels + 1 - level,
    {
        proof {
            lemma_pow4_monotonic(level as nat, levels as nat);
        }
        let nchan_out = mipmap_level_nchan(nchan, level) as u32;
        let rem = if nchan_out % WORKGROUP_SIZE != 0 {
            1u32
        } else {
            0u32
        };
        let groups_x = nchan_out / WORKGROUP_SIZE + rem;
        assert(groups_x == (nchan_out + 63) / 64);
        let offset = (level as usize - 1) * MIP_PARAMS_STRIDE;
        out.push(Dispatch { params_offset: offset as u32, groups_x, groups_y: nslices });
        level = level + 1;
    }
    out
}

} // verus!
