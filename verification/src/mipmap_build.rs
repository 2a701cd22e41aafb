//! Building the mipmap levels on the CPU.
//!
//! Each channel of a level aggregates a group of four consecutive channels of the level below it
//! with a combining function (the maximum for max-hold, the mean for averaging); a trailing
//! partial group is dropped. The levels are laid out as in `mipmap`: level after level,
//! each slice-major.
use vstd::prelude::*;
use crate::mipmap::{
    level_count, level_nchan, level_offset, levels_nchan, pow4, lemma_levels_nchan_third,
    lemma_level_nchan_step, lemma_level_offset_monotonic,
};

verus! {

/// The four values of the group that starts at `at`.
pub open spec fn group_at<T>(src: Seq<T>, at: int) -> (T, T, T, T) {
    (src[at], src[at + 1], src[at + 2], src[at + 3])
}

/// Channel `y` of slice `x` of a level with `nout` channels per slice.
pub open spec fn cell<T>(dst: Seq<T>, nout: int, x: int, y: int) -> T {
    dst[x * nout + y]
}

/// Whether `dst` is the level that aggregates the level of `nslices` slices of `nchan_in`
/// channels stored in `src` from `base` on: channel `y` of slice `x` is what `f` gives for the
/// group of channels `4y .. 4y + 4` of that slice.
pub open spec fn aggregates<T, F: Fn(T, T, T, T) -> T>(
    src: Seq<T>,
    base: int,
    nslices: nat,
    nchan_in: nat,
    f: F,
    dst: Seq<T>,
) -> bool {
    let nout = (nchan_in / 4) as int;
    &&& dst.len() == nslices * nout
    &&& forall|x: int, y: int|
        0 <= x < nslices && 0 <= y < nout ==> call_ensures(
            f,
            group_at(src, base + x * nchan_in + 4 * y),
            #[trigger] cell(dst, nout, x, y),
        )
}

/// The source a level of `nslices` slices of `nchan_in` channels needs from `base` on: its last
/// full group must lie inside `src`.
pub open spec fn level_in_bounds(len: nat, base: nat, nslices: nat, nchan_in: nat) -> bool {
    nslices == 0 || nchan_in / 4 == 0 || base + (nslices - 1) * nchan_in + 4 * (nchan_in / 4)
        <= len
}

proof fn lemma_cell_index(x: int, y: int, nout: int, xs: int)
    requires
        0 <= x < xs,
        0 <= y < nout,
    ensures
        0 <= x * nout + y < xs * nout,
        x * nout + y + 1 <= xs * nout,
{
    assert(x * nout + y < xs * nout) by (nonlinear_arith)
        requires
            0 <= x < xs,
            0 <= y < nout,
    ;
    assert(0 <= x * nout) by (nonlinear_arith)
        requires
            0 <= x,
            0 <= nout,
    ;
}

/// Aggregates every group of four channels of a level with `f`, reading the level from `src` at
/// `base`.
pub fn aggregate_level<T: Copy, F: Fn(T, T, T, T) -> T>(
    src: &[T],
    base: usize,
    nslices: usize,
    nchan_in: usize,
    f: &F,
) -> (dst: Vec<T>)
    requires
        level_in_bounds(src@.len(), base as nat, nslices as nat, nchan_in as nat),
        forall|a: T, b: T, c: T, d: T| #[trigger] f.requires((a, b, c, d)),
    ensures
        aggregates(src@, base as int, nslices as nat, nchan_in as nat, *f, dst@),
{
    let nout = nchan_in / 4;
    let mut dst: Vec<T> = Vec::new();
    if nout == 0 {
        assert(nslices * nout == 0);
        return dst;
    }
    let src_len = src.len();
    let mut x: usize = 0;
    let mut row: usize = base;
    while x < nslices
        invariant
            nout == nchan_in / 4,
            nout >= 1,
            x <= nslices,
            src_len == src@.len(),
            level_in_bounds(src@.len(), base as nat, nslices as nat, nchan_in as nat),
            forall|a: T, b: T, c: T, d: T| #[trigger] f.requires((a, b, c, d)),
            dst@.len() == x * nout,
            x < nslices ==> row == base + x * nchan_in,
            forall|x1: int, y1: int|
                0 <= x1 < x && 0 <= y1 < nout ==> call_ensures(
                    *f,
                    group_at(src@, base + x1 * nchan_in + 4 * y1),
                    #[trigger] cell(dst@, nout as int, x1, y1),
                ),
        decreases nslices - x,
    {
        assert(row + 4 * nout <= src@.len()) by (nonlinear_arith)
            requires
                row == base + x * nchan_in,
                x < nslices,
                base + (nslices - 1) * nchan_in + 4 * nout <= src@.len(),
        ;
        let mut y: usize = 0;
        let mut at: usize = row;
        while y < nout
            invariant
                nout == nchan_in / 4,
                nout >= 1,
                x < nslices,
                row == base + x * nchan_in,
                row + 4 * nout <= src@.len(),
                y <= nout,
                at == row + 4 * y,
                forall|a: T, b: T, c: T, d: T| #[trigger] f.requires((a, b, c, d)),
                dst@.len() == x * nout + y,
                forall|x1: int, y1: int|
                    (0 <= x1 < x && 0 <= y1 < nout) || (x1 == x && 0 <= y1 < y) ==> call_ensures(
                        *f,
                        group_at(src@, base + x1 * nchan_in + 4 * y1),
                        #[trigger] cell(dst@, nout as int, x1, y1),
                    ),
            decreases nout - y,
        {
            let v = f(src[at], src[at + 1], src[at + 2], src[at + 3]);
            let ghost before = dst@;
            dst.push(v);
            proof {
                assert forall|x1: int, y1: int|
                    (0 <= x1 < x && 0 <= y1 < nout) || (x1 == x && 0 <= y1 < y + 1) implies call_ensures(
                        *f,
                        group_at(src@, base + x1 * nchan_in + 4 * y1),
                        #[trigger] cell(dst@, nout as int, x1, y1),
                    ) by {
                    if x1 == x && y1 == y {
                        assert(cell(dst@, nout as int, x1, y1) == v);
                    } else if x1 == x {
                        assert(cell(dst@, nout as int, x1, y1) == cell(before, nout as int, x1, y1));
                    } else {
                        lemma_cell_index(x1, y1, nout as int, x as int);
                        assert(cell(dst@, nout as int, x1, y1) == cell(before, nout as int, x1, y1));
                    }
                }
            }
            at = at + 4;
            y = y + 1;
        }
        assert(dst@.len() == (x + 1) * nout) by (nonlinear_arith)
            requires
                dst@.len() == x * nout + nout,
        ;
        if x + 1 < nslices {
            assert(row + nchan_in == base + (x + 1) * nchan_in) by (nonlinear_arith)
                requires
                    row == base + x * nchan_in,
            ;
            assert(base + (x + 1) * nchan_in <= src@.len()) by (nonlinear_arith)
                requires
                    x + 1 < nslices,
                    base + (nslices - 1) * nchan_in + 4 * nout <= src@.len(),
            ;
            row = row + nchan_in;
        }
        x = x + 1;
    }
    dst
}

/// Moving the source level out of a larger sequence into one of its own.
proof fn lemma_aggregates_shift<T, F: Fn(T, T, T, T) -> T>(
    src: Seq<T>,
    base: int,
    nslices: nat,
    nchan_in: nat,
    f: F,
    dst: Seq<T>,
)
    requires
        aggregates(src, base, nslices, nchan_in, f, dst),
        0 <= base,
        base + nslices * nchan_in <= src.len(),
    ensures
        aggregates(src.subrange(base, base + nslices * nchan_in), 0, nslices, nchan_in, f, dst),
{
    let sub = src.subrange(base, base + nslices * nchan_in);
    let nout = (nchan_in / 4) as int;
    assert forall|x: int, y: int| 0 <= x < nslices && 0 <= y < nout implies call_ensures(
        f,
        group_at(sub, 0 + x * nchan_in + 4 * y),
        #[trigger] cell(dst, nout, x, y),
    ) by {
        let at = x * nchan_in + 4 * y;
        assert(0 <= at && at + 3 < nslices * nchan_in) by (nonlinear_arith)
            requires
                0 <= x < nslices,
                0 <= y < nout,
                4 * nout <= nchan_in,
                at == x * nchan_in + 4 * y,
        ;
        assert(group_at(sub, 0 + at) == group_at(src, base + at));
    }
}

/// Every level below the last has a full group of four channels; the last one does not.
proof fn lemma_full_groups_until_last(n: nat, k: nat)
    ensures
        k < level_count(n) ==> level_nchan(n, k) >= 4,
        level_nchan(n, level_count(n)) < 4,
    decreases n,
{
    assert(pow4(0) == 1);
    if n >= 4 {
        if k > 0 {
            lemma_full_groups_until_last(n / 4, (k - 1) as nat);
            lemma_level_nchan_step(n, (k - 1) as nat);
        }
        lemma_full_groups_until_last(n / 4, level_count(n / 4));
        lemma_level_nchan_step(n, level_count(n / 4));
    }
}

/// Where `level` (at least 1) starts among the levels above level 0, in elements.
pub open spec fn level_start(nslices: nat, nchan: nat, level: nat) -> int {
    nslices * (level_offset(nchan, level) - nchan)
}

/// The elements of `level` (at least 1) within the levels above level 0.
pub open spec fn level_slice<T>(levels: Seq<T>, nslices: nat, nchan: nat, level: nat) -> Seq<T> {
    levels.subrange(level_start(nslices, nchan, level), level_start(nslices, nchan, level + 1))
}

/// The level that `level + 1` is built from: the data for level 0, otherwise its place among
/// the levels.
pub open spec fn source_level<T>(
    data: Seq<T>,
    levels: Seq<T>,
    nslices: nat,
    nchan: nat,
    level: nat,
) -> Seq<T> {
    if level == 0 {
        data
    } else {
        level_slice(levels, nslices, nchan, level)
    }
}

/// Whether `levels` holds the levels above level 0 built from `data` (`nslices` slices of
/// `nchan` channels): as many elements as the layout reserves for them, and each level the
/// aggregation of the level below it.
pub open spec fn builds_levels<T, F: Fn(T, T, T, T) -> T>(
    data: Seq<T>,
    nslices: nat,
    nchan: nat,
    f: F,
    levels: Seq<T>,
) -> bool {
    &&& levels.len() == nslices * levels_nchan(nchan)
    &&& forall|level: nat|
        1 <= level <= level_count(nchan) ==> aggregates(
            source_level(data, levels, nslices, nchan, (level - 1) as nat),
            0,
            nslices,
            level_nchan(nchan, (level - 1) as nat),
            f,
            #[trigger] level_slice(levels, nslices, nchan, level),
        )
}

proof fn lemma_level_start_step(nslices: nat, nchan: nat, level: nat)
    ensures
        level_start(nslices, nchan, level + 1) == level_start(nslices, nchan, level) + nslices
            * level_nchan(nchan, level),
{
    let a = level_offset(nchan, level) - nchan;
    let b = level_nchan(nchan, level) as int;
    assert(level_offset(nchan, level + 1) - nchan == a + b);
    assert(nslices * (a + b) == nslices * a + nslices * b) by (nonlinear_arith);
}

proof fn lemma_level_start_monotonic(nslices: nat, nchan: nat, i: nat, j: nat)
    requires
        i <= j,
    ensures
        level_start(nslices, nchan, i) <= level_start(nslices, nchan, j),
{
    lemma_level_offset_monotonic(nchan, i, j);
    let a = level_offset(nchan, i) - nchan;
    let b = level_offset(nchan, j) - nchan;
    assert(nslices * a <= nslices * b) by (nonlinear_arith)
        requires
            a <= b,
    ;
}

proof fn lemma_append_level<T>(old: Seq<T>, next: Seq<T>, new: Seq<T>, ns: nat, n: nat, level: nat)
    requires
        level >= 1,
        level_offset(n, 1) == n,
        new == old + next,
        old.len() == level_start(ns, n, level),
        next.len() == ns * level_nchan(n, level),
    ensures
        level_slice(new, ns, n, level) == next,
        new.len() == level_start(ns, n, level + 1),
        forall|k: nat| 1 <= k < level ==> level_slice(new, ns, n, k) == level_slice(old, ns, n, k),
{
    lemma_level_start_step(ns, n, level);
    assert(level_slice(new, ns, n, level) =~= next);
    assert forall|k: nat| 1 <= k < level implies level_slice(new, ns, n, k) == level_slice(
        old,
        ns,
        n,
        k,
    ) by {
        lemma_level_start_monotonic(ns, n, k + 1, level);
        lemma_level_start_monotonic(ns, n, 1, k);
        lemma_level_start_step(ns, n, k);
        assert(level_slice(new, ns, n, k) =~= level_slice(old, ns, n, k));
    }
}

proof fn lemma_extend_built<T, F: Fn(T, T, T, T) -> T>(
    data: Seq<T>,
    old: Seq<T>,
    new: Seq<T>,
    ns: nat,
    n: nat,
    f: F,
    level: nat,
)
    requires
        level >= 2,
        forall|k: nat|
            1 <= k < level ==> aggregates(
                source_level(data, old, ns, n, (k - 1) as nat),
                0,
                ns,
                level_nchan(n, (k - 1) as nat),
                f,
                #[trigger] level_slice(old, ns, n, k),
            ),
        forall|k: nat| 1 <= k < level ==> level_slice(new, ns, n, k) == level_slice(old, ns, n, k),
        aggregates(
            level_slice(old, ns, n, (level - 1) as nat),
            0,
            ns,
            level_nchan(n, (level - 1) as nat),
            f,
            level_slice(new, ns, n, level),
        ),
    ensures
        forall|k: nat|
            1 <= k < level + 1 ==> aggregates(
                source_level(data, new, ns, n, (k - 1) as nat),
                0,
                ns,
                level_nchan(n, (k - 1) as nat),
                f,
                #[trigger] level_slice(new, ns, n, k),
            ),
{
    assert forall|k: nat| 1 <= k < level + 1 implies aggregates(
        source_level(data, new, ns, n, (k - 1) as nat),
        0,
        ns,
        level_nchan(n, (k - 1) as nat),
        f,
        #[trigger] level_slice(new, ns, n, k),
    ) by {
        if k == level {
            assert(level_slice(new, ns, n, (k - 1) as nat) == level_slice(old, ns, n, (k - 1) as nat));
        } else {
            assert(level_slice(new, ns, n, k) == level_slice(old, ns, n, k));
            if k >= 2 {
                assert(level_slice(new, ns, n, (k - 1) as nat) == level_slice(
                    old,
                    ns,
                    n,
                    (k - 1) as nat,
                ));
            }
            assert(aggregates(
                source_level(data, old, ns, n, (k - 1) as nat),
                0,
                ns,
                level_nchan(n, (k - 1) as nat),
                f,
                level_slice(old, ns, n, k),
            ));
        }
    }
}

/// Builds every mipmap level above level 0 from `data`, `nslices` slices of `nchan` channels,
/// combining each group of four channels with `f`. The levels come back laid out as the renderer
/// stores them after level 0.
pub fn mipmap_levels<T: Copy, F: Fn(T, T, T, T) -> T>(
    data: &[T],
    nslices: usize,
    nchan: usize,
    f: &F,
) -> (levels: Vec<T>)
    requires
        level_in_bounds(data@.len(), 0, nslices as nat, nchan as nat),
        forall|a: T, b: T, c: T, d: T| #[trigger] f.requires((a, b, c, d)),
    ensures
        builds_levels(data@, nslices as nat, nchan as nat, *f, levels@),
{
    let mut levels: Vec<T> = Vec::new();
    let ghost ns = nslices as nat;
    let ghost n = nchan as nat;
    proof {
        lemma_levels_nchan_third(n);
        assert(pow4(0) == 1);
        assert(pow4(1) == 4);
    }
    if nchan < 4 {
        proof {
            assert(level_count(n) == 0);
            assert(levels_nchan(n) == 0) by {
                reveal_with_fuel(level_offset, 2);
            }
            assert(ns * 0 == 0);
        }
        return levels;
    }
    let mut first = aggregate_level(data, 0, nslices, nchan, f);
    let ghost first_v = first@;
    levels.append(&mut first);
    proof {
        assert(pow4(0) == 1);
        assert(level_nchan(n, 0) == n);
        assert(level_offset(n, 1) == level_offset(n, 0) + level_nchan(n, 0));
        assert(level_offset(n, 1) == n);
        lemma_level_start_step(ns, n, 1);
        assert(level_start(ns, n, 1) == 0);
        assert(level_nchan(n, 1) == n / 4);
        assert(level_slice(levels@, ns, n, 1) =~= first_v) by {
            assert(levels@ =~= first_v);
        }
        assert(source_level(data@, levels@, ns, n, 0) == data@);
        assert(aggregates(data@, 0, ns, level_nchan(n, 0), *f, level_slice(levels@, ns, n, 1)));
    }
    let ghost mut level: nat = 2;
    let mut prev_base: usize = 0;
    let mut nchan_in: usize = nchan / 4;
    while nchan_in >= 4
        invariant
            ns == nslices,
            n == nchan,
            n >= 4,
            level_offset(n, 1) == n,
            2 <= level <= level_count(n) + 1,
            nchan_in == level_nchan(n, (level - 1) as nat),
            prev_base == level_start(ns, n, (level - 1) as nat),
            levels@.len() == level_start(ns, n, level),
            forall|a: T, b: T, c: T, d: T| #[trigger] f.requires((a, b, c, d)),
            forall|k: nat|
                1 <= k < level ==> aggregates(
                    source_level(data@, levels@, ns, n, (k - 1) as nat),
                    0,
                    ns,
                    level_nchan(n, (k - 1) as nat),
                    *f,
                    #[trigger] level_slice(levels@, ns, n, k),
                ),
        decreases nchan_in,
    {
        let ghost old_levels = levels@;
        let ghost prev = (level - 1) as nat;
        proof {
            lemma_level_start_step(ns, n, prev);
            lemma_level_start_monotonic(ns, n, 1, prev);
            assert(level_in_bounds(levels@.len(), prev_base as nat, ns, nchan_in as nat))
                by (nonlinear_arith)
                requires
                    levels@.len() == prev_base + ns * nchan_in,
            ;
        }
        let mut next = aggregate_level(levels.as_slice(), prev_base, nslices, nchan_in, f);
        proof {
            lemma_aggregates_shift(old_levels, prev_base as int, ns, nchan_in as nat, *f, next@);
            assert(old_levels.subrange(prev_base as int, prev_base + ns * nchan_in) == level_slice(
                old_levels,
                ns,
                n,
                prev,
            ));
        }
        let ghost next_v = next@;
        prev_base = levels.len();
        levels.append(&mut next);
        proof {
            lemma_level_nchan_step(n, prev);
            lemma_full_groups_until_last(n, prev);
            lemma_append_level(old_levels, next_v, levels@, ns, n, level);
            lemma_extend_built(data@, old_levels, levels@, ns, n, *f, level);
        }
        nchan_in = nchan_in / 4;
        proof {
            level = level + 1;
        }
    }
    proof {
        lemma_full_groups_until_last(n, (level - 1) as nat);
        assert(level - 1 == level_count(n));
        assert(levels@.len() == ns * levels_nchan(n));
    }
    levels
}

} // verus!
