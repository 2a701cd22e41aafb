//! Grouping the lines of a TLE catalog into element sets.
//!
//! A catalog holds two-line element sets (2LE: `1 ...`, `2 ...`) or three-line sets with a title
//! line first (3LE), whose title may carry a leading `0 `. Lines that break this shape are skipped
//! and the grouping starts over with the next line.
use vstd::prelude::*;

verus! {

/// Where the grouping stands between lines.
#[derive(Debug, Clone, PartialEq, Eq)]
pub enum TleState {
    /// Expecting a title or the first line of a set.
    AwaitLine1OrTitle,
    /// Seen a title, expecting line 1.
    AwaitLine1(String),
    /// Seen line 1 (and maybe a title), expecting line 2.
    AwaitLine2(Option<String>, String),
}

/// One element set: optional title and the two element lines.
#[derive(Debug, Clone, PartialEq, Eq)]
pub struct TleRecord {
    pub title: Option<String>,
    pub line1: String,
    pub line2: String,
}

pub enum TleStateView {
    AwaitLine1OrTitle,
    AwaitLine1(Seq<char>),
    AwaitLine2(Option<Seq<char>>, Seq<char>),
}

pub struct TleRecordView {
    pub title: Option<Seq<char>>,
    pub line1: Seq<char>,
    pub line2: Seq<char>,
}

pub open spec fn opt_view(o: Option<String>) -> Option<Seq<char>> {
    match o {
        Some(s) => Some(s@),
        None => None,
    }
}

impl View for TleState {
    type V = TleStateView;

    open spec fn view(&self) -> TleStateView {
        match self {
            TleState::AwaitLine1OrTitle => TleStateView::AwaitLine1OrTitle,
            TleState::AwaitLine1(t) => TleStateView::AwaitLine1(t@),
            TleState::AwaitLine2(t, l) => TleStateView::AwaitLine2(opt_view(*t), l@),
        }
    }
}

impl View for TleRecord {
    type V = TleRecordView;

    open spec fn view(&self) -> TleRecordView {
        TleRecordView { title: opt_view(self.title), line1: self.line1@, line2: self.line2@ }
    }
}

/// `s` starts with the two characters `c` and a space.
pub open spec fn starts_with_tag(s: Seq<char>, c: char) -> bool {
    s.len() >= 2 && s[0] == c && s[1] == ' '
}

/// One step of the grouping: the next state and the set the line completes, if any.
pub open spec fn step_spec(state: TleStateView, line: Seq<char>) -> (TleStateView, Option<
    TleRecordView,
>) {
    match state {
        TleStateView::AwaitLine1OrTitle => if starts_with_tag(line, '1') {
            (TleStateView::AwaitLine2(None, line), None)
        } else if starts_with_tag(line, '0') {
            (TleStateView::AwaitLine1(line.subrange(2, line.len() as int)), None)
        } else {
            (TleStateView::AwaitLine1(line), None)
        },
        TleStateView::AwaitLine1(title) => if starts_with_tag(line, '1') {
            (TleStateView::AwaitLine2(Some(title), line), None)
        } else {
            (TleStateView::AwaitLine1OrTitle, None)
        },
        TleStateView::AwaitLine2(title, line1) => if starts_with_tag(line, '2') {
            (
                TleStateView::AwaitLine1OrTitle,
                Some(TleRecordView { title, line1, line2: line }),
            )
        } else {
            (TleStateView::AwaitLine1OrTitle, None)
        },
    }
}

/// The state after all `lines` and the sets they complete, in order.
pub open spec fn group_spec(lines: Seq<Seq<char>>) -> (TleStateView, Seq<TleRecordView>)
    decreases lines.len(),
{
    if lines.len() == 0 {
        (TleStateView::AwaitLine1OrTitle, seq![])
    } else {
        let (state, records) = group_spec(lines.drop_last());
        let (next, out) = step_spec(state, lines.last());
        match out {
            Some(r) => (next, records.push(r)),
            None => (next, records),
        }
    }
}

/// Every set that the grouping produces has a line 1 tagged `1 ` and a line 2 tagged `2 `.
pub open spec fn well_tagged(r: TleRecordView) -> bool {
    starts_with_tag(r.line1, '1') && starts_with_tag(r.line2, '2')
}

/// A state that awaits line 2 holds a line tagged `1 `.
pub open spec fn state_ok(s: TleStateView) -> bool {
    match s {
        TleStateView::AwaitLine2(_, l) => starts_with_tag(l, '1'),
        _ => true,
    }
}

/// Whether `line` starts with the two characters `c` and a space.
fn has_tag(line: &String, c: char) -> (r: bool)
    ensures
        r == starts_with_tag(line@, c),
{
    let s = line.as_str();
    if s.unicode_len() < 2 {
        false
    } else {
        s.get_char(0) == c && s.get_char(1) == ' '
    }
}

/// Feeds one line to the grouping.
pub fn tle_step(state: TleState, line: String) -> (r: (TleState, Option<TleRecord>))
    ensures
        r.0@ == step_spec(state@, line@).0,
        match (r.1, step_spec(state@, line@).1) {
            (Some(a), Some(b)) => a@ == b,
            (None, None) => true,
            _ => false,
        },
        state@ matches TleStateView::AwaitLine2(title, line1) ==> {
            &&& r.0@ == TleStateView::AwaitLine1OrTitle
            &&& !starts_with_tag(line@, '2') ==> r.1 is None
            &&& starts_with_tag(line@, '2') ==> (r.1 matches Some(rec) && rec@ == (TleRecordView {
                title,
                line1,
                line2: line@,
            }))
        },
{
    match state {
        TleState::AwaitLine1OrTitle => {
            if has_tag(&line, '1') {
                (TleState::AwaitLine2(None, line), None)
            } else if has_tag(&line, '0') {
                let s = line.as_str();
                let n = s.unicode_len();
                let title = s.substring_char(2, n).to_owned();
                (TleState::AwaitLine1(title), None)
            } else {
                (TleState::AwaitLine1(line), None)
            }
        },
        TleState::AwaitLine1(title) => {
            if has_tag(&line, '1') {
                (TleState::AwaitLine2(Some(title), line), None)
            } else {
                (TleState::AwaitLine1OrTitle, None)
            }
        },
        TleState::AwaitLine2(title, line1) => {
            if has_tag(&line, '2') {
                (TleState::AwaitLine1OrTitle, Some(TleRecord { title, line1, line2: line }))
            } else {
                (TleState::AwaitLine1OrTitle, None)
            }
        },
    }
}

proof fn lemma_group_tagged(lines: Seq<Seq<char>>)
    ensures
        state_ok(group_spec(lines).0),
        forall|i: int|
            0 <= i < group_spec(lines).1.len() ==> well_tagged(#[trigger] group_spec(lines).1[i]),
    decreases lines.len(),
{
    if lines.len() > 0 {
        lemma_group_tagged(lines.drop_last());
    }
}

/// The element sets of a catalog, in file order. Every set has a line 1 tagged `1 ` and a line 2
/// tagged `2 `.
pub fn group_tle_lines(lines: Vec<String>) -> (r: Vec<TleRecord>)
    ensures
        r@.len() == group_spec(lines@.map_values(|l: String| l@)).1.len(),
        forall|i: int|
            0 <= i < r@.len() ==> #[trigger] r@[i]@ == group_spec(
                lines@.map_values(|l: String| l@),
            ).1[i],
        forall|i: int| 0 <= i < r@.len() ==> well_tagged(#[trigger] r@[i]@),
        forall|i: int|
            #![trigger r@[i]]
            0 <= i < r@.len() ==> stands_in(lines@.map_values(|l: String| l@), r@[i]@),
{
    let ghost views = lines@.map_values(|l: String| l@);
    let mut state = TleState::AwaitLine1OrTitle;
    let mut out: Vec<TleRecord> = Vec::new();
    let lines_iter = lines.into_iter();
    let ghost mut consumed: Seq<Seq<char>> = seq![];
    for line in it: lines_iter
        invariant
            it.seq().map_values(|l: String| l@) == views,
            consumed == views.take(it.index() as int),
            state@ == group_spec(consumed).0,
            out@.len() == group_spec(consumed).1.len(),
            forall|i: int| 0 <= i < out@.len() ==> #[trigger] out@[i]@ == group_spec(consumed).1[i],
    {
        let ghost before = consumed;
        proof {
            consumed = views.take(it.index() + 1);
            assert(consumed.drop_last() =~= before);
            assert(consumed.last() == line@);
        }
        let (next, rec) = tle_step(state, line);
        state = next;
        match rec {
            Some(r) => {
                out.push(r);
            },
            None => {},
        }
    }
    proof {
        assert(consumed =~= views);
        lemma_group_tagged(views);
        lemma_group_consecutive(views);
        assert forall|i: int| #![trigger out@[i]] 0 <= i < out@.len() implies stands_in(views, out@[i]@) by {
            assert(out@[i]@ == group_spec(views).1[i]);
        }
    }
    out
}

/// The lines of one element set in a catalog: the title line (written `0 <title>` when
/// `zero_tag`, as the title itself otherwise), if there is a title, then the two element lines.
pub open spec fn record_lines(r: TleRecordView, zero_tag: bool) -> Seq<Seq<char>> {
    match r.title {
        Some(t) => seq![if zero_tag { seq!['0', ' '] + t } else { t }, r.line1, r.line2],
        None => seq![r.line1, r.line2],
    }
}

/// The lines of a catalog of the given element sets, in order.
pub open spec fn catalog_lines(rs: Seq<TleRecordView>, zero_tag: bool) -> Seq<Seq<char>>
    decreases rs.len(),
{
    if rs.len() == 0 {
        seq![]
    } else {
        catalog_lines(rs.drop_last(), zero_tag) + record_lines(rs.last(), zero_tag)
    }
}

/// Whether an element set can stand in a catalog and be read back: its element lines are tagged
/// `1 ` and `2 `, and a title written without the `0 ` tag is not itself tagged `1 ` or `0 `.
pub open spec fn catalog_record(r: TleRecordView, zero_tag: bool) -> bool {
    &&& well_tagged(r)
    &&& !zero_tag ==> match r.title {
        Some(t) => !starts_with_tag(t, '1') && !starts_with_tag(t, '0'),
        None => true,
    }
}

proof fn lemma_group_push(a: Seq<Seq<char>>, x: Seq<char>)
    ensures
        group_spec(a.push(x)) == ({
            let (state, records) = group_spec(a);
            let (next, out) = step_spec(state, x);
            match out {
                Some(r) => (next, records.push(r)),
                None => (next, records),
            }
        }),
{
    assert(a.push(x).drop_last() =~= a);
}

proof fn lemma_group_record(a: Seq<Seq<char>>, r: TleRecordView, zero_tag: bool)
    requires
        group_spec(a).0 == TleStateView::AwaitLine1OrTitle,
        catalog_record(r, zero_tag),
    ensures
        group_spec(a + record_lines(r, zero_tag)) == (
            TleStateView::AwaitLine1OrTitle,
            group_spec(a).1.push(r),
        ),
{
    let lines = record_lines(r, zero_tag);
    match r.title {
        Some(t) => {
            let first = if zero_tag { seq!['0', ' '] + t } else { t };
            lemma_group_push(a, first);
            if zero_tag {
                assert(first.subrange(2, first.len() as int) =~= t);
            }
            lemma_group_push(a.push(first), r.line1);
            lemma_group_push(a.push(first).push(r.line1), r.line2);
            assert(a + lines =~= a.push(first).push(r.line1).push(r.line2));
        },
        None => {
            lemma_group_push(a, r.line1);
            lemma_group_push(a.push(r.line1), r.line2);
            assert(a + lines =~= a.push(r.line1).push(r.line2));
        },
    }
}

/// Reading a catalog gives back the element sets it was written from: 2LE sets, 3LE sets with
/// the title tagged `0 `, and 3LE sets whose untagged title does not look like a tagged line.
pub proof fn lemma_catalog_round_trip(rs: Seq<TleRecordView>, zero_tag: bool)
    requires
        forall|i: int| 0 <= i < rs.len() ==> catalog_record(#[trigger] rs[i], zero_tag),
    ensures
        group_spec(catalog_lines(rs, zero_tag)) == (TleStateView::AwaitLine1OrTitle, rs),
    decreases rs.len(),
{
    if rs.len() == 0 {
        assert(group_spec(catalog_lines(rs, zero_tag)).1 =~= rs);
    } else {
        let init = rs.drop_last();
        assert forall|i: int| 0 <= i < init.len() implies catalog_record(#[trigger] init[i], zero_tag) by {
            assert(init[i] == rs[i]);
        }
        lemma_catalog_round_trip(init, zero_tag);
        assert(catalog_record(rs[rs.len() - 1], zero_tag));
        lemma_group_record(catalog_lines(init, zero_tag), rs.last(), zero_tag);
        assert(init.push(rs.last()) =~= rs);
    }
}

/// The title line of a set: the title itself, or the title tagged `0 `.
pub open spec fn is_title_line(line: Seq<char>, title: Seq<char>) -> bool {
    line == title || line == seq!['0', ' '] + title
}

/// Whether the set `r` stands in `lines` with its line 1 at `i`: its two element lines are the
/// consecutive lines `i` and `i + 1`, and a title is the line just before them.
pub open spec fn set_at(lines: Seq<Seq<char>>, i: int, r: TleRecordView) -> bool {
    &&& 0 <= i
    &&& i + 1 < lines.len()
    &&& lines[i] == r.line1
    &&& lines[i + 1] == r.line2
    &&& match r.title {
        Some(t) => i >= 1 && is_title_line(lines[i - 1], t),
        None => true,
    }
}

/// The set `r` stands somewhere in `lines` as consecutive lines (see `set_at`).
pub open spec fn stands_in(lines: Seq<Seq<char>>, r: TleRecordView) -> bool {
    exists|i: int| #[trigger] set_at(lines, i, r)
}

/// Each of `records` stands in `lines` as consecutive lines.
pub open spec fn sets_from_lines(lines: Seq<Seq<char>>, records: Seq<TleRecordView>) -> bool {
    forall|k: int| 0 <= k < records.len() ==> #[trigger] stands_in(lines, records[k])
}

/// What a state says about the lines read so far: a pending line 1 is the last line read, and
/// a pending title is the line before it (or the last line, while line 1 is awaited).
pub open spec fn state_from(lines: Seq<Seq<char>>, state: TleStateView) -> bool {
    match state {
        TleStateView::AwaitLine1OrTitle => true,
        TleStateView::AwaitLine1(t) => lines.len() >= 1 && is_title_line(lines.last(), t),
        TleStateView::AwaitLine2(title, l1) => {
            &&& lines.len() >= 1
            &&& lines.last() == l1
            &&& match title {
                Some(t) => lines.len() >= 2 && is_title_line(lines[lines.len() - 2], t),
                None => true,
            }
        },
    }
}

proof fn lemma_group_consecutive(lines: Seq<Seq<char>>)
    ensures
        state_from(lines, group_spec(lines).0),
        sets_from_lines(lines, group_spec(lines).1),
    decreases lines.len(),
{
    if lines.len() == 0 {
        assert(group_spec(lines).1.len() == 0);
        assert(sets_from_lines(lines, group_spec(lines).1));
    } else {
        let p = lines.drop_last();
        let line = lines.last();
        lemma_group_consecutive(p);
        let (state, records) = group_spec(p);
        let (next, o) = step_spec(state, line);
        let out = group_spec(lines).1;
        let n = lines.len() as int;
        assert(lines[n - 1] == line);
        match state {
            TleStateView::AwaitLine1OrTitle => {
                if !starts_with_tag(line, '1') && starts_with_tag(line, '0') {
                    assert(line =~= seq!['0', ' '] + line.subrange(2, line.len() as int));
                }
            },
            TleStateView::AwaitLine1(t) => {
                assert(p.last() == lines[n - 2]);
            },
            TleStateView::AwaitLine2(title, l1) => {
                assert(p.last() == lines[n - 2]);
                if starts_with_tag(line, '2') {
                    match title {
                        Some(t) => {
                            assert(p[p.len() - 2] == lines[n - 3]);
                        },
                        None => {},
                    }
                    assert(set_at(lines, n - 2, o->0));
                }
            },
        }
        assert forall|k: int| 0 <= k < out.len() implies #[trigger] stands_in(lines, out[k]) by {
            if k < records.len() {
                assert(out[k] == records[k]);
                assert(stands_in(p, records[k]));
                let i = choose|i: int| set_at(p, i, records[k]);
                assert(p[i] == lines[i] && p[i + 1] == lines[i + 1]);
                if i >= 1 {
                    assert(p[i - 1] == lines[i - 1]);
                }
                assert(set_at(lines, i, out[k]));
            } else {
                assert(o is Some);
                assert(out[k] == o->0);
                assert(set_at(lines, n - 2, out[k]));
            }
        }
        assert(sets_from_lines(lines, out));
    }
}

/// Every set the grouping produces is made of consecutive lines of the catalog: its line 1 and
/// line 2 are adjacent lines, and its title, if any, is the line just before them (as written,
/// or tagged `0 `). No set is glued together from lines of different sets.
pub proof fn lemma_sets_are_consecutive_lines(lines: Seq<Seq<char>>)
    ensures
        sets_from_lines(lines, group_spec(lines).1),
{
    lemma_group_consecutive(lines);
}

/// What one line does to the grouping: after a title, a line that is not line 1 drops the
/// title; after line 1, a line that is not line 2 drops the set, and the grouping starts over
/// with the next line; a line 2 after line 1 completes the set.
pub proof fn lemma_broken_sets_are_dropped(line: Seq<char>, title: Option<Seq<char>>, l1: Seq<char>, t: Seq<char>)
    ensures
        !starts_with_tag(line, '2') ==> step_spec(TleStateView::AwaitLine2(title, l1), line) == (
            TleStateView::AwaitLine1OrTitle,
            None::<TleRecordView>,
        ),
        starts_with_tag(line, '2') ==> step_spec(TleStateView::AwaitLine2(title, l1), line) == (
            TleStateView::AwaitLine1OrTitle,
            Some(TleRecordView { title, line1: l1, line2: line }),
        ),
        !starts_with_tag(line, '1') ==> step_spec(TleStateView::AwaitLine1(t), line) == (
            TleStateView::AwaitLine1OrTitle,
            None::<TleRecordView>,
        ),
        starts_with_tag(line, '1') ==> step_spec(TleStateView::AwaitLine1(t), line) == (
            TleStateView::AwaitLine2(Some(t), line),
            None::<TleRecordView>,
        ),
        starts_with_tag(line, '1') ==> step_spec(TleStateView::AwaitLine1OrTitle, line) == (
            TleStateView::AwaitLine2(None, line),
            None::<TleRecordView>,
        ),
        !starts_with_tag(line, '1') && starts_with_tag(line, '0') ==> step_spec(
            TleStateView::AwaitLine1OrTitle,
            line,
        ) == (TleStateView::AwaitLine1(line.subrange(2, line.len() as int)), None::<TleRecordView>),
        !starts_with_tag(line, '1') && !starts_with_tag(line, '0') ==> step_spec(
            TleStateView::AwaitLine1OrTitle,
            line,
        ) == (TleStateView::AwaitLine1(line), None::<TleRecordView>),
{
}

} // verus!
