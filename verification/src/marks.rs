//! The marks the user places on the plot: track points and detected signals.
//!
//! Track points are kept in time order, with at most one point per time. The time of a point is
//! given by an integer key whose order is the order of the times (the caller derives it from the
//! time); `P` is the point itself.
use vstd::prelude::*;
use crate::layout::MarkAction;
use crate::strf_write::{decimal, append_decimal};

verus! {

/// Keys strictly increasing: sorted by time, one point per time.
pub open spec fn sorted_by_key<P>(s: Seq<(u32, P)>) -> bool {
    forall|i: int, j: int| 0 <= i < j < s.len() ==> #[trigger] s[i].0 < #[trigger] s[j].0
}

/// Where a point with `key` belongs in `s`: every earlier key is smaller, every later one at
/// least as large.
pub open spec fn is_insert_pos<P>(s: Seq<(u32, P)>, key: u32, i: int) -> bool {
    &&& 0 <= i <= s.len()
    &&& forall|j: int| 0 <= j < i ==> #[trigger] s[j].0 < key
    &&& forall|j: int| i <= j < s.len() ==> #[trigger] s[j].0 >= key
}

/// The track points after inserting `(key, p)`: a point at an already-marked time replaces it,
/// any other is inserted in time order.
pub open spec fn inserted<P>(s: Seq<(u32, P)>, key: u32, p: P, i: int) -> Seq<(u32, P)> {
    if i < s.len() && s[i].0 == key {
        s.update(i, (key, p))
    } else {
        s.insert(i, (key, p))
    }
}

/// The first position of `p` among the points of `s`, if any.
pub open spec fn first_pos<Q>(s: Seq<Q>, p: Q, i: int) -> bool {
    &&& 0 <= i < s.len()
    &&& s[i] == p
    &&& forall|j: int| 0 <= j < i ==> s[j] != p
}

/// The track points and signals of one plot.
pub struct Marks<P> {
    track_points: Vec<(u32, P)>,
    signals: Vec<P>,
}

impl<P> Marks<P> {
    /// Track points with their time keys, in time order.
    pub closed spec fn track_seq(&self) -> Seq<(u32, P)> {
        self.track_points@
    }

    /// Signals, in the order they were added.
    pub closed spec fn signal_seq(&self) -> Seq<P> {
        self.signals@
    }

    /// The track points are sorted by time with one point per time.
    pub open spec fn wf(&self) -> bool {
        sorted_by_key(self.track_seq())
    }

    /// No marks.
    pub fn new() -> (r: Self)
        ensures
            r.wf(),
            r.track_seq() == Seq::<(u32, P)>::empty(),
            r.signal_seq() == Seq::<P>::empty(),
    {
        Marks { track_points: Vec::new(), signals: Vec::new() }
    }

    /// The track points with their time keys, in time order.
    pub fn track_points(&self) -> (r: &Vec<(u32, P)>)
        ensures
            r@ == self.track_seq(),
    {
        &self.track_points
    }

    /// The signals.
    pub fn signals(&self) -> (r: &Vec<P>)
        ensures
            r@ == self.signal_seq(),
    {
        &self.signals
    }

    /// Inserts a track point in time order. A point at an already-marked time replaces it.
    pub fn insert_track_point(&mut self, key: u32, point: P)
        requires
            old(self).wf(),
        ensures
            final(self).wf(),
            final(self).signal_seq() == old(self).signal_seq(),
            forall|t: (u32, P)|
                #[trigger] final(self).track_seq().contains(t) <==> (old(self).track_seq().contains(t)
                    && t.0 != key) || t == (key, point),
            exists|i: int|
                is_insert_pos(old(self).track_seq(), key, i) && final(self).track_seq() == inserted(
                    old(self).track_seq(),
                    key,
                    point,
                    i,
                ),
    {
        let ghost s = self.track_points@;
        let mut lo: usize = 0;
        let mut hi: usize = self.track_points.len();
        while lo < hi
            invariant
                s == self.track_points@,
                sorted_by_key(s),
                lo <= hi <= s.len(),
                forall|j: int| 0 <= j < lo ==> #[trigger] s[j].0 < key,
                forall|j: int| hi <= j < s.len() ==> #[trigger] s[j].0 >= key,
            decreases hi - lo,
        {
            let mid = lo + (hi - lo) / 2;
            if self.track_points[mid].0 < key {
                lo = mid + 1;
            } else {
                hi = mid;
            }
        }
        let i = lo;
        if i < self.track_points.len() && self.track_points[i].0 == key {
            self.track_points.set(i, (key, point));
        } else {
            self.track_points.insert(i, (key, point));
        }
        proof {
            assert(is_insert_pos(s, key, i as int));
            assert(self.track_points@ == inserted(s, key, point, i as int));
            lemma_insert_replaces_same_time(s, key, point, i as int);
            assert(is_insert_pos(old(self).track_seq(), key, i as int));
            assert(final(self).track_seq() == inserted(old(self).track_seq(), key, point, i as int));
        }
    }

    /// The signals, for the caller to change freely: they carry no ordering invariant.
    pub fn signals_mut(&mut self) -> (r: &mut Vec<P>)
        ensures
            r@ == old(self).signal_seq(),
            final(self).signal_seq() == final(r)@,
            final(self).track_seq() == old(self).track_seq(),
            final(self).wf() == old(self).wf(),
    {
        &mut self.signals
    }

    /// Removes every mark.
    pub fn clear(&mut self)
        ensures
            final(self).wf(),
            final(self).track_seq() == Seq::<(u32, P)>::empty(),
            final(self).signal_seq() == Seq::<P>::empty(),
    {
        self.track_points.clear();
        self.signals.clear();
    }
}

impl<P> Default for Marks<P> {
    /// No marks.
    fn default() -> (r: Self)
        ensures
            r.wf(),
            r.track_seq() == Seq::<(u32, P)>::empty(),
            r.signal_seq() == Seq::<P>::empty(),
    {
        Marks::new()
    }
}

/// Whether `r` is `s` with the elements for which `kept` is false dropped.
pub open spec fn filtered<Q>(s: Seq<Q>, kept: Seq<bool>, r: Seq<Q>) -> bool
    decreases s.len(),
{
    if s.len() == 0 {
        r.len() == 0
    } else if kept.len() != s.len() {
        false
    } else if kept.last() {
        r.len() > 0 && r.last() == s.last() && filtered(s.drop_last(), kept.drop_last(), r.drop_last())
    } else {
        filtered(s.drop_last(), kept.drop_last(), r)
    }
}

/// Every key of `r` is the key of some element of `s`.
pub open spec fn keys_from<P>(r: Seq<(u32, P)>, s: Seq<(u32, P)>) -> bool {
    forall|a: int| 0 <= a < r.len() ==> #[trigger] has_key(s, r[a].0)
}

/// Whether some element of `s` has key `k`.
pub open spec fn has_key<P>(s: Seq<(u32, P)>, k: u32) -> bool {
    exists|b: int| 0 <= b < s.len() && s[b].0 == k
}

proof fn lemma_filtered_sorted<P>(s: Seq<(u32, P)>, kept: Seq<bool>, r: Seq<(u32, P)>)
    requires
        filtered(s, kept, r),
        sorted_by_key(s),
    ensures
        sorted_by_key(r),
        keys_from(r, s),
    decreases s.len(),
{
    if s.len() > 0 {
        let sd = s.drop_last();
        assert(sorted_by_key(sd));
        assert(kept.len() == s.len());
        if kept.last() {
            let rd = r.drop_last();
            assert(r.len() > 0 && r.last() == s.last());
            lemma_filtered_sorted(sd, kept.drop_last(), rd);
            assert forall|a: int| 0 <= a < r.len() implies #[trigger] has_key(s, r[a].0) by {
                if a < r.len() - 1 {
                    assert(r[a] == rd[a]);
                    assert(has_key(sd, rd[a].0));
                    let b0 = choose|b: int| 0 <= b < sd.len() && sd[b].0 == rd[a].0;
                    assert(sd[b0] == s[b0]);
                } else {
                    assert(r[a] == s[s.len() - 1]);
                }
            }
            assert forall|x: int, y: int| 0 <= x < y < r.len() implies #[trigger] r[x].0
                < #[trigger] r[y].0 by {
                if y < r.len() - 1 {
                    assert(r[x] == rd[x] && r[y] == rd[y]);
                } else {
                    assert(r[x] == rd[x]);
                    assert(has_key(sd, rd[x].0));
                    let b0 = choose|b: int| 0 <= b < sd.len() && sd[b].0 == rd[x].0;
                    assert(sd[b0] == s[b0]);
                    assert(s[b0].0 < s[s.len() - 1].0);
                }
            }
        } else {
            lemma_filtered_sorted(sd, kept.drop_last(), r);
            assert forall|a: int| 0 <= a < r.len() implies #[trigger] has_key(s, r[a].0) by {
                assert(has_key(sd, r[a].0));
                let b0 = choose|b: int| 0 <= b < sd.len() && sd[b].0 == r[a].0;
                assert(sd[b0] == s[b0]);
            }
        }
        assert(keys_from(r, s));
    } else {
        assert(r.len() == 0);
    }
}

/// Keeps the elements of `v` that `keep` accepts, in order.
fn retain_vec<Q, F: Fn(&Q) -> bool>(v: Vec<Q>, keep: &F) -> (r: (Vec<Q>, Ghost<Seq<bool>>))
    requires
        forall|q: Q| #[trigger] keep.requires((&q,)),
    ensures
        r.1@.len() == v@.len(),
        forall|i: int| 0 <= i < v@.len() ==> #[trigger] keep.ensures((&v@[i],), r.1@[i]),
        filtered(v@, r.1@, r.0@),
{
    let ghost orig = v@;
    assert(orig.len() == v.len());
    let mut out: Vec<Q> = Vec::new();
    let ghost mut kept: Seq<bool> = seq![];
    let mut i: usize = 0;
    let mut rest = v;
    while rest.len() > 0
        invariant
            forall|q: Q| #[trigger] keep.requires((&q,)),
            i + rest@.len() == orig.len(),
            orig.len() <= usize::MAX,
            rest@ == orig.skip(i as int),
            kept.len() == i,
            forall|j: int| 0 <= j < i ==> #[trigger] keep.ensures((&orig[j],), kept[j]),
            filtered(orig.take(i as int), kept, out@),
        decreases rest@.len(),
    {
        let item = rest.remove(0);
        assert(item == orig[i as int]);
        let k = keep(&item);
        let ghost kept_before = kept;
        proof {
            let t = orig.take(i + 1);
            assert(t.drop_last() =~= orig.take(i as int));
            assert(t.last() == item);
            kept = kept.push(k);
        }
        let ghost out_before = out@;
        if k {
            out.push(item);
            proof {
                assert(out@.drop_last() =~= out_before);
            }
        }
        proof {
            assert(kept.drop_last() =~= kept_before);
            assert(orig.take(i + 1).drop_last() =~= orig.take(i as int));
            assert(filtered(orig.take(i + 1), kept, out@));
        }
        i = i + 1;
        assert(rest@ =~= orig.skip(i as int));
    }
    assert(orig.take(i as int) =~= orig);
    (out, Ghost(kept))
}

impl<P> Marks<P> {
    /// Drops the marks that `keep` refuses from both collections; the rest keep their order.
    pub fn retain<F: Fn(&P) -> bool>(&mut self, keep: F)
        requires
            old(self).wf(),
            forall|p: P| #[trigger] keep.requires((&p,)),
        ensures
            final(self).wf(),
            exists|kt: Seq<bool>, ks: Seq<bool>|
                {
                    &&& kt.len() == old(self).track_seq().len()
                    &&& ks.len() == old(self).signal_seq().len()
                    &&& forall|i: int|
                        0 <= i < kt.len() ==> #[trigger] keep.ensures(
                            (&old(self).track_seq()[i].1,),
                            kt[i],
                        )
                    &&& forall|i: int|
                        0 <= i < ks.len() ==> #[trigger] keep.ensures(
                            (&old(self).signal_seq()[i],),
                            ks[i],
                        )
                    &&& filtered(old(self).track_seq(), kt, final(self).track_seq())
                    &&& filtered(old(self).signal_seq(), ks, final(self).signal_seq())
                },
    {
        let keep_ref = &keep;
        let keep_pair = move |t: &(u32, P)| -> (r: bool)
            requires
                keep_ref.requires((&t.1,)),
            ensures
                keep_ref.ensures((&t.1,), r),
            { keep_ref(&t.1) };
        let mut tracks: Vec<(u32, P)> = Vec::new();
        std::mem::swap(&mut tracks, &mut self.track_points);
        let (kept_tracks, Ghost(kt)) = retain_vec(tracks, &keep_pair);
        let mut signals: Vec<P> = Vec::new();
        std::mem::swap(&mut signals, &mut self.signals);
        let (kept_signals, Ghost(ks)) = retain_vec(signals, &keep);
        proof {
            lemma_filtered_sorted(old(self).track_seq(), kt, kept_tracks@);
            assert forall|i: int| 0 <= i < kt.len() implies #[trigger] keep.ensures(
                (&old(self).track_seq()[i].1,),
                kt[i],
            ) by {
                assert(keep_pair.ensures((&old(self).track_seq()[i],), kt[i]));
                assert(keep_ref.ensures((&old(self).track_seq()[i].1,), kt[i]));
            }
        }
        self.track_points = kept_tracks;
        self.signals = kept_signals;
    }
}

/// The points of a sequence of track points, without their keys.
pub open spec fn points_of<P>(s: Seq<(u32, P)>) -> Seq<P> {
    s.map_values(|t: (u32, P)| t.1)
}

/// The first index of `point` in `v`.
fn find_point<P: PartialEq>(v: &Vec<P>, point: &P) -> (r: Option<usize>)
    ensures
        r matches Some(i) ==> i < v@.len(),
        vstd::laws_eq::obeys_concrete_eq::<P>() ==> match r {
            Some(i) => first_pos(v@, *point, i as int),
            None => !v@.contains(*point),
        },
{
    proof {
        reveal(vstd::laws_eq::obeys_concrete_eq);
    }
    let mut i: usize = 0;
    while i < v.len()
        invariant
            i <= v@.len(),
            vstd::laws_eq::obeys_concrete_eq::<P>() ==> forall|j: int| 0 <= j < i ==> v@[j] != *point,
        decreases v@.len() - i,
    {
        proof {
            reveal(vstd::laws_eq::obeys_concrete_eq);
        }
        if v[i] == *point {
            return Some(i);
        }
        i = i + 1;
    }
    None
}

/// The first index of a track point whose point is `point`.
fn find_track_point<P: PartialEq>(v: &Vec<(u32, P)>, point: &P) -> (r: Option<usize>)
    ensures
        r matches Some(i) ==> i < v@.len(),
        vstd::laws_eq::obeys_concrete_eq::<P>() ==> match r {
            Some(i) => first_pos(points_of(v@), *point, i as int),
            None => !points_of(v@).contains(*point),
        },
{
    proof {
        reveal(vstd::laws_eq::obeys_concrete_eq);
    }
    let ghost pts = points_of(v@);
    let mut i: usize = 0;
    while i < v.len()
        invariant
            i <= v@.len(),
            pts == points_of(v@),
            pts.len() == v@.len(),
            vstd::laws_eq::obeys_concrete_eq::<P>() ==> forall|j: int| 0 <= j < i ==> pts[j] != *point,
        decreases v@.len() - i,
    {
        proof {
            reveal(vstd::laws_eq::obeys_concrete_eq);
        }
        assert(pts[i as int] == v@[i as int].1);
        if v[i].1 == *point {
            return Some(i);
        }
        i = i + 1;
    }
    None
}

impl<P: PartialEq> Marks<P> {
    /// Removes the first mark equal to `point` from the collection `action` names, if there is
    /// one.
    pub fn remove(&mut self, action: MarkAction, point: P)
        requires
            old(self).wf(),
        ensures
            final(self).wf(),
            vstd::laws_eq::obeys_concrete_eq::<P>() ==> match action {
                MarkAction::Trackpoint => {
                    &&& final(self).signal_seq() == old(self).signal_seq()
                    &&& (exists|i: int|
                        first_pos(points_of(old(self).track_seq()), point, i)
                            && final(self).track_seq() == old(self).track_seq().remove(i)) || (
                    !points_of(old(self).track_seq()).contains(point)
                        && final(self).track_seq() == old(self).track_seq())
                },
                MarkAction::Signal => {
                    &&& final(self).track_seq() == old(self).track_seq()
                    &&& (exists|i: int|
                        first_pos(old(self).signal_seq(), point, i) && final(self).signal_seq()
                            == old(self).signal_seq().remove(i)) || (!old(
                        self,
                    ).signal_seq().contains(point) && final(self).signal_seq() == old(
                        self,
                    ).signal_seq())
                },
            },
    {
        match action {
            MarkAction::Trackpoint => {
                if let Some(i) = find_track_point(&self.track_points, &point) {
                    let ghost before = self.track_points@;
                    self.track_points.remove(i);
                    proof {
                        let t = self.track_points@;
                        assert forall|a: int, b: int| 0 <= a < b < t.len() implies #[trigger] t[a].0 < #[trigger] t[b].0 by {
                            if b < i {
                                assert(t[a] == before[a] && t[b] == before[b]);
                            } else if a < i {
                                assert(t[a] == before[a] && t[b] == before[b + 1]);
                            } else {
                                assert(t[a] == before[a + 1] && t[b] == before[b + 1]);
                            }
                        }
                    }
                }
            },
            MarkAction::Signal => {
                if let Some(i) = find_point(&self.signals, &point) {
                    self.signals.remove(i);
                }
            },
        }
    }
}

/// Inserting a track point keeps the points sorted by time with one point per time; a point at
/// an already-marked time replaces it, and no other point is lost or added.
pub proof fn lemma_insert_replaces_same_time<P>(s: Seq<(u32, P)>, key: u32, p: P, i: int)
    requires
        sorted_by_key(s),
        is_insert_pos(s, key, i),
    ensures
        sorted_by_key(inserted(s, key, p, i)),
        forall|t: (u32, P)|
            #[trigger] inserted(s, key, p, i).contains(t) <==> (s.contains(t) && t.0 != key) || t
                == (key, p),
{
    let n = inserted(s, key, p, i);
    let replace = i < s.len() && s[i].0 == key;
    assert forall|a: int, b: int| 0 <= a < b < n.len() implies #[trigger] n[a].0 < #[trigger] n[b].0 by {
        if !replace {
            if b < i {
                assert(n[a] == s[a] && n[b] == s[b]);
            } else if b == i {
                assert(n[a] == s[a]);
            } else if a < i {
                assert(n[a] == s[a] && n[b] == s[b - 1]);
            } else if a == i {
                assert(n[b] == s[b - 1]);
            } else {
                assert(n[a] == s[a - 1] && n[b] == s[b - 1]);
            }
        }
    }
    assert forall|t: (u32, P)| #[trigger] n.contains(t) implies (s.contains(t) && t.0 != key) || t
        == (key, p) by {
        let j = choose|j: int| 0 <= j < n.len() && n[j] == t;
        if replace {
            if j != i {
                assert(n[j] == s[j]);
                if j < i {
                    assert(s[j].0 < s[i].0);
                } else {
                    assert(s[i].0 < s[j].0);
                }
            }
        } else {
            if j < i {
                assert(n[j] == s[j]);
            } else if j > i {
                assert(n[j] == s[j - 1]);
                assert(s[j - 1].0 >= key);
                if s[j - 1].0 == key {
                    if j - 1 == i {
                    } else {
                        assert(s[i].0 < s[j - 1].0);
                    }
                }
            }
        }
    }
    assert forall|t: (u32, P)| (s.contains(t) && t.0 != key) || t == (key, p) implies #[trigger] n.contains(t) by {
        if t == (key, p) {
            assert(n[i] == t);
        } else {
            let j = choose|j: int| 0 <= j < s.len() && s[j] == t;
            if replace {
                assert(j != i);
                assert(n[j] == s[j]);
            } else if j < i {
                assert(n[j] == s[j]);
            } else {
                assert(n[j + 1] == s[j]);
            }
        }
    }
}

/// The insertion position of a key is unique, so inserting is deterministic.
pub proof fn lemma_insert_pos_unique<P>(s: Seq<(u32, P)>, key: u32, i: int, j: int)
    requires
        is_insert_pos(s, key, i),
        is_insert_pos(s, key, j),
    ensures
        i == j,
{
    if i < j {
        assert(s[i].0 >= key);
    } else if j < i {
        assert(s[j].0 >= key);
    }
}

/// Inserting a track point keeps one point per time, and the new point is there afterwards, at
/// its time.
pub proof fn lemma_insert_keeps_one_point_per_time<P>(s: Seq<(u32, P)>, key: u32, p: P, i: int)
    requires
        sorted_by_key(s),
        is_insert_pos(s, key, i),
    ensures
        inserted(s, key, p, i).contains((key, p)),
        inserted(s, key, p, i).len() == if i < s.len() && s[i].0 == key {
            s.len()
        } else {
            s.len() + 1
        },
{
    assert(inserted(s, key, p, i)[i] == (key, p));
}

/// The decimal text of a signed number.
pub open spec fn signed_decimal(n: int) -> Seq<char> {
    if n < 0 {
        seq!['-'] + decimal((-n) as nat)
    } else {
        decimal(n as nat)
    }
}

/// One line of a signal file: the time (MJD) and frequency (Hz) of the signal as written, the
/// signal's sigma, which is always 5, and the observing site's id.
pub open spec fn signal_line_spec(mjd: Seq<char>, freq: Seq<char>, site_id: i32) -> Seq<char> {
    mjd + " "@ + freq + " 5.000000 "@ + signed_decimal(site_id as int) + "\n"@
}

/// A signal file: one line per signal, in order.
pub open spec fn signal_file_spec(rows: Seq<(Seq<char>, Seq<char>)>, site_id: i32) -> Seq<char>
    decreases rows.len(),
{
    if rows.len() == 0 {
        seq![]
    } else {
        signal_file_spec(rows.drop_last(), site_id) + signal_line_spec(
            rows.last().0,
            rows.last().1,
            site_id,
        )
    }
}

/// Appends the decimal text of a signed number.
fn append_signed(out: &mut String, n: i32)
    ensures
        final(out)@ == old(out)@ + signed_decimal(n as int),
{
    if n < 0 {
        out.append("-");
        let m: i64 = -(n as i64);
        let ghost mid = out@;
        append_decimal(out, m as usize);
        proof {
            reveal_strlit("-");
            assert(out@ =~= old(out)@ + signed_decimal(n as int));
        }
    } else {
        append_decimal(out, n as usize);
    }
}

/// The signal file for the given signals, each as its time (MJD) and frequency (Hz) text,
/// observed from site `site_id`.
pub fn signal_file(rows: &Vec<(String, String)>, site_id: i32) -> (r: String)
    ensures
        r@ == signal_file_spec(rows@.map_values(|p: (String, String)| (p.0@, p.1@)), site_id),
{
    let ghost views = rows@.map_values(|p: (String, String)| (p.0@, p.1@));
    let mut out = String::new();
    let mut i: usize = 0;
    while i < rows.len()
        invariant
            i <= rows@.len(),
            views == rows@.map_values(|p: (String, String)| (p.0@, p.1@)),
            out@ == signal_file_spec(views.take(i as int), site_id),
        decreases rows@.len() - i,
    {
        proof {
            assert(views.take(i + 1).drop_last() =~= views.take(i as int));
            assert(views.take(i + 1).last() == views[i as int]);
        }
        out.append(rows[i].0.as_str());
        out.append(" ");
        out.append(rows[i].1.as_str());
        out.append(" 5.000000 ");
        append_signed(&mut out, site_id);
        out.append("\n");
        i = i + 1;
    }
    assert(views.take(rows@.len() as int) =~= views);
    out
}

/// Why the signals could not be saved.
#[derive(Debug, Clone, Copy, PartialEq, Eq, Structural)]
pub enum SaveSignalsError {
    /// No spectrogram is loaded, so the signals have no time or frequency reference.
    NoSpectrogram,
    /// No observing site is configured.
    NoSite,
}

/// The signal file to save, when a spectrogram is loaded and a site is configured: nothing is
/// saved without either.
pub fn signals_to_save(has_spectrogram: bool, site_id: Option<i32>, rows: &Vec<(String, String)>) -> (r:
    Result<String, SaveSignalsError>)
    ensures
        !has_spectrogram ==> r == Err::<String, SaveSignalsError>(SaveSignalsError::NoSpectrogram),
        has_spectrogram && site_id is None ==> r == Err::<String, SaveSignalsError>(
            SaveSignalsError::NoSite,
        ),
        has_spectrogram && site_id is Some ==> (r matches Ok(s) && s@ == signal_file_spec(
            rows@.map_values(|p: (String, String)| (p.0@, p.1@)),
            site_id->0,
        )),
{
    if !has_spectrogram {
        return Err(SaveSignalsError::NoSpectrogram);
    }
    match site_id {
        None => Err(SaveSignalsError::NoSite),
        Some(site) => Ok(signal_file(rows, site)),
    }
}

} // verus!
