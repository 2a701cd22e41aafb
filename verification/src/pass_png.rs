//! The decisions of the pass-PNG mode, which renders one screenshot of the spectrogram for each
//! predicted pass of a satellite, saved as `<prefix>_000.png`, `<prefix>_001.png`, ..., and then
//! exits. A pass is shown around its first transmitter inside the spectrogram; a pass with no
//! transmitter inside it is skipped.
//!
//! The mode waits for the plot window, then for the pass predictions, from which `build_jobs`
//! makes the queue of jobs, then works through the queue: for each job it sets the plot's view,
//! lets one frame pass so the view is drawn, and captures a screenshot. The jobs carry a view
//! `V` and an output path `P`; the caller computes the views, performs the actions and reports
//! the events.
use vstd::prelude::*;
use std::collections::VecDeque;
use crate::strf_write::{decimal, append_decimal};

verus! {

/// One screenshot to take: the view to show and where to save it.
pub struct PassJob<V, P> {
    pub view: V,
    pub path: P,
}

/// Where the mode stands.
pub enum PassPngState<V, P> {
    WaitingForRFPlot,
    WaitingForPredictions,
    /// Waiting for the given number of frames before capturing to the path; then the queue.
    WaitingForView(P, VecDeque<PassJob<V, P>>, usize),
    /// Waiting for the screenshot to the path to be saved; then the queue.
    WaitingForCapture(P, VecDeque<PassJob<V, P>>),
}

/// What the caller has to do after an event.
pub enum PassPngAction<V> {
    /// Nothing.
    Nothing,
    /// Quit the application.
    Exit,
    /// Predict the passes of the satellite over the spectrogram's time range.
    StartPredictions,
    /// Show the view in the plot window.
    SetView(V),
    /// Capture a screenshot of the plot window to the path the state holds.
    CaptureScreenshot,
}

/// What the caller found when it looked the satellite up in the catalog.
#[derive(Debug, Clone, Copy, PartialEq, Eq, Structural)]
pub enum SatelliteLookup {
    NotFound,
    NoTransmitters,
    Found,
}

/// The pass-PNG mode's state machine.
pub struct PassPngMode<V, P> {
    pub state: PassPngState<V, P>,
}

impl<V, P> PassPngMode<V, P> {
    /// The mode waits for its plot window first.
    pub fn new() -> (r: Self)
        ensures
            r.state is WaitingForRFPlot,
    {
        PassPngMode { state: PassPngState::WaitingForRFPlot }
    }

    /// Whether the mode needs a frame event.
    pub fn wants_frames(&self) -> (r: bool)
        ensures
            r == self.state is WaitingForView,
    {
        match self.state {
            PassPngState::WaitingForView(..) => true,
            _ => false,
        }
    }

    /// The plot window reported that it is ready. Another window's report is ignored; a missing
    /// satellite or one without transmitters ends the mode; otherwise the predictions start.
    pub fn rfplot_ready(&mut self, our_window: bool, lookup: SatelliteLookup) -> (r: PassPngAction<V>)
        ensures
            !our_window ==> r is Nothing && final(self).state == old(self).state,
            our_window && lookup != SatelliteLookup::Found ==> r is Exit && final(self).state == old(
                self,
            ).state,
            our_window && lookup == SatelliteLookup::Found ==> r is StartPredictions
                && final(self).state is WaitingForPredictions,
    {
        if !our_window {
            return PassPngAction::Nothing;
        }
        match lookup {
            SatelliteLookup::NotFound | SatelliteLookup::NoTransmitters => PassPngAction::Exit,
            SatelliteLookup::Found => {
                self.state = PassPngState::WaitingForPredictions;
                PassPngAction::StartPredictions
            },
        }
    }

    /// Starts the next job of the queue, or ends the mode when it is empty.
    pub fn process_next_pass(&mut self, queue: VecDeque<PassJob<V, P>>) -> (r: PassPngAction<V>)
        ensures
            queue@.len() == 0 ==> r is Exit && final(self).state == old(self).state,
            queue@.len() > 0 ==> match (r, final(self).state) {
                (PassPngAction::SetView(v), PassPngState::WaitingForView(p, rest, delay)) => {
                    &&& v == queue@[0].view
                    &&& p == queue@[0].path
                    &&& rest@ == queue@.drop_first()
                    &&& delay == 1
                },
                _ => false,
            },
    {
        let mut queue = queue;
        match queue.pop_front() {
            None => PassPngAction::Exit,
            Some(job) => {
                let PassJob { view, path } = job;
                self.state = PassPngState::WaitingForView(path, queue, 1);
                PassPngAction::SetView(view)
            },
        }
    }

    /// A frame was drawn. While waiting for a view, the first frames only count down; the frame
    /// after them triggers the capture. Frames in other states are ignored.
    pub fn frame_ready(&mut self) -> (r: PassPngAction<V>)
        ensures
            match old(self).state {
                PassPngState::WaitingForView(p, q, delay) => if delay > 0 {
                    &&& r is Nothing
                    &&& final(self).state matches PassPngState::WaitingForView(p2, q2, d2)
                    &&& p2 == p && q2@ == q@ && d2 == delay - 1
                } else {
                    &&& r is CaptureScreenshot
                    &&& final(self).state matches PassPngState::WaitingForCapture(p2, q2)
                    &&& p2 == p && q2@ == q@
                },
                _ => r is Nothing && final(self).state == old(self).state,
            },
    {
        let mut state = PassPngState::WaitingForRFPlot;
        std::mem::swap(&mut state, &mut self.state);
        match state {
            PassPngState::WaitingForView(path, queue, delay) => {
                if delay > 0 {
                    self.state = PassPngState::WaitingForView(path, queue, delay - 1);
                    PassPngAction::Nothing
                } else {
                    self.state = PassPngState::WaitingForCapture(path, queue);
                    PassPngAction::CaptureScreenshot
                }
            },
            other => {
                self.state = other;
                PassPngAction::Nothing
            },
        }
    }

    /// A screenshot was saved. While waiting for a capture this moves on to the next job (the
    /// saved path is only reported); otherwise it is ignored.
    pub fn screenshot_saved(&mut self) -> (r: PassPngAction<V>)
        ensures
            match old(self).state {
                PassPngState::WaitingForCapture(p, q) => if q@.len() == 0 {
                    &&& r is Exit
                    &&& final(self).state matches PassPngState::WaitingForCapture(p2, q2)
                    &&& p2 == p && q2@.len() == 0
                } else {
                    match (r, final(self).state) {
                        (PassPngAction::SetView(v), PassPngState::WaitingForView(p2, rest, delay)) => {
                            &&& v == q@[0].view
                            &&& p2 == q@[0].path
                            &&& rest@ == q@.drop_first()
                            &&& delay == 1
                        },
                        _ => false,
                    }
                },
                _ => r is Nothing && final(self).state == old(self).state,
            },
    {
        let mut state = PassPngState::WaitingForRFPlot;
        std::mem::swap(&mut state, &mut self.state);
        match state {
            PassPngState::WaitingForCapture(path, queue) => {
                self.state = PassPngState::WaitingForCapture(path, VecDeque::new());
                self.process_next_pass(queue)
            },
            other => {
                self.state = other;
                PassPngAction::Nothing
            },
        }
    }

    /// The path the current capture is saved to, while one is pending.
    pub fn capture_path(&self) -> (r: Option<&P>)
        ensures
            match self.state {
                PassPngState::WaitingForCapture(p, _) => r == Some(&p),
                _ => r is None,
            },
    {
        match &self.state {
            PassPngState::WaitingForCapture(p, _) => Some(p),
            _ => None,
        }
    }
}

/// The decimal text of `n`, padded with leading zeros to at least `width` digits.
pub open spec fn zero_padded(n: nat, width: nat) -> Seq<char> {
    let d = decimal(n);
    if d.len() < width {
        Seq::new((width - d.len()) as nat, |i: int| '0') + d
    } else {
        d
    }
}

/// The file name of the `index`-th screenshot of a run: `<stem>_<index>.png`, the index with at
/// least three digits (`pass_000.png`, `pass_001.png`, ...).
pub open spec fn job_file_name_spec(stem: Seq<char>, index: nat) -> Seq<char> {
    stem + "_"@ + zero_padded(index, 3) + ".png"@
}

/// Appends `n` with leading zeros to at least three digits.
fn append_padded3(out: &mut String, n: usize)
    ensures
        final(out)@ == old(out)@ + zero_padded(n as nat, 3),
{
    proof {
        reveal_strlit("0");
        crate::strf_write::lemma_decimal_value(n as nat);
    }
    let ghost d = decimal(n as nat);
    if n < 10 {
        out.append("00");
        proof {
            reveal_strlit("00");
            assert(d.len() == 1);
        }
    } else if n < 100 {
        out.append("0");
        proof {
            assert(d == decimal(n as nat / 10).push(crate::strf_write::digit_char(n as nat % 10)));
            assert(decimal(n as nat / 10).len() == 1);
        }
    }
    let ghost before = out@;
    append_decimal(out, n);
    proof {
        if n < 10 {
            assert(Seq::new(2, |i: int| '0') =~= "00"@);
        } else if n < 100 {
            assert(Seq::new(1, |i: int| '0') =~= "0"@);
        } else {
            assert(decimal(n as nat / 10).len() >= 2) by {
                crate::strf_write::lemma_decimal_value(n as nat / 10);
                assert(n as nat / 10 >= 10);
            }
        }
        assert(out@ =~= old(out)@ + zero_padded(n as nat, 3));
    }
}

/// The file name of the `index`-th screenshot of a run, counting the screenshots of all passes
/// and transmitters in the order they are taken.
pub fn job_file_name(stem: &str, index: usize) -> (r: String)
    ensures
        r@ == job_file_name_spec(stem@, index as nat),
{
    let mut out = String::from_str(stem);
    out.append("_");
    append_padded3(&mut out, index);
    out.append(".png");
    out
}

/// The view of a pass: that of its first transmitter inside the spectrogram, if it has one.
pub open spec fn pass_view<V>(views: Seq<Option<V>>) -> Option<V>
    decreases views.len(),
{
    if views.len() == 0 {
        None
    } else {
        match views[0] {
            Some(v) => Some(v),
            None => pass_view(views.drop_first()),
        }
    }
}

/// The views of a run: one per pass that has a transmitter inside the spectrogram, in pass order.
pub open spec fn run_views<V>(passes: Seq<Seq<Option<V>>>) -> Seq<V>
    decreases passes.len(),
{
    if passes.len() == 0 {
        seq![]
    } else {
        let rest = run_views(passes.drop_last());
        match pass_view(passes.last()) {
            Some(v) => rest.push(v),
            None => rest,
        }
    }
}

proof fn lemma_run_step<V>(passes: Seq<Seq<Option<V>>>, i: int)
    requires
        0 <= i < passes.len(),
    ensures
        run_views(passes.take(i + 1)) == match pass_view(passes[i]) {
            Some(v) => run_views(passes.take(i)).push(v),
            None => run_views(passes.take(i)),
        },
{
    assert(passes.take(i + 1).drop_last() =~= passes.take(i));
}

/// Whether `jobs` is the job queue of a run with the given views: one job per view, in order,
/// the `k`-th saved as `<stem>_<k>.png`.
pub open spec fn is_job_queue<V>(jobs: Seq<PassJob<V, String>>, views: Seq<V>, stem: Seq<char>) -> bool {
    &&& jobs.len() == views.len()
    &&& forall|k: int|
        0 <= k < jobs.len() ==> #[trigger] jobs[k].view == views[k] && jobs[k].path@
            == job_file_name_spec(stem, k as nat)
}

/// The view of the first transmitter of a pass that lies inside the spectrogram.
fn first_shown<V>(views: Vec<Option<V>>) -> (r: Option<V>)
    ensures
        r == pass_view(views@),
{
    let ghost all = views@;
    let mut rest = views;
    while rest.len() > 0
        invariant
            all == views@,
            pass_view(rest@) == pass_view(all),
        decreases rest@.len(),
    {
        let ghost before = rest@;
        let item = rest.remove(0);
        proof {
            assert(rest@ =~= before.drop_first());
            assert(item == before[0]);
            assert(pass_view(before) == match before[0] {
                Some(v) => Some(v),
                None => pass_view(before.drop_first()),
            });
        }
        match item {
            Some(v) => {
                return Some(v);
            },
            None => {},
        }
    }
    None
}

/// The job queue of a run over the predicted passes: `passes` holds, for every pass in time
/// order, the view of each of its transmitters, or `None` for a transmitter outside the
/// spectrogram. Every pass with a transmitter inside the spectrogram gets one screenshot, of the
/// first such transmitter's view; a pass without one is skipped.
pub fn build_jobs<V>(passes: Vec<Vec<Option<V>>>, stem: &str) -> (r: VecDeque<PassJob<V, String>>)
    ensures
        is_job_queue(r@, run_views(passes@.map_values(|p: Vec<Option<V>>| p@)), stem@),
{
    let ghost all = passes@.map_values(|p: Vec<Option<V>>| p@);
    let ghost n = passes@.len();
    assert(all.len() == passes.len());
    let mut rest = passes;
    let mut out: VecDeque<PassJob<V, String>> = VecDeque::new();
    let ghost mut i: int = 0;
    while rest.len() > 0
        invariant
            0 <= i <= n,
            n == all.len(),
            i + rest@.len() == n,
            forall|k: int| 0 <= k < rest@.len() ==> (#[trigger] rest@[k])@ == all[i + k],
            is_job_queue(out@, run_views(all.take(i)), stem@),
        decreases rest@.len(),
    {
        let ghost rest_before = rest@;
        let pass = rest.remove(0);
        proof {
            assert(rest_before[0]@ == all[i + 0]);
            assert forall|k: int| 0 <= k < rest@.len() implies (#[trigger] rest@[k])@ == all[i + 1 + k] by {
                assert(rest@[k] == rest_before[k + 1]);
                assert(rest_before[k + 1]@ == all[i + (k + 1)]);
            }
            lemma_run_step(all, i);
        }
        match first_shown(pass) {
            Some(view) => {
                let ghost vs = run_views(all.take(i));
                let index = out.len();
                let path = job_file_name(stem, index);
                out.push_back(PassJob { view, path });
                proof {
                    assert(run_views(all.take(i + 1)) =~= vs.push(view));
                }
            },
            None => {},
        }
        proof {
            i = i + 1;
        }
    }
    assert(all.take(n as int) =~= all);
    out
}

/// When every pass has a transmitter inside the spectrogram, the run takes one screenshot per
/// pass, in pass order, of that pass's view, named `<stem>_000.png`, `<stem>_001.png`, ...
pub proof fn lemma_one_screenshot_per_pass<V>(
    passes: Seq<Seq<Option<V>>>,
    jobs: Seq<PassJob<V, String>>,
    stem: Seq<char>,
)
    requires
        forall|i: int| 0 <= i < passes.len() ==> (#[trigger] pass_view(passes[i])) is Some,
        is_job_queue(jobs, run_views(passes), stem),
    ensures
        jobs.len() == passes.len(),
        forall|i: int|
            0 <= i < jobs.len() ==> #[trigger] jobs[i].view == pass_view(passes[i])->0
                && jobs[i].path@ == job_file_name_spec(stem, i as nat),
{
    lemma_run_one_per_pass(passes);
}

proof fn lemma_run_one_per_pass<V>(passes: Seq<Seq<Option<V>>>)
    requires
        forall|i: int| 0 <= i < passes.len() ==> (#[trigger] pass_view(passes[i])) is Some,
    ensures
        run_views(passes).len() == passes.len(),
        forall|i: int|
            0 <= i < passes.len() ==> #[trigger] run_views(passes)[i] == pass_view(passes[i])->0,
    decreases passes.len(),
{
    if passes.len() > 0 {
        let d = passes.drop_last();
        assert forall|i: int| 0 <= i < d.len() implies (#[trigger] pass_view(d[i])) is Some by {
            assert(d[i] == passes[i]);
            assert(pass_view(passes[i]) is Some);
        }
        lemma_run_one_per_pass(d);
        assert(pass_view(passes[passes.len() - 1]) is Some);
        assert forall|i: int| 0 <= i < passes.len() implies #[trigger] run_views(passes)[i]
            == pass_view(passes[i])->0 by {
            if i < passes.len() - 1 {
                assert(passes[i] == d[i]);
                assert(run_views(d)[i] == pass_view(d[i])->0);
            }
        }
    }
}

} // verus!
