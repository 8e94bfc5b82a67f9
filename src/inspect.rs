//! The decisions of live inspection: where an anomaly's context starts, when a
//! gap marker separates two anomalies, and when a progress separator is shown
//! or a progress line erased.
use vstd::prelude::*;

verus! {

/// An anomaly with its context window: the anomalous line's 1-based position
/// and the numbers of context lines before and after it.
#[derive(Debug, Clone, Copy, PartialEq, Eq)]
pub struct AnomalyWindow {
    pub pos: usize,
    pub before: usize,
    pub after: usize,
}

/// What to print for an anomaly: a progress separator first, then a gap
/// marker, then the context starting at line `start` (0-based).
#[derive(Debug, Clone, Copy, PartialEq, Eq)]
pub struct AnomalyAction {
    pub separator: bool,
    pub gap: bool,
    pub start: usize,
}

/// The state carried through the live report: the position just after the
/// last printed context window of the current source, and whether the
/// progress separator has been shown.
#[derive(Debug, Clone, Copy, PartialEq, Eq)]
pub struct LiveState {
    pub last_pos: Option<usize>,
    pub separator_shown: bool,
}

impl AnomalyWindow {
    /// A window is well formed when its context fits before the anomaly and
    /// its end can be counted.
    pub open spec fn wf(&self) -> bool {
        self.before < self.pos && self.pos + self.after <= usize::MAX
    }

    /// The 0-based position of the first line of the window.
    pub open spec fn start(&self) -> int {
        self.pos - 1 - self.before
    }

    /// The 0-based position just after the last line of the window.
    pub open spec fn end(&self) -> int {
        self.pos + self.after
    }
}

/// The state after an anomaly was printed.
pub open spec fn after_anomaly(s: LiveState, show_progress: bool, w: AnomalyWindow) -> LiveState {
    LiveState {
        last_pos: Some(w.end() as usize),
        separator_shown: s.separator_shown || show_progress,
    }
}

/// What is printed for an anomaly in a state.
pub open spec fn anomaly_action(s: LiveState, show_progress: bool, w: AnomalyWindow) -> AnomalyAction {
    AnomalyAction {
        separator: show_progress && !s.separator_shown,
        gap: s.last_pos matches Some(l) && l != w.start(),
        start: w.start() as usize,
    }
}

/// The state after the anomalies `ws` of one source were printed in order.
pub open spec fn run_anomalies(s: LiveState, show_progress: bool, ws: Seq<AnomalyWindow>) -> LiveState
    decreases ws.len(),
{
    if ws.len() == 0 {
        s
    } else {
        after_anomaly(run_anomalies(s, show_progress, ws.drop_last()), show_progress, ws.last())
    }
}

impl LiveState {
    /// The state before the first source.
    pub fn new() -> (r: LiveState)
        ensures
            r.last_pos is None,
            !r.separator_shown,
    {
        LiveState { last_pos: None, separator_shown: false }
    }

    /// Enters a source that has a trained index.
    pub fn begin_source(&mut self)
        ensures
            final(self).last_pos is None,
            !final(self).separator_shown,
    {
        self.last_pos = None;
        self.separator_shown = false;
    }

    /// Records that a source had no trained index: its notice stands in the
    /// place of the progress line.
    pub fn no_baseline(&mut self)
        ensures
            final(self).last_pos == old(self).last_pos,
            final(self).separator_shown,
    {
        self.separator_shown = true;
    }

    /// Decides what to print for an anomaly and moves past its window.
    pub fn on_anomaly(&mut self, show_progress: bool, w: AnomalyWindow) -> (r: AnomalyAction)
        requires
            w.wf(),
        ensures
            r == anomaly_action(*old(self), show_progress, w),
            *final(self) == after_anomaly(*old(self), show_progress, w),
    {
        let start = w.pos - 1 - w.before;
        let gap = match self.last_pos {
            Some(l) => l != start,
            None => false,
        };
        let separator = show_progress && !self.separator_shown;
        if separator {
            self.separator_shown = true;
        }
        self.last_pos = Some(w.pos + w.after);
        AnomalyAction { separator, gap, start }
    }

    /// Decides whether a progress separator goes before a read error; the
    /// source's scan stops after it.
    pub fn on_read_error(&mut self, show_progress: bool) -> (r: bool)
        ensures
            r == (show_progress && !old(self).separator_shown),
            final(self).separator_shown == (old(self).separator_shown || show_progress),
            final(self).last_pos == old(self).last_pos,
    {
        let separator = show_progress && !self.separator_shown;
        if separator {
            self.separator_shown = true;
        }
        separator
    }

    /// Whether the progress line of the last source must be erased at the
    /// end: progress is shown and that source printed nothing.
    pub fn finish(&self, show_progress: bool) -> (r: bool)
        ensures
            r == (show_progress && !self.separator_shown),
    {
        show_progress && !self.separator_shown
    }
}

proof fn lemma_run_last_pos(s: LiveState, show_progress: bool, ws: Seq<AnomalyWindow>)
    ensures
        ws.len() == 0 ==> run_anomalies(s, show_progress, ws).last_pos == s.last_pos,
        ws.len() > 0 ==> run_anomalies(s, show_progress, ws).last_pos == Some(ws.last().end() as usize),
{
}

/// Within one source, a gap marker comes before an anomaly exactly when its
/// window does not start where the previous anomaly's window ended: none
/// before the first anomaly, none between adjacent windows, and one at each
/// transition over omitted lines.
pub proof fn gap_marker_iff_skipped_lines(
    show_progress: bool,
    ws: Seq<AnomalyWindow>,
    i: int,
)
    requires
        0 <= i < ws.len(),
        forall|k: int| 0 <= k < ws.len() ==> (#[trigger] ws[k]).wf(),
    ensures
        ({
            let s = run_anomalies(
                LiveState { last_pos: None, separator_shown: false },
                show_progress,
                ws.subrange(0, i),
            );
            anomaly_action(s, show_progress, ws[i]).gap == (i > 0 && ws[i].start() != ws[i
                - 1].end())
        }),
{
    let s0 = LiveState { last_pos: None, separator_shown: false };
    lemma_run_last_pos(s0, show_progress, ws.subrange(0, i));
    if i > 0 {
        assert(ws.subrange(0, i).last() == ws[i - 1]);
        assert(ws[i - 1].wf());
    }
}

/// Within one source, the progress separator is printed before the first
/// anomaly and before no other.
pub proof fn separator_before_first_anomaly_only(ws: Seq<AnomalyWindow>, i: int)
    requires
        0 <= i < ws.len(),
    ensures
        ({
            let s = run_anomalies(
                LiveState { last_pos: None, separator_shown: false },
                true,
                ws.subrange(0, i),
            );
            anomaly_action(s, true, ws[i]).separator == (i == 0)
        }),
{
}

} // verus!
