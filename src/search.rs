//! The windowed search for a sample size.
//!
//! The range `[0, outer)` of candidate sample sizes is cut into windows of a
//! fixed width, `[lower, lower + width]` for `lower = 0, width, 2 * width, ...`
//! below `outer`. The windows are tried in ascending order; the first one in
//! which the root finder reports a root gives the sample size. When every
//! window has reported no root, the search fails. The root finding in each
//! window is done by the caller, which hands back what it found.
use vstd::prelude::*;

verus! {

/// Upper end of the range searched for a sample size.
pub const SAMPLE_SIZE_OUTER: u64 = 1000;

/// Width of each window of the sample-size search.
pub const WINDOW_WIDTH: u64 = 20;

/// The range of a windowed search and the width of its windows.
#[derive(Clone, Copy, Debug, PartialEq, Eq, Structural)]
pub struct SearchBounds {
    pub outer: u64,
    pub width: u64,
}

impl SearchBounds {
    pub open spec fn wf(self) -> bool {
        self.width > 0 && self.outer + self.width <= u64::MAX
    }

    /// Search bounds with the given range and window width.
    pub fn new(outer: u64, width: u64) -> (r: SearchBounds)
        requires
            width > 0,
            outer + width <= u64::MAX,
        ensures
            r == (SearchBounds { outer, width }),
            r.wf(),
    {
        SearchBounds { outer, width }
    }

    /// The bounds used for sample sizes: `[0, 1000)` in windows of 20.
    pub fn sample_size() -> (r: SearchBounds)
        ensures
            r == (SearchBounds { outer: SAMPLE_SIZE_OUTER, width: WINDOW_WIDTH }),
            r.wf(),
    {
        SearchBounds { outer: SAMPLE_SIZE_OUTER, width: WINDOW_WIDTH }
    }
}

/// What the root finder reported for one window.
#[derive(Clone, Copy, Debug, PartialEq, Eq, Structural)]
pub enum WindowOutcome {
    /// A finite root, rounded up to a whole sample size.
    Root(i64),
    /// No root, or none that is finite.
    NoRoot,
}

/// What the search asks for next, or how it ended.
#[derive(Clone, Copy, Debug, PartialEq, Eq, Structural)]
pub enum SearchStep {
    /// Look for a root in `[lower, upper]` and report it with `advance`.
    Try { lower: u64, upper: u64 },
    /// The sample size that the first window with a root gave.
    Found(i64),
    /// No window held a root.
    NoRootFound,
}

/// The state of a windowed search.
#[derive(Clone, Copy, Debug)]
pub struct WindowSearch {
    bounds: SearchBounds,
    lower: u64,
    finished: bool,
}

/// The step that asks for the window starting at `lower`, or the end of the
/// search where that is past the range.
pub open spec fn window_step(b: SearchBounds, lower: int) -> SearchStep {
    if lower < b.outer {
        SearchStep::Try { lower: lower as u64, upper: (lower + b.width) as u64 }
    } else {
        SearchStep::NoRootFound
    }
}

/// How the search ends from the window starting at `lower` on, where
/// `report(w)` is what the root finder reports for the window starting at `w`.
pub open spec fn sweep_from(b: SearchBounds, report: spec_fn(u64) -> WindowOutcome, lower: int) -> SearchStep
    decreases b.outer + b.width - lower,
{
    if b.width == 0 || lower >= b.outer || lower < 0 {
        SearchStep::NoRootFound
    } else {
        match report(lower as u64) {
            WindowOutcome::Root(n) => SearchStep::Found(n),
            WindowOutcome::NoRoot => sweep_from(b, report, lower + b.width),
        }
    }
}

/// Whether `lower` starts one of the windows of `b`.
pub open spec fn is_window(b: SearchBounds, lower: int) -> bool {
    0 <= lower < b.outer && lower % (b.width as int) == 0
}

impl WindowSearch {
    pub closed spec fn bounds(self) -> SearchBounds {
        self.bounds
    }

    /// Start of the window being tried.
    pub closed spec fn lower(self) -> int {
        self.lower as int
    }

    pub closed spec fn finished(self) -> bool {
        self.finished
    }

    pub open spec fn wf(self) -> bool {
        &&& self.bounds().wf()
        &&& 0 <= self.lower() < self.bounds().outer + self.bounds().width
        &&& self.lower() % (self.bounds().width as int) == 0
    }

    /// Whether the search waits for the outcome of a window.
    pub open spec fn pending(self) -> bool {
        self.wf() && !self.finished() && self.lower() < self.bounds().outer
    }

    /// Starts a search: asks for the first window, or fails at once on an
    /// empty range.
    pub fn start(bounds: SearchBounds) -> (r: (WindowSearch, SearchStep))
        requires
            bounds.wf(),
        ensures
            r.0.wf(),
            r.0.bounds() == bounds,
            r.0.lower() == 0,
            !r.0.finished(),
            r.1 == window_step(bounds, 0),
            r.0.pending() == (r.1 != SearchStep::NoRootFound),
    {
        let s = WindowSearch { bounds, lower: 0, finished: false };
        if bounds.outer > 0 {
            (s, SearchStep::Try { lower: 0, upper: bounds.width })
        } else {
            (s, SearchStep::NoRootFound)
        }
    }
    /// Takes what the root finder reported for the window asked for, and
    /// says what to do next: a report of a root ends the search with it; a
    /// report of none moves on to the next window, or ends the search without
    /// a root after the last one.
    pub fn advance(&mut self, outcome: WindowOutcome) -> (r: SearchStep)
        requires
            old(self).pending(),
        ensures
            final(self).wf(),
            final(self).bounds() == old(self).bounds(),
            match outcome {
                WindowOutcome::Root(n) => {
                    &&& r == SearchStep::Found(n)
                    &&& final(self).finished()
                    &&& final(self).lower() == old(self).lower()
                },
                WindowOutcome::NoRoot => {
                    &&& !final(self).finished()
                    &&& final(self).lower() == old(self).lower() + old(self).bounds().width
                    &&& r == window_step(old(self).bounds(), final(self).lower())
                },
            },
            final(self).pending() == (r is Try),
    {
        match outcome {
            WindowOutcome::Root(n) => {
                self.finished = true;
                SearchStep::Found(n)
            },
            WindowOutcome::NoRoot => {
                let width = self.bounds.width;
                proof {
                    lemma_next_window_aligned(self.lower as int, width as int);
                }
                self.lower = self.lower + width;
                if self.lower < self.bounds.outer {
                    SearchStep::Try { lower: self.lower, upper: self.lower + width }
                } else {
                    SearchStep::NoRootFound
                }
            },
        }
    }
}

proof fn lemma_next_window_aligned(lower: int, width: int)
    requires
        width > 0,
        lower % width == 0,
    ensures
        (lower + width) % width == 0,
{
    vstd::arithmetic::div_mod::lemma_mod_add_multiples_vanish(lower, width);
}

/// A search whose range holds no root fails: where the root finder reports
/// no root for every window of the range, the search ends in `NoRootFound`,
/// and never in a sample size found beyond the range.
pub proof fn lemma_exhausted_search_fails(b: SearchBounds, report: spec_fn(u64) -> WindowOutcome)
    requires
        b.wf(),
        forall|w: u64| is_window(b, w as int) ==> #[trigger] report(w) == WindowOutcome::NoRoot,
    ensures
        sweep_from(b, report, 0) == SearchStep::NoRootFound,
{
    lemma_exhausted_from(b, report, 0);
}

proof fn lemma_exhausted_from(b: SearchBounds, report: spec_fn(u64) -> WindowOutcome, lower: int)
    requires
        b.wf(),
        lower >= 0,
        lower % (b.width as int) == 0,
        forall|w: u64| is_window(b, w as int) ==> #[trigger] report(w) == WindowOutcome::NoRoot,
    ensures
        sweep_from(b, report, lower) == SearchStep::NoRootFound,
    decreases b.outer + b.width - lower,
{
    if lower < b.outer {
        assert(is_window(b, lower));
        assert(report(lower as u64) == WindowOutcome::NoRoot);
        lemma_next_window_aligned(lower, b.width as int);
        lemma_exhausted_from(b, report, lower + b.width);
    }
}

/// A search that ends in a sample size has it from a window of its range:
/// the root finder reported exactly that value for a window at or after
/// `lower` and below the end of the range.
pub proof fn lemma_found_comes_from_window(
    b: SearchBounds,
    report: spec_fn(u64) -> WindowOutcome,
    lower: int,
    n: i64,
)
    requires
        b.wf(),
        lower >= 0,
        lower % (b.width as int) == 0,
        sweep_from(b, report, lower) == SearchStep::Found(n),
    ensures
        exists|w: u64|
            #![trigger report(w)]
            is_window(b, w as int) && lower <= w && report(w) == WindowOutcome::Root(n),
    decreases b.outer + b.width - lower,
{
    if lower < b.outer {
        if report(lower as u64) == WindowOutcome::Root(n) {
            assert(is_window(b, lower));
        } else {
            lemma_next_window_aligned(lower, b.width as int);
            lemma_found_comes_from_window(b, report, lower + b.width, n);
        }
    }
}

/// Driving the search by `advance` with the reports of `report` ends as
/// `sweep_from` says: from a pending state, the next step either ends the
/// search with the outcome of the sweep from the current window, or asks for
/// the next window, from which the sweep ends the same way.
pub proof fn lemma_advance_follows_sweep(
    s: WindowSearch,
    report: spec_fn(u64) -> WindowOutcome,
    next: WindowSearch,
    r: SearchStep,
)
    requires
        s.pending(),
        next.wf(),
        next.bounds() == s.bounds(),
        match report(s.lower() as u64) {
            WindowOutcome::Root(n) => r == SearchStep::Found(n),
            WindowOutcome::NoRoot => {
                &&& next.lower() == s.lower() + s.bounds().width
                &&& r == window_step(s.bounds(), next.lower())
            },
        },
    ensures
        r is Try ==> sweep_from(s.bounds(), report, s.lower()) == sweep_from(
            next.bounds(),
            report,
            next.lower(),
        ),
        !(r is Try) ==> r == sweep_from(s.bounds(), report, s.lower()),
{
    let b = s.bounds();
    if report(s.lower() as u64) == WindowOutcome::NoRoot {
        if next.lower() >= b.outer {
            assert(sweep_from(b, report, next.lower()) == SearchStep::NoRootFound);
        }
    }
}

} // verus!
