//! A simple clock.

use crate::clock::format_time;
use crate::clock::read_clock;
use crate::framework::Color;
use crate::framework::Metric;
use crate::framework::MetricState;
use crate::framework::RenderResult;
use crate::framework::StateValue;
use crate::framework::StateView;
use crate::helper::Counters;
use vstd::prelude::*;

verus! {

/// The pattern of a clock that was given none: weekday, month, day, time
/// of day in 24 hours, year and time zone.
pub const DEFAULT_FMT: &'static str = "%a %b %d %H:%M:%S %Y %Z";

/// The pattern that a clock with the state `st` displays the time with:
/// the string kept under `"format"`, and `DEFAULT_FMT` where none is kept.
pub open spec fn pattern(st: MetricState) -> Seq<char> {
    match st.value("format"@) {
        StateView::Str(f) => f,
        _ => DEFAULT_FMT@,
    }
}

/// What the clock displays where formatting the time gave `formatted`:
/// the time in the default color, or `n/a` in red where the pattern could
/// not be used.
pub open spec fn shown(formatted: Option<Seq<char>>) -> (Seq<char>, Color) {
    match formatted {
        Some(t) => (t, Color::Default),
        None => ("n/a"@, Color::Red),
    }
}

/// The local time of day and date, in a pattern that the user chooses.
pub struct TimeMetric {}

impl TimeMetric {
    /// The pattern that the clock displays the time with.
    pub fn fmt(st: &MetricState) -> (r: String)
        ensures
            r@ == pattern(*st),
    {
        match st.get(&String::from_str("format")) {
            StateValue::Str(f) => f,
            _ => String::from_str(DEFAULT_FMT),
        }
    }

    /// What the clock displays where formatting the time gave `formatted`.
    pub fn show(formatted: Option<String>) -> (r: RenderResult)
        ensures
            r.spec_name() == Seq::<char>::empty(),
            (r.spec_text(), r.spec_color()) == shown(formatted.deep_view()),
    {
        match formatted {
            Some(tstr) => RenderResult::new(tstr, Color::Default),
            None => RenderResult::new(String::from_str("n/a"), Color::Red),
        }
    }

    /// What the clock displays at the instant `secs` seconds and `nanos`
    /// nanoseconds after the epoch: that instant as local time in the
    /// pattern of `st`, or `n/a` in red.
    pub fn render_at(st: &MetricState, secs: i64, nanos: u32) -> (r: RenderResult)
        ensures
            r.spec_name() == Seq::<char>::empty(),
            exists|formatted: Option<Seq<char>>|
                (r.spec_text(), r.spec_color()) == shown(formatted),
    {
        let fmt = TimeMetric::fmt(st);
        let formatted = format_time(secs, nanos, fmt.as_str());
        let r = TimeMetric::show(formatted);
        assert((r.spec_text(), r.spec_color()) == shown(formatted.deep_view()));
        r
    }
}

impl Metric for TimeMetric {
    open spec fn reads(&self) -> Option<Seq<char>> {
        None
    }

    fn source(&self) -> (r: Option<String>) {
        None
    }

    open spec fn shows(
        &self,
        st: MetricState,
        counters: Counters,
        text: Seq<char>,
        color: Color,
    ) -> bool {
        exists|formatted: Option<Seq<char>>| (text, color) == shown(formatted)
    }

    open spec fn prepares(
        &self,
        before: MetricState,
        arg: Option<Seq<char>>,
        counters: Counters,
        after: MetricState,
    ) -> bool {
        &&& after.last_rendered() == before.last_rendered()
        &&& pattern(after) == match arg {
            Some(f) => f,
            None => DEFAULT_FMT@,
        }
        &&& forall|k: Seq<char>| k != "format"@ ==> after.value(k) == before.value(k)
    }

    open spec fn shows_prepared(
        &self,
        arg: Option<Seq<char>>,
        first: Counters,
        st: MetricState,
        counters: Counters,
        text: Seq<char>,
        color: Color,
    ) -> bool {
        exists|formatted: Option<Seq<char>>| (text, color) == shown(formatted)
    }

    /// Keeps the pattern `arg` in the state, or `DEFAULT_FMT` where there
    /// is no `arg`.
    fn init(&mut self, st: &mut MetricState, arg: Option<String>, counters: &Counters)
        ensures
            pattern(*final(st)) == match arg {
                Some(f) => f@,
                None => DEFAULT_FMT@,
            },
            forall|k: Seq<char>| k != "format"@ ==> final(st).value(k) == old(st).value(k),
    {
        let fmt = match arg {
            Some(f) => f,
            None => String::from_str(DEFAULT_FMT),
        };
        st.set(String::from_str("format"), StateValue::Str(fmt));
    }

    open spec fn shows_rendered(
        &self,
        st: MetricState,
        counters: Counters,
        later: MetricState,
        next: Counters,
        text: Seq<char>,
        color: Color,
    ) -> bool {
        self.shows(later, next, text, color)
    }

    /// Renders the present local time in the pattern of the state.
    fn render(&mut self, st: &mut MetricState, counters: &Counters) -> (r: RenderResult)
        ensures
            *final(st) == *old(st),
            r.spec_name() == Seq::<char>::empty(),
            exists|formatted: Option<Seq<char>>|
                (r.spec_text(), r.spec_color()) == shown(formatted),
    {
        let (secs, nanos) = read_clock();
        TimeMetric::render_at(st, secs, nanos)
    }
}

/// The clock: a metric that reads no counter file and displays what
/// `shown` makes of the formatted time.
pub fn clock_metric() -> (r: Box<dyn Metric>)
    ensures
        r.reads() is None,
        forall|st: MetricState, counters: Counters, text: Seq<char>, color: Color| #[trigger]
            r.shows(st, counters, text, color) <==> exists|formatted: Option<Seq<char>>|
                (text, color) == shown(formatted),
{
    let clock = TimeMetric {  };
    return Box::new(clock);
}

} // verus!
