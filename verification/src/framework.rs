//! The metric framework: colors, what a metric hands back, the state that
//! a metric keeps between cycles, the `Metric` capability and the wrapper
//! that binds a metric to its name and its state.

use crate::clock::read_clock;
use crate::helper::Counters;
use crate::table::Table;
use crate::text::views;
use vstd::prelude::*;

verus! {

/// The color of a piece of output.
#[derive(Debug, PartialEq, Eq)]
pub enum Color {
    /// An HTML color (#1234aa)
    Arbitrary(String),
    Default,
    /// Various colors
    White,
    Red,
    Green,
    Blue,
    Black,
    Orange,
    Purple,
}

impl Color {
    /// The color as the status protocol writes it: `#rrggbb` for the
    /// colors of the palette, and its own text for an arbitrary one.
    pub open spec fn hex(self) -> Seq<char> {
        match self {
            Color::Arbitrary(c) => c@,
            Color::Default => "#ffffff"@,
            Color::White => "#ffffff"@,
            Color::Red => "#ff0000"@,
            Color::Green => "#00ff00"@,
            Color::Blue => "#0000ff"@,
            Color::Black => "#000000"@,
            Color::Orange => "#e8a317"@,
            Color::Purple => "#8d0552"@,
        }
    }

    /// Whether two colors carry the same tag: the same entry of the
    /// palette, or arbitrary colors of the same text.
    pub open spec fn same_tag(self, other: Color) -> bool {
        match self {
            Color::Arbitrary(c) => other matches Color::Arbitrary(d) && c@ == d@,
            _ => self == other,
        }
    }

    /// The color in the form that the status protocol takes.
    pub fn to_string(&self) -> (r: String)
        ensures
            r@ == self.hex(),
    {
        match self {
            Color::Arbitrary(c) => c.clone(),
            Color::Default => String::from_str("#ffffff"),
            Color::White => String::from_str("#ffffff"),
            Color::Red => String::from_str("#ff0000"),
            Color::Green => String::from_str("#00ff00"),
            Color::Blue => String::from_str("#0000ff"),
            Color::Black => String::from_str("#000000"),
            Color::Orange => String::from_str("#e8a317"),
            Color::Purple => String::from_str("#8d0552"),
        }
    }
}

impl Clone for Color {
    fn clone(&self) -> (r: Self)
        ensures
            r == *self,
    {
        match self {
            Color::Arbitrary(c) => Color::Arbitrary(c.clone()),
            Color::Default => Color::Default,
            Color::White => Color::White,
            Color::Red => Color::Red,
            Color::Green => Color::Green,
            Color::Blue => Color::Blue,
            Color::Black => Color::Black,
            Color::Orange => Color::Orange,
            Color::Purple => Color::Purple,
        }
    }
}

/// An output produced by a metric to be displayed in the bar.
#[derive(Debug, PartialEq, Eq)]
pub struct RenderResult {
    name: String,
    text: String,
    color: Color,
}

impl RenderResult {
    /// The name of the metric that the output belongs to.
    pub closed spec fn spec_name(&self) -> Seq<char> {
        self.name@
    }

    /// The text to display.
    pub closed spec fn spec_text(&self) -> Seq<char> {
        self.text@
    }

    /// The color to display the text in.
    pub closed spec fn spec_color(&self) -> Color {
        self.color
    }

    /// The object that the streaming status protocol carries for this
    /// output. Name, color and text go into it as they are.
    pub open spec fn json(&self) -> Seq<char> {
        "{\"name\": \""@ + self.spec_name() + "\",\"color\":\""@ + self.spec_color().hex()
            + "\",\"markup\":\"none\",\"full_text\":\""@ + self.spec_text() + "\"}"@
    }

    /// An output that does not know yet which metric it belongs to.
    pub fn new(text: String, color: Color) -> (r: RenderResult)
        ensures
            r.spec_name() == Seq::<char>::empty(),
            r.spec_text() == text@,
            r.spec_color() == color,
    {
        RenderResult { name: String::new(), text: text, color: color }
    }

    /// The same output under the name `name`.
    pub fn named(self, name: String) -> (r: RenderResult)
        ensures
            r.spec_name() == name@,
            r.spec_text() == self.spec_text(),
            r.spec_color() == self.spec_color(),
    {
        RenderResult { name: name, text: self.text, color: self.color }
    }

    /// The output as an object of the streaming status protocol.
    pub fn to_json(&self) -> (r: String)
        ensures
            r@ == self.json(),
    {
        let mut result = String::from_str("{\"name\": \"");
        result.append(self.name.as_str());
        result.append("\",\"color\":\"");
        let color = self.color.to_string();
        result.append(color.as_str());
        result.append("\",\"markup\":\"none\",\"full_text\":\"");
        result.append(self.text.as_str());
        result.append("\"}");
        result
    }

    /// The name of the metric that the output belongs to.
    pub fn name(&self) -> (r: &String)
        ensures
            r@ == self.spec_name(),
    {
        &self.name
    }

    /// The text to display.
    pub fn text(&self) -> (r: &String)
        ensures
            r@ == self.spec_text(),
    {
        &self.text
    }

    /// The color to display the text in.
    pub fn color(&self) -> (r: &Color)
        ensures
            *r == self.spec_color(),
    {
        &self.color
    }
}

/// A value that a metric keeps in its state.
#[derive(Debug, PartialEq, Eq)]
pub enum StateValue {
    Empty,
    Str(String),
    Int(i64),
    Color(Color),
    /// A set of strings; the order and repetitions of the vector mean nothing.
    Strings(Vec<String>),
}

/// What a `StateValue` stands for.
pub enum StateView {
    Empty,
    Str(Seq<char>),
    Int(i64),
    Color(Color),
    Strings(Set<Seq<char>>),
}

impl View for StateValue {
    type V = StateView;

    open spec fn view(&self) -> StateView {
        match self {
            StateValue::Empty => StateView::Empty,
            StateValue::Str(s) => StateView::Str(s@),
            StateValue::Int(i) => StateView::Int(*i),
            StateValue::Color(c) => StateView::Color(*c),
            StateValue::Strings(v) => StateView::Strings(views(v@).to_set()),
        }
    }
}

impl Clone for StateValue {
    fn clone(&self) -> (r: Self)
        ensures
            r@ == self@,
    {
        match self {
            StateValue::Empty => StateValue::Empty,
            StateValue::Str(s) => StateValue::Str(s.clone()),
            StateValue::Int(i) => StateValue::Int(*i),
            StateValue::Color(c) => StateValue::Color(c.clone()),
            StateValue::Strings(v) => {
                let w = v.clone();
                assert(views(w@) =~= views(v@));
                StateValue::Strings(w)
            },
        }
    }
}

/// The instant `secs` seconds and `nanos` nanoseconds after the epoch, in
/// whole milliseconds. An instant that an `i64` cannot hold becomes the
/// nearest one that it can.
pub open spec fn millis(secs: i64, nanos: u32) -> i64 {
    let m = 1000 * secs + nanos / 1_000_000;
    if m < i64::MIN {
        i64::MIN
    } else if m > i64::MAX {
        i64::MAX
    } else {
        m as i64
    }
}

/// The instant `secs` seconds and `nanos` nanoseconds after the epoch, in
/// whole milliseconds.
pub fn epoch_millis(secs: i64, nanos: u32) -> (r: i64)
    ensures
        r == millis(secs, nanos),
{
    let m: i128 = 1000 * (secs as i128) + ((nanos / 1_000_000) as i128);
    if m < i64::MIN as i128 {
        i64::MIN
    } else if m > i64::MAX as i128 {
        i64::MAX
    } else {
        m as i64
    }
}

/// State that is passed to and returned from every render cycle: the time
/// of the last render, and whatever the metric wants to keep, by key.
pub struct MetricState {
    /// Unix epoch in milliseconds of the last render, 0 before the first.
    /// This is updated by the framework.
    last_called: i64,
    values: Table<StateValue>,
}

impl MetricState {
    /// The time of the last render, in milliseconds since the epoch; 0
    /// before the first render.
    pub closed spec fn last_rendered(&self) -> i64 {
        self.last_called
    }

    /// What the state holds under `key`. A key that was never set holds
    /// `Empty`.
    pub closed spec fn value(&self, key: Seq<char>) -> StateView {
        if self.values@.contains_key(key) {
            self.values@[key]@
        } else {
            StateView::Empty
        }
    }

    /// The instant from which the next interval is measured: the last
    /// render or, before the first render, the instant kept under `"since"`
    /// (the epoch where nothing is kept there).
    pub open spec fn reference(&self) -> int {
        if self.last_rendered() != 0 {
            self.last_rendered() as int
        } else {
            match self.value("since"@) {
                StateView::Int(t) => t as int,
                _ => 0,
            }
        }
    }

    /// The milliseconds from `reference()` to `now`, counted as 1 where the
    /// clock has not moved on by at least that.
    pub open spec fn interval(&self, now: i64) -> int {
        let d = now - self.reference();
        if d < 1 {
            1
        } else {
            d
        }
    }

    /// Whether the state holds nothing and was never rendered.
    pub open spec fn is_new(&self) -> bool {
        &&& self.last_rendered() == 0
        &&& forall|k: Seq<char>| self.value(k) == StateView::Empty
    }

    /// A state that holds nothing and was never rendered.
    pub fn new() -> (st: MetricState)
        ensures
            st.is_new(),
            st.last_rendered() == 0,
            forall|k: Seq<char>| st.value(k) == StateView::Empty,
    {
        MetricState { last_called: 0, values: Table::new() }
    }

    /// The time of the last render, in milliseconds since the epoch; 0
    /// before the first render.
    pub fn last_called(&self) -> (r: i64)
        ensures
            r == self.last_rendered(),
    {
        self.last_called
    }

    /// Returns timestamp in epoch milliseconds.
    pub fn now() -> i64 {
        let (secs, nanos) = read_clock();
        epoch_millis(secs, nanos)
    }

    /// What the state holds under `key`.
    pub fn get(&self, key: &String) -> (r: StateValue)
        ensures
            r@ == self.value(key@),
    {
        match self.values.get(key) {
            Some(v) => v.clone(),
            None => StateValue::Empty,
        }
    }

    /// Puts `value` under `key`.
    pub fn set(&mut self, key: String, value: StateValue)
        ensures
            final(self).last_rendered() == old(self).last_rendered(),
            forall|k: Seq<char>|
                final(self).value(k) == if k == key@ {
                    value@
                } else {
                    old(self).value(k)
                },
    {
        self.values.insert(key, value);
    }

    /// Keeps `now` as the instant from which the first interval is
    /// measured.
    pub fn begin(&mut self, now: i64)
        ensures
            final(self).last_rendered() == old(self).last_rendered(),
            forall|k: Seq<char>|
                final(self).value(k) == if k == "since"@ {
                    StateView::Int(now)
                } else {
                    old(self).value(k)
                },
    {
        self.set(String::from_str("since"), StateValue::Int(now));
    }

    /// The milliseconds that have passed at `now` since the last render or,
    /// before the first, since `begin`; never less than 1.
    pub fn elapsed(&self, now: i64) -> (r: u64)
        ensures
            r == self.interval(now),
            r >= 1,
    {
        let reference: i64 = if self.last_called != 0 {
            self.last_called
        } else {
            match self.get(&String::from_str("since")) {
                StateValue::Int(t) => t,
                _ => 0,
            }
        };
        let d: i128 = (now as i128) - (reference as i128);
        if d < 1 {
            1
        } else {
            d as u64
        }
    }

    /// Sets the time of the last render to `now`.
    pub fn stamp(&mut self, now: i64)
        ensures
            final(self).last_rendered() == now,
            forall|k: Seq<char>| final(self).value(k) == old(self).value(k),
    {
        self.last_called = now;
    }
}

/// A measurable quantity.
pub trait Metric {
    /// The counter file that the metric reads, as a path below the root of
    /// the counter file system; `None` where it reads none.
    spec fn reads(&self) -> Option<Seq<char>>;

    /// The counter file that the metric reads.
    fn source(&self) -> (r: Option<String>)
        ensures
            r.deep_view() == self.reads(),
    ;

    /// Whether `init`, given `arg` and the counters `counters`, may turn
    /// the state `before` into the state `after`.
    spec fn prepares(
        &self,
        before: MetricState,
        arg: Option<Seq<char>>,
        counters: Counters,
        after: MetricState,
    ) -> bool;

    /// What the metric `shows` once `init` has been given `arg` and the
    /// counters `first`: whether a render may then display `text` in
    /// `color` where the state is `st` and the counters of the cycle are
    /// `counters`.
    spec fn shows_prepared(
        &self,
        arg: Option<Seq<char>>,
        first: Counters,
        st: MetricState,
        counters: Counters,
        text: Seq<char>,
        color: Color,
    ) -> bool;

    /// Initializes a metric using the string supplied as parameter to the
    /// command line argument. Called once, before the first render, with
    /// the counters as they are then.
    fn init(&mut self, st: &mut MetricState, arg: Option<String>, counters: &Counters)
        ensures
            final(st).last_rendered() == old(st).last_rendered(),
            final(self).reads() == old(self).reads(),
            old(self).prepares(*old(st), arg.deep_view(), *counters, *final(st)),
            forall|s: MetricState, c: Counters, text: Seq<char>, color: Color| #[trigger]
                final(self).shows(s, c, text, color) == old(self).shows_prepared(
                    arg.deep_view(),
                    *counters,
                    s,
                    c,
                    text,
                    color,
                ),
    ;

    /// Whether a render may display `text` in `color` where the state of the
    /// metric is `st` and the counters of the cycle are `counters`. A
    /// metric that reads the clock may display one of several things.
    spec fn shows(&self, st: MetricState, counters: Counters, text: Seq<char>, color: Color) -> bool;

    /// What the metric `shows` once it has rendered in the state `st` from
    /// the counters `counters`: whether a render may then display `text` in
    /// `color` where the state is `later` and the counters of the cycle are
    /// `next`.
    spec fn shows_rendered(
        &self,
        st: MetricState,
        counters: Counters,
        later: MetricState,
        next: Counters,
        text: Seq<char>,
        color: Color,
    ) -> bool;

    /// Renders the metric: displays something that it `shows`, and leaves
    /// the time of the last render alone.
    fn render(&mut self, st: &mut MetricState, counters: &Counters) -> (r: RenderResult)
        ensures
            final(st).last_rendered() == old(st).last_rendered(),
            final(self).reads() == old(self).reads(),
            old(self).shows(*old(st), *counters, r.spec_text(), r.spec_color()),
            forall|s: MetricState, c: Counters, text: Seq<char>, color: Color| #[trigger]
                final(self).shows(s, c, text, color) == old(self).shows_rendered(
                    *old(st),
                    *counters,
                    s,
                    c,
                    text,
                    color,
                ),
    ;
}

/// One value, held as it was given. A boxed metric or renderer goes into a
/// struct or a table through a `Slot`, so that what is known of the value
/// is known of what the struct holds.
pub struct Slot<T> {
    pub item: T,
}

impl<T> Slot<T> {
    /// A slot that holds `item`.
    pub fn new(item: T) -> (s: Slot<T>)
        ensures
            s.item == item,
    {
        Slot { item: item }
    }

    /// Takes the item out of the slot.
    pub fn take(self) -> (item: T)
        ensures
            item == self.item,
    {
        self.item
    }
}

/// A metric that is active in the current run and updated for every cycle.
pub struct ActiveMetric {
    name: String,
    m: Slot<Box<dyn Metric>>,
    st: MetricState,
}

impl ActiveMetric {
    /// The name under which the metric is displayed.
    pub closed spec fn spec_name(&self) -> Seq<char> {
        self.name@
    }

    /// The state of the metric.
    pub closed spec fn state(&self) -> MetricState {
        self.st
    }

    /// The counter file that the metric reads; `None` where it reads none.
    pub closed spec fn reads(&self) -> Option<Seq<char>> {
        self.m.item.reads()
    }

    /// Whether a render of the metric, in the state that it has, may
    /// display `text` in `color` where the counters of the cycle are
    /// `counters`.
    pub closed spec fn may_show(&self, counters: Counters, text: Seq<char>, color: Color) -> bool {
        self.m.item.shows(self.st, counters, text, color)
    }

    /// Whether a render of the metric, in the state `st`, may display
    /// `text` in `color` where the counters of the cycle are `counters`.
    pub closed spec fn shows_in(
        &self,
        st: MetricState,
        counters: Counters,
        text: Seq<char>,
        color: Color,
    ) -> bool {
        self.m.item.shows(st, counters, text, color)
    }

    /// Whether, once the metric has rendered in the state that it has from
    /// the counters `counters`, a render in the state `later` may display
    /// `text` in `color` where the counters of the cycle are `next`.
    pub closed spec fn may_show_rendered(
        &self,
        counters: Counters,
        later: MetricState,
        next: Counters,
        text: Seq<char>,
        color: Color,
    ) -> bool {
        self.m.item.shows_rendered(self.st, counters, later, next, text, color)
    }

    /// Whether this is what the active metric `before` has become by a
    /// render from the counters `counters`: under the same name, reading
    /// the same file, and showing what `before` shows once it has rendered.
    pub open spec fn follows(&self, before: ActiveMetric, counters: Counters) -> bool {
        &&& self.spec_name() == before.spec_name()
        &&& self.reads() == before.reads()
        &&& forall|next: Counters, text: Seq<char>, color: Color| #[trigger]
            self.may_show(next, text, color) == before.may_show_rendered(
                counters,
                self.state(),
                next,
                text,
                color,
            )
    }

    /// Binds `metric` to its name and its state.
    pub fn new(name: String, metric: Box<dyn Metric>, initial_state: MetricState) -> (r:
        ActiveMetric)
        ensures
            r.spec_name() == name@,
            r.state() == initial_state,
            r.reads() == metric.reads(),
            forall|counters: Counters, text: Seq<char>, color: Color| #[trigger]
                r.may_show(counters, text, color) == metric.shows(
                    initial_state,
                    counters,
                    text,
                    color,
                ),
    {
        let kept = Slot::new(metric);
        ActiveMetric::bind(name, kept, initial_state)
    }

    /// Binds the metric in `metric` to its name and its state.
    pub fn bind(name: String, metric: Slot<Box<dyn Metric>>, initial_state: MetricState) -> (r:
        ActiveMetric)
        ensures
            r.spec_name() == name@,
            r.state() == initial_state,
            r.reads() == metric.item.reads(),
            forall|counters: Counters, text: Seq<char>, color: Color| #[trigger]
                r.may_show(counters, text, color) == metric.item.shows(
                    initial_state,
                    counters,
                    text,
                    color,
                ),
    {
        ActiveMetric { name: name, m: metric, st: initial_state }
    }

    /// The name under which the metric is displayed.
    pub fn name(&self) -> (r: &String)
        ensures
            r@ == self.spec_name(),
    {
        &self.name
    }

    /// The time of the metric's last render, in milliseconds since the
    /// epoch; 0 before the first render.
    pub fn last_called(&self) -> (r: i64)
        ensures
            r == self.state().last_rendered(),
    {
        self.st.last_called()
    }

    /// The counter file that the metric reads.
    pub fn source(&self) -> (r: Option<String>)
        ensures
            r.deep_view() == self.reads(),
    {
        self.m.item.source()
    }

    /// Ends a cycle in which the metric has rendered `result` and the clock
    /// says `now`: puts the metric's name on the result, and sets the
    /// state's time of the last render to `now`.
    pub fn finish(&mut self, result: RenderResult, now: i64) -> (r: RenderResult)
        ensures
            r.spec_name() == old(self).spec_name(),
            r.spec_text() == result.spec_text(),
            r.spec_color() == result.spec_color(),
            final(self).spec_name() == old(self).spec_name(),
            final(self).reads() == old(self).reads(),
            final(self).state().last_rendered() == now,
            forall|k: Seq<char>| final(self).state().value(k) == old(self).state().value(k),
            forall|st: MetricState, counters: Counters, text: Seq<char>, color: Color| #[trigger]
                final(self).shows_in(st, counters, text, color) == old(self).shows_in(
                    st,
                    counters,
                    text,
                    color,
                ),
    {
        self.st.stamp(now);
        result.named(self.name.clone())
    }

    /// Renders the metric, in the state that it has, from the counters of
    /// this cycle, and ends the cycle by `finish`: the result is something
    /// that the metric may show, under the metric's name. The state's time
    /// of the last render is set to the present only then: the metric has
    /// seen the time of the cycle before.
    pub fn render(&mut self, counters: &Counters) -> (r: RenderResult)
        ensures
            r.spec_name() == old(self).spec_name(),
            old(self).may_show(*counters, r.spec_text(), r.spec_color()),
            final(self).follows(*old(self), *counters),
    {
        let result = self.m.item.render(&mut self.st, counters);
        let ghost rendered = *self;
        let now = MetricState::now();
        let r = self.finish(result, now);
        proof {
            assert forall|next: Counters, text: Seq<char>, color: Color| #[trigger]
                self.may_show(next, text, color) == old(self).may_show_rendered(
                    *counters,
                    self.state(),
                    next,
                    text,
                    color,
                ) by {
                assert(self.shows_in(self.state(), next, text, color) == rendered.shows_in(
                    self.state(),
                    next,
                    text,
                    color,
                ));
            }
        }
        r
    }
}

} // verus!
