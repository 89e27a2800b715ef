//! Renderers, which turn the outputs of the active metrics into one frame
//! of the status stream, and the loop that emits the frames.

use crate::framework::ActiveMetric;
use crate::framework::Color;
use crate::framework::RenderResult;
use crate::framework::Slot;
use crate::helper::Counters;
use crate::text::views;
use vstd::prelude::*;

verus! {

/// A way of writing the outputs of the metrics.
pub trait Renderer {
    /// The metrics that the renderer renders, in the order in which they
    /// are displayed.
    spec fn metrics(&self) -> Seq<ActiveMetric>;

    /// What the stream of this renderer begins with.
    spec fn header(&self) -> Seq<char>;

    /// The frame in which this renderer carries `results`.
    spec fn frame(&self, results: Seq<RenderResult>) -> Seq<char>;

    /// Takes the metrics to render, in the order in which they are
    /// displayed, and returns what the stream begins with.
    fn init(&mut self, metrics: Vec<ActiveMetric>) -> (r: String)
        ensures
            r@ == old(self).header(),
            final(self).metrics() == metrics@,
            final(self).header() == old(self).header(),
            forall|results: Seq<RenderResult>| #[trigger]
                final(self).frame(results) == old(self).frame(results),
    ;

    /// Renders every metric from the counters of this cycle and returns
    /// the frame that carries the outputs: for each metric, in order and
    /// under its name, something that the metric may show.
    fn render(&mut self, counters: &Counters) -> (r: String)
        ensures
            metric_names(final(self).metrics()) == metric_names(old(self).metrics()),
            files_read(final(self).metrics()) == files_read(old(self).metrics()),
            follow(final(self).metrics(), old(self).metrics(), *counters),
            final(self).header() == old(self).header(),
            forall|results: Seq<RenderResult>| #[trigger]
                final(self).frame(results) == old(self).frame(results),
            exists|results: Seq<RenderResult>|
                carries(old(self).metrics(), *counters, results) && r@ == old(self).frame(
                    results,
                ),
    ;

    /// The counter files that the metrics read.
    fn sources(&self) -> (r: Vec<String>)
        ensures
            views(r@) == files_read(self.metrics()),
    ;
}

/// The names of a sequence of active metrics.
pub open spec fn metric_names(metrics: Seq<ActiveMetric>) -> Seq<Seq<char>> {
    Seq::new(metrics.len(), |i: int| metrics[i].spec_name())
}

/// The names on a sequence of outputs.
pub open spec fn result_names(results: Seq<RenderResult>) -> Seq<Seq<char>> {
    Seq::new(results.len(), |i: int| results[i].spec_name())
}

/// Whether `results` are outputs of `metrics` for the counters `counters`:
/// one for each metric, in order, under the metric's name, with a text and
/// a color that the metric may show.
pub open spec fn carries(
    metrics: Seq<ActiveMetric>,
    counters: Counters,
    results: Seq<RenderResult>,
) -> bool {
    &&& results.len() == metrics.len()
    &&& forall|i: int|
        0 <= i < results.len() ==> (#[trigger] results[i]).spec_name() == metrics[i].spec_name()
            && metrics[i].may_show(counters, results[i].spec_text(), results[i].spec_color())
}

/// Whether the metrics `after` are what the metrics `before` have become
/// by a render from the counters `counters`, one by one.
pub open spec fn follow(
    after: Seq<ActiveMetric>,
    before: Seq<ActiveMetric>,
    counters: Counters,
) -> bool {
    &&& after.len() == before.len()
    &&& forall|i: int| 0 <= i < after.len() ==> (#[trigger] after[i]).follows(before[i], counters)
}

/// Metrics that read the same files, one by one, read the same files
/// together.
pub proof fn lemma_files_read(a: Seq<ActiveMetric>, b: Seq<ActiveMetric>)
    requires
        a.len() == b.len(),
        forall|i: int| 0 <= i < a.len() ==> (#[trigger] a[i]).reads() == b[i].reads(),
    ensures
        files_read(a) == files_read(b),
    decreases a.len(),
{
    if a.len() > 0 {
        lemma_files_read(a.drop_last(), b.drop_last());
    }
}

/// Renders every metric of `metrics`, in order. The results are outputs
/// of the metrics as they were, and every metric is what it has become by
/// its render.
pub fn render_all(metrics: &mut Vec<ActiveMetric>, counters: &Counters) -> (r: Vec<RenderResult>)
    ensures
        carries(old(metrics)@, *counters, r@),
        result_names(r@) == metric_names(old(metrics)@),
        metric_names(final(metrics)@) == metric_names(old(metrics)@),
        files_read(final(metrics)@) == files_read(old(metrics)@),
        follow(final(metrics)@, old(metrics)@, *counters),
{
    let mut results: Vec<RenderResult> = Vec::new();
    let ghost names = metric_names(metrics@);
    let ghost start = metrics@;
    let n = metrics.len();
    let mut i: usize = 0;
    while i < n
        invariant
            i <= n,
            n == metrics@.len(),
            n == start.len(),
            results@.len() == i,
            metric_names(metrics@) == names,
            names == metric_names(start),
            result_names(results@) == names.take(i as int),
            forall|j: int| i <= j < n ==> #[trigger] metrics@[j] == start[j],
            forall|j: int|
                0 <= j < i ==> (#[trigger] results@[j]).spec_name() == start[j].spec_name()
                    && start[j].may_show(*counters, results@[j].spec_text(), results@[j].spec_color()),
            forall|j: int| 0 <= j < i ==> (#[trigger] metrics@[j]).follows(start[j], *counters),
        decreases n - i,
    {
        let ghost before = metrics@;
        let ghost seen = results@;
        let result = metrics[i].render(counters);
        let ghost out = result;
        results.push(result);
        proof {
            assert(metrics@.len() == before.len());
            assert(metrics@[i as int].spec_name() == before[i as int].spec_name());
            assert forall|j: int| 0 <= j < n && j != i implies #[trigger] metrics@[j]
                == before[j] by {}
            assert forall|j: int| 0 <= j < n implies #[trigger] metrics@[j].spec_name()
                == before[j].spec_name() by {
                if j != i {
                    assert(metrics@[j] == before[j]);
                }
            }
            assert forall|j: int| 0 <= j < i + 1 implies (#[trigger] metrics@[j]).follows(
                start[j],
                *counters,
            ) by {
                if j < i {
                    assert(metrics@[j] == before[j]);
                } else {
                    assert(before[i as int] == start[i as int]);
                }
            }
            assert forall|j: int| 0 <= j < i + 1 implies (#[trigger] results@[j]).spec_name()
                == start[j].spec_name() && start[j].may_show(
                *counters,
                results@[j].spec_text(),
                results@[j].spec_color(),
            ) by {
                if j < i {
                    assert(results@[j] == seen[j]);
                } else {
                    assert(results@[j] == out);
                    assert(before[i as int] == start[i as int]);
                }
            }
            assert(metric_names(metrics@) =~= metric_names(before));
            assert(names[i as int] == before[i as int].spec_name());
            assert(result_names(results@) =~= names.take(i as int).push(names[i as int]));
            assert(names.take(i as int).push(names[i as int]) =~= names.take(i + 1));
        }
        i = i + 1;
    }
    proof {
        assert(names.take(n as int) =~= names);
        lemma_files_read(metrics@, start);
    }
    results
}

/// The counter files that `metrics` read, in the order of the metrics:
/// one path for each metric that reads a file.
pub open spec fn files_read(metrics: Seq<ActiveMetric>) -> Seq<Seq<char>>
    decreases metrics.len(),
{
    if metrics.len() == 0 {
        Seq::empty()
    } else {
        match metrics.last().reads() {
            Some(path) => files_read(metrics.drop_last()).push(path),
            None => files_read(metrics.drop_last()),
        }
    }
}

/// The counter files that the metrics of `metrics` read.
pub fn sources_of(metrics: &Vec<ActiveMetric>) -> (r: Vec<String>)
    ensures
        views(r@) == files_read(metrics@),
{
    let mut r: Vec<String> = Vec::new();
    let mut i: usize = 0;
    assert(metrics@.take(0) =~= Seq::<ActiveMetric>::empty());
    assert(views(r@) =~= Seq::<Seq<char>>::empty());
    while i < metrics.len()
        invariant
            i <= metrics@.len(),
            views(r@) == files_read(metrics@.take(i as int)),
        decreases metrics@.len() - i,
    {
        proof {
            assert(metrics@.take(i + 1).drop_last() =~= metrics@.take(i as int));
            assert(metrics@.take(i + 1).last() == metrics@[i as int]);
        }
        match metrics[i].source() {
            Some(path) => {
                let ghost seen = views(r@);
                let ghost p = path@;
                r.push(path);
                assert(views(r@) =~= seen.push(p));
            },
            None => {},
        }
        i = i + 1;
    }
    assert(metrics@.take(i as int) =~= metrics@);
    r
}

/// The objects of `results`, with a comma between one and the next.
pub open spec fn joined(results: Seq<RenderResult>) -> Seq<char>
    decreases results.len(),
{
    if results.len() == 0 {
        Seq::empty()
    } else if results.len() == 1 {
        results[0].json()
    } else {
        joined(results.drop_last()) + ","@ + results.last().json()
    }
}

/// The frame of the streaming status protocol that carries `results`: a
/// comma, then the objects in one pair of square brackets.
pub open spec fn i3_frame(results: Seq<RenderResult>) -> Seq<char> {
    ",["@ + joined(results) + "]"@
}

/// What the streaming status protocol begins with: the version, and the
/// opening of an array that is never closed.
pub open spec fn i3_header() -> Seq<char> {
    "{\"version\":1}\n[[]\n"@
}

/// Every frame of the streaming status protocol begins with a comma and an
/// opening square bracket, and ends with a closing one.
pub proof fn lemma_i3_frame_shape(results: Seq<RenderResult>)
    ensures
        i3_frame(results).len() >= 3,
        i3_frame(results)[0] == ',',
        i3_frame(results)[1] == '[',
        i3_frame(results).last() == ']',
{
    reveal_strlit(",[");
    reveal_strlit("]");
}

/// The renderer of the streaming status protocol.
pub struct I3statRenderer {
    metrics: Vec<ActiveMetric>,
}

impl I3statRenderer {
    /// A renderer without metrics.
    pub fn new() -> (r: I3statRenderer)
        ensures
            r.metrics() == Seq::<ActiveMetric>::empty(),
    {
        I3statRenderer { metrics: Vec::new() }
    }

    /// The frame that carries `results`.
    pub fn frame(results: &Vec<RenderResult>) -> (r: String)
        ensures
            r@ == i3_frame(results@),
    {
        let mut out = String::from_str(",[");
        let mut i: usize = 0;
        assert(results@.take(0) =~= Seq::<RenderResult>::empty());
        assert(out@ =~= ",["@ + joined(results@.take(0)));
        while i < results.len()
            invariant
                i <= results@.len(),
                out@ == ",["@ + joined(results@.take(i as int)),
            decreases results@.len() - i,
        {
            proof {
                assert(results@.take(i + 1).drop_last() =~= results@.take(i as int));
                assert(results@.take(i + 1).last() == results@[i as int]);
                assert(results@.take(i + 1)[0] == results@[0]);
            }
            if i > 0 {
                out.append(",");
            }
            let json = results[i].to_json();
            out.append(json.as_str());
            assert(out@ =~= ",["@ + joined(results@.take(i + 1)));
            i = i + 1;
        }
        assert(results@.take(i as int) =~= results@);
        out.append("]");
        out
    }
}

impl Renderer for I3statRenderer {
    closed spec fn metrics(&self) -> Seq<ActiveMetric> {
        self.metrics@
    }

    open spec fn header(&self) -> Seq<char> {
        i3_header()
    }

    open spec fn frame(&self, results: Seq<RenderResult>) -> Seq<char> {
        i3_frame(results)
    }

    fn init(&mut self, metrics: Vec<ActiveMetric>) -> (r: String) {
        self.metrics = metrics;
        String::from_str("{\"version\":1}\n[[]\n")
    }

    fn render(&mut self, counters: &Counters) -> (r: String) {
        let results = render_all(&mut self.metrics, counters);
        let r = I3statRenderer::frame(&results);
        assert(carries(old(self).metrics(), *counters, results@) && r@ == old(self).frame(
            results@,
        ));
        r
    }

    fn sources(&self) -> (r: Vec<String>) {
        sources_of(&self.metrics)
    }
}

/// The renderer of the streaming status protocol, with no metrics yet:
/// its stream begins with `i3_header`, and its frames are those of
/// `i3_frame`.
pub fn make_i3status() -> (r: Box<dyn Renderer>)
    ensures
        r.metrics() == Seq::<ActiveMetric>::empty(),
        r.header() == i3_header(),
        forall|results: Seq<RenderResult>| #[trigger] r.frame(results) == i3_frame(results),
{
    let renderer = I3statRenderer::new();
    return Box::new(renderer);
}

/// The escape sequence that sets the foreground color of a terminal to
/// `c`; for the default color and for an arbitrary one, the sequence that
/// resets it.
pub open spec fn ansi(c: Color) -> Seq<char> {
    match c {
        Color::Arbitrary(_) => "\x1B[0m"@,
        Color::Default => "\x1B[0m"@,
        Color::White => "\x1B[37m"@,
        Color::Red => "\x1b[31m"@,
        Color::Green => "\x1b[32m"@,
        Color::Blue => "\x1b[34m"@,
        Color::Black => "\x1b[30m"@,
        Color::Orange => "\x1b[31;1m"@,
        Color::Purple => "\x1b[35m"@,
    }
}

/// Colors with the same tag are written alike, in the status protocol and
/// on a terminal.
pub proof fn lemma_same_tag_same_encoding(a: Color, b: Color)
    requires
        a.same_tag(b),
    ensures
        a.hex() == b.hex(),
        ansi(a) == ansi(b),
{
}

/// One output as the plain-text protocol writes it: the text in its
/// color, the reset, and a separator.
pub open spec fn plain_cell(result: RenderResult) -> Seq<char> {
    ansi(result.spec_color()) + result.spec_text() + ansi(Color::Default) + " | "@
}

/// The line of the plain-text protocol that carries `results`.
pub open spec fn plain_frame(results: Seq<RenderResult>) -> Seq<char>
    decreases results.len(),
{
    if results.len() == 0 {
        Seq::empty()
    } else {
        plain_frame(results.drop_last()) + plain_cell(results.last())
    }
}

/// The renderer of the plain-text protocol.
pub struct PlainTextRenderer {
    metrics: Vec<ActiveMetric>,
}

impl PlainTextRenderer {
    /// A renderer without metrics.
    pub fn new() -> (r: PlainTextRenderer)
        ensures
            r.metrics() == Seq::<ActiveMetric>::empty(),
    {
        PlainTextRenderer { metrics: Vec::new() }
    }

    /// The escape sequence that sets the foreground color to `c`.
    pub fn color_to_ansi(c: Color) -> (r: String)
        ensures
            r@ == ansi(c),
    {
        String::from_str(
            match c {
                Color::Arbitrary(_) => "\x1B[0m",
                Color::Default => "\x1B[0m",
                Color::White => "\x1B[37m",
                Color::Red => "\x1b[31m",
                Color::Green => "\x1b[32m",
                Color::Blue => "\x1b[34m",
                Color::Black => "\x1b[30m",
                Color::Orange => "\x1b[31;1m",
                Color::Purple => "\x1b[35m",
            },
        )
    }

    /// The line that carries `results`.
    pub fn frame(results: &Vec<RenderResult>) -> (r: String)
        ensures
            r@ == plain_frame(results@),
    {
        let mut out = String::new();
        let mut i: usize = 0;
        assert(results@.take(0) =~= Seq::<RenderResult>::empty());
        while i < results.len()
            invariant
                i <= results@.len(),
                out@ == plain_frame(results@.take(i as int)),
            decreases results@.len() - i,
        {
            proof {
                assert(results@.take(i + 1).drop_last() =~= results@.take(i as int));
                assert(results@.take(i + 1).last() == results@[i as int]);
            }
            let color = PlainTextRenderer::color_to_ansi(results[i].color().clone());
            out.append(color.as_str());
            out.append(results[i].text().as_str());
            let reset = PlainTextRenderer::color_to_ansi(Color::Default);
            out.append(reset.as_str());
            out.append(" | ");
            assert(out@ =~= plain_frame(results@.take(i as int)) + plain_cell(results@[i as int]));
            i = i + 1;
        }
        assert(results@.take(i as int) =~= results@);
        out
    }
}

impl Renderer for PlainTextRenderer {
    closed spec fn metrics(&self) -> Seq<ActiveMetric> {
        self.metrics@
    }

    open spec fn header(&self) -> Seq<char> {
        Seq::empty()
    }

    open spec fn frame(&self, results: Seq<RenderResult>) -> Seq<char> {
        plain_frame(results)
    }

    fn init(&mut self, metrics: Vec<ActiveMetric>) -> (r: String) {
        self.metrics = metrics;
        String::new()
    }

    fn render(&mut self, counters: &Counters) -> (r: String) {
        let results = render_all(&mut self.metrics, counters);
        let r = PlainTextRenderer::frame(&results);
        assert(carries(old(self).metrics(), *counters, results@) && r@ == old(self).frame(
            results@,
        ));
        r
    }

    fn sources(&self) -> (r: Vec<String>) {
        sources_of(&self.metrics)
    }
}

/// The renderer of the plain-text protocol, with no metrics yet: its
/// stream begins with nothing, and its frames are the lines of
/// `plain_frame`.
pub fn make_plaintextrenderer() -> (r: Box<dyn Renderer>)
    ensures
        r.metrics() == Seq::<ActiveMetric>::empty(),
        r.header() == Seq::<char>::empty(),
        forall|results: Seq<RenderResult>| #[trigger] r.frame(results) == plain_frame(results),
{
    let renderer = PlainTextRenderer::new();
    return Box::new(renderer);
}

/// How long the loop rests after a frame where the interval is `interval`
/// milliseconds: whole seconds and nanoseconds. An interval below zero is
/// no rest at all.
pub open spec fn rest(interval: i32) -> (u64, u32) {
    if interval <= 0 {
        (0, 0)
    } else {
        ((interval / 1000) as u64, (1000000 * (interval % 1000)) as u32)
    }
}

/// How long the loop rests after a frame.
pub fn rest_of(interval: i32) -> (r: (u64, u32))
    ensures
        r == rest(interval),
        r.1 < 1000000000,
{
    if interval <= 0 {
        (0, 0)
    } else {
        ((interval / 1000) as u64, 1000000 * ((interval % 1000) as u32))
    }
}

/// What one step of the render loop asks its caller to do.
pub enum Emission {
    /// Write the text, and go on at once.
    Header(String),
    /// Write the text and a line feed, then rest for the seconds and
    /// nanoseconds given.
    Frame(String, u64, u32),
}

/// The render loop: a renderer, the metrics that it is to render, and the
/// interval between two frames. The loop itself is run by the caller, who
/// reads the counter files, calls `step`, and does what the step asks for.
pub struct RenderLoop {
    renderer: Slot<Box<dyn Renderer>>,
    waiting: Option<Vec<ActiveMetric>>,
    interval: i32,
}

impl RenderLoop {
    /// What the loop emits for the frame `text` where the interval is
    /// `interval` milliseconds: the frame, and then a rest of that length.
    pub fn emit_frame(text: String, interval: i32) -> (out: Emission)
        ensures
            out matches Emission::Frame(t, secs, nanos) && t == text && (secs, nanos) == rest(
                interval,
            ),
    {
        let pause = rest_of(interval);
        Emission::Frame(text, pause.0, pause.1)
    }

    /// Whether the header has been emitted.
    pub closed spec fn started(&self) -> bool {
        self.waiting is None
    }

    /// The interval between two frames, in milliseconds.
    pub closed spec fn interval(&self) -> i32 {
        self.interval
    }

    /// The metrics that wait to be handed to the renderer; none once the
    /// header has been emitted.
    pub closed spec fn waiting(&self) -> Seq<ActiveMetric> {
        match self.waiting {
            Some(metrics) => metrics@,
            None => Seq::empty(),
        }
    }

    /// What the stream of the loop's renderer begins with.
    pub closed spec fn header(&self) -> Seq<char> {
        self.renderer.item.header()
    }

    /// The frame in which the loop's renderer carries `results`.
    pub closed spec fn frame(&self, results: Seq<RenderResult>) -> Seq<char> {
        self.renderer.item.frame(results)
    }

    /// The metrics that the loop's renderer renders.
    pub closed spec fn rendered(&self) -> Seq<ActiveMetric> {
        self.renderer.item.metrics()
    }

    /// A loop that has emitted nothing yet: it keeps the renderer `r`,
    /// and `metrics` wait to be handed to it.
    pub fn new(r: Box<dyn Renderer>, metrics: Vec<ActiveMetric>, interval: i32) -> (l: RenderLoop)
        ensures
            !l.started(),
            l.interval() == interval,
            l.waiting() == metrics@,
            l.header() == r.header(),
            l.rendered() == r.metrics(),
            forall|results: Seq<RenderResult>| #[trigger] l.frame(results) == r.frame(results),
    {
        let kept = Slot::new(r);
        RenderLoop { renderer: kept, waiting: Some(metrics), interval: interval }
    }

    /// The counter files to read before the next step: before the first
    /// step those that the waiting metrics read, after it those that the
    /// metrics of the renderer read.
    pub fn sources(&self) -> (r: Vec<String>)
        ensures
            !self.started() ==> views(r@) == files_read(self.waiting()),
            self.started() ==> views(r@) == files_read(self.rendered()),
    {
        match &self.waiting {
            Some(metrics) => sources_of(metrics),
            None => self.renderer.item.sources(),
        }
    }

    /// The next thing to emit. The first step hands the waiting metrics
    /// to the renderer and emits the renderer's header; every step after
    /// it emits a frame in which the renderer carries outputs of its
    /// metrics for `counters`. So the header is emitted exactly once, and
    /// before any frame.
    pub fn step(&mut self, counters: &Counters) -> (out: Emission)
        ensures
            final(self).started(),
            final(self).interval() == old(self).interval(),
            final(self).header() == old(self).header(),
            forall|results: Seq<RenderResult>| #[trigger]
                final(self).frame(results) == old(self).frame(results),
            out is Header <==> !old(self).started(),
            !old(self).started() ==> (out matches Emission::Header(t) && t@ == old(
                self,
            ).header()) && final(self).rendered() == old(self).waiting(),
            old(self).started() ==> (out matches Emission::Frame(t, secs, nanos) && (secs, nanos)
                == rest(old(self).interval()) && exists|results: Seq<RenderResult>|
                carries(old(self).rendered(), *counters, results) && t@ == old(self).frame(
                    results,
                )),
            old(self).started() ==> metric_names(final(self).rendered()) == metric_names(
                old(self).rendered(),
            ) && files_read(final(self).rendered()) == files_read(old(self).rendered()) && follow(
                final(self).rendered(),
                old(self).rendered(),
                *counters,
            ),
    {
        let mut waiting: Option<Vec<ActiveMetric>> = None;
        core::mem::swap(&mut self.waiting, &mut waiting);
        match waiting {
            Some(metrics) => Emission::Header(self.renderer.item.init(metrics)),
            None => {
                let ghost before = self.renderer.item;
                let text = self.renderer.item.render(counters);
                proof {
                    let results = choose|results: Seq<RenderResult>|
                        carries(before.metrics(), *counters, results) && text@ == before.frame(
                            results,
                        );
                    assert(before.metrics() == old(self).rendered());
                    assert(before.frame(results) == old(self).frame(results));
                    assert(carries(old(self).rendered(), *counters, results) && text@ == old(
                        self,
                    ).frame(results));
                }
                RenderLoop::emit_frame(text, self.interval)
            },
        }
    }
}

} // verus!
