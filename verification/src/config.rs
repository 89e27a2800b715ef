//! The metrics and renderers that can be chosen from, and the choice that
//! the options of one run make among them.

use crate::framework::ActiveMetric;
use crate::framework::Color;
use crate::framework::Metric;
use crate::framework::MetricState;
use crate::framework::Slot;
use crate::helper::commaseparated_to_vec;
use crate::helper::Counters;
use crate::matching::compiled;
use crate::metrics::cpu_load::make_cpu_load_metric;
use crate::metrics::cpu_load::DisplayMode;
use crate::metrics::cpu_load::INDIVIDUAL_CPU;
use crate::metrics::cpu_load::TOTAL_CPU;
use crate::metrics::load::make_load_metric;
use crate::metrics::load::reading_of;
use crate::metrics::load::LOAD_AVG;
use crate::metrics::load::NO_LOAD;
use crate::metrics::net::make_net_metric;
use crate::metrics::net::INTERFACE;
use crate::metrics::net::WHOLE_LINE;
use crate::metrics::time::clock_metric;
use crate::metrics::time::shown;
use crate::render::i3_frame;
use crate::render::i3_header;
use crate::render::make_i3status;
use crate::render::make_plaintextrenderer;
use crate::render::metric_names;
use crate::render::plain_frame;
use crate::render::Renderer;
use crate::framework::RenderResult;
use crate::table::Table;
use crate::text::before;
use crate::text::comes_before;
use crate::text::lemma_before_irreflexive;
use crate::text::lemma_before_total;
use crate::text::lemma_before_transitive;
use crate::text::parse_i32;
use crate::text::signed;
use crate::text::split;
use crate::text::views;
use vstd::prelude::*;

verus! {

/// The place of the `n`th name of an ordering list, counted from 1.
pub open spec fn place(n: nat) -> i32 {
    if n > i32::MAX {
        i32::MAX
    } else {
        n as i32
    }
}

/// The place of each name of an ordering list. A name that the list holds
/// more than once has the place of its last occurrence.
pub open spec fn places(names: Seq<Seq<char>>) -> Map<Seq<char>, i32>
    decreases names.len(),
{
    if names.len() == 0 {
        Map::empty()
    } else {
        places(names.drop_last()).insert(names.last(), place(names.len()))
    }
}

/// Whether the metric named `a` is displayed before the one named `b`
/// where `ord` gives the places of the names of the ordering list: listed
/// names come in the order of their places, before all names that are not
/// listed, and those come in the order of the names themselves.
pub open spec fn precedes(ord: Map<Seq<char>, i32>, a: Seq<char>, b: Seq<char>) -> bool {
    if ord.contains_key(a) && ord.contains_key(b) {
        ord[a] < ord[b] || (ord[a] == ord[b] && before(a, b))
    } else if ord.contains_key(a) {
        true
    } else if ord.contains_key(b) {
        false
    } else {
        before(a, b)
    }
}

/// `precedes` passes on: what precedes something that precedes a third
/// precedes the third.
pub proof fn lemma_precedes_transitive(
    ord: Map<Seq<char>, i32>,
    a: Seq<char>,
    b: Seq<char>,
    c: Seq<char>,
)
    requires
        precedes(ord, a, b),
        precedes(ord, b, c),
    ensures
        precedes(ord, a, c),
{
    if before(a, b) && before(b, c) {
        lemma_before_transitive(a, b, c);
    }
}

/// No name precedes itself.
pub proof fn lemma_precedes_irreflexive(ord: Map<Seq<char>, i32>, a: Seq<char>)
    ensures
        !precedes(ord, a, a),
{
    lemma_before_irreflexive(a);
}

/// Whether no metric of `names` is displayed behind one that it precedes.
pub open spec fn in_order(ord: Map<Seq<char>, i32>, names: Seq<Seq<char>>) -> bool {
    forall|i: int, j: int| 0 <= i < j < names.len() ==> !precedes(ord, names[j], names[i])
}

/// In a sequence that is in order, listed names stand in the order of their
/// places and before every name that is not listed, and the names that are
/// not listed stand in the order of the names themselves.
pub proof fn lemma_in_order(ord: Map<Seq<char>, i32>, names: Seq<Seq<char>>, i: int, j: int)
    requires
        in_order(ord, names),
        0 <= i < j < names.len(),
        names[i] != names[j],
    ensures
        ord.contains_key(names[j]) ==> ord.contains_key(names[i]) && ord[names[i]] <= ord[names[j]],
        !ord.contains_key(names[i]) ==> !ord.contains_key(names[j]) && before(names[i], names[j]),
{
    lemma_before_total(names[i], names[j]);
    assert(!precedes(ord, names[j], names[i]));
}

/// Whether the metric named `a` is displayed before the one named `b`.
pub fn comes_first(ordmap: &Table<i32>, a: &String, b: &String) -> (r: bool)
    ensures
        r == precedes(ordmap@, a@, b@),
{
    match (ordmap.get(a), ordmap.get(b)) {
        (Some(i1), Some(i2)) => *i1 < *i2 || (*i1 == *i2 && comes_before(a.as_str(), b.as_str())),
        (Some(_), None) => true,
        (None, Some(_)) => false,
        (None, None) => comes_before(a.as_str(), b.as_str()),
    }
}

/// Puts `metrics` in the order in which they are displayed.
pub fn sort_metrics(metrics: Vec<ActiveMetric>, ordmap: &Table<i32>) -> (r: Vec<ActiveMetric>)
    ensures
        r@.to_multiset() == metrics@.to_multiset(),
        metric_names(r@).to_multiset() == metric_names(metrics@).to_multiset(),
        in_order(ordmap@, metric_names(r@)),
{
    let ghost ord = ordmap@;
    let ghost all = metrics@.to_multiset();
    let ghost all_names = metric_names(metrics@).to_multiset();
    let mut rest = metrics;
    let mut out: Vec<ActiveMetric> = Vec::new();
    proof {
        assert(out@.to_multiset() =~= vstd::multiset::Multiset::<ActiveMetric>::empty()) by {
            out@.to_multiset_ensures();
        }
        assert(out@.to_multiset().add(rest@.to_multiset()) =~= all);
        assert(metric_names(out@) =~= Seq::<Seq<char>>::empty());
        assert(metric_names(out@).to_multiset() =~= vstd::multiset::Multiset::<
            Seq<char>,
        >::empty()) by {
            metric_names(out@).to_multiset_ensures();
        }
        assert(metric_names(out@).to_multiset().add(metric_names(rest@).to_multiset())
            =~= all_names);
    }
    while rest.len() > 0
        invariant
            ord == ordmap@,
            out@.to_multiset().add(rest@.to_multiset()) == all,
            metric_names(out@).to_multiset().add(metric_names(rest@).to_multiset()) == all_names,
            in_order(ord, metric_names(out@)),
            forall|i: int, j: int|
                0 <= i < out@.len() && 0 <= j < rest@.len() ==> !precedes(
                    ord,
                    #[trigger] rest@[j].spec_name(),
                    #[trigger] out@[i].spec_name(),
                ),
        decreases rest@.len(),
    {
        let mut best: usize = 0;
        let mut k: usize = 1;
        proof {
            lemma_precedes_irreflexive(ord, rest@[0].spec_name());
        }
        while k < rest.len()
            invariant
                ord == ordmap@,
                0 <= best < k <= rest@.len(),
                forall|j: int|
                    0 <= j < k ==> !precedes(
                        ord,
                        #[trigger] rest@[j].spec_name(),
                        rest@[best as int].spec_name(),
                    ),
            decreases rest@.len() - k,
        {
            if comes_first(ordmap, rest[k].name(), rest[best].name()) {
                proof {
                    assert forall|j: int| 0 <= j < k + 1 implies !precedes(
                        ord,
                        #[trigger] rest@[j].spec_name(),
                        rest@[k as int].spec_name(),
                    ) by {
                        if precedes(ord, rest@[j].spec_name(), rest@[k as int].spec_name()) {
                            if j == k {
                                lemma_precedes_irreflexive(ord, rest@[k as int].spec_name());
                            } else {
                                lemma_precedes_transitive(
                                    ord,
                                    rest@[j].spec_name(),
                                    rest@[k as int].spec_name(),
                                    rest@[best as int].spec_name(),
                                );
                            }
                        }
                    }
                }
                best = k;
            }
            k = k + 1;
        }
        let ghost before_rest = rest@;
        let ghost before_out = out@;
        let first = rest.remove(best);
        out.push(first);
        proof {
            before_rest.to_multiset_ensures();
            before_out.to_multiset_ensures();
            assert(out@.to_multiset() =~= before_out.to_multiset().insert(first));
            assert(rest@.to_multiset() =~= before_rest.to_multiset().remove(first));
            assert(before_rest.contains(first));
            assert(out@.to_multiset().add(rest@.to_multiset()) =~= all);
            let rest_names = metric_names(before_rest);
            let out_names = metric_names(before_out);
            rest_names.to_multiset_ensures();
            out_names.to_multiset_ensures();
            assert(metric_names(out@) =~= out_names.push(first.spec_name()));
            assert(metric_names(rest@) =~= rest_names.remove(best as int));
            assert(rest_names[best as int] == first.spec_name());
            assert(rest_names.contains(first.spec_name()));
            assert(metric_names(out@).to_multiset().add(metric_names(rest@).to_multiset())
                =~= all_names);
            assert forall|j: int| 0 <= j < rest@.len() implies #[trigger] rest@[j]
                == before_rest[if j < best {
                j
            } else {
                j + 1
            }] by {}
            assert forall|i: int, j: int| 0 <= i < j < out@.len() implies !precedes(
                ord,
                metric_names(out@)[j],
                metric_names(out@)[i],
            ) by {
                if j < before_out.len() {
                    assert(metric_names(before_out)[j] == out@[j].spec_name());
                    assert(metric_names(before_out)[i] == out@[i].spec_name());
                }
            }
            assert forall|i: int, j: int| 0 <= i < out@.len() && 0 <= j < rest@.len() implies !precedes(
                ord,
                #[trigger] rest@[j].spec_name(),
                #[trigger] out@[i].spec_name(),
            ) by {
                let j2 = if j < best {
                    j
                } else {
                    j + 1
                };
                assert(rest@[j] == before_rest[j2]);
                if i == before_out.len() {
                    if precedes(ord, rest@[j].spec_name(), first.spec_name()) {
                    }
                }
            }
        }
    }
    proof {
        assert(rest@.to_multiset() =~= vstd::multiset::Multiset::<ActiveMetric>::empty()) by {
            rest@.to_multiset_ensures();
        }
        assert(out@.to_multiset() =~= all);
        assert(metric_names(rest@) =~= Seq::<Seq<char>>::empty());
        assert(metric_names(rest@).to_multiset() =~= vstd::multiset::Multiset::<
            Seq<char>,
        >::empty()) by {
            metric_names(rest@).to_multiset_ensures();
        }
        assert(metric_names(out@).to_multiset() =~= all_names);
    }
    out
}

/// The options that were given on the command line: each option that is
/// present, with its value where it has one.
pub type Matches = Table<Option<String>>;

/// The value of the option `name`; `None` where the option is absent or
/// has no value.
pub open spec fn option_text(matches: Map<Seq<char>, Option<String>>, name: Seq<char>) -> Option<
    Seq<char>,
> {
    if matches.contains_key(name) {
        match matches[name] {
            Some(s) => Some(s@),
            None => None,
        }
    } else {
        None
    }
}

/// The interval between two frames in milliseconds that `text` asks for:
/// 1000 where there is no text or it does not read as an `i32`.
pub open spec fn interval_of(text: Option<Seq<char>>) -> i32 {
    match text {
        Some(t) => match signed(t, i32::MIN as int, i32::MAX as int) {
            Some(v) => v as i32,
            None => 1000,
        },
        None => 1000,
    }
}

/// The name of the renderer that `text` asks for: `i3status` where there
/// is no text.
pub open spec fn renderer_of(text: Option<Seq<char>>) -> Seq<char> {
    match text {
        Some(t) => t,
        None => "i3status"@,
    }
}

/// The ordering list that `text` gives: the empty list where there is no
/// text.
pub open spec fn ordering_of(text: Option<Seq<char>>) -> Seq<char> {
    match text {
        Some(t) => t,
        None => ""@,
    }
}

/// The value of the option `name`.
pub fn opt_str(matches: &Matches, name: &str) -> (r: Option<String>)
    ensures
        r.deep_view() == option_text(matches@, name@),
{
    match matches.get(&String::from_str(name)) {
        Some(Some(s)) => Some(s.clone()),
        _ => None,
    }
}

/// The interval between two frames in milliseconds that `text` asks for.
pub fn parse_interval(text: Option<String>) -> (r: i32)
    ensures
        r == interval_of(text.deep_view()),
{
    match text {
        Some(t) => match parse_i32(t.as_str()) {
            Some(v) => v,
            None => 1000,
        },
        None => 1000,
    }
}

/// Why a choice cannot be made.
#[derive(Debug, PartialEq, Eq)]
pub enum ConfigError {
    /// The options ask for a renderer that is not registered.
    UnknownRenderer(String),
}

impl ConfigError {
    /// The error in words.
    pub open spec fn text(self) -> Seq<char> {
        match self {
            ConfigError::UnknownRenderer(name) => "Renderer '"@ + name@ + "' not registered!!"@,
        }
    }

    /// The error in words.
    pub fn message(&self) -> (r: String)
        ensures
            r@ == self.text(),
    {
        match self {
            ConfigError::UnknownRenderer(name) => {
                let mut r = String::from_str("Renderer '");
                r.append(name.as_str());
                r.append("' not registered!!");
                r
            },
        }
    }
}

/// A metric as it is registered: the metric, and what documents its
/// option.
pub struct Registered {
    pub desc: String,
    pub example: String,
    pub metric: Slot<Box<dyn Metric>>,
}

/// The counter files that the metrics of `entries` read, in the order of
/// the entries: one path for each metric that reads a file.
pub open spec fn files_registered(entries: Seq<Registered>) -> Seq<Seq<char>>
    decreases entries.len(),
{
    if entries.len() == 0 {
        Seq::empty()
    } else {
        match entries.last().metric.item.reads() {
            Some(path) => files_registered(entries.drop_last()).push(path),
            None => files_registered(entries.drop_last()),
        }
    }
}

/// Whether the slot holds the renderer of the streaming status protocol,
/// with no metrics yet.
pub open spec fn is_i3status(r: Slot<Box<dyn Renderer>>) -> bool {
    &&& r.item.metrics() == Seq::<ActiveMetric>::empty()
    &&& r.item.header() == i3_header()
    &&& forall|results: Seq<RenderResult>| #[trigger] r.item.frame(results) == i3_frame(results)
}

/// Whether the slot holds the renderer of the plain-text protocol, with
/// no metrics yet.
pub open spec fn is_plain(r: Slot<Box<dyn Renderer>>) -> bool {
    &&& r.item.metrics() == Seq::<ActiveMetric>::empty()
    &&& r.item.header() == Seq::<char>::empty()
    &&& forall|results: Seq<RenderResult>| #[trigger] r.item.frame(results) == plain_frame(results)
}

/// Whether the slot holds the clock.
pub open spec fn is_clock(m: Slot<Box<dyn Metric>>) -> bool {
    &&& m.item.reads() is None
    &&& forall|st: MetricState, counters: Counters, text: Seq<char>, color: Color| #[trigger]
        m.item.shows(st, counters, text, color) <==> exists|formatted: Option<Seq<char>>|
            (text, color) == shown(formatted)
}

/// Whether the slot holds the metric of network throughput, with no
/// interface selected.
pub open spec fn is_netif(m: Slot<Box<dyn Metric>>) -> bool {
    &&& m.item.reads() == Some("/net/dev"@)
    &&& forall|st: MetricState, counters: Counters, text: Seq<char>, color: Color| #[trigger]
        m.item.shows(st, counters, text, color) == crate::metrics::net::may_show(
            Map::<Seq<char>, (u64, u64)>::empty(),
            st,
            counters,
            text,
            color,
        )
}

/// Whether the slot holds the metric of load averages.
pub open spec fn is_load(m: Slot<Box<dyn Metric>>) -> bool {
    &&& m.item.reads() == Some("/loadavg"@)
    &&& forall|st: MetricState, counters: Counters, text: Seq<char>, color: Color| #[trigger]
        m.item.shows(st, counters, text, color) == ((text, color) == reading_of(
            compiled(LOAD_AVG@)->0,
            match counters.text("/loadavg"@) {
                Some(t) => t,
                None => NO_LOAD@,
            },
        ))
}

/// Whether the slot holds the metric of processor load for a host with
/// `user_hz` ticks in a second, in absolute mode with one processor and
/// no processor time spent.
pub open spec fn is_cpu_load(m: Slot<Box<dyn Metric>>, user_hz: u64) -> bool {
    &&& m.item.reads() == Some("/stat"@)
    &&& forall|st: MetricState, counters: Counters, text: Seq<char>, color: Color| #[trigger]
        m.item.shows(st, counters, text, color) == crate::metrics::cpu_load::may_show(
            DisplayMode::Absolute,
            1,
            user_hz,
            0,
            st,
            counters,
            text,
            color,
        )
}

/// Represents a/the set of metrics available for display.
pub struct Config {
    metrics: Table<Registered>,
    renderers: Table<Slot<Box<dyn Renderer>>>,
}

/// Set of all metrics. Used to register metrics and select the active ones
/// based on the user's selection.
impl Config {
    /// The names of the registered metrics, oldest first.
    pub closed spec fn metric_names(&self) -> Seq<Seq<char>> {
        self.metrics.keys()
    }

    /// The registered metrics, each at the index of its name.
    pub closed spec fn registered(&self) -> Seq<Registered> {
        self.metrics.values()
    }

    /// The names of the registered renderers, oldest first.
    pub closed spec fn renderer_names(&self) -> Seq<Seq<char>> {
        self.renderers.keys()
    }

    /// The slot of the metric that is registered under `name`; it means
    /// something only where `name` is the name of a registered metric.
    pub closed spec fn metric(&self, name: Seq<char>) -> Slot<Box<dyn Metric>> {
        self.metrics.at(name).metric
    }

    /// The slot of the renderer that is registered under `name`; it means
    /// something only where `name` is the name of a registered renderer.
    pub closed spec fn renderer(&self, name: Seq<char>) -> Slot<Box<dyn Renderer>> {
        self.renderers.at(name)
    }

    /// The names that the active metrics have where the options are
    /// `matches`: those of the registered metrics whose option is present.
    pub open spec fn selected(&self, matches: Map<Seq<char>, Option<String>>) -> Set<Seq<char>> {
        Set::new(|n: Seq<char>| self.metric_names().contains(n) && matches.contains_key(n))
    }

    /// Whether `m` is a registered metric made active for the options
    /// `matches`: it stands under a registered name, with the metric
    /// registered under that name, which `init` has prepared once, on a
    /// new state, with the value of its option and the counters
    /// `counters`; and it has not been rendered yet.
    pub open spec fn activated(
        &self,
        matches: Map<Seq<char>, Option<String>>,
        counters: Counters,
        m: ActiveMetric,
    ) -> bool {
        &&& self.metric_names().contains(m.spec_name())
        &&& m.reads() == self.metric(m.spec_name()).item.reads()
        &&& m.state().last_rendered() == 0
        &&& exists|fresh: MetricState|
            fresh.is_new() && #[trigger] self.metric(m.spec_name()).item.prepares(
                fresh,
                option_text(matches, m.spec_name()),
                counters,
                m.state(),
            )
        &&& forall|c: Counters, text: Seq<char>, color: Color| #[trigger]
            m.may_show(c, text, color) == self.metric(m.spec_name()).item.shows_prepared(
                option_text(matches, m.spec_name()),
                counters,
                m.state(),
                c,
                text,
                color,
            )
    }

    /// Nothing registered.
    pub fn new() -> (c: Config)
        ensures
            c.metric_names() == Seq::<Seq<char>>::empty(),
            c.renderer_names() == Seq::<Seq<char>>::empty(),
    {
        Config { metrics: Table::new(), renderers: Table::new() }
    }

    /// Returns a map of metric -> position in ordering list
    pub fn make_ordering_map(ord_list: String) -> (r: Table<i32>)
        ensures
            r@ == places(split(ord_list@, ',')),
    {
        let parts = commaseparated_to_vec(ord_list);
        let ghost names = views(parts@);
        let mut i: i32 = 1;
        let mut ordmap: Table<i32> = Table::new();
        let mut k: usize = 0;
        assert(names.take(0) =~= Seq::<Seq<char>>::empty());
        while k < parts.len()
            invariant
                k <= parts.len(),
                names == views(parts@),
                i == place((k + 1) as nat),
                ordmap@ == places(names.take(k as int)),
            decreases parts.len() - k,
        {
            proof {
                assert(names.take(k + 1).drop_last() =~= names.take(k as int));
                assert(names.take(k + 1).last() == parts@[k as int]@);
            }
            ordmap.insert(parts[k].clone(), i);
            if i < i32::MAX {
                i += 1;
            }
            k = k + 1;
        }
        assert(names.take(k as int) =~= names);
        ordmap
    }

    /// Register a metric under the given name, unless there is one under
    /// that name already.
    /// desc and example are for the purpose of documenting the command line
    /// option that belongs to the metric.
    pub fn register_metric(&mut self, name: &str, desc: &str, example: &str, metric: Box<dyn Metric>)
        ensures
            final(self).renderer_names() == old(self).renderer_names(),
            forall|n: Seq<char>| #[trigger] final(self).renderer(n) == old(self).renderer(n),
            old(self).metric_names().contains(name@) ==> final(self).metric_names() == old(
                self,
            ).metric_names() && final(self).registered() == old(self).registered(),
            !old(self).metric_names().contains(name@) ==> {
                &&& final(self).metric_names() == old(self).metric_names().push(name@)
                &&& final(self).registered().len() == old(self).registered().len() + 1
                &&& final(self).registered().drop_last() == old(self).registered()
                &&& final(self).registered().last().desc@ == desc@
                &&& final(self).registered().last().example@ == example@
                &&& final(self).registered().last().metric.item == metric
                &&& final(self).metric(name@).item == metric
            },
            forall|n: Seq<char>|
                old(self).metric_names().contains(n) ==> #[trigger] final(self).metric(n) == old(
                    self,
                ).metric(n),
    {
        let kept = Slot::new(metric);
        self.put_metric(name, desc, example, kept);
    }

    /// Register the metric in `metric` under the given name, unless there
    /// is one under that name already.
    pub fn put_metric(
        &mut self,
        name: &str,
        desc: &str,
        example: &str,
        metric: Slot<Box<dyn Metric>>,
    )
        ensures
            final(self).renderer_names() == old(self).renderer_names(),
            forall|n: Seq<char>| #[trigger] final(self).renderer(n) == old(self).renderer(n),
            old(self).metric_names().contains(name@) ==> final(self).metric_names() == old(
                self,
            ).metric_names() && final(self).registered() == old(self).registered(),
            !old(self).metric_names().contains(name@) ==> {
                &&& final(self).metric_names() == old(self).metric_names().push(name@)
                &&& final(self).registered().len() == old(self).registered().len() + 1
                &&& final(self).registered().drop_last() == old(self).registered()
                &&& final(self).registered().last().desc@ == desc@
                &&& final(self).registered().last().example@ == example@
                &&& final(self).registered().last().metric == metric
                &&& final(self).metric(name@) == metric
            },
            forall|n: Seq<char>|
                old(self).metric_names().contains(n) ==> #[trigger] final(self).metric(n) == old(
                    self,
                ).metric(n),
    {
        let key = String::from_str(name);
        if !self.metrics.contains_key(&key) {
            let ghost before = self.metrics.values();
            let entry = Registered {
                desc: String::from_str(desc),
                example: String::from_str(example),
                metric: metric,
            };
            let ghost added = entry;
            let ghost was = *self;
            self.metrics.insert(key, entry);
            proof {
                lemma_pushed(before, added);
                assert(self.metrics@ == was.metrics@.insert(name@, added));
                assert(self.metrics@[name@] == added);
                assert forall|n: Seq<char>| was.metric_names().contains(n) implies #[trigger]
                    self.metric(n) == was.metric(n) by {
                    assert(was.metrics@.contains_key(n));
                    assert(self.metrics@[n] == was.metrics@[n]);
                }
            }
        }
    }

    /// Register a renderer under the given name, unless there is one under
    /// that name already.
    pub fn register_renderer(&mut self, name: &str, r: Box<dyn Renderer>)
        ensures
            final(self).renderer_names() == if old(self).renderer_names().contains(name@) {
                old(self).renderer_names()
            } else {
                old(self).renderer_names().push(name@)
            },
            !old(self).renderer_names().contains(name@) ==> final(self).renderer(name@).item == r,
            forall|n: Seq<char>|
                old(self).renderer_names().contains(n) ==> #[trigger] final(self).renderer(n)
                    == old(self).renderer(n),
            final(self).metric_names() == old(self).metric_names(),
            final(self).registered() == old(self).registered(),
            forall|n: Seq<char>| #[trigger] final(self).metric(n) == old(self).metric(n),
    {
        let kept = Slot::new(r);
        self.put_renderer(name, kept);
    }

    /// Register the renderer in `r` under the given name, unless there is
    /// one under that name already.
    pub fn put_renderer(&mut self, name: &str, r: Slot<Box<dyn Renderer>>)
        ensures
            final(self).renderer_names() == if old(self).renderer_names().contains(name@) {
                old(self).renderer_names()
            } else {
                old(self).renderer_names().push(name@)
            },
            !old(self).renderer_names().contains(name@) ==> final(self).renderer(name@) == r,
            forall|n: Seq<char>|
                old(self).renderer_names().contains(n) ==> #[trigger] final(self).renderer(n)
                    == old(self).renderer(n),
            final(self).metric_names() == old(self).metric_names(),
            final(self).registered() == old(self).registered(),
            forall|n: Seq<char>| #[trigger] final(self).metric(n) == old(self).metric(n),
    {
        let key = String::from_str(name);
        if !self.renderers.contains_key(&key) {
            let ghost added = r;
            let ghost was = *self;
            self.renderers.insert(key, r);
            proof {
                assert(self.renderers@ == was.renderers@.insert(name@, added));
                assert(self.renderers@[name@] == added);
                assert forall|n: Seq<char>| was.renderer_names().contains(n) implies #[trigger]
                    self.renderer(n) == was.renderer(n) by {
                    assert(was.renderers@.contains_key(n));
                    assert(self.renderers@[n] == was.renderers@[n]);
                }
            }
        }
    }

    /// For each registered metric its name, the description of its option
    /// and an example of the option's value.
    pub fn options(&self) -> (r: Vec<(String, String, String)>)
        ensures
            r@.len() == self.metric_names().len(),
            r@.len() == self.registered().len(),
            forall|i: int|
                0 <= i < r@.len() ==> {
                    &&& (#[trigger] r@[i]).0@ == self.metric_names()[i]
                    &&& r@[i].1@ == self.registered()[i].desc@
                    &&& r@[i].2@ == self.registered()[i].example@
                },
    {
        let mut r: Vec<(String, String, String)> = Vec::new();
        let mut i: usize = 0;
        self.metrics.shape();
        while i < self.metrics.len()
            invariant
                i <= self.metrics.keys().len(),
                self.metrics.keys().len() == self.metrics.values().len(),
                r@.len() == i,
                forall|j: int|
                    0 <= j < i ==> {
                        &&& (#[trigger] r@[j]).0@ == self.metrics.keys()[j]
                        &&& r@[j].1@ == self.metrics.values()[j].desc@
                        &&& r@[j].2@ == self.metrics.values()[j].example@
                    },
            decreases self.metrics.keys().len() - i,
        {
            let entry = self.metrics.value_at(i);
            r.push((self.metrics.key_at(i).clone(), entry.desc.clone(), entry.example.clone()));
            i = i + 1;
        }
        r
    }

    /// The counter files that the registered metrics read.
    pub fn sources(&self) -> (r: Vec<String>)
        ensures
            views(r@) == files_registered(self.registered()),
    {
        let mut r: Vec<String> = Vec::new();
        let mut i: usize = 0;
        let ghost all = self.metrics.values();
        assert(all.take(0) =~= Seq::<Registered>::empty());
        assert(views(r@) =~= Seq::<Seq<char>>::empty());
        while i < self.metrics.len()
            invariant
                i <= self.metrics.values().len(),
                all == self.metrics.values(),
                views(r@) == files_registered(all.take(i as int)),
            decreases self.metrics.values().len() - i,
        {
            proof {
                assert(all.take(i + 1).drop_last() =~= all.take(i as int));
                assert(all.take(i + 1).last() == all[i as int]);
            }
            match self.metrics.value_at(i).metric.item.source() {
                Some(path) => {
                    let ghost seen = views(r@);
                    let ghost p = path@;
                    r.push(path);
                    assert(views(r@) =~= seen.push(p));
                },
                None => {},
            }
            i = i + 1;
        }
        assert(all.take(i as int) =~= all);
        r
    }

    /// Returns the selected renderer; the list of selected metrics; and the
    /// chosen interval in milliseconds.
    ///
    /// A metric is selected where its option is present; it is initialized
    /// with the option's value and `counters`. The metrics come in the
    /// order of the list that the option `ordering` gives. The option
    /// `interval` gives the interval, and the option `renderer` names the
    /// renderer, which must be registered.
    pub fn evaluate(self, matches: &Matches, counters: &Counters) -> (r: Result<
        (Box<dyn Renderer>, Vec<ActiveMetric>, i32),
        ConfigError,
    >)
        ensures
            match r {
                Ok((renderer, metrics, interval)) => {
                    &&& self.renderer_names().contains(
                        renderer_of(option_text(matches@, "renderer"@)),
                    )
                    &&& renderer == self.renderer(
                        renderer_of(option_text(matches@, "renderer"@)),
                    ).item
                    &&& interval == interval_of(option_text(matches@, "interval"@))
                    &&& metric_names(metrics@).to_set() == self.selected(matches@)
                    &&& metric_names(metrics@).no_duplicates()
                    &&& in_order(
                        places(split(ordering_of(option_text(matches@, "ordering"@)), ',')),
                        metric_names(metrics@),
                    )
                    &&& forall|i: int|
                        0 <= i < metrics@.len() ==> self.activated(
                            matches@,
                            *counters,
                            #[trigger] metrics@[i],
                        )
                },
                Err(e) => {
                    &&& !self.renderer_names().contains(
                        renderer_of(option_text(matches@, "renderer"@)),
                    )
                    &&& e matches ConfigError::UnknownRenderer(name) && name@ == renderer_of(
                        option_text(matches@, "renderer"@),
                    )
                },
            },
    {
        let mut registry = self;
        let ghost registered = registry.metrics.keys();
        let mut metrics: Vec<ActiveMetric> = Vec::new();
        registry.metrics.shape();

        // Look for every defined metric if the user wants to have it displayed.
        assert(metric_names(metrics@) =~= Seq::<Seq<char>>::empty());
        loop
            invariant
                registered == self.metrics.keys(),
                registered.no_duplicates(),
                registry.renderers == self.renderers,
                registry.metrics.keys().len() <= registered.len(),
                registry.metrics.keys() == registered.take(registry.metrics.keys().len() as int),
                registry.metrics.values() == self.metrics.values().take(
                    registry.metrics.keys().len() as int,
                ),
                self.metrics.keys().len() == self.metrics.values().len(),
                metric_names(metrics@).no_duplicates(),
                forall|i: int|
                    0 <= i < metrics@.len() ==> self.activated(
                        matches@,
                        *counters,
                        #[trigger] metrics@[i],
                    ),
                forall|n: Seq<char>| #[trigger]
                    metric_names(metrics@).contains(n) <==> (matches@.contains_key(n)
                        && registered.skip(registry.metrics.keys().len() as int).contains(n)),
            ensures
                registry.renderers == self.renderers,
                metric_names(metrics@).no_duplicates(),
                forall|i: int|
                    0 <= i < metrics@.len() ==> self.activated(
                        matches@,
                        *counters,
                        #[trigger] metrics@[i],
                    ),
                forall|n: Seq<char>| #[trigger]
                    metric_names(metrics@).contains(n) <==> (matches@.contains_key(n)
                        && registered.contains(n)),
            decreases registry.metrics.keys().len(),
        {
            let ghost left = registry.metrics.keys().len() as int;
            let ghost names = metric_names(metrics@);
            let ghost active = metrics@;
            match registry.metrics.pop() {
                None => {
                    assert(registered.skip(0) =~= registered);
                    break ;
                },
                Some((metric_name, entry)) => {
                    let ghost name = metric_name@;
                    proof {
                        assert(name == registered[left - 1]);
                        assert(registered.take(left).drop_last() =~= registered.take(left - 1));
                        assert(self.metrics.values().take(left).drop_last()
                            =~= self.metrics.values().take(left - 1));
                        assert(entry == self.metrics.values()[left - 1]);
                        assert(self.metrics.keys().index_of(name) == left - 1);
                        assert(self.metric(name) == entry.metric);
                        assert forall|n: Seq<char>|
                            registered.skip(left - 1).contains(n) <==> (n == name
                                || registered.skip(left).contains(n)) by {
                            if registered.skip(left - 1).contains(n) {
                                let j = registered.skip(left - 1).index_of(n);
                                if j > 0 {
                                    assert(registered.skip(left)[j - 1] == n);
                                }
                            }
                            if registered.skip(left).contains(n) {
                                let j = registered.skip(left).index_of(n);
                                assert(registered.skip(left - 1)[j + 1] == n);
                            }
                            if n == name {
                                assert(registered.skip(left - 1)[0] == n);
                            }
                        }
                        if registered.skip(left).contains(name) {
                            let j = registered.skip(left).index_of(name);
                            assert(registered[left + j] == name);
                        }
                    }
                    if matches.contains_key(&metric_name) {
                        let mut st = MetricState::new();
                        let ghost fresh = st;
                        let mut metric = entry.metric;
                        let ghost declared = metric.item.reads();
                        let ghost before = metric;
                        assert(before == self.metric(name));
                        let value = opt_str(matches, metric_name.as_str());
                        assert(value.deep_view() == option_text(matches@, name));
                        metric.item.init(&mut st, value, counters);
                        assert(metric.item.reads() == declared);
                        assert(st.last_rendered() == 0);
                        assert(before.item.prepares(
                            fresh,
                            option_text(matches@, name),
                            *counters,
                            st,
                        ));
                        let made = ActiveMetric::bind(metric_name, metric, st);
                        assert(made.spec_name() == name);
                        assert(self.metric_names().contains(name));
                        assert(made.reads() == declared);
                        assert(self.activated(matches@, *counters, made));
                        metrics.push(made);
                        proof {
                            assert forall|i: int| 0 <= i < metrics@.len() implies self.activated(
                                matches@,
                                *counters,
                                #[trigger] metrics@[i],
                            ) by {
                                if i < active.len() {
                                    assert(metrics@[i] == active[i]);
                                }
                            }
                            let more = metric_names(metrics@);
                            assert(more =~= names.push(name));
                            assert(!names.contains(name));
                            assert forall|i: int, j: int|
                                0 <= i < more.len() && 0 <= j < more.len() && i != j implies more[i]
                                != more[j] by {
                                if i < names.len() {
                                    assert(names.contains(more[i]));
                                }
                                if j < names.len() {
                                    assert(names.contains(more[j]));
                                }
                            }
                            assert forall|n: Seq<char>| #[trigger]
                                more.contains(n) <==> (matches@.contains_key(n)
                                    && registered.skip(left - 1).contains(n)) by {
                                if names.contains(n) {
                                    let j = names.index_of(n);
                                    assert(more[j] == n);
                                }
                                if n == name {
                                    assert(more[names.len() as int] == n);
                                }
                                if more.contains(n) {
                                    let j = more.index_of(n);
                                    if j < names.len() {
                                        assert(names[j] == n);
                                    }
                                }
                            }
                        }
                    } else {
                        proof {
                            assert forall|n: Seq<char>| #[trigger]
                                names.contains(n) <==> (matches@.contains_key(n)
                                    && registered.skip(left - 1).contains(n)) by {}
                        }
                    }
                },
            }
        }

        // Sort metrics by position in the supplied ordering list (or alternatively
        // alphabetically).
        let ordering = match opt_str(matches, "ordering") {
            Some(list) => list,
            None => String::from_str(""),
        };
        let ordmap = Config::make_ordering_map(ordering);
        let ghost chosen = metric_names(metrics@);
        let ghost unsorted = metrics@;
        let metrics = sort_metrics(metrics, &ordmap);
        proof {
            unsorted.to_multiset_ensures();
            metrics@.to_multiset_ensures();
            assert forall|i: int| 0 <= i < metrics@.len() implies self.activated(
                matches@,
                *counters,
                #[trigger] metrics@[i],
            ) by {
                assert(metrics@.contains(metrics@[i]));
                assert(metrics@.to_multiset().count(metrics@[i]) > 0);
                assert(unsorted.contains(metrics@[i]));
                let j = unsorted.index_of(metrics@[i]);
                assert(self.activated(matches@, *counters, unsorted[j]));
            }
            let sorted = metric_names(metrics@);
            chosen.to_multiset_ensures();
            sorted.to_multiset_ensures();
            chosen.lemma_multiset_has_no_duplicates();
            sorted.lemma_multiset_has_no_duplicates_conv();
            assert forall|n: Seq<char>| sorted.contains(n) <==> chosen.contains(n) by {
                assert(sorted.contains(n) <==> sorted.to_multiset().count(n) > 0);
                assert(chosen.contains(n) <==> chosen.to_multiset().count(n) > 0);
            }
            assert forall|n: Seq<char>| sorted.to_set().contains(n) <==> self.selected(
                matches@,
            ).contains(n) by {
                assert(sorted.contains(n) <==> chosen.contains(n));
            }
            assert(sorted.to_set() =~= self.selected(matches@));
        }

        // Select and set up renderer
        let interval = parse_interval(opt_str(matches, "interval"));
        let renderer_name = match opt_str(matches, "renderer") {
            Some(name) => name,
            None => String::from_str("i3status"),
        };
        match registry.renderers.remove(&renderer_name) {
            Some(kept) => {
                let renderer = kept.take();
                let choice = choice_of(renderer, metrics, interval);
                Ok(choice)
            },
            None => Err(ConfigError::UnknownRenderer(renderer_name)),
        }
    }
}

/// Registers the metrics that come with the library, each under its name
/// unless the name is taken: the clock, and those of network throughput,
/// load averages and processor load that can be built. `user_hz` is the
/// number of clock ticks in a second on this host.
pub fn register_metrics(registry: &mut Config, user_hz: u64)
    ensures
        final(registry).renderer_names() == old(registry).renderer_names(),
        forall|n: Seq<char>| #[trigger] final(registry).renderer(n) == old(registry).renderer(n),
        forall|n: Seq<char>| #[trigger]
            final(registry).metric_names().contains(n) <==> {
                ||| old(registry).metric_names().contains(n)
                ||| n == "clock"@
                ||| n == "netif"@ && compiled(WHOLE_LINE@) is Some && compiled(INTERFACE@) is Some
                ||| n == "load"@ && compiled(LOAD_AVG@) is Some
                ||| n == "cpu_load"@ && user_hz >= 1 && compiled(INDIVIDUAL_CPU@) is Some
                    && compiled(TOTAL_CPU@) is Some
            },
        forall|n: Seq<char>|
            old(registry).metric_names().contains(n) ==> #[trigger] final(registry).metric(n)
                == old(registry).metric(n),
        !old(registry).metric_names().contains("clock"@) ==> is_clock(
            final(registry).metric("clock"@),
        ),
        final(registry).metric_names().contains("netif"@) && !old(
            registry,
        ).metric_names().contains("netif"@) ==> is_netif(final(registry).metric("netif"@)),
        final(registry).metric_names().contains("load"@) && !old(registry).metric_names().contains(
            "load"@,
        ) ==> is_load(final(registry).metric("load"@)),
        final(registry).metric_names().contains("cpu_load"@) && !old(
            registry,
        ).metric_names().contains("cpu_load"@) ==> is_cpu_load(
            final(registry).metric("cpu_load"@),
            user_hz,
        ),
{
    proof {
        lemma_names_differ();
    }
    let ghost r0 = *registry;
    let ghost n0 = registry.metric_names();
    // List of codes: https://docs.rs/chrono/latest/chrono/format/strftime/index.html
    let clock = Slot::new(clock_metric());
    registry.put_metric(
        "clock",
        "A timestamp clock. Uses format codes like date(1)",
        "%H:%M",
        clock,
    );
    let ghost r1 = *registry;
    let ghost n1 = registry.metric_names();
    assert forall|n: Seq<char>| n1.contains(n) <==> (n0.contains(n) || n == "clock"@) by {
        lemma_push_contains(n0, "clock"@, n);
    }
    match make_net_metric() {
        Some(metric) => {
            let kept = Slot::new(metric);
            registry.put_metric(
                "netif",
                "Shows total received/transmitted bytes for network interfaces",
                "eth0,lo",
                kept,
            );
        },
        None => {},
    }
    let ghost r2 = *registry;
    let ghost n2 = registry.metric_names();
    assert forall|n: Seq<char>|
        n2.contains(n) <==> (n1.contains(n) || (n == "netif"@ && compiled(WHOLE_LINE@) is Some
            && compiled(INTERFACE@) is Some)) by {
        lemma_push_contains(n1, "netif"@, n);
    }
    match make_load_metric() {
        Some(metric) => {
            let kept = Slot::new(metric);
            registry.put_metric(
                "load",
                "Shows the last three load averages over the last (1, 5, 15) minutes.",
                "",
                kept,
            );
        },
        None => {},
    }
    let ghost r3 = *registry;
    let ghost n3 = registry.metric_names();
    assert forall|n: Seq<char>|
        n3.contains(n) <==> (n2.contains(n) || (n == "load"@ && compiled(LOAD_AVG@) is Some)) by {
        lemma_push_contains(n2, "load"@, n);
    }
    match make_cpu_load_metric(user_hz) {
        Some(metric) => {
            let kept = Slot::new(metric);
            registry.put_metric(
                "cpu_load",
                "Shows the cpu load in percent over the last measure interval. abs means: 4 core seconds = 400%; rel means (on a quadcore): 4 core seconds = 100%",
                "abs|rel",
                kept,
            );
        },
        None => {},
    }
    let ghost n4 = registry.metric_names();
    assert forall|n: Seq<char>|
        n4.contains(n) <==> (n3.contains(n) || (n == "cpu_load"@ && user_hz >= 1 && compiled(
            INDIVIDUAL_CPU@,
        ) is Some && compiled(TOTAL_CPU@) is Some)) by {
        lemma_push_contains(n3, "cpu_load"@, n);
    }
    proof {
        assert forall|n: Seq<char>| n0.contains(n) implies #[trigger] registry.metric(n)
            == r0.metric(n) by {
            assert(n1.contains(n) && n2.contains(n) && n3.contains(n));
            assert(r1.metric(n) == r0.metric(n));
            assert(r2.metric(n) == r1.metric(n));
            assert(r3.metric(n) == r2.metric(n));
        }
        if !n0.contains("clock"@) {
            assert(n1.contains("clock"@) && n2.contains("clock"@) && n3.contains("clock"@));
            assert(r2.metric("clock"@) == r1.metric("clock"@));
            assert(r3.metric("clock"@) == r2.metric("clock"@));
        }
        if n4.contains("netif"@) && !n0.contains("netif"@) {
            assert(!n1.contains("netif"@));
            assert(n2.contains("netif"@) && n3.contains("netif"@));
            assert(r3.metric("netif"@) == r2.metric("netif"@));
        }
        if n4.contains("load"@) && !n0.contains("load"@) {
            assert(!n1.contains("load"@) && !n2.contains("load"@));
            assert(n3.contains("load"@));
        }
        if n4.contains("cpu_load"@) && !n0.contains("cpu_load"@) {
            assert(!n1.contains("cpu_load"@) && !n2.contains("cpu_load"@) && !n3.contains(
                "cpu_load"@,
            ));
        }
    }
}

/// The names under which the metrics and renderers of the library are
/// registered differ from one another.
proof fn lemma_names_differ()
    ensures
        "clock"@ != "netif"@,
        "clock"@ != "load"@,
        "clock"@ != "cpu_load"@,
        "netif"@ != "load"@,
        "netif"@ != "cpu_load"@,
        "load"@ != "cpu_load"@,
        "i3status"@ != "plain"@,
{
    reveal_strlit("clock");
    reveal_strlit("netif");
    reveal_strlit("load");
    reveal_strlit("cpu_load");
    reveal_strlit("i3status");
    reveal_strlit("plain");
    assert("clock"@[0] != "netif"@[0]);
    assert("clock"@.len() != "load"@.len());
    assert("clock"@.len() != "cpu_load"@.len());
    assert("netif"@.len() != "load"@.len());
    assert("netif"@.len() != "cpu_load"@.len());
    assert("load"@.len() != "cpu_load"@.len());
    assert("i3status"@.len() != "plain"@.len());
}

/// What a sequence holds once `x` has been put at its end.
proof fn lemma_push_contains(s: Seq<Seq<char>>, x: Seq<char>, n: Seq<char>)
    ensures
        s.push(x).contains(n) <==> (s.contains(n) || n == x),
{
    if s.contains(n) {
        let j = s.index_of(n);
        assert(s.push(x)[j] == n);
    }
    if n == x {
        assert(s.push(x)[s.len() as int] == n);
    }
}

/// Registers the renderers that come with the library, each under its
/// name unless the name is taken: `i3status` for the streaming status
/// protocol and `plain` for the plain-text protocol.
pub fn register_renderers(registry: &mut Config)
    ensures
        final(registry).metric_names() == old(registry).metric_names(),
        final(registry).registered() == old(registry).registered(),
        forall|n: Seq<char>| #[trigger] final(registry).metric(n) == old(registry).metric(n),
        forall|n: Seq<char>| #[trigger]
            final(registry).renderer_names().contains(n) <==> (old(
                registry,
            ).renderer_names().contains(n) || n == "i3status"@ || n == "plain"@),
        forall|n: Seq<char>|
            old(registry).renderer_names().contains(n) ==> #[trigger] final(registry).renderer(n)
                == old(registry).renderer(n),
        !old(registry).renderer_names().contains("i3status"@) ==> is_i3status(
            final(registry).renderer("i3status"@),
        ),
        !old(registry).renderer_names().contains("plain"@) ==> is_plain(
            final(registry).renderer("plain"@),
        ),
{
    proof {
        lemma_names_differ();
    }
    let ghost r0 = *registry;
    let ghost n0 = registry.renderer_names();
    let i3status = Slot::new(make_i3status());
    registry.put_renderer("i3status", i3status);
    let ghost r1 = *registry;
    let ghost n1 = registry.renderer_names();
    assert forall|n: Seq<char>| n1.contains(n) <==> (n0.contains(n) || n == "i3status"@) by {
        lemma_push_contains(n0, "i3status"@, n);
    }
    let plain = Slot::new(make_plaintextrenderer());
    registry.put_renderer("plain", plain);
    let ghost n2 = registry.renderer_names();
    assert forall|n: Seq<char>| n2.contains(n) <==> (n1.contains(n) || n == "plain"@) by {
        lemma_push_contains(n1, "plain"@, n);
    }
    proof {
        assert forall|n: Seq<char>| n0.contains(n) implies #[trigger] registry.renderer(n)
            == r0.renderer(n) by {
            assert(n1.contains(n));
            assert(r1.renderer(n) == r0.renderer(n));
        }
        if !n0.contains("i3status"@) {
            assert(n1.contains("i3status"@));
        }
        if !n0.contains("plain"@) {
            assert(!n1.contains("plain"@));
        }
    }
}

/// The three things that a choice is made of, as one value.
fn choice_of<R, M>(renderer: R, metrics: M, interval: i32) -> (r: (R, M, i32))
    ensures
        r == (renderer, metrics, interval),
{
    (renderer, metrics, interval)
}

/// What a sequence is once `x` has been put at its end.
proof fn lemma_pushed<T>(s: Seq<T>, x: T)
    ensures
        s.push(x).len() == s.len() + 1,
        s.push(x).drop_last() == s,
        s.push(x).last() == x,
{
    assert(s.push(x).drop_last() =~= s);
}

} // verus!
