//! Throughput of network interfaces, from the byte counters of `/net/dev`.

use crate::framework::Color;
use crate::framework::Metric;
use crate::framework::MetricState;
use crate::framework::RenderResult;
use crate::helper::commaseparated_to_vec;
use crate::helper::extract_from_str;
use crate::helper::extracted;
use crate::helper::get_procfs_file_lines;
use crate::helper::lines_or_none;
use crate::helper::Counters;
use crate::matching::captures;
use crate::matching::compile;
use crate::matching::compiled;
use crate::table::Table;
use crate::text::decimal;
use crate::text::digit;
use crate::text::digit_str;
use crate::text::nearest;
use crate::text::push_decimal;
use crate::text::split;
use crate::text::views;
use regex::Regex;
use vstd::prelude::*;

verus! {

/// Interface name, received bytes, transmitted bytes. Used for both rates
/// and counters!
pub type IFStat = (String, u64, u64);

/// The greatest rate that `make_nice_rate` writes: 1024 to the fourth.
pub const MAX_NICE_RATE: u64 = 1099511627776;

/// How often `i` is divided by 1024 until the quotient no longer exceeds
/// 1, where `d` is the power of 1024 that it has been divided by so far.
pub open spec fn scale_from(i: nat, d: nat) -> nat
    decreases i - d,
{
    if d >= 1 && i > d * 1024 {
        1 + scale_from(i, d * 1024)
    } else {
        0
    }
}

/// The index of the unit in which `i` is written.
pub open spec fn scale(i: nat) -> nat {
    scale_from(i, 1)
}

/// 1024 to the power `u`.
pub open spec fn kilo(u: nat) -> nat
    decreases u,
{
    if u == 0 {
        1
    } else {
        1024 * kilo((u - 1) as nat)
    }
}

/// The suffix of the unit with index `u`.
pub open spec fn unit(u: nat) -> Seq<char> {
    if u == 0 {
        ""@
    } else if u == 1 {
        "K"@
    } else if u == 2 {
        "M"@
    } else {
        "G"@
    }
}

/// `i` in its unit, to the nearest tenth: the whole part, a point, one
/// decimal, and the unit's suffix.
pub open spec fn nice_rate(i: nat) -> Seq<char> {
    let u = scale(i);
    let tenths = nearest((10 * i) as int, kilo(u) as int);
    decimal((tenths / 10) as nat) + seq!['.', digit(tenths % 10)] + unit(u)
}

/// The scale index never exceeds 3 for a rate that is no more than 1024
/// to the fourth, and always exceeds it for a greater one.
pub proof fn lemma_scale_bounded(i: nat)
    ensures
        i <= MAX_NICE_RATE ==> scale(i) <= 3,
        i > MAX_NICE_RATE ==> scale(i) > 3,
{
    reveal_with_fuel(scale_from, 5);
}

/// A line of `/net/dev` as a whole: the groups are the received bytes and
/// packets and the transmitted bytes and packets.
pub const WHOLE_LINE: &'static str =
    r"^\s*[a-z0-9]+:\s+(\d+)\s+(\d+)\s+\d+\s+\d+\s+\d+\s+\d+\s+\d+\s+\d+\s+(\d+)\s+(\d+)\s+\d+\s+\d+\s+\d+\s+\d+\s+\d+\s+\d+$";

/// The interface name at the beginning of a line of `/net/dev`.
pub const INTERFACE: &'static str = r"^\s*([a-z0-9]+):.+";

/// The counters of one line of `/net/dev`, where the line names an
/// interface in `wanted` and holds its counters: the name, the received
/// bytes and the transmitted bytes.
pub open spec fn line_stat(
    interface_re: Regex,
    whole_line_re: Regex,
    wanted: Set<Seq<char>>,
    line: Seq<char>,
) -> Option<(Seq<char>, u64, u64)> {
    let names = extracted::<String>(captures(interface_re, line), ""@);
    let stats = extracted::<u64>(captures(whole_line_re, line), 0);
    if names.len() >= 1 && wanted.contains(names[0]) && stats.len() > 3 {
        Some((names[0], stats[0], stats[2]))
    } else {
        None
    }
}

/// The counters of the lines of `/net/dev` that `line_stat` reads, in the
/// order of the lines.
pub open spec fn stats_of(
    interface_re: Regex,
    whole_line_re: Regex,
    wanted: Set<Seq<char>>,
    lines: Seq<Seq<char>>,
) -> Seq<(Seq<char>, u64, u64)>
    decreases lines.len(),
{
    if lines.len() == 0 {
        Seq::empty()
    } else {
        let before = stats_of(interface_re, whole_line_re, wanted, lines.drop_last());
        match line_stat(interface_re, whole_line_re, wanted, lines.last()) {
            Some(stat) => before.push(stat),
            None => before,
        }
    }
}

/// What is displayed for one interface: its name and its two rates.
pub open spec fn stat_text(stat: (Seq<char>, u64, u64)) -> Seq<char> {
    stat.0 + ": rx:"@ + nice_rate(stat.1 as nat) + " tx:"@ + nice_rate(stat.2 as nat) + " "@
}

/// What is displayed for a series of interfaces.
pub open spec fn stats_text(stats: Seq<(Seq<char>, u64, u64)>) -> Seq<char>
    decreases stats.len(),
{
    if stats.len() == 0 {
        Seq::empty()
    } else {
        stats_text(stats.drop_last()) + stat_text(stats.last())
    }
}

/// Whether `make_nice_rate` can write every rate of `stats`.
pub open spec fn displayable(stats: Seq<(Seq<char>, u64, u64)>) -> bool {
    forall|i: int|
        0 <= i < stats.len() ==> (#[trigger] stats[i]).1 <= MAX_NICE_RATE && stats[i].2
            <= MAX_NICE_RATE
}

/// The rate in bytes per second of a counter that went from `prev` to
/// `cur` in `interval` milliseconds. A counter that went back counts as
/// one that stood still, and a rate that a `u64` cannot hold as the
/// greatest that it can.
pub open spec fn rate(prev: u64, cur: u64, interval: u64) -> u64 {
    let delta = if cur >= prev {
        cur - prev
    } else {
        0
    };
    let r = 1000 * delta / (interval as int);
    if r > u64::MAX {
        u64::MAX
    } else {
        r as u64
    }
}

/// The counters that are kept once `stats` have been seen, one after the
/// other: each takes the place of what was kept for its interface.
pub open spec fn baseline_after(
    baseline: Map<Seq<char>, (u64, u64)>,
    stats: Seq<(Seq<char>, u64, u64)>,
) -> Map<Seq<char>, (u64, u64)>
    decreases stats.len(),
{
    if stats.len() == 0 {
        baseline
    } else {
        baseline_after(baseline, stats.drop_last()).insert(
            stats.last().0,
            (stats.last().1, stats.last().2),
        )
    }
}

/// The rates of `stats` over `interval` milliseconds, each against the
/// counters kept for its interface when its turn comes. An interface for
/// which nothing is kept has the rate 0.
pub open spec fn rates_of(
    baseline: Map<Seq<char>, (u64, u64)>,
    stats: Seq<(Seq<char>, u64, u64)>,
    interval: u64,
) -> Seq<(Seq<char>, u64, u64)>
    decreases stats.len(),
{
    if stats.len() == 0 {
        Seq::empty()
    } else {
        let kept = baseline_after(baseline, stats.drop_last());
        let stat = stats.last();
        let old = if kept.contains_key(stat.0) {
            kept[stat.0]
        } else {
            (stat.1, stat.2)
        };
        rates_of(baseline, stats.drop_last(), interval).push(
            (stat.0, rate(old.0, stat.1, interval), rate(old.1, stat.2, interval)),
        )
    }
}

/// As many rates come out as counters went in.
pub proof fn lemma_rates_len(
    baseline: Map<Seq<char>, (u64, u64)>,
    stats: Seq<(Seq<char>, u64, u64)>,
    interval: u64,
)
    ensures
        rates_of(baseline, stats, interval).len() == stats.len(),
    decreases stats.len(),
{
    if stats.len() > 0 {
        lemma_rates_len(baseline, stats.drop_last(), interval);
    }
}

/// What is kept for an interface that `stats` do not report stays as it
/// is.
pub proof fn lemma_unreported_kept(
    baseline: Map<Seq<char>, (u64, u64)>,
    stats: Seq<(Seq<char>, u64, u64)>,
    name: Seq<char>,
)
    requires
        forall|j: int| 0 <= j < stats.len() ==> (#[trigger] stats[j]).0 != name,
    ensures
        baseline_after(baseline, stats).contains_key(name) == baseline.contains_key(name),
        baseline.contains_key(name) ==> baseline_after(baseline, stats)[name] == baseline[name],
    decreases stats.len(),
{
    if stats.len() > 0 {
        assert(stats.last() == stats[stats.len() - 1]);
        assert forall|j: int| 0 <= j < stats.drop_last().len() implies (
        #[trigger] stats.drop_last()[j]).0 != name by {
            assert(stats.drop_last()[j] == stats[j]);
        }
        lemma_unreported_kept(baseline, stats.drop_last(), name);
    }
}

/// Where `stats` report an interface once, at index `k`, and counters
/// `(rx0, tx0)` are kept for it, its rates are those of `rate` from `rx0`
/// and `tx0` to the counters reported, which are kept in their place. A
/// counter that has not gone back has the rate of 1000 times its growth
/// over the interval, where a `u64` holds that.
pub proof fn lemma_reported_once(
    baseline: Map<Seq<char>, (u64, u64)>,
    stats: Seq<(Seq<char>, u64, u64)>,
    interval: u64,
    k: int,
)
    requires
        interval > 0,
        0 <= k < stats.len(),
        baseline.contains_key(stats[k].0),
        forall|j: int| 0 <= j < stats.len() && j != k ==> (#[trigger] stats[j]).0 != stats[k].0,
    ensures
        rates_of(baseline, stats, interval).len() == stats.len(),
        rates_of(baseline, stats, interval)[k] == (
            stats[k].0,
            rate(baseline[stats[k].0].0, stats[k].1, interval),
            rate(baseline[stats[k].0].1, stats[k].2, interval),
        ),
        baseline_after(baseline, stats)[stats[k].0] == (stats[k].1, stats[k].2),
        baseline[stats[k].0].0 <= stats[k].1 && 1000 * (stats[k].1 - baseline[stats[k].0].0)
            / (interval as int) <= u64::MAX ==> rate(baseline[stats[k].0].0, stats[k].1, interval)
            == 1000 * (stats[k].1 - baseline[stats[k].0].0) / (interval as int),
    decreases stats.len(),
{
    let name = stats[k].0;
    let before = stats.drop_last();
    lemma_rates_len(baseline, stats, interval);
    lemma_rates_len(baseline, before, interval);
    if k == stats.len() - 1 {
        assert forall|j: int| 0 <= j < before.len() implies (#[trigger] before[j]).0 != name by {
            assert(before[j] == stats[j]);
        }
        lemma_unreported_kept(baseline, before, name);
    } else {
        assert(before[k] == stats[k]);
        assert forall|j: int| 0 <= j < before.len() && j != k implies (#[trigger] before[j]).0
            != before[k].0 by {
            assert(before[j] == stats[j]);
        }
        lemma_reported_once(baseline, before, interval, k);
        assert(stats.last() == stats[stats.len() - 1]);
        assert(stats.last().0 != name);
    }
}

/// The baseline with which the interfaces `names` start: nothing received
/// and nothing transmitted.
pub open spec fn zeroed(names: Seq<Seq<char>>) -> Map<Seq<char>, (u64, u64)> {
    Map::new(|k: Seq<char>| names.contains(k), |k: Seq<char>| (0u64, 0u64))
}

/// What the metric displays for `rates`: text and color.
pub open spec fn shown(rates: Seq<(Seq<char>, u64, u64)>) -> (Seq<char>, Color) {
    if displayable(rates) {
        (stats_text(rates), Color::Green)
    } else {
        ("n/a"@, Color::Red)
    }
}

/// What a render does where `text` was read from `/net/dev` and
/// `interval` milliseconds have passed: the text and the color that are
/// displayed, and the counters that are kept. With no interface selected
/// it displays `n/a` in red and keeps what it has.
pub open spec fn outcome(
    baseline: Map<Seq<char>, (u64, u64)>,
    text: Option<Seq<char>>,
    interval: u64,
) -> (Seq<char>, Color, Map<Seq<char>, (u64, u64)>) {
    if baseline == Map::<Seq<char>, (u64, u64)>::empty() {
        ("n/a"@, Color::Red, baseline)
    } else {
        let stats = stats_of(
            compiled(INTERFACE@)->0,
            compiled(WHOLE_LINE@)->0,
            baseline.dom(),
            lines_or_none(text),
        );
        let rates = rates_of(baseline, stats, interval);
        (shown(rates).0, shown(rates).1, baseline_after(baseline, stats))
    }
}

/// The counters that are kept once a render has read `text` from
/// `/net/dev`: with no interface selected what was kept, else the counters
/// that the file reports in place of what was kept for their interfaces.
pub open spec fn kept_after(
    baseline: Map<Seq<char>, (u64, u64)>,
    text: Option<Seq<char>>,
) -> Map<Seq<char>, (u64, u64)> {
    if baseline == Map::<Seq<char>, (u64, u64)>::empty() {
        baseline
    } else {
        baseline_after(
            baseline,
            stats_of(
                compiled(INTERFACE@)->0,
                compiled(WHOLE_LINE@)->0,
                baseline.dom(),
                lines_or_none(text),
            ),
        )
    }
}

/// Whether a render may display `text` in `color` where the counters kept
/// are `baseline`, the state is `st` and the counters of the cycle are
/// `counters`: whether that is the `outcome` for the interval up to some
/// reading of the clock.
pub open spec fn may_show(
    baseline: Map<Seq<char>, (u64, u64)>,
    st: MetricState,
    counters: Counters,
    text: Seq<char>,
    color: Color,
) -> bool {
    exists|now: i64|
        text == outcome(baseline, counters.text("/net/dev"@), st.interval(now) as u64).0 && color
            == outcome(baseline, counters.text("/net/dev"@), st.interval(now) as u64).1
}

/// The rate in bytes per second of a counter that went from `prev` to
/// `cur` in `interval` milliseconds.
pub fn rate_per_second(prev: u64, cur: u64, interval: u64) -> (r: u64)
    requires
        interval >= 1,
    ensures
        r == rate(prev, cur, interval),
{
    let delta: u128 = if cur >= prev {
        (cur - prev) as u128
    } else {
        0
    };
    let r: u128 = 1000 * delta / (interval as u128);
    if r > u64::MAX as u128 {
        u64::MAX
    } else {
        r as u64
    }
}

/// Whether `make_nice_rate` can write every rate of `stats`.
pub fn can_display(stats: &Vec<IFStat>) -> (b: bool)
    ensures
        b == displayable(stats.deep_view()),
{
    let mut k: usize = 0;
    while k < stats.len()
        invariant
            k <= stats.len(),
            forall|i: int|
                0 <= i < k ==> (#[trigger] stats.deep_view()[i]).1 <= MAX_NICE_RATE
                    && stats.deep_view()[i].2 <= MAX_NICE_RATE,
        decreases stats.len() - k,
    {
        assert(stats.deep_view()[k as int] == stats[k as int].deep_view());
        if stats[k].1 > MAX_NICE_RATE || stats[k].2 > MAX_NICE_RATE {
            return false;
        }
        k = k + 1;
    }
    true
}

/// The throughput of the interfaces that the user selected.
pub struct NetInterfaceMetric {
    oldstat: Table<(u64, u64)>,
    whole_line_re: Regex,
    interface_re: Regex,
}

impl NetInterfaceMetric {
    #[verifier::type_invariant]
    spec fn inv(self) -> bool {
        &&& compiled(WHOLE_LINE@) == Some(self.whole_line_re)
        &&& compiled(INTERFACE@) == Some(self.interface_re)
    }

    /// The counters last seen of each selected interface: received and
    /// transmitted bytes.
    pub closed spec fn baseline(&self) -> Map<Seq<char>, (u64, u64)> {
        self.oldstat@
    }

    /// A metric with no interface selected; `None` where the `regex` crate
    /// rejects one of the two patterns.
    pub fn new() -> (r: Option<NetInterfaceMetric>)
        ensures
            r is Some <==> compiled(WHOLE_LINE@) is Some && compiled(INTERFACE@) is Some,
            r matches Some(m) ==> m.baseline() == Map::<Seq<char>, (u64, u64)>::empty(),
    {
        match compile(WHOLE_LINE) {
            None => None,
            Some(whole_line_re) => match compile(INTERFACE) {
                None => None,
                Some(interface_re) => Some(
                    NetInterfaceMetric { oldstat: Table::new(), whole_line_re, interface_re },
                ),
            },
        }
    }

    /// Obtain current counters from /net/dev: those of the interfaces that
    /// `ifs` holds, in the order of the file.
    pub fn get_stats(&self, ifs: &Table<(u64, u64)>, counters: &Counters) -> (r: Vec<IFStat>)
        ensures
            r.deep_view() == stats_of(
                compiled(INTERFACE@)->0,
                compiled(WHOLE_LINE@)->0,
                ifs@.dom(),
                lines_or_none(counters.text("/net/dev"@)),
            ),
    {
        proof {
            use_type_invariant(self);
        }
        let mut processed_stats: Vec<IFStat> = Vec::new();
        let ifstats = match get_procfs_file_lines(counters, String::from_str("/net/dev")) {
            None => Vec::new(),
            Some(st) => st,
        };
        let ghost all = lines_or_none(counters.text("/net/dev"@));
        assert(views(ifstats@) =~= all);

        //               RX                                                             TX
        //           *           *                                                    *         *
        //  iface |bytes       packets  errs drop fifo frame   compressed multicast|bytes     packets errs drop fifo colls   carrier compressed
        //  eth0:  1037503524  872642    0    0    0     0          0     10482     40971427  300143    0    1    0     0       0          0
        let mut k: usize = 0;
        assert(all.take(0) =~= Seq::<Seq<char>>::empty());
        while k < ifstats.len()
            invariant
                k <= ifstats.len(),
                views(ifstats@) == all,
                compiled(WHOLE_LINE@) == Some(self.whole_line_re),
                compiled(INTERFACE@) == Some(self.interface_re),
                processed_stats.deep_view() == stats_of(
                    self.interface_re,
                    self.whole_line_re,
                    ifs@.dom(),
                    all.take(k as int),
                ),
            decreases ifstats.len() - k,
        {
            let line = &ifstats[k];
            proof {
                assert(all.take(k + 1).drop_last() =~= all.take(k as int));
                assert(all.take(k + 1).last() == line@);
            }
            let mut results: Vec<String> = extract_from_str(
                line,
                &self.interface_re,
                String::from_str(""),
            );
            if results.len() >= 1 {
                let interface = results.swap_remove(0);
                if ifs.contains_key(&interface) {
                    let stats: Vec<u64> = extract_from_str(line, &self.whole_line_re, 0);
                    if stats.len() > 3 {
                        let ghost seen = processed_stats.deep_view();
                        let ghost stat = (interface@, stats[0], stats[2]);
                        processed_stats.push((interface, stats[0], stats[2]));
                        assert(processed_stats.deep_view() =~= seen.push(stat));
                    }
                }
            }
            k = k + 1;
        }
        assert(all.take(k as int) =~= all);
        processed_stats
    }
    /// Convert a number into a string with nice unit
    pub fn make_nice_rate(i: u64) -> (r: String)
        requires
            i <= MAX_NICE_RATE,
        ensures
            r@ == nice_rate(i as nat),
    {
        let mut u: u64 = 0;
        let mut d: u64 = 1;
        while u < 3 && i > d * 1024
            invariant
                u <= 3,
                d == kilo(u as nat),
                d <= 1073741824,
                i <= MAX_NICE_RATE,
                scale(i as nat) == u + scale_from(i as nat, d as nat),
            decreases 3 - u,
        {
            proof {
                reveal_with_fuel(kilo, 5);
            }
            d = d * 1024;
            u = u + 1;
        }
        proof {
            reveal_with_fuel(kilo, 5);
            assert(scale_from(i as nat, d as nat) == 0) by {
                if u == 3 {
                    assert(d == 1073741824);
                }
            }
        }
        let q = (10 * i) / d;
        let rem = (10 * i) % d;
        let tenths = if 2 * rem > d || (2 * rem == d && q % 2 == 1) {
            q + 1
        } else {
            q
        };
        let mut r = String::new();
        push_decimal(&mut r, tenths / 10);
        r.append(".");
        r.append(digit_str(tenths % 10));
        let suffix = if u == 0 {
            ""
        } else if u == 1 {
            "K"
        } else if u == 2 {
            "M"
        } else {
            "G"
        };
        r.append(suffix);
        proof {
            reveal_strlit(".");
            assert(r@ =~= nice_rate(i as nat));
        }
        r
    }

    /// Format a series of IFStat tuples
    pub fn format_stats(stats: Vec<IFStat>) -> (r: String)
        requires
            displayable(stats.deep_view()),
        ensures
            r@ == stats_text(stats.deep_view()),
    {
        let mut acc = String::new();
        let ghost all = stats.deep_view();
        let mut k: usize = 0;
        assert(all.take(0) =~= Seq::<(Seq<char>, u64, u64)>::empty());
        while k < stats.len()
            invariant
                k <= stats.len(),
                all == stats.deep_view(),
                displayable(all),
                acc@ == stats_text(all.take(k as int)),
            decreases stats.len() - k,
        {
            proof {
                assert(all.take(k + 1).drop_last() =~= all.take(k as int));
                assert(all.take(k + 1).last() == all[k as int]);
                assert(all[k as int] == stats[k as int].deep_view());
            }
            let rx = NetInterfaceMetric::make_nice_rate(stats[k].1);
            let tx = NetInterfaceMetric::make_nice_rate(stats[k].2);
            acc.append(stats[k].0.as_str());
            acc.append(": rx:");
            acc.append(rx.as_str());
            acc.append(" tx:");
            acc.append(tx.as_str());
            acc.append(" ");
            assert(acc@ =~= stats_text(all.take(k as int)) + stat_text(all[k as int]));
            k = k + 1;
        }
        assert(all.take(k as int) =~= all);
        acc
    }

    /// Selects the interfaces `names`, each with a baseline of zero, in
    /// place of those selected before.
    pub fn select(&mut self, names: Vec<String>)
        ensures
            final(self).baseline() == zeroed(views(names@)),
    {
        proof {
            use_type_invariant(&*self);
        }
        let mut wanted_ifs: Table<(u64, u64)> = Table::new();
        let mut k: usize = 0;
        assert(wanted_ifs@ =~= zeroed(views(names@).take(0)));
        while k < names.len()
            invariant
                k <= names.len(),
                wanted_ifs@ == zeroed(views(names@).take(k as int)),
            decreases names.len() - k,
        {
            let ghost before = wanted_ifs@;
            wanted_ifs.insert(names[k].clone(), (0, 0));
            proof {
                let seen = views(names@).take(k as int);
                let more = views(names@).take(k + 1);
                assert(more =~= seen.push(names@[k as int]@));
                assert forall|key: Seq<char>| more.contains(key) <==> (seen.contains(key) || key
                    == names@[k as int]@) by {
                    if seen.contains(key) {
                        let j = seen.index_of(key);
                        assert(more[j] == key);
                    }
                    if key == names@[k as int]@ {
                        assert(more[k as int] == key);
                    }
                }
                assert(wanted_ifs@ =~= zeroed(more));
            }
            k = k + 1;
        }
        assert(views(names@).take(k as int) =~= views(names@));
        self.oldstat = wanted_ifs;
    }

    /// The rates of `newstats` over `interval` milliseconds, each against
    /// the counters kept for its interface; the counters of `newstats` are
    /// kept in their place.
    pub fn measure(&mut self, newstats: Vec<IFStat>, interval: u64) -> (r: Vec<IFStat>)
        requires
            interval >= 1,
        ensures
            r.deep_view() == rates_of(old(self).baseline(), newstats.deep_view(), interval),
            final(self).baseline() == baseline_after(old(self).baseline(), newstats.deep_view()),
    {
        proof {
            use_type_invariant(&*self);
        }
        let ghost start = self.baseline();
        let ghost all = newstats.deep_view();
        let mut kept: Table<(u64, u64)> = Table::new();
        core::mem::swap(&mut self.oldstat, &mut kept);
        let mut rates: Vec<IFStat> = Vec::new();  // this is the final output
        let mut k: usize = 0;
        assert(all.take(0) =~= Seq::<(Seq<char>, u64, u64)>::empty());
        while k < newstats.len()
            invariant
                k <= newstats.len(),
                interval >= 1,
                all == newstats.deep_view(),
                kept@ == baseline_after(start, all.take(k as int)),
                rates.deep_view() == rates_of(start, all.take(k as int), interval),
            decreases newstats.len() - k,
        {
            proof {
                assert(all.take(k + 1).drop_last() =~= all.take(k as int));
                assert(all.take(k + 1).last() == all[k as int]);
                assert(all[k as int] == newstats[k as int].deep_view());
            }
            let rx = newstats[k].1;
            let tx = newstats[k].2;
            // Obtain previous rx/tx counts from state
            let (oldrx, oldtx) = match kept.get(&newstats[k].0) {
                Some(o) => (o.0, o.1),
                None => (rx, tx),
            };
            // calculate rate over last interval
            let ghost seen = rates.deep_view();
            let ghost name = newstats[k as int].0@;
            let rx_rate = rate_per_second(oldrx, rx, interval);
            let tx_rate = rate_per_second(oldtx, tx, interval);
            rates.push((newstats[k].0.clone(), rx_rate, tx_rate));
            assert(rates.deep_view() =~= seen.push((name, rx_rate, tx_rate)));
            // Store current counters in state
            kept.insert(newstats[k].0.clone(), (rx, tx));
            k = k + 1;
        }
        assert(all.take(k as int) =~= all);
        self.oldstat = kept;
        rates
    }

    /// What the metric displays when `interval` milliseconds have passed
    /// since it was last rendered: the rates of the selected interfaces
    /// that `/net/dev` lists, or `n/a` in red where no interface is
    /// selected or a rate is beyond what can be written.
    pub fn render_over(&mut self, counters: &Counters, interval: u64) -> (r: RenderResult)
        requires
            interval >= 1,
        ensures
            r.spec_name() == Seq::<char>::empty(),
            (r.spec_text(), r.spec_color(), final(self).baseline()) == outcome(
                old(self).baseline(),
                counters.text("/net/dev"@),
                interval,
            ),
    {
        if self.oldstat.is_empty() {
            return RenderResult::new(String::from_str("n/a"), Color::Red);
        }
        // Get current counters
        let newstats = self.get_stats(&self.oldstat, counters);
        let rates = self.measure(newstats, interval);
        if can_display(&rates) {
            RenderResult::new(NetInterfaceMetric::format_stats(rates), Color::Green)
        } else {
            RenderResult::new(String::from_str("n/a"), Color::Red)
        }
    }
}

impl Metric for NetInterfaceMetric {
    open spec fn reads(&self) -> Option<Seq<char>> {
        Some("/net/dev"@)
    }

    fn source(&self) -> (r: Option<String>) {
        Some(String::from_str("/net/dev"))
    }

    open spec fn shows(
        &self,
        st: MetricState,
        counters: Counters,
        text: Seq<char>,
        color: Color,
    ) -> bool {
        may_show(self.baseline(), st, counters, text, color)
    }

    open spec fn prepares(
        &self,
        before: MetricState,
        arg: Option<Seq<char>>,
        counters: Counters,
        after: MetricState,
    ) -> bool {
        &&& after.last_rendered() == before.last_rendered()
        &&& after.value("since"@) is Int
        &&& forall|k: Seq<char>| k != "since"@ ==> after.value(k) == before.value(k)
    }

    open spec fn shows_prepared(
        &self,
        arg: Option<Seq<char>>,
        first: Counters,
        st: MetricState,
        counters: Counters,
        text: Seq<char>,
        color: Color,
    ) -> bool {
        may_show(
            match arg {
                None => self.baseline(),
                Some(s) => zeroed(split(s, ',')),
            },
            st,
            counters,
            text,
            color,
        )
    }

    /// Selects the interfaces that `initarg` names, separated by commas,
    /// and keeps the present as the instant from which the first interval
    /// is measured.
    fn init(&mut self, st: &mut MetricState, initarg: Option<String>, counters: &Counters)
        ensures
            match initarg {
                None => final(self).baseline() == old(self).baseline(),
                Some(s) => final(self).baseline() == zeroed(split(s@, ',')),
            },
            final(st).value("since"@) is Int,
            forall|k: Seq<char>| k != "since"@ ==> final(st).value(k) == old(st).value(k),
    {
        match initarg {
            None => (),
            Some(s) => {
                self.select(commaseparated_to_vec(s));
            },
        }
        st.begin(MetricState::now());
    }

    open spec fn shows_rendered(
        &self,
        st: MetricState,
        counters: Counters,
        later: MetricState,
        next: Counters,
        text: Seq<char>,
        color: Color,
    ) -> bool {
        may_show(kept_after(self.baseline(), counters.text("/net/dev"@)), later, next, text, color)
    }

    /// Renders the rates over the time since the last render: see
    /// `render_over`, which is given that time.
    fn render(&mut self, st: &mut MetricState, counters: &Counters) -> (r: RenderResult)
        ensures
            *final(st) == *old(st),
            r.spec_name() == Seq::<char>::empty(),
            exists|now: i64|
                (r.spec_text(), r.spec_color(), final(self).baseline()) == outcome(
                    old(self).baseline(),
                    counters.text("/net/dev"@),
                    old(st).interval(now) as u64,
                ),
    {
        let now = MetricState::now();
        let interval = st.elapsed(now);
        let r = self.render_over(counters, interval);
        assert((r.spec_text(), r.spec_color(), self.baseline()) == outcome(
            old(self).baseline(),
            counters.text("/net/dev"@),
            old(st).interval(now) as u64,
        ));
        r
    }
}

/// The metric of network throughput, with no interface selected; `None`
/// where the `regex` crate rejects one of the metric's patterns.
pub fn make_net_metric() -> (r: Option<Box<dyn Metric>>)
    ensures
        r is Some <==> compiled(WHOLE_LINE@) is Some && compiled(INTERFACE@) is Some,
        r matches Some(m) ==> m.reads() == Some("/net/dev"@) && forall|
            st: MetricState,
            counters: Counters,
            text: Seq<char>,
            color: Color,
        | #[trigger]
            m.shows(st, counters, text, color) == may_show(
                Map::<Seq<char>, (u64, u64)>::empty(),
                st,
                counters,
                text,
                color,
            ),
{
    match NetInterfaceMetric::new() {
        Some(m) => {
            return Some(Box::new(m));
        },
        None => {
            return None;
        },
    }
}

} // verus!
