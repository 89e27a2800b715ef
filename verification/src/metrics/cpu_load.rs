//! The load of the processors, from the tick counters of `/stat`.

use crate::framework::Color;
use crate::framework::Metric;
use crate::framework::MetricState;
use crate::framework::RenderResult;
use crate::helper::extract_from_str;
use crate::helper::extracted;
use crate::helper::get_procfs_file_lines;
use crate::helper::lines_or_none;
use crate::helper::Counters;
use crate::matching::captures;
use crate::matching::compile;
use crate::matching::compiled;
use crate::text::decimal;
use crate::text::decimal_string;
use crate::text::lemma_nearest;
use crate::text::nearest;
use crate::text::pad_left;
use crate::text::right_aligned;
use crate::text::views;
use regex::Regex;
use vstd::arithmetic::div_mod::lemma_div_multiples_vanish;
use vstd::arithmetic::div_mod::lemma_fundamental_div_mod;
use vstd::arithmetic::div_mod::lemma_mod_multiples_basic;
use vstd::arithmetic::div_mod::lemma_div_pos_is_pos;
use vstd::prelude::*;

verus! {

/// How the load is displayed.
#[derive(Debug, Clone, Copy, PartialEq, Eq)]
pub enum DisplayMode {
    /// All processors fully loaded are displayed as their number times 100%.
    Absolute,
    /// All processors fully loaded are displayed as 100%.
    Relative,
}

/// The line of one processor in `/stat`.
pub const INDIVIDUAL_CPU: &'static str = r"^cpu(\d+)\s+";

/// The line of all processors together in `/stat`: the groups are the
/// ticks spent in user mode, in user mode at low priority, and in system
/// mode.
pub const TOTAL_CPU: &'static str = r"^cpu\s+(\d+)\s+(\d+)\s+(\d+)";

/// The number of lines in the first unbroken run of lines of `lines` in
/// which `re` finds a match; `started` says that the run has begun.
pub open spec fn run_length(re: Regex, lines: Seq<Seq<char>>, started: bool) -> nat
    decreases lines.len(),
{
    if lines.len() == 0 {
        0
    } else if captures(re, lines[0]) is Some {
        1 + run_length(re, lines.skip(1), true)
    } else if started {
        0
    } else {
        run_length(re, lines.skip(1), false)
    }
}

/// The number of processors that `lines` list: the length of the first run
/// of processor lines, no more than `i32::MAX`, and 1 where there is no
/// such line.
pub open spec fn cores(re: Regex, lines: Seq<Seq<char>>) -> i32 {
    let n = run_length(re, lines, false);
    if n == 0 {
        1
    } else if n > i32::MAX {
        i32::MAX
    } else {
        n as i32
    }
}

/// The milliseconds that `user + nice + sys` ticks take where a second
/// has `user_hz` ticks: the whole milliseconds of one tick, times the
/// ticks. A time that a `u64` cannot hold counts as the greatest that it
/// can.
pub open spec fn cpu_millis(user_hz: u64, user: u64, nice: u64, sys: u64) -> u64 {
    let m = (1000int / (user_hz as int)) * (user + nice + sys);
    if m > u64::MAX {
        u64::MAX
    } else {
        m as u64
    }
}

/// The processor time in milliseconds that `lines` report: that of the
/// first line that holds the three tick counters, and 0 where there is
/// none.
pub open spec fn total_millis(re: Regex, user_hz: u64, lines: Seq<Seq<char>>) -> u64
    decreases lines.len(),
{
    if lines.len() == 0 {
        0
    } else {
        let nums = extracted::<u64>(captures(re, lines[0]), 0);
        if nums.len() >= 3 {
            cpu_millis(user_hz, nums[0], nums[1], nums[2])
        } else {
            total_millis(re, user_hz, lines.skip(1))
        }
    }
}

/// The processor time spent between two readings of the counter. A
/// counter that went back counts as one that stood still.
pub open spec fn spent(previous: u64, current: u64) -> int {
    if current >= previous {
        current - previous
    } else {
        0
    }
}

/// The time that counts as 100 per cent where `interval` milliseconds have
/// passed: the interval itself where all processors fully loaded are
/// displayed as their number times 100, and the interval times the number
/// of processors where they are displayed as 100.
pub open spec fn full_load(mode: DisplayMode, interval: int, ncpu: int) -> int {
    match mode {
        DisplayMode::Absolute => interval,
        DisplayMode::Relative => interval * ncpu,
    }
}

/// The load in per cent as `mode` displays it where `delta` milliseconds of
/// processor time were spent in `interval` milliseconds: 100 times `delta`
/// over `full_load`, to the nearest whole number.
pub open spec fn load(mode: DisplayMode, delta: int, interval: int, ncpu: int) -> int {
    nearest(100 * delta, full_load(mode, interval, ncpu))
}

/// A load as a `u64`: one that is too great becomes the greatest `u64`.
pub open spec fn capped(percent: int) -> u64 {
    if percent > u64::MAX {
        u64::MAX
    } else if percent < 0 {
        0
    } else {
        percent as u64
    }
}

/// The text that displays a load of `percent` per cent: the number, flush
/// right in four characters, and a per cent sign.
pub open spec fn load_text(percent: u64) -> Seq<char> {
    right_aligned(decimal(percent as nat), 4) + "%"@
}

/// The load is never negative where the counter has not gone back and the
/// interval is positive: not in either mode, whatever the number of
/// processors.
pub proof fn lemma_load_not_negative(
    mode: DisplayMode,
    previous: u64,
    current: u64,
    interval: int,
    ncpu: int,
)
    requires
        previous <= current,
        interval > 0,
        ncpu > 0,
    ensures
        load(mode, spent(previous, current), interval, ncpu) >= 0,
{
    let d = full_load(mode, interval, ncpu);
    assert(d > 0) by (nonlinear_arith)
        requires
            d == interval || d == interval * ncpu,
            interval > 0,
            ncpu > 0,
    ;
    lemma_div_pos_is_pos(100 * spent(previous, current), d);
}

/// Relative mode divides the absolute percentage by the number of
/// processors: the same processor time is set against that many times the
/// time. Where the absolute load is a whole number of per cent and a
/// multiple of the number of processors, the loads displayed are in that
/// ratio too; elsewhere each is the nearest whole number of per cent.
pub proof fn lemma_relative_load(delta: int, interval: int, ncpu: int)
    requires
        delta >= 0,
        interval > 0,
        ncpu > 0,
    ensures
        full_load(DisplayMode::Relative, interval, ncpu) == ncpu * full_load(
            DisplayMode::Absolute,
            interval,
            ncpu,
        ),
        load(DisplayMode::Relative, delta, interval, ncpu) == load(
            DisplayMode::Absolute,
            delta,
            interval * ncpu,
            ncpu,
        ),
        (100 * delta) % interval == 0 && ((100 * delta) / interval) % ncpu == 0 ==> load(
            DisplayMode::Relative,
            delta,
            interval,
            ncpu,
        ) == load(DisplayMode::Absolute, delta, interval, ncpu) / ncpu,
{
    assert(interval * ncpu == ncpu * interval) by (nonlinear_arith);
    if (100 * delta) % interval == 0 && ((100 * delta) / interval) % ncpu == 0 {
        let a = (100 * delta) / interval;
        let b = a / ncpu;
        lemma_fundamental_div_mod(100 * delta, interval);
        lemma_fundamental_div_mod(a, ncpu);
        assert(100 * delta == b * (interval * ncpu)) by (nonlinear_arith)
            requires
                100 * delta == interval * a,
                a == ncpu * b,
        ;
        assert(interval * ncpu > 0) by (nonlinear_arith)
            requires
                interval > 0,
                ncpu > 0,
        ;
        lemma_div_multiples_vanish(b, interval * ncpu);
        lemma_mod_multiples_basic(b, interval * ncpu);
    }
}

/// The relative load displayed, times the number of processors, is the
/// absolute load displayed to within half that number and a half: each is
/// the nearest whole number of per cents, and no more than a half away
/// from the load itself.
pub proof fn lemma_relative_load_is_close(delta: int, interval: int, ncpu: int)
    requires
        delta >= 0,
        interval > 0,
        ncpu > 0,
    ensures
        -(ncpu + 1) <= 2 * (ncpu * load(DisplayMode::Relative, delta, interval, ncpu) - load(
            DisplayMode::Absolute,
            delta,
            interval,
            ncpu,
        )) <= ncpu + 1,
{
    let n = 100 * delta;
    let a = nearest(n, interval);
    let r = nearest(n, interval * ncpu);
    assert(interval * ncpu > 0) by (nonlinear_arith)
        requires
            interval > 0,
            ncpu > 0,
    ;
    lemma_nearest(n, interval);
    lemma_nearest(n, interval * ncpu);
    assert(-(ncpu + 1) <= 2 * (ncpu * r - a) <= ncpu + 1) by (nonlinear_arith)
        requires
            interval > 0,
            ncpu > 0,
            -interval <= 2 * interval * a - 2 * n <= interval,
            -(interval * ncpu) <= 2 * (interval * ncpu) * r - 2 * n <= interval * ncpu,
    ;
}

/// The load in per cent where `delta` milliseconds of processor time were
/// spent in `interval` milliseconds, no more than `u64::MAX`.
pub fn percentage(mode: DisplayMode, delta: u64, interval: u64, ncpu: i32) -> (r: u64)
    requires
        interval >= 1,
        ncpu >= 1,
    ensures
        r == capped(load(mode, delta as int, interval as int, ncpu as int)),
{
    let spent: u128 = 100 * (delta as u128);
    let full: u128 = match mode {
        DisplayMode::Absolute => interval as u128,
        DisplayMode::Relative => {
            assert(1 <= interval * ncpu <= 0xffff_ffff_ffff_ffff * 0x7fff_ffff) by (nonlinear_arith)
                requires
                    1 <= interval <= 0xffff_ffff_ffff_ffff,
                    1 <= ncpu <= 0x7fff_ffff,
            ;
            (interval as u128) * (ncpu as u128)
        },
    };
    let q = spent / full;
    let rem = spent % full;
    let shown = if 2 * rem > full || (2 * rem == full && q % 2 == 1) {
        q + 1
    } else {
        q
    };
    if shown > u64::MAX as u128 {
        u64::MAX
    } else {
        shown as u64
    }
}

/// What a render does where `text` was read from `/stat` and `interval`
/// milliseconds have passed since the processor time was `last`: the text
/// that is displayed, and the processor time that is kept.
pub open spec fn outcome(
    mode: DisplayMode,
    ncpu: i32,
    user_hz: u64,
    last: u64,
    text: Option<Seq<char>>,
    interval: u64,
) -> (Seq<char>, u64) {
    let current = total_millis(compiled(TOTAL_CPU@)->0, user_hz, lines_or_none(text));
    (load_text(capped(load(mode, spent(last, current), interval as int, ncpu as int))), current)
}

/// Whether a render may display `text` in `color` where the metric is in
/// the mode `mode` with `ncpu` processors and `user_hz` ticks in a second,
/// the processor time was `last` at the last render, the state is `st` and
/// the counters of the cycle are `counters`: whether the color is the
/// default one and the text that of the `outcome` for the interval up to
/// some reading of the clock.
pub open spec fn may_show(
    mode: DisplayMode,
    ncpu: i32,
    user_hz: u64,
    last: u64,
    st: MetricState,
    counters: Counters,
    text: Seq<char>,
    color: Color,
) -> bool {
    color == Color::Default && exists|now: i64|
        text == outcome(
            mode,
            ncpu,
            user_hz,
            last,
            counters.text("/stat"@),
            st.interval(now) as u64,
        ).0
}

/// The number of processors where `n` processor lines were counted.
fn counted(n: usize) -> (r: i32)
    ensures
        r == if n == 0 {
            1
        } else if n > i32::MAX {
            i32::MAX
        } else {
            n as i32
        },
        r >= 1,
{
    if n == 0 {
        1
    } else if n > 2147483647 {
        2147483647
    } else {
        n as i32
    }
}

/// The load of the processors over the time since the last render.
pub struct CPULoadMetric {
    mode: DisplayMode,
    ncpu: i32,
    user_hz: u64,
    last_cpu_millis: u64,
    individual_cpu_regex: Regex,
    total_cpu_regex: Regex,
}

impl CPULoadMetric {
    #[verifier::type_invariant]
    spec fn inv(self) -> bool {
        &&& compiled(INDIVIDUAL_CPU@) == Some(self.individual_cpu_regex)
        &&& compiled(TOTAL_CPU@) == Some(self.total_cpu_regex)
        &&& self.user_hz >= 1
        &&& self.ncpu >= 1
    }

    /// How the load is displayed.
    pub closed spec fn mode(&self) -> DisplayMode {
        self.mode
    }

    /// The number of processors, as `init` found it.
    pub closed spec fn ncpu(&self) -> i32 {
        self.ncpu
    }

    /// The ticks in a second.
    pub closed spec fn user_hz(&self) -> u64 {
        self.user_hz
    }

    /// The processor time in milliseconds at the last render.
    pub closed spec fn last_cpu_millis(&self) -> u64 {
        self.last_cpu_millis
    }

    /// A metric for a host with `user_hz` ticks in a second, in absolute
    /// mode with one processor and no processor time spent; `None` where
    /// `user_hz` is 0 or the `regex` crate rejects one of the two patterns.
    pub fn new(user_hz: u64) -> (r: Option<CPULoadMetric>)
        ensures
            r is Some <==> user_hz >= 1 && compiled(INDIVIDUAL_CPU@) is Some && compiled(
                TOTAL_CPU@,
            ) is Some,
            r matches Some(m) ==> m.mode() == DisplayMode::Absolute && m.ncpu() == 1 && m.user_hz()
                == user_hz && m.last_cpu_millis() == 0,
    {
        if user_hz == 0 {
            return None;
        }
        match compile(INDIVIDUAL_CPU) {
            None => None,
            Some(individual_cpu_regex) => match compile(TOTAL_CPU) {
                None => None,
                // user nice system
                Some(total_cpu_regex) => Some(
                    CPULoadMetric {
                        mode: DisplayMode::Absolute,
                        ncpu: 1,
                        user_hz: user_hz,
                        last_cpu_millis: 0,
                        individual_cpu_regex,
                        total_cpu_regex,
                    },
                ),
            },
        }
    }

    /// The number of processors that `/stat` lists; 1 where the file could
    /// not be read or lists none.
    pub fn get_number_of_cores(&self, counters: &Counters) -> (r: i32)
        ensures
            r == cores(compiled(INDIVIDUAL_CPU@)->0, lines_or_none(counters.text("/stat"@))),
            r >= 1,
    {
        proof {
            use_type_invariant(self);
        }
        let lines = get_procfs_file_lines(counters, String::from_str("/stat"));
        let ghost all = lines_or_none(counters.text("/stat"@));
        match lines {
            None => 1,
            Some(lns) => {
                let mut n: usize = 0;
                let mut k: usize = 0;
                assert(all.skip(0) =~= all);
                while k < lns.len()
                    invariant
                        k <= lns.len(),
                        n <= k,
                        views(lns@) == all,
                        all == lines_or_none(counters.text("/stat"@)),
                        compiled(INDIVIDUAL_CPU@) == Some(self.individual_cpu_regex),
                        run_length(self.individual_cpu_regex, all, false) == n + run_length(
                            self.individual_cpu_regex,
                            all.skip(k as int),
                            n > 0,
                        ),
                    decreases lns.len() - k,
                {
                    proof {
                        assert(all.skip(k as int)[0] == lns@[k as int]@);
                        assert(all.skip(k as int).skip(1) =~= all.skip(k + 1));
                    }
                    if self.individual_cpu_regex.is_match(lns[k].as_str()) {
                        n += 1;
                    } else if n > 0 {
                        return counted(n);
                    }
                    k = k + 1;
                }
                counted(n)
            },
        }
    }

    /// The processor time in milliseconds that `/stat` reports; 0 where the
    /// file could not be read or holds no line of all processors together.
    pub fn get_total_cpu_millis(&self, counters: &Counters) -> (r: u64)
        ensures
            r == total_millis(
                compiled(TOTAL_CPU@)->0,
                self.user_hz(),
                lines_or_none(counters.text("/stat"@)),
            ),
    {
        proof {
            use_type_invariant(self);
        }
        let lines = match get_procfs_file_lines(counters, String::from_str("/stat")) {
            Some(lns) => lns,
            None => Vec::new(),
        };
        let ghost all = lines_or_none(counters.text("/stat"@));
        assert(views(lines@) =~= all);
        let mut k: usize = 0;
        assert(all.skip(0) =~= all);
        while k < lines.len()
            invariant
                k <= lines.len(),
                views(lines@) == all,
                all == lines_or_none(counters.text("/stat"@)),
                self.user_hz >= 1,
                compiled(TOTAL_CPU@) == Some(self.total_cpu_regex),
                total_millis(self.total_cpu_regex, self.user_hz, all) == total_millis(
                    self.total_cpu_regex,
                    self.user_hz,
                    all.skip(k as int),
                ),
            decreases lines.len() - k,
        {
            proof {
                assert(all.skip(k as int)[0] == lines@[k as int]@);
                assert(all.skip(k as int).skip(1) =~= all.skip(k + 1));
            }
            let nums: Vec<u64> = extract_from_str(&lines[k], &self.total_cpu_regex, 0);
            if nums.len() >= 3 {
                return self.calc_total_cpu_millis(nums[0], nums[1], nums[2]);
            }
            k = k + 1;
        }
        return 0;
    }

    /// The milliseconds that `user + nice + sys` ticks take.
    pub fn calc_total_cpu_millis(&self, user: u64, nice: u64, sys: u64) -> (r: u64)
        ensures
            r == cpu_millis(self.user_hz(), user, nice, sys),
    {
        proof {
            use_type_invariant(self);
        }
        let per_tick: u128 = (1000 / self.user_hz) as u128;
        let ticks: u128 = (user as u128) + (nice as u128) + (sys as u128);
        assert(per_tick * ticks <= 1000 * ticks) by (nonlinear_arith)
            requires
                0 <= per_tick <= 1000,
                0 <= ticks,
        ;
        let m: u128 = per_tick * ticks;
        if m > u64::MAX as u128 {
            u64::MAX
        } else {
            m as u64
        }
    }

    /// What the metric displays when `interval` milliseconds have passed
    /// since it was last rendered: the load over that time, in the default
    /// color.
    pub fn render_over(&mut self, counters: &Counters, interval: u64) -> (r: RenderResult)
        requires
            interval >= 1,
        ensures
            r.spec_name() == Seq::<char>::empty(),
            r.spec_color() == Color::Default,
            (r.spec_text(), final(self).last_cpu_millis()) == outcome(
                old(self).mode(),
                old(self).ncpu(),
                old(self).user_hz(),
                old(self).last_cpu_millis(),
                counters.text("/stat"@),
                interval,
            ),
            final(self).mode() == old(self).mode(),
            final(self).ncpu() == old(self).ncpu(),
            final(self).user_hz() == old(self).user_hz(),
    {
        proof {
            use_type_invariant(&*self);
        }
        let current_time = self.get_total_cpu_millis(counters);
        let diff = if current_time >= self.last_cpu_millis {
            current_time - self.last_cpu_millis
        } else {
            0
        };
        self.last_cpu_millis = current_time;
        let percent = percentage(self.mode, diff, interval, self.ncpu);
        let number = decimal_string(percent);
        let mut text = pad_left(number.as_str(), 4);
        text.append("%");
        RenderResult::new(text, Color::Default)
    }
}

impl Metric for CPULoadMetric {
    open spec fn reads(&self) -> Option<Seq<char>> {
        Some("/stat"@)
    }

    fn source(&self) -> (r: Option<String>) {
        Some(String::from_str("/stat"))
    }

    open spec fn shows(
        &self,
        st: MetricState,
        counters: Counters,
        text: Seq<char>,
        color: Color,
    ) -> bool {
        may_show(
            self.mode(),
            self.ncpu(),
            self.user_hz(),
            self.last_cpu_millis(),
            st,
            counters,
            text,
            color,
        )
    }

    open spec fn prepares(
        &self,
        before: MetricState,
        arg: Option<Seq<char>>,
        counters: Counters,
        after: MetricState,
    ) -> bool {
        &&& after.last_rendered() == before.last_rendered()
        &&& after.value("since"@) is Int
        &&& forall|k: Seq<char>| k != "since"@ ==> after.value(k) == before.value(k)
    }

    open spec fn shows_prepared(
        &self,
        arg: Option<Seq<char>>,
        first: Counters,
        st: MetricState,
        counters: Counters,
        text: Seq<char>,
        color: Color,
    ) -> bool {
        may_show(
            if arg == Some("rel"@) {
                DisplayMode::Relative
            } else {
                self.mode()
            },
            cores(compiled(INDIVIDUAL_CPU@)->0, lines_or_none(first.text("/stat"@))),
            self.user_hz(),
            self.last_cpu_millis(),
            st,
            counters,
            text,
            color,
        )
    }

    /// arg can be "abs" or "rel" (default is 'abs')
    /// "abs" means that a fully loaded CPU has a load of #cores * 100%
    /// "rel" means that a fully loaded CPU has a load of 100%.
    ///
    /// Counts the processors that `/stat` lists, and keeps the present as
    /// the instant from which the first interval is measured.
    fn init(&mut self, st: &mut MetricState, arg: Option<String>, counters: &Counters)
        ensures
            final(self).mode() == if arg matches Some(s) && s@ == "rel"@ {
                DisplayMode::Relative
            } else {
                old(self).mode()
            },
            final(self).ncpu() == cores(
                compiled(INDIVIDUAL_CPU@)->0,
                lines_or_none(counters.text("/stat"@)),
            ),
            final(self).user_hz() == old(self).user_hz(),
            final(self).last_cpu_millis() == old(self).last_cpu_millis(),
            final(st).value("since"@) is Int,
            forall|k: Seq<char>| k != "since"@ ==> final(st).value(k) == old(st).value(k),
    {
        proof {
            use_type_invariant(&*self);
        }
        match arg {
            None => (),
            Some(s) => {
                if s == String::from_str("rel") {
                    self.mode = DisplayMode::Relative;
                }
            },
        }
        self.ncpu = self.get_number_of_cores(counters);
        st.begin(MetricState::now());
    }

    open spec fn shows_rendered(
        &self,
        st: MetricState,
        counters: Counters,
        later: MetricState,
        next: Counters,
        text: Seq<char>,
        color: Color,
    ) -> bool {
        may_show(
            self.mode(),
            self.ncpu(),
            self.user_hz(),
            total_millis(
                compiled(TOTAL_CPU@)->0,
                self.user_hz(),
                lines_or_none(counters.text("/stat"@)),
            ),
            later,
            next,
            text,
            color,
        )
    }

    /// Renders the load over the time since the last render: see
    /// `render_over`, which is given that time.
    fn render(&mut self, st: &mut MetricState, counters: &Counters) -> (r: RenderResult)
        ensures
            *final(st) == *old(st),
            r.spec_name() == Seq::<char>::empty(),
            r.spec_color() == Color::Default,
            exists|now: i64|
                (r.spec_text(), final(self).last_cpu_millis()) == outcome(
                    old(self).mode(),
                    old(self).ncpu(),
                    old(self).user_hz(),
                    old(self).last_cpu_millis(),
                    counters.text("/stat"@),
                    old(st).interval(now) as u64,
                ),
            final(self).mode() == old(self).mode(),
            final(self).ncpu() == old(self).ncpu(),
            final(self).user_hz() == old(self).user_hz(),
    {
        // evaluation interval in milliseconds
        let now = MetricState::now();
        let interval = st.elapsed(now);
        let r = self.render_over(counters, interval);
        assert((r.spec_text(), self.last_cpu_millis()) == outcome(
            old(self).mode(),
            old(self).ncpu(),
            old(self).user_hz(),
            old(self).last_cpu_millis(),
            counters.text("/stat"@),
            old(st).interval(now) as u64,
        ));
        assert(r.spec_text() == outcome(
            old(self).mode(),
            old(self).ncpu(),
            old(self).user_hz(),
            old(self).last_cpu_millis(),
            counters.text("/stat"@),
            old(st).interval(now) as u64,
        ).0);
        r
    }
}

/// The metric of processor load for a host with `user_hz` ticks in a
/// second, in absolute mode with one processor and no processor time
/// spent; `None` where `user_hz` is 0 or the `regex` crate rejects one of
/// the metric's patterns.
pub fn make_cpu_load_metric(user_hz: u64) -> (r: Option<Box<dyn Metric>>)
    ensures
        r is Some <==> user_hz >= 1 && compiled(INDIVIDUAL_CPU@) is Some && compiled(TOTAL_CPU@)
            is Some,
        r matches Some(m) ==> m.reads() == Some("/stat"@) && forall|
            st: MetricState,
            counters: Counters,
            text: Seq<char>,
            color: Color,
        | #[trigger]
            m.shows(st, counters, text, color) == may_show(
                DisplayMode::Absolute,
                1,
                user_hz,
                0,
                st,
                counters,
                text,
                color,
            ),
{
    match CPULoadMetric::new(user_hz) {
        Some(m) => {
            return Some(Box::new(m));
        },
        None => {
            return None;
        },
    }
}

} // verus!
