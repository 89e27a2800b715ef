//! The load averages of the system, from `/loadavg`.
//!
//! A load average is held in hundredths, as the counter file writes it
//! with two decimals.

use crate::framework::Color;
use crate::framework::Metric;
use crate::framework::MetricState;
use crate::framework::RenderResult;
use crate::helper::extract_from_str;
use crate::helper::extracted;
use crate::helper::read_procfs_file;
use crate::helper::Counters;
use crate::helper::FromCapture;
use crate::matching::captures;
use crate::matching::compile;
use crate::matching::compiled;
use crate::text::at_most;
use crate::text::chars_of;
use crate::text::decimal;
use crate::text::digit;
use crate::text::digit_of;
use crate::text::digit_str;
use crate::text::digit_value;
use crate::text::find;
use crate::text::lemma_find_is;
use crate::text::number;
use crate::text::pad_left;
use crate::text::push_decimal;
use crate::text::read_digits;
use crate::text::right_aligned;
use regex::Regex;
use vstd::prelude::*;

verus! {

/// The three load averages at the beginning of `/loadavg`.
pub const LOAD_AVG: &'static str = r"([0-9\.]+)\s+([0-9\.]+)\s+([0-9\.]+).*";

/// What stands in for `/loadavg` where the file could not be read.
pub const NO_LOAD: &'static str = "0.0 0.0 0.0  ";

/// Whether `s` holds nothing but the digits `0` to `9`.
pub open spec fn digits_only(s: Seq<char>) -> bool {
    forall|i: int| 0 <= i < s.len() ==> digit_value(#[trigger] s[i]) is Some
}

/// The digit at index `i` of `s`, and 0 where `s` ends before.
pub open spec fn digit_at(s: Seq<char>, i: int) -> int {
    if 0 <= i < s.len() {
        match digit_value(s[i]) {
            Some(d) => d,
            None => 0,
        }
    } else {
        0
    }
}

/// The part of `s` in front of its first point.
pub open spec fn whole_part(s: Seq<char>) -> Seq<char> {
    s.take(find(s, '.'))
}

/// The part of `s` behind its first point; nothing where `s` has no point.
pub open spec fn fraction_part(s: Seq<char>) -> Seq<char> {
    if find(s, '.') < s.len() {
        s.skip(find(s, '.') + 1)
    } else {
        Seq::empty()
    }
}

/// The whole hundredths that the decimal number `s` holds, decimals beyond
/// the second left aside. A number is digits, a point and digits, where the point
/// and the digits on one side of it may be missing; it must fit a `u64`.
pub open spec fn hundredths(s: Seq<char>) -> Option<nat> {
    let whole = whole_part(s);
    let fraction = fraction_part(s);
    if whole.len() + fraction.len() == 0 || !digits_only(fraction) {
        None
    } else {
        let w = if whole.len() == 0 {
            Some(0nat)
        } else {
            number(whole)
        };
        match w {
            Some(w) => at_most(
                Some((100 * w + 10 * digit_at(fraction, 0) + digit_at(fraction, 1)) as nat),
                u64::MAX as nat,
            ),
            None => None,
        }
    }
}

/// Reads `s` as a decimal number, in hundredths.
pub fn parse_hundredths(s: &str) -> (r: Option<u64>)
    ensures
        match r {
            Some(h) => hundredths(s@) == Some(h as nat),
            None => hundredths(s@) is None,
        },
{
    let chars = chars_of(s);
    let n = chars.len();
    let mut dot: usize = 0;
    while dot < n && chars[dot as usize] != '.'
        invariant
            dot <= n,
            n == chars@.len(),
            forall|j: int| 0 <= j < dot ==> chars@[j] != '.',
        decreases n - dot,
    {
        dot = dot + 1;
    }
    proof {
        lemma_find_is(s@, '.', dot as int);
        assert(whole_part(s@) =~= chars@.subrange(0, dot as int));
    }
    let from: usize = if dot < n {
        dot + 1
    } else {
        n
    };
    let ghost fraction = fraction_part(s@);
    assert(fraction =~= chars@.subrange(from as int, n as int));
    if dot == 0 && from == n {
        return None;
    }
    let mut k: usize = from;
    while k < n
        invariant
            from <= k <= n,
            n == chars@.len(),
            fraction == chars@.subrange(from as int, n as int),
            fraction == fraction_part(s@),
            forall|j: int| 0 <= j < k - from ==> digit_value(#[trigger] fraction[j]) is Some,
        decreases n - k,
    {
        if digit_of(chars[k]).is_none() {
            assert(fraction[k - from] == chars@[k as int]);
            return None;
        }
        assert(fraction[k - from] == chars@[k as int]);
        k = k + 1;
    }
    let whole: u64 = if dot == 0 {
        0
    } else {
        match read_digits(&chars, 0, dot, 184467440737095516) {
            Some(w) => w,
            None => {
                return None;
            },
        }
    };
    let d1: u64 = if from < n {
        assert(fraction[0] == chars@[from as int]);
        match digit_of(chars[from]) {
            Some(d) => d,
            None => 0,
        }
    } else {
        0
    };
    let d2: u64 = if from < n && from + 1 < n {
        assert(fraction[1] == chars@[from + 1]);
        match digit_of(chars[from + 1]) {
            Some(d) => d,
            None => 0,
        }
    } else {
        0
    };
    let total: u128 = 100 * (whole as u128) + 10 * (d1 as u128) + (d2 as u128);
    if total > u64::MAX as u128 {
        None
    } else {
        Some(total as u64)
    }
}

/// The decimals of `s` beyond the second.
pub open spec fn beyond(s: Seq<char>) -> Seq<char> {
    if fraction_part(s).len() > 2 {
        fraction_part(s).skip(2)
    } else {
        Seq::empty()
    }
}

/// Whether `s` holds nothing but the digit `0`.
pub open spec fn zeros_only(s: Seq<char>) -> bool {
    forall|i: int| 0 <= i < s.len() ==> #[trigger] s[i] == '0'
}

/// Whether the decimal number `s`, of `h` whole hundredths, is nearer to
/// the next hundredth than to `h`, or as near to both while `h` is odd.
pub open spec fn rounds_up(s: Seq<char>, h: nat) -> bool {
    let rest = beyond(s);
    rest.len() > 0 && (digit_at(rest, 0) > 5 || (digit_at(rest, 0) == 5 && (!zeros_only(
        rest.skip(1),
    ) || h % 2 == 1)))
}

/// The hundredths nearest to the decimal number `s` of `h` whole
/// hundredths; of two that are equally near, the even one.
pub open spec fn rounded(s: Seq<char>, h: u64) -> u64 {
    if rounds_up(s, h as nat) && h < u64::MAX {
        (h + 1) as u64
    } else {
        h
    }
}

/// Whether the decimal number `s`, of `h` whole hundredths, is rounded up
/// to the next hundredth.
pub fn rounds_up_of(s: &str, h: u64) -> (r: bool)
    ensures
        r == rounds_up(s@, h as nat),
{
    let chars = chars_of(s);
    let n = chars.len();
    let mut dot: usize = 0;
    while dot < n && chars[dot as usize] != '.'
        invariant
            dot <= n,
            n == chars@.len(),
            forall|j: int| 0 <= j < dot ==> chars@[j] != '.',
        decreases n - dot,
    {
        dot = dot + 1;
    }
    proof {
        lemma_find_is(s@, '.', dot as int);
    }
    let from: usize = if dot < n {
        dot + 1
    } else {
        n
    };
    let ghost fraction = fraction_part(s@);
    assert(fraction =~= chars@.subrange(from as int, n as int));
    if n - from <= 2 {
        return false;
    }
    let ghost rest = beyond(s@);
    assert(rest =~= chars@.subrange(from + 2, n as int));
    assert(rest[0] == chars@[from + 2]);
    let third: u64 = match digit_of(chars[from + 2]) {
        Some(d) => d,
        None => 0,
    };
    if third > 5 {
        return true;
    }
    if third < 5 {
        return false;
    }
    let mut k: usize = from + 3;
    while k < n
        invariant
            from + 3 <= k <= n,
            n == chars@.len(),
            rest == chars@.subrange(from + 2, n as int),
            rest == beyond(s@),
            digit_at(rest, 0) == 5,
            forall|j: int| 0 <= j < k - from - 3 ==> #[trigger] rest.skip(1)[j] == '0',
        decreases n - k,
    {
        assert(rest.skip(1)[k - from - 3] == chars@[k as int]);
        if chars[k] != '0' {
            assert(!zeros_only(rest.skip(1)));
            return true;
        }
        k = k + 1;
    }
    assert(zeros_only(rest.skip(1)));
    h % 2 == 1
}

/// A load average read from a group: its whole hundredths and the
/// hundredths nearest to it, which is what `parse_hundredths` and
/// `rounds_up_of` read.
impl FromCapture for Option<(u64, u64)> {
    open spec fn reading(text: Seq<char>) -> Option<Option<(u64, u64)>> {
        match hundredths(text) {
            Some(h) => Some(Some((h as u64, rounded(text, h as u64)))),
            None => None,
        }
    }

    fn read(text: &str) -> (r: Option<Option<(u64, u64)>>) {
        match parse_hundredths(text) {
            Some(h) => {
                let nearest = if rounds_up_of(text, h) && h < u64::MAX {
                    h + 1
                } else {
                    h
                };
                Some(Some((h, nearest)))
            },
            None => None,
        }
    }

    fn dup(&self) -> (r: Option<(u64, u64)>) {
        *self
    }
}

/// The whole hundredths of a load average that was read.
pub open spec fn whole_of(load: Option<(u64, u64)>) -> Option<u64> {
    match load {
        Some(l) => Some(l.0),
        None => None,
    }
}

/// The nearest hundredths of a load average that was read.
pub open spec fn nearest_of(load: Option<(u64, u64)>) -> Option<u64> {
    match load {
        Some(l) => Some(l.1),
        None => None,
    }
}

/// How a load average is displayed: with two decimals, flush right in
/// five characters. One that could not be read is displayed as zero.
pub open spec fn load_text(load: Option<u64>) -> Seq<char> {
    let h: nat = match load {
        Some(h) => h as nat,
        None => 0,
    };
    right_aligned(
        decimal(h / 100) + seq!['.', digit(((h / 10) % 10) as int), digit((h % 10) as int)],
        5,
    )
}

/// The color of a load average: green below 1.5, orange from there to
/// below 3, red from 3 on, and the default color for one that could not be
/// read.
pub open spec fn color_of(load: Option<u64>) -> Color {
    match load {
        Some(h) => if h < 150 {
            Color::Green
        } else if h < 300 {
            Color::Orange
        } else {
            Color::Red
        },
        None => Color::Default,
    }
}

/// What is displayed for the text `loads` of `/loadavg`, where `re` finds
/// the load averages in it: the three averages, in the color of the first;
/// three zeros in purple where `re` does not find three averages.
pub open spec fn reading_of(re: Regex, loads: Seq<char>) -> (Seq<char>, Color) {
    let load_avgs = extracted::<Option<(u64, u64)>>(captures(re, loads), None);
    if load_avgs.len() < 3 {
        ("0.0 0.0 0.0"@, Color::Purple)
    } else {
        (
            load_text(nearest_of(load_avgs[0])) + " "@ + load_text(nearest_of(load_avgs[1])) + " "@
                + load_text(nearest_of(load_avgs[2])),
            color_of(whole_of(load_avgs[0])),
        )
    }
}

/// Writes a load average as `load_text` has it.
pub fn format_load(load: Option<u64>) -> (r: String)
    ensures
        r@ == load_text(load),
{
    let h: u64 = match load {
        Some(h) => h,
        None => 0,
    };
    let mut number = String::new();
    push_decimal(&mut number, h / 100);
    number.append(".");
    number.append(digit_str((h / 10) % 10));
    number.append(digit_str(h % 10));
    proof {
        reveal_strlit(".");
        assert(number@ =~= decimal((h / 100) as nat) + seq![
            '.',
            digit(((h / 10) % 10) as int),
            digit((h % 10) as int),
        ]);
    }
    pad_left(number.as_str(), 5)
}

/// The load averages over the last 1, 5 and 15 minutes.
pub struct LoadAvg {
    re: Regex,
}

impl LoadAvg {
    #[verifier::type_invariant]
    spec fn inv(self) -> bool {
        compiled(LOAD_AVG@) == Some(self.re)
    }

    /// The metric; `None` where the `regex` crate rejects its pattern.
    pub fn new() -> (r: Option<LoadAvg>)
        ensures
            r is Some <==> compiled(LOAD_AVG@) is Some,
    {
        match compile(LOAD_AVG) {
            Some(re) => Some(LoadAvg { re }),
            None => None,
        }
    }

    /// The load averages that `/loadavg` holds, and their color. A file
    /// that could not be read counts as one that holds three zeros.
    pub fn read_load_avg(&self, counters: &Counters) -> (r: (String, Color))
        ensures
            r.0@ == reading_of(
                compiled(LOAD_AVG@)->0,
                match counters.text("/loadavg"@) {
                    Some(t) => t,
                    None => NO_LOAD@,
                },
            ).0,
            r.1 == reading_of(
                compiled(LOAD_AVG@)->0,
                match counters.text("/loadavg"@) {
                    Some(t) => t,
                    None => NO_LOAD@,
                },
            ).1,
    {
        proof {
            use_type_invariant(self);
        }
        let loads = match read_procfs_file(counters, String::from_str("/loadavg")) {
            Some(t) => t,
            None => String::from_str(NO_LOAD),
        };
        let load_avgs: Vec<Option<(u64, u64)>> = extract_from_str(&loads, &self.re, None);
        if load_avgs.len() < 3 {
            (String::from_str("0.0 0.0 0.0"), Color::Purple)
        } else {
            proof {
                assert(load_avgs.deep_view()[0] == load_avgs[0]);
                assert(load_avgs.deep_view()[1] == load_avgs[1]);
                assert(load_avgs.deep_view()[2] == load_avgs[2]);
            }
            let mut text = format_load(LoadAvg::nearest(load_avgs[0]));
            text.append(" ");
            text.append(format_load(LoadAvg::nearest(load_avgs[1])).as_str());
            text.append(" ");
            text.append(format_load(LoadAvg::nearest(load_avgs[2])).as_str());
            (text, LoadAvg::get_color(LoadAvg::whole(load_avgs[0])))
        }
    }

    /// The whole hundredths of a load average that was read.
    pub fn whole(load: Option<(u64, u64)>) -> (r: Option<u64>)
        ensures
            r == whole_of(load),
    {
        match load {
            Some(l) => Some(l.0),
            None => None,
        }
    }

    /// The nearest hundredths of a load average that was read.
    pub fn nearest(load: Option<(u64, u64)>) -> (r: Option<u64>)
        ensures
            r == nearest_of(load),
    {
        match load {
            Some(l) => Some(l.1),
            None => None,
        }
    }

    /// The color of a load average.
    pub fn get_color(f: Option<u64>) -> (r: Color)
        ensures
            r == color_of(f),
    {
        match f {
            Some(h) => if h < 150 {
                Color::Green
            } else if h < 300 {
                Color::Orange
            } else {
                Color::Red
            },
            None => Color::Default,
        }
    }
}

impl Metric for LoadAvg {
    open spec fn reads(&self) -> Option<Seq<char>> {
        Some("/loadavg"@)
    }

    fn source(&self) -> (r: Option<String>) {
        Some(String::from_str("/loadavg"))
    }

    open spec fn shows(
        &self,
        st: MetricState,
        counters: Counters,
        text: Seq<char>,
        color: Color,
    ) -> bool {
        (text, color) == reading_of(
            compiled(LOAD_AVG@)->0,
            match counters.text("/loadavg"@) {
                Some(t) => t,
                None => NO_LOAD@,
            },
        )
    }

    open spec fn prepares(
        &self,
        before: MetricState,
        arg: Option<Seq<char>>,
        counters: Counters,
        after: MetricState,
    ) -> bool {
        after == before
    }

    open spec fn shows_prepared(
        &self,
        arg: Option<Seq<char>>,
        first: Counters,
        st: MetricState,
        counters: Counters,
        text: Seq<char>,
        color: Color,
    ) -> bool {
        self.shows(st, counters, text, color)
    }

    /// Nothing to prepare.
    fn init(&mut self, st: &mut MetricState, arg: Option<String>, counters: &Counters)
        ensures
            *final(st) == *old(st),
    {
    }

    open spec fn shows_rendered(
        &self,
        st: MetricState,
        counters: Counters,
        later: MetricState,
        next: Counters,
        text: Seq<char>,
        color: Color,
    ) -> bool {
        self.shows(later, next, text, color)
    }

    /// Renders what `read_load_avg` reads.
    fn render(&mut self, st: &mut MetricState, counters: &Counters) -> (r: RenderResult)
        ensures
            *final(st) == *old(st),
            r.spec_name() == Seq::<char>::empty(),
            (r.spec_text(), r.spec_color()) == reading_of(
                compiled(LOAD_AVG@)->0,
                match counters.text("/loadavg"@) {
                    Some(t) => t,
                    None => NO_LOAD@,
                },
            ),
    {
        let (loads, color) = self.read_load_avg(counters);
        RenderResult::new(loads, color)
    }
}

/// The metric of load averages, which displays what `reading_of` makes of
/// `/loadavg`; `None` where the `regex` crate rejects the metric's pattern.
pub fn make_load_metric() -> (r: Option<Box<dyn Metric>>)
    ensures
        r is Some <==> compiled(LOAD_AVG@) is Some,
        r matches Some(m) ==> m.reads() == Some("/loadavg"@) && forall|
            st: MetricState,
            counters: Counters,
            text: Seq<char>,
            color: Color,
        | #[trigger]
            m.shows(st, counters, text, color) == ((text, color) == reading_of(
                compiled(LOAD_AVG@)->0,
                match counters.text("/loadavg"@) {
                    Some(t) => t,
                    None => NO_LOAD@,
                },
            )),
{
    match LoadAvg::new() {
        Some(m) => {
            return Some(Box::new(m));
        },
        None => {
            return None;
        },
    }
}

} // verus!
