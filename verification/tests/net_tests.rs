use myi3stat::framework::Color;
use myi3stat::framework::Metric;
use myi3stat::framework::MetricState;
use myi3stat::framework::StateValue;
use myi3stat::helper::Counters;
use myi3stat::metrics::net::can_display;
use myi3stat::metrics::net::make_net_metric;
use myi3stat::metrics::net::rate_per_second;
use myi3stat::metrics::net::IFStat;
use myi3stat::metrics::net::NetInterfaceMetric;
use myi3stat::metrics::net::MAX_NICE_RATE;
use myi3stat::table::Table;

const HEADER: &str = "Inter-|   Receive                                                |  Transmit\n face |bytes    packets errs drop fifo frame compressed multicast|bytes    packets errs drop fifo colls carrier compressed\n";

fn net_dev(lines: &[(&str, u64, u64)]) -> Counters {
    let mut text = String::from(HEADER);
    for (name, rx, tx) in lines {
        text.push_str(&format!(
            "{:>6}: {:>10} 872642    0    0    0     0          0     10482 {:>10}  300143    0    1    0     0       0          0\n",
            name, rx, tx
        ));
    }
    let mut c = Counters::new();
    c.put(String::from("/net/dev"), text);
    c
}

fn stat(name: &str, rx: u64, tx: u64) -> IFStat {
    (String::from(name), rx, tx)
}

fn selected(names: &str) -> NetInterfaceMetric {
    let mut m = NetInterfaceMetric::new().unwrap();
    let mut st = MetricState::new();
    m.init(&mut st, Some(String::from(names)), &Counters::new());
    m
}

#[test]
fn nice_rate_of_zero() {
    assert_eq!(NetInterfaceMetric::make_nice_rate(0), "0.0");
}

#[test]
fn nice_rate_of_2048() {
    assert_eq!(NetInterfaceMetric::make_nice_rate(2048), "2.0K");
}

#[test]
fn nice_rate_changes_unit_above_1024() {
    assert_eq!(NetInterfaceMetric::make_nice_rate(1), "1.0");
    assert_eq!(NetInterfaceMetric::make_nice_rate(1000), "1000.0");
    assert_eq!(NetInterfaceMetric::make_nice_rate(1024), "1024.0");
    assert_eq!(NetInterfaceMetric::make_nice_rate(1025), "1.0K");
    assert_eq!(NetInterfaceMetric::make_nice_rate(1536), "1.5K");
    assert_eq!(NetInterfaceMetric::make_nice_rate(2000), "2.0K");
    assert_eq!(NetInterfaceMetric::make_nice_rate(1024 * 1024), "1024.0K");
    assert_eq!(NetInterfaceMetric::make_nice_rate(1024 * 1024 + 1), "1.0M");
    assert_eq!(NetInterfaceMetric::make_nice_rate(5 * 1024 * 1024 / 2), "2.5M");
    assert_eq!(NetInterfaceMetric::make_nice_rate(1024 * 1024 * 1024), "1024.0M");
    assert_eq!(NetInterfaceMetric::make_nice_rate(1024 * 1024 * 1024 + 1), "1.0G");
    assert_eq!(NetInterfaceMetric::make_nice_rate(3 * 1024 * 1024 * 1024), "3.0G");
}

#[test]
fn nice_rate_at_its_limit() {
    assert_eq!(MAX_NICE_RATE, 1024 * 1024 * 1024 * 1024);
    assert_eq!(NetInterfaceMetric::make_nice_rate(MAX_NICE_RATE), "1024.0G");
    assert_eq!(NetInterfaceMetric::make_nice_rate(MAX_NICE_RATE - 1), "1024.0G");
    assert_eq!(NetInterfaceMetric::make_nice_rate(MAX_NICE_RATE - (1 << 30)), "1023.0G");
}

#[test]
fn nice_rate_unit_is_one_of_four() {
    let mut i: u64 = 1;
    while i <= MAX_NICE_RATE {
        for j in [i - 1, i, i + 1] {
            if j <= MAX_NICE_RATE {
                let s = NetInterfaceMetric::make_nice_rate(j);
                let last = s.chars().last().unwrap();
                assert!(last.is_ascii_digit() || last == 'K' || last == 'M' || last == 'G');
            }
        }
        i *= 2;
    }
}

#[test]
fn rate_is_bytes_per_second() {
    assert_eq!(rate_per_second(1000, 3000, 2000), 1000);
    assert_eq!(rate_per_second(2000, 6000, 2000), 2000);
    assert_eq!(rate_per_second(0, 1500, 1000), 1500);
    assert_eq!(rate_per_second(0, 1, 3), 333);
    assert_eq!(rate_per_second(5, 5, 1000), 0);
}

#[test]
fn rate_of_a_counter_that_went_back_is_zero() {
    assert_eq!(rate_per_second(3000, 1000, 1000), 0);
}

#[test]
fn rate_is_capped() {
    assert_eq!(rate_per_second(0, u64::MAX, 1), u64::MAX);
    assert_eq!(rate_per_second(0, u64::MAX, 1000), u64::MAX);
    assert_eq!(rate_per_second(0, u64::MAX, 2000), u64::MAX / 2);
}

#[test]
fn can_display_up_to_the_limit() {
    assert!(can_display(&Vec::new()));
    assert!(can_display(&vec![stat("a", MAX_NICE_RATE, 0), stat("b", 0, MAX_NICE_RATE)]));
    assert!(!can_display(&vec![stat("a", MAX_NICE_RATE + 1, 0)]));
    assert!(!can_display(&vec![stat("a", 0, 0), stat("b", 0, MAX_NICE_RATE + 1)]));
}

#[test]
fn format_stats_writes_every_interface() {
    assert_eq!(NetInterfaceMetric::format_stats(Vec::new()), "");
    assert_eq!(
        NetInterfaceMetric::format_stats(vec![stat("eth0", 1000, 2048), stat("lo", 0, 1536)]),
        "eth0: rx:1000.0 tx:2.0K lo: rx:0.0 tx:1.5K "
    );
}

#[test]
fn get_stats_keeps_the_wanted_interfaces_in_file_order() {
    let m = NetInterfaceMetric::new().unwrap();
    let mut wanted: Table<(u64, u64)> = Table::new();
    wanted.insert(String::from("wlan0"), (0, 0));
    wanted.insert(String::from("eth0"), (0, 0));
    let c = net_dev(&[("lo", 1, 2), ("eth0", 1037503524, 40971427), ("wlan0", 5, 6)]);
    assert_eq!(
        m.get_stats(&wanted, &c),
        vec![stat("eth0", 1037503524, 40971427), stat("wlan0", 5, 6)]
    );
}

#[test]
fn get_stats_without_file_is_empty() {
    let m = NetInterfaceMetric::new().unwrap();
    let mut wanted: Table<(u64, u64)> = Table::new();
    wanted.insert(String::from("eth0"), (0, 0));
    assert_eq!(m.get_stats(&wanted, &Counters::new()), Vec::<IFStat>::new());
}

#[test]
fn get_stats_passes_over_lines_that_it_cannot_read() {
    let m = NetInterfaceMetric::new().unwrap();
    let mut wanted: Table<(u64, u64)> = Table::new();
    wanted.insert(String::from("eth0"), (0, 0));
    let mut c = Counters::new();
    c.put(String::from("/net/dev"), String::from("  eth0: 1 2 3\n  eth0: no numbers at all\n"));
    assert_eq!(m.get_stats(&wanted, &c), Vec::<IFStat>::new());
}

#[test]
fn measure_rates_against_the_last_counters() {
    let mut m = selected("eth0");
    assert_eq!(m.measure(vec![stat("eth0", 1000, 2000)], 1000), vec![stat("eth0", 1000, 2000)]);
    // From (1000, 2000) to (3000, 6000) in 2000 ms.
    assert_eq!(m.measure(vec![stat("eth0", 3000, 6000)], 2000), vec![stat("eth0", 1000, 2000)]);
    // Nothing has changed.
    assert_eq!(m.measure(vec![stat("eth0", 3000, 6000)], 2000), vec![stat("eth0", 0, 0)]);
}

#[test]
fn measure_an_interface_that_is_new() {
    let mut m = selected("eth0");
    assert_eq!(m.measure(vec![stat("lo", 500, 600)], 1000), vec![stat("lo", 0, 0)]);
    assert_eq!(m.measure(vec![stat("lo", 1500, 2600)], 1000), vec![stat("lo", 1000, 2000)]);
}

#[test]
fn measure_an_interface_that_is_listed_twice() {
    let mut m = selected("eth0");
    assert_eq!(
        m.measure(vec![stat("eth0", 1000, 0), stat("eth0", 4000, 0)], 1000),
        vec![stat("eth0", 1000, 0), stat("eth0", 3000, 0)]
    );
}

#[test]
fn render_over_without_interfaces_is_not_available() {
    let mut m = NetInterfaceMetric::new().unwrap();
    let r = m.render_over(&net_dev(&[("eth0", 1, 2)]), 1000);
    assert_eq!(r.text(), "n/a");
    assert_eq!(*r.color(), Color::Red);
    assert_eq!(r.name(), "");
}

#[test]
fn render_over_two_cycles() {
    let mut m = selected("eth0,lo");
    let r = m.render_over(&net_dev(&[("lo", 0, 0), ("eth0", 1000, 2000), ("wlan0", 9, 9)]), 1000);
    assert_eq!(r.text(), "lo: rx:0.0 tx:0.0 eth0: rx:1000.0 tx:2.0K ");
    assert_eq!(*r.color(), Color::Green);
    let r = m.render_over(&net_dev(&[("lo", 512, 0), ("eth0", 3000, 6000)]), 2000);
    assert_eq!(r.text(), "lo: rx:256.0 tx:0.0 eth0: rx:1000.0 tx:2.0K ");
    assert_eq!(*r.color(), Color::Green);
}

#[test]
fn render_over_without_file_shows_nothing() {
    let mut m = selected("eth0");
    let r = m.render_over(&Counters::new(), 1000);
    assert_eq!(r.text(), "");
    assert_eq!(*r.color(), Color::Green);
}

#[test]
fn render_over_a_rate_beyond_the_limit_is_not_available() {
    let mut m = selected("eth0");
    let r = m.render_over(&net_dev(&[("eth0", u64::MAX, 0)]), 1);
    assert_eq!(r.text(), "n/a");
    assert_eq!(*r.color(), Color::Red);
    // The counters were kept all the same.
    let r = m.render_over(&net_dev(&[("eth0", u64::MAX, 1000)]), 1000);
    assert_eq!(r.text(), "eth0: rx:0.0 tx:1000.0 ");
}

#[test]
fn init_without_argument_selects_nothing() {
    let mut m = NetInterfaceMetric::new().unwrap();
    let mut st = MetricState::new();
    m.init(&mut st, None, &Counters::new());
    let r = m.render_over(&net_dev(&[("eth0", 1, 2)]), 1000);
    assert_eq!(r.text(), "n/a");
    assert!(matches!(st.get(&String::from("since")), StateValue::Int(_)));
    assert_eq!(st.last_called(), 0);
}

#[test]
fn render_leaves_the_state_alone() {
    let mut m = selected("eth0");
    let mut st = MetricState::new();
    st.stamp(1000);
    let r = m.render(&mut st, &net_dev(&[("eth0", 0, 0)]));
    assert_eq!(r.text(), "eth0: rx:0.0 tx:0.0 ");
    assert_eq!(st.last_called(), 1000);
    assert_eq!(m.source(), Some(String::from("/net/dev")));
}

#[test]
fn net_metric_can_be_made() {
    assert!(make_net_metric().is_some());
}

#[test]
fn nice_rate_rounds_to_the_nearest_tenth() {
    // 1.25 and 1.75 are as near to the tenth below as to the one above.
    assert_eq!(NetInterfaceMetric::make_nice_rate(1280), "1.2K");
    assert_eq!(NetInterfaceMetric::make_nice_rate(1792), "1.8K");
    assert_eq!(NetInterfaceMetric::make_nice_rate(1331), "1.3K");
    assert_eq!(NetInterfaceMetric::make_nice_rate(1075), "1.0K");
    assert_eq!(NetInterfaceMetric::make_nice_rate(1076), "1.1K");
    assert_eq!(NetInterfaceMetric::make_nice_rate(1024 * 1024 - 1), "1024.0K");
    assert_eq!(NetInterfaceMetric::make_nice_rate(10 * 1024 * 1024 - 1), "10.0M");
}

/// The rate as floating-point arithmetic writes it.
fn nice_rate_in_floats(i: u64) -> String {
    let units = ["", "K", "M", "G"];
    let mut u = 0;
    let mut f = i as f64;
    while f / 1024. > 1. {
        f = f / 1024.;
        u += 1;
    }
    format!("{:.1}{}", f, units[u])
}

#[test]
fn nice_rate_is_what_floating_point_writes() {
    for i in 0..5000u64 {
        assert_eq!(NetInterfaceMetric::make_nice_rate(i), nice_rate_in_floats(i), "{}", i);
    }
    let mut x: u64 = 88172645463325252;
    for _ in 0..20000 {
        // A xorshift generator.
        x ^= x << 13;
        x ^= x >> 7;
        x ^= x << 17;
        for shift in [24u32, 30, 40, 52] {
            let i = (x >> shift) % (MAX_NICE_RATE + 1);
            assert_eq!(NetInterfaceMetric::make_nice_rate(i), nice_rate_in_floats(i), "{}", i);
        }
    }
    let mut p: u64 = 1;
    while p <= MAX_NICE_RATE {
        for d in 0..130u64 {
            for i in [p.saturating_sub(d), p + d] {
                if i <= MAX_NICE_RATE {
                    assert_eq!(
                        NetInterfaceMetric::make_nice_rate(i),
                        nice_rate_in_floats(i),
                        "{}",
                        i
                    );
                }
            }
        }
        p *= 2;
    }
}

#[test]
fn measure_keeps_what_is_not_reported() {
    let mut m = selected("eth0,lo");
    m.measure(vec![stat("eth0", 1000, 2000), stat("lo", 10, 20)], 1000);
    // Only eth0 is reported; lo keeps its counters.
    assert_eq!(m.measure(vec![stat("eth0", 3000, 6000)], 2000), vec![stat("eth0", 1000, 2000)]);
    assert_eq!(
        m.measure(vec![stat("lo", 1010, 20), stat("eth0", 3000, 6000)], 1000),
        vec![stat("lo", 1000, 0), stat("eth0", 0, 0)]
    );
}
