use myi3stat::framework::epoch_millis;
use myi3stat::framework::ActiveMetric;
use myi3stat::framework::Color;
use myi3stat::framework::MetricState;
use myi3stat::framework::RenderResult;
use myi3stat::framework::Slot;
use myi3stat::framework::StateValue;
use myi3stat::helper::Counters;
use myi3stat::metrics::time::clock_metric;

fn palette() -> Vec<(Color, &'static str)> {
    vec![
        (Color::Default, "#ffffff"),
        (Color::White, "#ffffff"),
        (Color::Red, "#ff0000"),
        (Color::Green, "#00ff00"),
        (Color::Blue, "#0000ff"),
        (Color::Black, "#000000"),
        (Color::Orange, "#e8a317"),
        (Color::Purple, "#8d0552"),
        (Color::Arbitrary(String::from("#1234aa")), "#1234aa"),
    ]
}

#[test]
fn color_hex_of_every_tag() {
    for (color, hex) in palette() {
        assert_eq!(color.to_string(), hex);
    }
}

#[test]
fn color_hex_is_the_same_on_every_call() {
    for (color, _) in palette() {
        let first = color.to_string();
        let second = color.to_string();
        let third = color.clone().to_string();
        assert_eq!(first, second);
        assert_eq!(first, third);
    }
}

#[test]
fn color_clone_is_equal() {
    for (color, _) in palette() {
        assert_eq!(color.clone(), color);
    }
}

#[test]
fn render_result_new_has_no_name() {
    let r = RenderResult::new(String::from("text"), Color::Green);
    assert_eq!(r.name(), "");
    assert_eq!(r.text(), "text");
    assert_eq!(*r.color(), Color::Green);
}

#[test]
fn render_result_named_keeps_the_rest() {
    let r = RenderResult::new(String::from("text"), Color::Blue).named(String::from("clock"));
    assert_eq!(r.name(), "clock");
    assert_eq!(r.text(), "text");
    assert_eq!(*r.color(), Color::Blue);
}

#[test]
fn render_result_to_json() {
    let r = RenderResult::new(String::from("12:00"), Color::Red).named(String::from("clock"));
    assert_eq!(
        r.to_json(),
        "{\"name\": \"clock\",\"color\":\"#ff0000\",\"markup\":\"none\",\"full_text\":\"12:00\"}"
    );
    let r = RenderResult::new(String::new(), Color::Arbitrary(String::from("#abcdef")));
    assert_eq!(
        r.to_json(),
        "{\"name\": \"\",\"color\":\"#abcdef\",\"markup\":\"none\",\"full_text\":\"\"}"
    );
}

#[test]
fn epoch_millis_of_seconds_and_nanoseconds() {
    assert_eq!(epoch_millis(0, 0), 0);
    assert_eq!(epoch_millis(1, 500_000_000), 1500);
    assert_eq!(epoch_millis(1_000_000_000, 555_999_999), 1_000_000_000_555);
    assert_eq!(epoch_millis(-1, 0), -1000);
    assert_eq!(epoch_millis(5, 1_999_999_999), 6999);
    assert_eq!(epoch_millis(i64::MAX, 0), i64::MAX);
    assert_eq!(epoch_millis(i64::MIN, 0), i64::MIN);
}

#[test]
fn now_is_a_present_day_timestamp_in_milliseconds() {
    let a = MetricState::now();
    let b = MetricState::now();
    // After 2020 and before 2100.
    assert!(a > 1_577_836_800_000);
    assert!(a < 4_102_444_800_000);
    assert!(b >= a - 60_000);
}

#[test]
fn state_starts_empty() {
    let st = MetricState::new();
    assert_eq!(st.last_called(), 0);
    assert_eq!(st.get(&String::from("anything")), StateValue::Empty);
    assert_eq!(st.get(&String::new()), StateValue::Empty);
}

#[test]
fn state_set_and_get() {
    let mut st = MetricState::new();
    st.set(String::from("s"), StateValue::Str(String::from("text")));
    st.set(String::from("i"), StateValue::Int(-5));
    st.set(String::from("c"), StateValue::Color(Color::Orange));
    st.set(String::from("n"), StateValue::Strings(vec![String::from("eth0"), String::from("lo")]));
    assert_eq!(st.get(&String::from("s")), StateValue::Str(String::from("text")));
    assert_eq!(st.get(&String::from("i")), StateValue::Int(-5));
    assert_eq!(st.get(&String::from("c")), StateValue::Color(Color::Orange));
    assert_eq!(
        st.get(&String::from("n")),
        StateValue::Strings(vec![String::from("eth0"), String::from("lo")])
    );
    assert_eq!(st.get(&String::from("x")), StateValue::Empty);
    st.set(String::from("i"), StateValue::Int(6));
    assert_eq!(st.get(&String::from("i")), StateValue::Int(6));
    assert_eq!(st.get(&String::from("s")), StateValue::Str(String::from("text")));
    assert_eq!(st.last_called(), 0);
}

#[test]
fn state_stamp_sets_the_time() {
    let mut st = MetricState::new();
    st.stamp(1000);
    assert_eq!(st.last_called(), 1000);
    st.stamp(3000);
    assert_eq!(st.last_called(), 3000);
    // A clock that was set back is followed.
    st.stamp(2000);
    assert_eq!(st.last_called(), 2000);
    st.stamp(-5);
    assert_eq!(st.last_called(), -5);
}

#[test]
fn state_elapsed_after_the_clock_was_set_back() {
    let mut st = MetricState::new();
    st.stamp(10_000);
    st.stamp(4_000);
    assert_eq!(st.elapsed(5_000), 1000);
}

#[test]
fn state_elapsed_since_last_render() {
    let mut st = MetricState::new();
    st.stamp(10_000);
    assert_eq!(st.elapsed(12_000), 2000);
    assert_eq!(st.elapsed(10_001), 1);
}

#[test]
fn state_elapsed_is_never_below_one() {
    let mut st = MetricState::new();
    st.stamp(10_000);
    assert_eq!(st.elapsed(10_000), 1);
    assert_eq!(st.elapsed(9_000), 1);
    assert_eq!(st.elapsed(i64::MIN), 1);
}

#[test]
fn state_elapsed_before_first_render_counts_from_begin() {
    let mut st = MetricState::new();
    assert_eq!(st.elapsed(5000), 5000);
    st.begin(4000);
    assert_eq!(st.get(&String::from("since")), StateValue::Int(4000));
    assert_eq!(st.elapsed(5000), 1000);
    assert_eq!(st.elapsed(4000), 1);
    st.stamp(4500);
    assert_eq!(st.elapsed(5000), 500);
}

#[test]
fn state_elapsed_at_the_limits() {
    let mut st = MetricState::new();
    st.begin(i64::MIN);
    assert_eq!(st.elapsed(i64::MAX), u64::MAX);
}

#[test]
fn active_metric_puts_its_name_on_the_result() {
    let mut m = ActiveMetric::new(String::from("clock"), clock_metric(), MetricState::new());
    assert_eq!(m.name(), "clock");
    assert_eq!(m.source(), None);
    let r = m.render(&Counters::new());
    assert_eq!(r.name(), "clock");
    assert_eq!(m.name(), "clock");
}

#[test]
fn active_metric_finish_names_and_stamps() {
    let mut m = ActiveMetric::new(String::from("load"), clock_metric(), MetricState::new());
    assert_eq!(m.last_called(), 0);
    let r = m.finish(RenderResult::new(String::from("0.5"), Color::Green), 5000);
    assert_eq!(r.name(), "load");
    assert_eq!(r.text(), "0.5");
    assert_eq!(*r.color(), Color::Green);
    assert_eq!(m.name(), "load");
    assert_eq!(m.last_called(), 5000);
    m.finish(RenderResult::new(String::new(), Color::Default), 4000);
    assert_eq!(m.last_called(), 4000);
    m.finish(RenderResult::new(String::new(), Color::Default), 6000);
    assert_eq!(m.last_called(), 6000);
}

#[test]
fn active_metric_render_sets_the_time_to_the_present() {
    let mut st = MetricState::new();
    // A stamp far ahead of the clock.
    st.stamp(i64::MAX);
    let mut m = ActiveMetric::new(String::from("clock"), clock_metric(), st);
    let before = MetricState::now();
    m.render(&Counters::new());
    let first = m.last_called();
    assert!(first >= before - 60_000);
    assert!(first < 4_102_444_800_000);
    m.render(&Counters::new());
    assert!(m.last_called() >= first - 60_000);
}

#[test]
fn slot_holds_what_it_was_given() {
    let s = Slot::new(7u32);
    assert_eq!(s.item, 7);
    assert_eq!(s.take(), 7);
}

#[test]
fn active_metric_bound_from_a_slot() {
    let mut m = ActiveMetric::bind(
        String::from("clock"),
        Slot::new(clock_metric()),
        MetricState::new(),
    );
    assert_eq!(m.name(), "clock");
    assert_eq!(m.source(), None);
    assert_eq!(m.last_called(), 0);
    let r = m.render(&Counters::new());
    assert_eq!(r.name(), "clock");
    assert_eq!(*r.color(), Color::Default);
}
