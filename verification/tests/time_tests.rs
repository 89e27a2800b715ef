use myi3stat::framework::Color;
use myi3stat::framework::Metric;
use myi3stat::framework::MetricState;
use myi3stat::framework::StateValue;
use myi3stat::helper::Counters;
use myi3stat::metrics::time::clock_metric;
use myi3stat::metrics::time::TimeMetric;
use myi3stat::metrics::time::DEFAULT_FMT;

#[test]
fn clock_default_pattern() {
    assert_eq!(DEFAULT_FMT, "%a %b %d %H:%M:%S %Y %Z");
    let st = MetricState::new();
    assert_eq!(TimeMetric::fmt(&st), DEFAULT_FMT);
}

#[test]
fn clock_init_keeps_the_pattern() {
    let mut m = TimeMetric {};
    let mut st = MetricState::new();
    m.init(&mut st, Some(String::from("%H:%M")), &Counters::new());
    assert_eq!(TimeMetric::fmt(&st), "%H:%M");
    assert_eq!(st.get(&String::from("format")), StateValue::Str(String::from("%H:%M")));
    let mut st = MetricState::new();
    m.init(&mut st, None, &Counters::new());
    assert_eq!(TimeMetric::fmt(&st), DEFAULT_FMT);
}

#[test]
fn clock_shows_what_was_formatted() {
    let r = TimeMetric::show(Some(String::from("12:34")));
    assert_eq!(r.text(), "12:34");
    assert_eq!(*r.color(), Color::Default);
    assert_eq!(r.name(), "");
    let r = TimeMetric::show(None);
    assert_eq!(r.text(), "n/a");
    assert_eq!(*r.color(), Color::Red);
}

#[test]
fn clock_renders_the_year() {
    let mut m = clock_metric();
    let mut st = MetricState::new();
    m.init(&mut st, Some(String::from("year %Y")), &Counters::new());
    let r = m.render(&mut st, &Counters::new());
    let text = r.text();
    assert!(text.starts_with("year "));
    let year: i32 = text[5..].parse().unwrap();
    assert!(year >= 2020 && year < 2100);
    assert_eq!(*r.color(), Color::Default);
    assert_eq!(st.last_called(), 0);
}

#[test]
fn clock_renders_literal_text() {
    let mut m = clock_metric();
    let mut st = MetricState::new();
    m.init(&mut st, Some(String::from("now")), &Counters::new());
    assert_eq!(m.render(&mut st, &Counters::new()).text(), "now");
}

#[test]
fn clock_with_the_default_pattern() {
    let mut m = clock_metric();
    let mut st = MetricState::new();
    let r = m.render(&mut st, &Counters::new());
    assert_eq!(*r.color(), Color::Default);
    // Weekday, month, day, time, year, zone.
    assert!(r.text().split(' ').filter(|p| !p.is_empty()).count() >= 6);
    assert_eq!(m.source(), None);
}

#[test]
fn clock_with_a_pattern_that_cannot_be_used() {
    let mut m = clock_metric();
    let mut st = MetricState::new();
    m.init(&mut st, Some(String::from("%H:%M %!")), &Counters::new());
    let r = m.render(&mut st, &Counters::new());
    assert_eq!(r.text(), "n/a");
    assert_eq!(*r.color(), Color::Red);
}

#[test]
fn clock_at_a_given_instant() {
    let mut m = TimeMetric {};
    let mut st = MetricState::new();
    m.init(&mut st, Some(String::from("%Y %b")), &Counters::new());
    // The first of July 1970, at noon.
    let r = TimeMetric::render_at(&st, 15_681_600, 0);
    assert_eq!(r.text(), "1970 Jul");
    assert_eq!(*r.color(), Color::Default);
    // The first of July 2001.
    let r = TimeMetric::render_at(&st, 993_988_800, 999_999_999);
    assert_eq!(r.text(), "2001 Jul");
}

#[test]
fn clock_at_an_instant_without_a_date() {
    let st = MetricState::new();
    let r = TimeMetric::render_at(&st, i64::MAX, 0);
    assert_eq!(r.text(), "n/a");
    assert_eq!(*r.color(), Color::Red);
    let r = TimeMetric::render_at(&st, 0, 2_000_000_000);
    assert_eq!(r.text(), "n/a");
}

#[test]
fn clock_fractions_of_a_second() {
    let mut m = TimeMetric {};
    let mut st = MetricState::new();
    m.init(&mut st, Some(String::from("%S%.3f")), &Counters::new());
    let r = TimeMetric::render_at(&st, 15_681_607, 250_000_000);
    assert_eq!(r.text(), "07.250");
}
