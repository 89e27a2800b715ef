use myi3stat::framework::Color;
use myi3stat::framework::Metric;
use myi3stat::framework::MetricState;
use myi3stat::helper::Counters;
use myi3stat::metrics::load::format_load;
use myi3stat::metrics::load::make_load_metric;
use myi3stat::metrics::load::parse_hundredths;
use myi3stat::metrics::load::rounds_up_of;
use myi3stat::metrics::load::LoadAvg;

fn loadavg(text: &str) -> Counters {
    let mut c = Counters::new();
    c.put(String::from("/loadavg"), String::from(text));
    c
}

#[test]
fn color_bands() {
    assert_eq!(LoadAvg::get_color(Some(0)), Color::Green);
    assert_eq!(LoadAvg::get_color(Some(149)), Color::Green);
    assert_eq!(LoadAvg::get_color(Some(150)), Color::Orange);
    assert_eq!(LoadAvg::get_color(Some(299)), Color::Orange);
    assert_eq!(LoadAvg::get_color(Some(300)), Color::Red);
    assert_eq!(LoadAvg::get_color(Some(u64::MAX)), Color::Red);
}

#[test]
fn color_of_no_number_is_none_of_the_bands() {
    let c = LoadAvg::get_color(None);
    assert_eq!(c, Color::Default);
    assert!(c != Color::Green && c != Color::Orange && c != Color::Red);
}

#[test]
fn color_bands_from_text() {
    let m = LoadAvg::new().unwrap();
    for (text, color) in [
        ("0.0 0.0 0.0", Color::Green),
        ("1.49 9.0 9.0", Color::Green),
        ("1.5 0.0 0.0", Color::Orange),
        ("2.99 0.0 0.0", Color::Orange),
        ("3.0 0.0 0.0", Color::Red),
        ("17.25 0.0 0.0", Color::Red),
    ] {
        assert_eq!(m.read_load_avg(&loadavg(text)).1, color, "{}", text);
    }
}

#[test]
fn hundredths() {
    assert_eq!(parse_hundredths("0.00"), Some(0));
    assert_eq!(parse_hundredths("1.49"), Some(149));
    assert_eq!(parse_hundredths("1.5"), Some(150));
    assert_eq!(parse_hundredths("3"), Some(300));
    assert_eq!(parse_hundredths("3."), Some(300));
    assert_eq!(parse_hundredths(".5"), Some(50));
    assert_eq!(parse_hundredths("0.999"), Some(99));
    assert_eq!(parse_hundredths("012.345"), Some(1234));
    assert_eq!(parse_hundredths("184467440737095516.15"), Some(u64::MAX));
}

#[test]
fn hundredths_of_what_is_no_number() {
    assert_eq!(parse_hundredths(""), None);
    assert_eq!(parse_hundredths("."), None);
    assert_eq!(parse_hundredths("1.2.3"), None);
    assert_eq!(parse_hundredths("1..2"), None);
    assert_eq!(parse_hundredths("a"), None);
    assert_eq!(parse_hundredths("1.a"), None);
    assert_eq!(parse_hundredths("1a.5"), None);
    assert_eq!(parse_hundredths("-1.5"), None);
    assert_eq!(parse_hundredths("1.500x"), None);
    assert_eq!(parse_hundredths("184467440737095516.16"), None);
    assert_eq!(parse_hundredths("184467440737095517"), None);
    assert_eq!(parse_hundredths("99999999999999999999999999"), None);
}

#[test]
fn load_with_two_decimals() {
    assert_eq!(format_load(Some(0)), " 0.00");
    assert_eq!(format_load(Some(5)), " 0.05");
    assert_eq!(format_load(Some(149)), " 1.49");
    assert_eq!(format_load(Some(1234)), "12.34");
    assert_eq!(format_load(Some(123456)), "1234.56");
    assert_eq!(format_load(None), " 0.00");
}

#[test]
fn load_averages_of_a_real_line() {
    let m = LoadAvg::new().unwrap();
    let (text, color) = m.read_load_avg(&loadavg("0.52 1.58 12.06 2/1345 12345\n"));
    assert_eq!(text, " 0.52  1.58 12.06");
    assert_eq!(color, Color::Green);
}

#[test]
fn load_averages_without_file() {
    let m = LoadAvg::new().unwrap();
    let (text, color) = m.read_load_avg(&Counters::new());
    assert_eq!(text, " 0.00  0.00  0.00");
    assert_eq!(color, Color::Green);
}

#[test]
fn load_averages_that_cannot_be_found() {
    let m = LoadAvg::new().unwrap();
    for text in ["", "garbage", "0.5 0.6", "one two three"] {
        let (shown, color) = m.read_load_avg(&loadavg(text));
        assert_eq!(shown, "0.0 0.0 0.0", "{:?}", text);
        assert_eq!(color, Color::Purple);
        assert!(color != Color::Green && color != Color::Orange && color != Color::Red);
    }
}

#[test]
fn load_average_that_is_no_number() {
    let m = LoadAvg::new().unwrap();
    let (text, color) = m.read_load_avg(&loadavg("1.2.3 0.50 4.00"));
    assert_eq!(text, " 0.00  0.50  4.00");
    assert_eq!(color, Color::Default);
    let (text, color) = m.read_load_avg(&loadavg("0.10 ... 4.00"));
    assert_eq!(text, " 0.10  0.00  4.00");
    assert_eq!(color, Color::Green);
}

#[test]
fn load_render() {
    let mut m = LoadAvg::new().unwrap();
    let mut st = MetricState::new();
    m.init(&mut st, None, &Counters::new());
    let r = m.render(&mut st, &loadavg("3.10 2.00 1.00 1/2 3"));
    assert_eq!(r.text(), " 3.10  2.00  1.00");
    assert_eq!(*r.color(), Color::Red);
    assert_eq!(r.name(), "");
    assert_eq!(st.last_called(), 0);
    assert_eq!(m.source(), Some(String::from("/loadavg")));
    assert!(make_load_metric().is_some());
}

#[test]
fn load_with_two_decimals_is_what_floating_point_writes() {
    for h in (0..3000u64).chain([9999, 10000, 12345, 99999, 100000, 1234567]) {
        let text = format!("{}.{:02}", h / 100, h % 100);
        assert_eq!(parse_hundredths(&text), Some(h), "{}", text);
        let float: f64 = text.parse().unwrap();
        assert_eq!(format_load(Some(h)), format!("{:5.2}", float), "{}", text);
    }
}

#[test]
fn color_bands_are_those_of_floating_point() {
    for h in 0..1000u64 {
        let f = (h as f64) / 100.0;
        let want = if f >= 0. && f < 1.5 {
            Color::Green
        } else if f >= 1.5 && f < 3. {
            Color::Orange
        } else {
            Color::Red
        };
        assert_eq!(LoadAvg::get_color(Some(h)), want, "{}", h);
    }
}

#[test]
fn decimals_beyond_the_second_round_to_the_nearest() {
    assert!(!rounds_up_of("0.99", 99));
    assert!(!rounds_up_of("0.994", 99));
    assert!(rounds_up_of("0.996", 99));
    assert!(rounds_up_of("0.9951", 99));
    assert!(rounds_up_of("0.99500001", 99));
    assert!(!rounds_up_of("3", 300));
    assert!(!rounds_up_of("3.", 300));
    assert!(!rounds_up_of(".5", 50));
    assert!(!rounds_up_of("", 0));
}

#[test]
fn decimals_halfway_round_to_the_even_hundredth() {
    assert!(rounds_up_of("0.995", 99));
    assert!(rounds_up_of("0.99500", 99));
    assert!(!rounds_up_of("0.985", 98));
    assert!(!rounds_up_of("0.9850000", 98));
    assert!(rounds_up_of("1.495", 149));
}

#[test]
fn load_averages_with_more_decimals() {
    let m = LoadAvg::new().unwrap();
    let (text, color) = m.read_load_avg(&loadavg("0.999 1.4949 2.996"));
    assert_eq!(text, " 1.00  1.49  3.00");
    assert_eq!(color, Color::Green);
    // The color goes by the number itself, the text by the nearest hundredth.
    let (text, color) = m.read_load_avg(&loadavg("1.496 0.0 0.0"));
    assert_eq!(text, " 1.50  0.00  0.00");
    assert_eq!(color, Color::Green);
    let (text, color) = m.read_load_avg(&loadavg("2.999 0.0 0.0"));
    assert_eq!(text, " 3.00  0.00  0.00");
    assert_eq!(color, Color::Orange);
}

#[test]
fn load_with_three_decimals_is_what_floating_point_writes() {
    let m = LoadAvg::new().unwrap();
    for t in 0..4000u64 {
        // A third decimal of 5 is as near to one hundredth as to the next; there
        // floating point goes by how it holds the number.
        if t % 10 == 5 {
            continue;
        }
        let first = format!("{}.{:03}", t / 1000, t % 1000);
        let float: f64 = first.parse().unwrap();
        let (text, color) = m.read_load_avg(&loadavg(&format!("{} 0.00 0.00", first)));
        assert_eq!(text, format!("{:5.2}  0.00  0.00", float), "{}", first);
        let want = if float < 1.5 {
            Color::Green
        } else if float < 3. {
            Color::Orange
        } else {
            Color::Red
        };
        assert_eq!(color, want, "{}", first);
    }
}

#[test]
fn whole_and_nearest_hundredths() {
    assert_eq!(LoadAvg::whole(Some((149, 150))), Some(149));
    assert_eq!(LoadAvg::nearest(Some((149, 150))), Some(150));
    assert_eq!(LoadAvg::whole(None), None);
    assert_eq!(LoadAvg::nearest(None), None);
}
