use myi3stat::framework::ActiveMetric;
use myi3stat::framework::Color;
use myi3stat::framework::MetricState;
use myi3stat::framework::RenderResult;
use myi3stat::helper::Counters;
use myi3stat::metrics::cpu_load::make_cpu_load_metric;
use myi3stat::metrics::load::make_load_metric;
use myi3stat::metrics::net::make_net_metric;
use myi3stat::metrics::time::clock_metric;
use myi3stat::render::make_i3status;
use myi3stat::render::make_plaintextrenderer;
use myi3stat::render::render_all;
use myi3stat::render::rest_of;
use myi3stat::render::sources_of;
use myi3stat::render::Emission;
use myi3stat::render::I3statRenderer;
use myi3stat::render::PlainTextRenderer;
use myi3stat::render::RenderLoop;
use myi3stat::render::Renderer;

fn result(name: &str, text: &str, color: Color) -> RenderResult {
    RenderResult::new(String::from(text), color).named(String::from(name))
}

fn counters() -> Counters {
    let mut c = Counters::new();
    c.put(String::from("/loadavg"), String::from("0.10 0.20 0.30 1/2 3\n"));
    c.put(String::from("/stat"), String::from("cpu  0 0 0 0\ncpu0 0 0 0 0\n"));
    c
}

fn load_and_cpu() -> Vec<ActiveMetric> {
    vec![
        ActiveMetric::new(String::from("load"), make_load_metric().unwrap(), MetricState::new()),
        ActiveMetric::new(
            String::from("cpu_load"),
            make_cpu_load_metric(100).unwrap(),
            MetricState::new(),
        ),
    ]
}

const LOAD_JSON: &str =
    "{\"name\": \"load\",\"color\":\"#00ff00\",\"markup\":\"none\",\"full_text\":\" 0.10  0.20  0.30\"}";

const CPU_JSON: &str =
    "{\"name\": \"cpu_load\",\"color\":\"#ffffff\",\"markup\":\"none\",\"full_text\":\"   0%\"}";

#[test]
fn ansi_of_every_tag() {
    for (color, ansi) in [
        (Color::Arbitrary(String::from("#123456")), "\x1b[0m"),
        (Color::Default, "\x1b[0m"),
        (Color::White, "\x1b[37m"),
        (Color::Red, "\x1b[31m"),
        (Color::Green, "\x1b[32m"),
        (Color::Blue, "\x1b[34m"),
        (Color::Black, "\x1b[30m"),
        (Color::Orange, "\x1b[31;1m"),
        (Color::Purple, "\x1b[35m"),
    ] {
        assert_eq!(PlainTextRenderer::color_to_ansi(color.clone()), ansi);
        assert_eq!(
            PlainTextRenderer::color_to_ansi(color.clone()),
            PlainTextRenderer::color_to_ansi(color)
        );
    }
}

#[test]
fn i3_frame_of_nothing() {
    assert_eq!(I3statRenderer::frame(&Vec::new()), ",[]");
}

#[test]
fn i3_frame_of_one() {
    let results = vec![result("clock", "12:00", Color::Default)];
    assert_eq!(
        I3statRenderer::frame(&results),
        ",[{\"name\": \"clock\",\"color\":\"#ffffff\",\"markup\":\"none\",\"full_text\":\"12:00\"}]"
    );
}

#[test]
fn i3_frame_of_two() {
    let results = vec![result("a", "x", Color::Red), result("b", "y", Color::Green)];
    assert_eq!(
        I3statRenderer::frame(&results),
        ",[{\"name\": \"a\",\"color\":\"#ff0000\",\"markup\":\"none\",\"full_text\":\"x\"},{\"name\": \"b\",\"color\":\"#00ff00\",\"markup\":\"none\",\"full_text\":\"y\"}]"
    );
}

#[test]
fn i3_frames_begin_with_a_comma_and_are_in_brackets() {
    let mut results = Vec::new();
    for i in 0..4 {
        let frame = I3statRenderer::frame(&results);
        assert!(frame.starts_with(",["));
        assert!(frame.ends_with("]"));
        results.push(result("m", &format!("[{}],", i), Color::Blue));
    }
}

#[test]
fn i3_header() {
    let mut r = I3statRenderer::new();
    assert_eq!(r.init(Vec::new()), "{\"version\":1}\n[[]\n");
    assert_eq!(r.render(&Counters::new()), ",[]");
}

#[test]
fn i3_render_in_the_order_of_the_metrics() {
    let mut r = make_i3status();
    r.init(load_and_cpu());
    assert_eq!(r.render(&counters()), format!(",[{},{}]", LOAD_JSON, CPU_JSON));
    assert_eq!(r.render(&counters()), format!(",[{},{}]", LOAD_JSON, CPU_JSON));
    assert_eq!(r.sources(), vec!["/loadavg", "/stat"]);
}

#[test]
fn plain_frame() {
    assert_eq!(PlainTextRenderer::frame(&Vec::new()), "");
    let results = vec![result("a", "x", Color::Red), result("b", "y", Color::Default)];
    assert_eq!(
        PlainTextRenderer::frame(&results),
        "\x1b[31mx\x1b[0m | \x1b[0my\x1b[0m | "
    );
}

#[test]
fn plain_render() {
    let mut r = make_plaintextrenderer();
    assert_eq!(r.init(load_and_cpu()), "");
    assert_eq!(
        r.render(&counters()),
        "\x1b[32m 0.10  0.20  0.30\x1b[0m | \x1b[0m   0%\x1b[0m | "
    );
    assert_eq!(r.sources(), vec!["/loadavg", "/stat"]);
}

#[test]
fn render_all_names_the_results() {
    let mut metrics = load_and_cpu();
    let results = render_all(&mut metrics, &counters());
    assert_eq!(results.len(), 2);
    assert_eq!(results[0].name(), "load");
    assert_eq!(results[0].text(), " 0.10  0.20  0.30");
    assert_eq!(results[1].name(), "cpu_load");
    assert_eq!(metrics[0].name(), "load");
    assert_eq!(metrics[1].name(), "cpu_load");
}

#[test]
fn sources_of_the_metrics() {
    let metrics = vec![
        ActiveMetric::new(String::from("clock"), clock_metric(), MetricState::new()),
        ActiveMetric::new(String::from("netif"), make_net_metric().unwrap(), MetricState::new()),
        ActiveMetric::new(String::from("load"), make_load_metric().unwrap(), MetricState::new()),
    ];
    assert_eq!(sources_of(&metrics), vec!["/net/dev", "/loadavg"]);
    assert_eq!(sources_of(&Vec::new()), Vec::<String>::new());
}

#[test]
fn rest_between_frames() {
    assert_eq!(rest_of(1000), (1, 0));
    assert_eq!(rest_of(1500), (1, 500_000_000));
    assert_eq!(rest_of(250), (0, 250_000_000));
    assert_eq!(rest_of(0), (0, 0));
    assert_eq!(rest_of(-1), (0, 0));
    assert_eq!(rest_of(i32::MIN), (0, 0));
    assert_eq!(rest_of(i32::MAX), (2147483, 647_000_000));
}

#[test]
fn loop_emits_the_header_once_and_first() {
    let mut l = RenderLoop::new(make_i3status(), load_and_cpu(), 1500);
    assert_eq!(l.sources(), vec!["/loadavg", "/stat"]);
    match l.step(&counters()) {
        Emission::Header(text) => assert_eq!(text, "{\"version\":1}\n[[]\n"),
        Emission::Frame(..) => panic!("a frame before the header"),
    }
    assert_eq!(l.sources(), vec!["/loadavg", "/stat"]);
    for _ in 0..5 {
        match l.step(&counters()) {
            Emission::Header(_) => panic!("a second header"),
            Emission::Frame(text, secs, nanos) => {
                assert_eq!(text, format!(",[{},{}]", LOAD_JSON, CPU_JSON));
                assert_eq!((secs, nanos), (1, 500_000_000));
            },
        }
    }
}

#[test]
fn loop_of_the_plain_renderer() {
    let mut l = RenderLoop::new(make_plaintextrenderer(), Vec::new(), -5);
    match l.step(&Counters::new()) {
        Emission::Header(text) => assert_eq!(text, ""),
        Emission::Frame(..) => panic!("a frame before the header"),
    }
    match l.step(&Counters::new()) {
        Emission::Header(_) => panic!("a second header"),
        Emission::Frame(text, secs, nanos) => {
            assert_eq!(text, "");
            assert_eq!((secs, nanos), (0, 0));
        },
    }
}

#[test]
fn loop_emits_a_frame_and_a_rest() {
    match RenderLoop::emit_frame(String::from(",[]"), 2250) {
        Emission::Header(_) => panic!("a header for a frame"),
        Emission::Frame(text, secs, nanos) => {
            assert_eq!(text, ",[]");
            assert_eq!((secs, nanos), (2, 250_000_000));
        },
    }
}
