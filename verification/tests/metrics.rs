use stats_exporter::decimal::Decimal;
use stats_exporter::docker::DockerContainerStats;
use stats_exporter::error::{ApiError, Field};
use stats_exporter::gauge::{gauges_for_container, get_gauge, percent_gauge, MetricSample};
use stats_exporter::registry::{
    docker_stats_metrics, escape_help, get_prometheus_format, sample_lines, MetricsRegistry,
};

fn record(container: &str, cpu: &str, mem: &str, net: &str) -> DockerContainerStats {
    DockerContainerStats {
        container: container.to_string(),
        cpu_perc: cpu.to_string(),
        mem_perc: mem.to_string(),
        net_io: net.to_string(),
    }
}

fn sample(name: &str, help: &str, value: &str) -> MetricSample {
    get_gauge(name.to_string(), help.to_string(), Decimal::parse(value).unwrap()).unwrap()
}

fn is_metric_name(name: &str) -> bool {
    let mut chars = name.chars();
    match chars.next() {
        Some(c) if c.is_ascii_alphabetic() || c == '_' => {}
        _ => return false,
    }
    chars.all(|c| c.is_ascii_alphanumeric() || c == '_')
}

fn origin_of(e: &ApiError) -> (String, String, Field) {
    match e {
        ApiError::Parse { text, origin: Some(o) } => (text.clone(), o.container.clone(), o.field),
        other => panic!("unexpected: {:?}", other),
    }
}

#[test]
fn get_gauge_replaces_hyphens() {
    let s = sample("web-app-1_cpu_usage", "some help", "5.5");
    assert_eq!(s.name(), "web_app_1_cpu_usage");
    assert_eq!(s.help(), "some help");
    assert_eq!(s.value().to_text(), "5.5");
}

#[test]
fn get_gauge_rejects_what_is_no_metric_name() {
    for bad in ["", "1abc", "a.b", "a b", "a:b", "caf\u{e9}", "a/b", "9"] {
        match get_gauge(bad.to_string(), "h".to_string(), Decimal::zero()) {
            Err(ApiError::Parse { text, origin: None }) => assert_eq!(text, bad),
            other => panic!("{:?} gave {:?}", bad, other),
        }
    }
}

#[test]
fn get_gauge_accepts_metric_names() {
    for good in ["a", "_", "_1", "A9_z", "-", "-x-", "x-1"] {
        let s = sample(good, "h", "1");
        assert_eq!(s.name(), good.replace('-', "_"));
    }
}

#[test]
fn set_replaces_the_value_only() {
    let mut s = sample("a_b", "help text", "1");
    s.set(Decimal::parse("2.50").unwrap());
    assert_eq!(s.name(), "a_b");
    assert_eq!(s.help(), "help text");
    assert_eq!(s.value().to_text(), "2.5");
}

#[test]
fn same_name_compares_names() {
    let a = sample("x-y", "one", "1");
    let b = sample("x_y", "two", "2");
    let c = sample("x_z", "one", "1");
    assert!(a.same_name(&b));
    assert!(!a.same_name(&c));
}

#[test]
fn percent_gauge_reads_the_percentage() {
    let s = percent_gauge("web-app_cpu_usage".to_string(), "5.5%".to_string(), "h".to_string())
        .unwrap();
    assert_eq!(s.name(), "web_app_cpu_usage");
    assert_eq!(s.value().to_text(), "5.5");
    assert_eq!(s.value().to_text().parse::<f64>().unwrap(), 5.5);
}

#[test]
fn percent_gauge_fails_on_the_percentage_first() {
    match percent_gauge("1bad".to_string(), "5.5".to_string(), "h".to_string()) {
        Err(ApiError::Parse { text, origin: None }) => assert_eq!(text, "5.5"),
        other => panic!("unexpected: {:?}", other),
    }
    match percent_gauge("1bad".to_string(), "5.5%".to_string(), "h".to_string()) {
        Err(ApiError::Parse { text, origin: None }) => assert_eq!(text, "1bad"),
        other => panic!("unexpected: {:?}", other),
    }
}

#[test]
fn build_makes_four_samples_in_order() {
    let samples = gauges_for_container(&record("web-app", "5.5%", "30.0%", "1.2kB / 3.4MB"))
        .unwrap();
    let got: Vec<(String, String, String)> = samples
        .iter()
        .map(|s| (s.name().to_string(), s.help().to_string(), s.value().to_text()))
        .collect();
    let expected = vec![
        (
            "web_app_cpu_usage".to_string(),
            "CPU Usage for the 'web-app' container".to_string(),
            "5.5".to_string(),
        ),
        (
            "web_app_mem_usage".to_string(),
            "MEM Usage for the 'web-app' container".to_string(),
            "30".to_string(),
        ),
        ("web_app_network_input_bytes".to_string(), "Help".to_string(), "3400000".to_string()),
        ("web_app_network_output_bytes".to_string(), "Help".to_string(), "1200".to_string()),
    ];
    assert_eq!(got, expected);
}

#[test]
fn build_values_as_floats() {
    let samples = gauges_for_container(&record("web-app", "5.5%", "30.0%", "1.2kB / 3.4MB"))
        .unwrap();
    let values: Vec<f64> = samples.iter().map(|s| s.value().to_text().parse().unwrap()).collect();
    assert_eq!(values, vec![5.5, 30.0, 3_400_000.0, 1200.0]);
}

#[test]
fn build_names_are_distinct_metric_names() {
    for container in ["web-app", "a", "_", "db_1", "x-y-z", "", "A9"] {
        let samples = gauges_for_container(&record(container, "1%", "2%", "3B / 4B")).unwrap();
        assert_eq!(samples.len(), 4);
        for (i, s) in samples.iter().enumerate() {
            assert!(is_metric_name(s.name()), "{:?}", s.name());
            for t in &samples[i + 1..] {
                assert_ne!(s.name(), t.name());
            }
        }
    }
}

#[test]
fn build_fails_on_a_bad_cpu_text() {
    let e = gauges_for_container(&record("web-app", "5.5", "30.0%", "1B / 2B")).unwrap_err();
    assert_eq!(origin_of(&e), ("5.5".to_string(), "web-app".to_string(), Field::CpuPercent));
}

#[test]
fn build_fails_on_a_bad_mem_text() {
    let e = gauges_for_container(&record("web-app", "5.5%", "lots", "1B / 2B")).unwrap_err();
    assert_eq!(origin_of(&e), ("lots".to_string(), "web-app".to_string(), Field::MemPercent));
}

#[test]
fn build_fails_on_a_bad_net_text() {
    let e = gauges_for_container(&record("web-app", "5.5%", "30.0%", "1B")).unwrap_err();
    assert_eq!(origin_of(&e), ("1B".to_string(), "web-app".to_string(), Field::NetIo));
    let e = gauges_for_container(&record("web-app", "5.5%", "30.0%", "1B / 2XB")).unwrap_err();
    assert_eq!(origin_of(&e), ("1B / 2XB".to_string(), "web-app".to_string(), Field::NetIo));
}

#[test]
fn build_fails_on_a_container_name_that_gives_no_metric_name() {
    for bad in ["1web", "web.app", "web app", "caf\u{e9}"] {
        let e = gauges_for_container(&record(bad, "5.5%", "30.0%", "1B / 2B")).unwrap_err();
        assert_eq!(origin_of(&e), (bad.to_string(), bad.to_string(), Field::Container));
    }
}

#[test]
fn build_reports_the_first_failing_field() {
    let e = gauges_for_container(&record("1web", "x", "y", "z")).unwrap_err();
    assert_eq!(origin_of(&e), ("x".to_string(), "1web".to_string(), Field::CpuPercent));
    let e = gauges_for_container(&record("1web", "1%", "y", "z")).unwrap_err();
    assert_eq!(origin_of(&e), ("y".to_string(), "1web".to_string(), Field::MemPercent));
    let e = gauges_for_container(&record("1web", "1%", "2%", "z")).unwrap_err();
    assert_eq!(origin_of(&e), ("z".to_string(), "1web".to_string(), Field::NetIo));
}

#[test]
fn new_registry_is_empty() {
    let r = MetricsRegistry::new();
    assert_eq!(r.len(), 0);
    assert_eq!(r.render(), "");
    r.establish_distinct();
}

#[test]
fn register_keeps_the_order_of_registration() {
    let mut r = MetricsRegistry::new();
    r.register(sample("zeta", "last letter", "1")).unwrap();
    r.register(sample("alpha", "first letter", "2.50")).unwrap();
    assert_eq!(r.len(), 2);
    assert_eq!(
        r.render(),
        "# HELP zeta last letter\n# TYPE zeta gauge\nzeta 1\n\
         # HELP alpha first letter\n# TYPE alpha gauge\nalpha 2.5\n"
    );
}

#[test]
fn register_rejects_a_name_twice() {
    let mut r = MetricsRegistry::new();
    r.register(sample("a-b", "one", "1")).unwrap();
    match r.register(sample("a_b", "two", "2")) {
        Err(ApiError::DuplicateName { name }) => assert_eq!(name, "a_b"),
        other => panic!("unexpected: {:?}", other),
    }
    assert_eq!(r.len(), 1);
    assert_eq!(r.render(), "# HELP a_b one\n# TYPE a_b gauge\na_b 1\n");
}

#[test]
fn register_all_stops_at_the_first_collision() {
    let mut r = MetricsRegistry::new();
    r.register(sample("c", "h", "0")).unwrap();
    let batch = vec![sample("a", "h", "1"), sample("b", "h", "2"), sample("a", "h", "3"), sample("d", "h", "4")];
    match r.register_all(batch) {
        Err(ApiError::DuplicateName { name }) => assert_eq!(name, "a"),
        other => panic!("unexpected: {:?}", other),
    }
    assert_eq!(r.len(), 3);
    assert_eq!(
        r.render(),
        "# HELP c h\n# TYPE c gauge\nc 0\n# HELP a h\n# TYPE a gauge\na 1\n# HELP b h\n# TYPE b gauge\nb 2\n"
    );
}

#[test]
fn register_all_collides_with_what_is_held() {
    let mut r = MetricsRegistry::new();
    r.register(sample("c", "h", "0")).unwrap();
    match r.register_all(vec![sample("c", "h", "1"), sample("b", "h", "2")]) {
        Err(ApiError::DuplicateName { name }) => assert_eq!(name, "c"),
        other => panic!("unexpected: {:?}", other),
    }
    assert_eq!(r.len(), 1);
}

#[test]
fn register_all_accepts_distinct_names() {
    let mut r = MetricsRegistry::new();
    r.register_all(vec![sample("a", "h", "1"), sample("b", "h", "2")]).unwrap();
    r.register_all(Vec::new()).unwrap();
    r.register_all(vec![sample("c", "h", "3")]).unwrap();
    assert_eq!(r.len(), 3);
}

#[test]
fn render_twice_gives_the_same_text() {
    let mut r = MetricsRegistry::new();
    r.register_all(gauges_for_container(&record("web-app", "5.5%", "30.0%", "1.2kB / 3.4MB")).unwrap())
        .unwrap();
    let first = r.render();
    let second = r.render();
    assert_eq!(first, second);
    assert_eq!(first.as_bytes(), second.as_bytes());
}

#[test]
fn end_to_end_scenario() {
    let text = get_prometheus_format(vec![record("web-app", "5.5%", "30.0%", "1.2kB / 3.4MB")])
        .unwrap();
    let expected = "\
# HELP web_app_cpu_usage CPU Usage for the 'web-app' container
# TYPE web_app_cpu_usage gauge
web_app_cpu_usage 5.5
# HELP web_app_mem_usage MEM Usage for the 'web-app' container
# TYPE web_app_mem_usage gauge
web_app_mem_usage 30
# HELP web_app_network_input_bytes Help
# TYPE web_app_network_input_bytes gauge
web_app_network_input_bytes 3400000
# HELP web_app_network_output_bytes Help
# TYPE web_app_network_output_bytes gauge
web_app_network_output_bytes 1200
";
    assert_eq!(text, expected);
}

#[test]
fn scrape_of_nothing_is_empty() {
    assert_eq!(get_prometheus_format(Vec::new()).unwrap(), "");
}

#[test]
fn scrape_keeps_the_order_of_the_records() {
    let text = get_prometheus_format(vec![
        record("zeta", "1%", "2%", "3B / 4B"),
        record("alpha", "5%", "6%", "7B / 8B"),
    ])
    .unwrap();
    let values: Vec<&str> = text.lines().filter(|l| !l.starts_with('#')).collect();
    assert_eq!(
        values,
        vec![
            "zeta_cpu_usage 1",
            "zeta_mem_usage 2",
            "zeta_network_input_bytes 4",
            "zeta_network_output_bytes 3",
            "alpha_cpu_usage 5",
            "alpha_mem_usage 6",
            "alpha_network_input_bytes 8",
            "alpha_network_output_bytes 7",
        ]
    );
    assert_eq!(text.lines().count(), 24);
    assert!(text.ends_with('\n'));
}

#[test]
fn containers_with_the_same_normalized_name_collide() {
    let stats = vec![
        record("web-app", "1%", "2%", "3B / 4B"),
        record("web_app", "5%", "6%", "7B / 8B"),
    ];
    match get_prometheus_format(stats) {
        Err(ApiError::DuplicateName { name }) => assert_eq!(name, "web_app_cpu_usage"),
        other => panic!("unexpected: {:?}", other),
    }
}

#[test]
fn the_same_container_twice_collides() {
    let stats = vec![record("db", "1%", "2%", "3B / 4B"), record("db", "1%", "2%", "3B / 4B")];
    match get_prometheus_format(stats) {
        Err(ApiError::DuplicateName { name }) => assert_eq!(name, "db_cpu_usage"),
        other => panic!("unexpected: {:?}", other),
    }
}

#[test]
fn a_failing_record_fails_the_scrape() {
    let stats = vec![record("a", "1%", "2%", "3B / 4B"), record("b", "1%", "oops", "3B / 4B")];
    let e = get_prometheus_format(stats).unwrap_err();
    assert_eq!(origin_of(&e), ("oops".to_string(), "b".to_string(), Field::MemPercent));
}

#[test]
fn a_failing_record_comes_before_a_later_collision() {
    let stats = vec![
        record("a", "1%", "2%", "3B / 4B"),
        record("b", "bad", "2%", "3B / 4B"),
        record("a", "1%", "2%", "3B / 4B"),
    ];
    let e = get_prometheus_format(stats).unwrap_err();
    assert_eq!(origin_of(&e), ("bad".to_string(), "b".to_string(), Field::CpuPercent));
}

#[test]
fn every_failure_is_an_internal_server_error() {
    let errors = vec![
        ApiError::UnrecognizedUnit { unit: "XB".to_string() },
        ApiError::parse("12.3"),
        ApiError::in_field("12.3", "web", Field::CpuPercent),
        ApiError::DuplicateName { name: "a".to_string() },
        ApiError::Source { message: "no runtime".to_string() },
    ];
    for e in &errors {
        assert_eq!(e.status_code(), 500);
    }
}

#[test]
fn failures_carry_their_context() {
    match ApiError::parse("12.3") {
        ApiError::Parse { text, origin: None } => assert_eq!(text, "12.3"),
        other => panic!("unexpected: {:?}", other),
    }
    let e = ApiError::in_field("12.3", "web", Field::NetIo);
    assert_eq!(origin_of(&e), ("12.3".to_string(), "web".to_string(), Field::NetIo));
}

#[test]
fn scrape_passes_the_failure_of_the_source_on() {
    let source = Err(ApiError::Source { message: "no runtime".to_string() });
    match docker_stats_metrics(source) {
        Err(ApiError::Source { message }) => assert_eq!(message, "no runtime"),
        other => panic!("unexpected: {:?}", other),
    }
}

#[test]
fn scrape_renders_what_the_source_gave() {
    let source = Ok(vec![record("db", "0.5%", "1.25%", "10kB / 0B")]);
    let text = docker_stats_metrics(source).unwrap();
    let values: Vec<&str> = text.lines().filter(|l| !l.starts_with('#')).collect();
    assert_eq!(
        values,
        vec![
            "db_cpu_usage 0.5",
            "db_mem_usage 1.25",
            "db_network_input_bytes 0",
            "db_network_output_bytes 10000",
        ]
    );
}

#[test]
fn help_is_escaped_to_stay_on_one_line() {
    let mut r = MetricsRegistry::new();
    r.register(sample("a", "first\nsecond \\ third", "1")).unwrap();
    assert_eq!(r.render(), "# HELP a first\\nsecond \\\\ third\n# TYPE a gauge\na 1\n");
    assert_eq!(r.render().lines().count(), 3);
}

#[test]
fn escape_help_leaves_other_characters() {
    assert_eq!(escape_help("CPU Usage for the 'web-app' container"), "CPU Usage for the 'web-app' container");
    assert_eq!(escape_help(""), "");
    assert_eq!(escape_help("\\n"), "\\\\n");
    assert_eq!(escape_help("a\"b\tc\r"), "a\"b\tc\r");
}

#[test]
fn sample_lines_are_three() {
    let s = sample("web-app_cpu_usage", "CPU Usage for the 'web-app' container", "5.50");
    assert_eq!(
        sample_lines(&s),
        "# HELP web_app_cpu_usage CPU Usage for the 'web-app' container\n\
         # TYPE web_app_cpu_usage gauge\nweb_app_cpu_usage 5.5\n"
    );
}
