use dut_fleet::attributes::Attributes;
use dut_fleet::descriptor::ConnectionDescriptor;
use dut_fleet::discovery::collect;
use dut_fleet::discovery::distinct_candidates;
use dut_fleet::discovery::parse_target_list;
use dut_fleet::discovery::plan_discovery;
use dut_fleet::discovery::remote_discover_command;
use dut_fleet::discovery::render_report;
use dut_fleet::discovery::report_objects;
use dut_fleet::discovery::ArgsDiscover;
use dut_fleet::discovery::DiscoverPlan;
use dut_fleet::discovery::DiscoveryReport;
use dut_fleet::error::DutError;
use dut_fleet::json::rendered;
use dut_fleet::resolver::DiscoveryResult;
use std::collections::HashMap;

fn strings(words: &[&str]) -> Vec<String> {
    words.iter().map(|w| w.to_string()).collect()
}

fn args(remote: Option<&str>, list: Option<&str>, interface: Option<&str>, extra: &[&str]) -> ArgsDiscover {
    ArgsDiscover {
        interface: interface.map(|s| s.to_string()),
        remote: remote.map(|s| s.to_string()),
        target_list: list.map(|s| s.to_string()),
        extra_attr: strings(extra),
    }
}

fn success(host: &str, identity: &str) -> Result<DiscoveryResult, DutError> {
    let mut attributes = Attributes::new();
    attributes.insert("dut_id", identity);
    attributes.insert("model", "kled");
    Ok(DiscoveryResult { descriptor: ConnectionDescriptor::new(host, 22, "/k"), attributes })
}

fn unreachable_host(host: &str) -> Result<DiscoveryResult, DutError> {
    Err(DutError::Connectivity(host.to_string()))
}

#[test]
fn a_remote_machine_comes_first() {
    assert_eq!(
        plan_discovery(&args(Some("lab:2222"), Some("list.txt"), Some("eth0"), &["board"])),
        DiscoverPlan::Remote {
            host: "lab:2222".to_string(),
            command: "~/lium dut discover board".to_string(),
        }
    );
}

#[test]
fn a_list_comes_before_a_scan() {
    assert_eq!(
        plan_discovery(&args(None, Some("list.txt"), Some("eth0"), &[])),
        DiscoverPlan::ListFromFile("list.txt".to_string())
    );
    assert_eq!(plan_discovery(&args(None, Some("-"), None, &[])), DiscoverPlan::ListFromInput);
    assert_eq!(
        plan_discovery(&args(None, Some("--"), None, &[])),
        DiscoverPlan::ListFromFile("--".to_string())
    );
}

#[test]
fn without_list_the_local_network_is_scanned() {
    assert_eq!(plan_discovery(&args(None, None, None, &["x"])), DiscoverPlan::LocalScan(None));
    assert_eq!(
        plan_discovery(&args(None, None, Some("wlan0"), &[])),
        DiscoverPlan::LocalScan(Some("wlan0".to_string()))
    );
}

#[test]
fn the_remote_command_hands_the_extra_names_on() {
    assert_eq!(remote_discover_command(&Vec::new()), "~/lium dut discover");
    assert_eq!(remote_discover_command(&strings(&["board"])), "~/lium dut discover board");
    assert_eq!(
        remote_discover_command(&strings(&["board", "gbb_flags", ""])),
        "~/lium dut discover board gbb_flags "
    );
}

#[test]
fn a_list_names_one_candidate_per_line() {
    assert_eq!(
        parse_target_list("10.0.0.1\n10.0.0.2:2222\nkled_1\n"),
        strings(&["10.0.0.1", "10.0.0.2:2222", "kled_1"])
    );
}

#[test]
fn blank_lines_and_surrounding_whitespace_are_ignored() {
    assert_eq!(
        parse_target_list("\n\n  10.0.0.1  \n\t\n\r\n10.0.0.2\r\n   \n 10.0.0.3"),
        strings(&["10.0.0.1", "10.0.0.2", "10.0.0.3"])
    );
    assert_eq!(parse_target_list(""), Vec::<String>::new());
    assert_eq!(parse_target_list(" \n\t\n "), Vec::<String>::new());
    assert_eq!(parse_target_list("a b\n"), strings(&["a b"]));
    assert_eq!(parse_target_list("one"), strings(&["one"]));
}

#[test]
fn a_list_is_read_as_trim_split_trim_filter() {
    for text in ["", "a", "\na\n\nb  \n", " a \r\n b \r\n\r\n", "x\u{3000}\n\u{a0}y", "\n\n\n", "a\n\n\nb"] {
        let expected: Vec<String> = text
            .trim()
            .split('\n')
            .map(str::trim)
            .filter(|s| !s.is_empty())
            .map(str::to_string)
            .collect();
        assert_eq!(parse_target_list(text), expected);
    }
}

#[test]
fn each_candidate_is_probed_once() {
    assert_eq!(
        distinct_candidates(&strings(&["b", "a", "b", "c", "a", "b"])),
        strings(&["b", "a", "c"])
    );
    assert_eq!(distinct_candidates(&Vec::new()), Vec::<String>::new());
    assert_eq!(distinct_candidates(&strings(&["a", "A", "a "])), strings(&["a", "A", "a "]));
}

#[test]
fn failed_probes_are_dropped_and_the_rest_kept_in_order() {
    let outcomes = vec![
        success("10.0.0.1", "dut_1"),
        unreachable_host("10.0.0.2"),
        success("10.0.0.3", "dut_3"),
        Err(DutError::Authentication("10.0.0.4".to_string())),
        Err(DutError::Resolution("dut_id".to_string())),
        success("10.0.0.6", "dut_6"),
        unreachable_host("10.0.0.7"),
    ];
    let report = collect(outcomes);
    assert_eq!(report.attempted, 7);
    assert_eq!(report.results.len(), 3);
    let hosts: Vec<&str> = report.results.iter().map(|r| r.descriptor.host()).collect();
    assert_eq!(hosts, vec!["10.0.0.1", "10.0.0.3", "10.0.0.6"]);
    let ids: Vec<Option<&str>> = report.results.iter().map(|r| r.attributes.identity()).collect();
    assert_eq!(ids, vec![Some("dut_1"), Some("dut_3"), Some("dut_6")]);
}

#[test]
fn a_failure_does_not_change_what_the_others_contribute() {
    let with_failures = collect(vec![
        unreachable_host("10.0.0.9"),
        success("10.0.0.1", "dut_1"),
        unreachable_host("10.0.0.8"),
        success("10.0.0.2", "dut_2"),
    ]);
    let without = collect(vec![success("10.0.0.1", "dut_1"), success("10.0.0.2", "dut_2")]);
    assert_eq!(with_failures.attempted, 4);
    assert_eq!(without.attempted, 2);
    assert_eq!(with_failures.results.len(), without.results.len());
    for (a, b) in with_failures.results.iter().zip(without.results.iter()) {
        assert_eq!(a.descriptor, b.descriptor);
        assert_eq!(a.attributes.pairs(), b.attributes.pairs());
    }
}

#[test]
fn nothing_attempted_or_nothing_resolved() {
    let none = collect(Vec::new());
    assert_eq!(none.attempted, 0);
    assert!(none.results.is_empty());
    let all_failed = collect(vec![unreachable_host("a"), unreachable_host("b")]);
    assert_eq!(all_failed.attempted, 2);
    assert!(all_failed.results.is_empty());
}

#[test]
fn the_report_is_a_json_array_of_attribute_objects() {
    let report = collect(vec![
        success("10.0.0.1", "dut_1"),
        unreachable_host("10.0.0.2"),
        success("10.0.0.3", "dut \"3\""),
    ]);
    let text = render_report(&report).unwrap();
    let back: Vec<HashMap<String, String>> = serde_json::from_str(&text).unwrap();
    assert_eq!(back.len(), 2);
    assert_eq!(back[0]["dut_id"], "dut_1");
    assert_eq!(back[0]["model"], "kled");
    assert_eq!(back[0].len(), 2);
    assert_eq!(back[1]["dut_id"], "dut \"3\"");
    assert!(text.contains('\n'));
}

#[test]
fn the_report_of_nothing_is_the_empty_array() {
    let report = DiscoveryReport { attempted: 0, results: Vec::new() };
    assert_eq!(render_report(&report), Ok("[]".to_string()));
}

#[test]
fn a_rendering_that_failed_is_an_encoding_failure() {
    let failure = serde_json::from_str::<u8>("not json").unwrap_err();
    assert_eq!(rendered(Err(failure)), Err(DutError::Encoding));
    assert_eq!(rendered(Ok("{}".to_string())), Ok("{}".to_string()));
}

#[test]
fn the_objects_of_a_report_are_the_attributes_of_its_results() {
    let report = collect(vec![
        success("10.0.0.1", "dut_1"),
        unreachable_host("10.0.0.2"),
        success("10.0.0.3", "dut_3"),
    ]);
    let pair = |a: &str, b: &str| (a.to_string(), b.to_string());
    assert_eq!(
        report_objects(&report),
        vec![
            vec![pair("dut_id", "dut_1"), pair("model", "kled")],
            vec![pair("dut_id", "dut_3"), pair("model", "kled")],
        ]
    );
}

#[test]
fn the_report_is_rendered_the_same_whatever_the_order_of_the_attributes() {
    let mut first = Attributes::new();
    first.insert("model", "kled");
    first.insert("dut_id", "dut_1");
    let mut second = Attributes::new();
    second.insert("dut_id", "dut_1");
    second.insert("model", "kled");
    let report_of = |attributes: Attributes| DiscoveryReport {
        attempted: 1,
        results: vec![DiscoveryResult {
            descriptor: ConnectionDescriptor::new("10.0.0.1", 22, "/k"),
            attributes,
        }],
    };
    let expected = "[\n  {\n    \"dut_id\": \"dut_1\",\n    \"model\": \"kled\"\n  }\n]";
    assert_eq!(render_report(&report_of(first)), Ok(expected.to_string()));
    assert_eq!(render_report(&report_of(second)), Ok(expected.to_string()));
}
