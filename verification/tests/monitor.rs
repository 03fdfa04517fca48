use dut_fleet::descriptor::ConnectionDescriptor;
use dut_fleet::error::ConfigField;
use dut_fleet::error::DutError;
use dut_fleet::monitor::monitor_targets;
use dut_fleet::monitor::MonitorLoop;
use dut_fleet::monitor::MonitorStep;
use dut_fleet::monitor::Phase;
use dut_fleet::monitor::MONITOR_BASE_PORT;
use dut_fleet::monitor::MONITOR_INTERVAL_SECS;
use dut_fleet::registry::Registry;

const KEY: &str = "/k";

fn strings(words: &[&str]) -> Vec<String> {
    words.iter().map(|w| w.to_string()).collect()
}

#[test]
fn three_devices_get_three_consecutive_ports() {
    let mut registry = Registry::new();
    registry.set("kled_1", ConnectionDescriptor::new("10.0.0.1", 22, KEY));
    let targets =
        monitor_targets(&registry, &strings(&["kled_1", "10.0.0.2", "lab:2222"]), KEY).unwrap();
    assert_eq!(targets.len(), 3);
    let ports: Vec<u16> = targets.iter().map(|t| t.port).collect();
    assert_eq!(ports, vec![4022, 4023, 4024]);
    assert_eq!(MONITOR_BASE_PORT, 4022);
    assert!(ports[0] != ports[1] && ports[1] != ports[2] && ports[0] != ports[2]);
    let labels: Vec<&str> = targets.iter().map(|t| t.identity.as_str()).collect();
    assert_eq!(labels, vec!["kled_1", "10.0.0.2", "lab:2222"]);
    assert_eq!(targets[0].descriptor, ConnectionDescriptor::new("10.0.0.1", 22, KEY));
    assert_eq!(targets[1].descriptor, ConnectionDescriptor::new("10.0.0.2", 22, KEY));
    assert_eq!(targets[2].descriptor, ConnectionDescriptor::new("lab", 2222, KEY));
}

#[test]
fn no_device_no_target() {
    assert_eq!(monitor_targets(&Registry::new(), &Vec::new(), KEY).unwrap().len(), 0);
}

#[test]
fn the_same_device_twice_still_gets_two_ports() {
    let targets = monitor_targets(&Registry::new(), &strings(&["a", "a"]), KEY).unwrap();
    assert_eq!(targets[0].port, 4022);
    assert_eq!(targets[1].port, 4023);
}

#[test]
fn the_first_malformed_identifier_fails_the_session() {
    let r = monitor_targets(&Registry::new(), &strings(&["ok", "bad:port", "", "fine"]), KEY);
    assert_eq!(r.unwrap_err(), DutError::Configuration(ConfigField::Port));
    let r = monitor_targets(&Registry::new(), &strings(&["ok", "", "bad:port"]), KEY);
    assert_eq!(r.unwrap_err(), DutError::Configuration(ConfigField::Host));
}

#[test]
fn the_last_port_is_the_highest_there_is() {
    let many: Vec<String> = (0..61514).map(|i| format!("h{}", i)).collect();
    let targets = monitor_targets(&Registry::new(), &many, KEY).unwrap();
    assert_eq!(targets.len(), 61514);
    assert_eq!(targets[61513].port, 65535);
    assert_eq!(targets[0].port, 4022);
}

#[test]
fn more_devices_than_ports_are_refused() {
    let mut many: Vec<String> = (0..61514).map(|i| format!("h{}", i)).collect();
    many.push("".to_string());
    let r = monitor_targets(&Registry::new(), &many, KEY);
    assert_eq!(r.unwrap_err(), DutError::Configuration(ConfigField::MonitorPorts));
}

#[test]
fn a_cycle_is_header_polls_pause() {
    let mut monitor = MonitorLoop::new(3, None);
    let mut steps = Vec::new();
    for _ in 0..10 {
        steps.push(monitor.next());
    }
    assert_eq!(MONITOR_INTERVAL_SECS, 5);
    assert_eq!(
        steps,
        vec![
            MonitorStep::DrawHeader,
            MonitorStep::Poll(0),
            MonitorStep::Poll(1),
            MonitorStep::Poll(2),
            MonitorStep::Sleep(5),
            MonitorStep::DrawHeader,
            MonitorStep::Poll(0),
            MonitorStep::Poll(1),
            MonitorStep::Poll(2),
            MonitorStep::Sleep(5),
        ]
    );
}

#[test]
fn a_bounded_session_stops_after_its_cycles() {
    let mut monitor = MonitorLoop::new(1, Some(2));
    let mut steps = Vec::new();
    for _ in 0..8 {
        steps.push(monitor.next());
    }
    assert_eq!(
        steps,
        vec![
            MonitorStep::DrawHeader,
            MonitorStep::Poll(0),
            MonitorStep::Sleep(5),
            MonitorStep::DrawHeader,
            MonitorStep::Poll(0),
            MonitorStep::Sleep(5),
            MonitorStep::Stop,
            MonitorStep::Stop,
        ]
    );
}

#[test]
fn a_session_of_no_cycles_stops_at_once() {
    let mut monitor = MonitorLoop::new(2, Some(0));
    assert_eq!(monitor.next(), MonitorStep::Stop);
    assert_eq!(monitor.next(), MonitorStep::Stop);
}

#[test]
fn a_session_without_devices_still_refreshes() {
    let mut monitor = MonitorLoop::new(0, None);
    assert_eq!(monitor.next(), MonitorStep::DrawHeader);
    assert_eq!(monitor.next(), MonitorStep::Sleep(5));
    assert_eq!(monitor.next(), MonitorStep::DrawHeader);
}

#[test]
fn stopping_ends_the_session_for_good() {
    let mut monitor = MonitorLoop::new(2, None);
    assert_eq!(monitor.next(), MonitorStep::DrawHeader);
    assert_eq!(monitor.next(), MonitorStep::Poll(0));
    monitor.stop();
    assert_eq!(monitor.next(), MonitorStep::Stop);
    assert_eq!(monitor.next(), MonitorStep::Stop);
    assert!(monitor.stopped);
    assert_eq!(monitor.phase, Phase::Poll(1));
}

#[test]
fn a_poll_beyond_the_devices_pauses() {
    let mut monitor =
        MonitorLoop { targets: 2, phase: Phase::Poll(7), cycles: None, stopped: false };
    assert_eq!(monitor.next(), MonitorStep::Sleep(5));
    assert_eq!(monitor.phase, Phase::Pause);
}
