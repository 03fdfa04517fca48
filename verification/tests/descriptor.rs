use dut_fleet::descriptor::ConnectionDescriptor;
use dut_fleet::descriptor::DEFAULT_PORT;
use dut_fleet::error::ConfigField;
use dut_fleet::error::DutError;

const KEY: &str = "/home/user/.ssh/testing_rsa";

#[test]
fn new_keeps_its_parts() {
    let d = ConnectionDescriptor::new("10.0.0.7", 2022, KEY);
    assert_eq!(d.host(), "10.0.0.7");
    assert_eq!(d.port(), 2022);
    assert_eq!(d.identity_file(), KEY);
}

#[test]
fn parse_host_alone_takes_the_default_port() {
    let d = ConnectionDescriptor::parse("127.0.0.1", KEY).unwrap();
    assert_eq!(d, ConnectionDescriptor::new("127.0.0.1", 22, KEY));
    assert_eq!(DEFAULT_PORT, 22);
}

#[test]
fn parse_host_and_port() {
    let d = ConnectionDescriptor::parse("localhost:2222", KEY).unwrap();
    assert_eq!(d.host(), "localhost");
    assert_eq!(d.port(), 2222);
    assert_eq!(d.identity_file(), KEY);
}

#[test]
fn parse_accepts_the_whole_port_range() {
    assert_eq!(ConnectionDescriptor::parse("h:0", KEY).unwrap().port(), 0);
    assert_eq!(ConnectionDescriptor::parse("h:65535", KEY).unwrap().port(), 65535);
    assert_eq!(ConnectionDescriptor::parse("h:0022", KEY).unwrap().port(), 22);
}

#[test]
fn parse_names_the_host_when_it_is_malformed() {
    let host = Err(DutError::Configuration(ConfigField::Host));
    assert_eq!(ConnectionDescriptor::parse("", KEY), host);
    assert_eq!(ConnectionDescriptor::parse(":22", KEY), host);
    assert_eq!(ConnectionDescriptor::parse("my host", KEY), host);
    assert_eq!(ConnectionDescriptor::parse(" host:22", KEY), host);
    assert_eq!(ConnectionDescriptor::parse("host\t:x", KEY), host);
}

#[test]
fn parse_names_the_port_when_it_is_malformed() {
    let port = Err(DutError::Configuration(ConfigField::Port));
    assert_eq!(ConnectionDescriptor::parse("host:", KEY), port);
    assert_eq!(ConnectionDescriptor::parse("host:ssh", KEY), port);
    assert_eq!(ConnectionDescriptor::parse("host:65536", KEY), port);
    assert_eq!(ConnectionDescriptor::parse("host:-1", KEY), port);
    assert_eq!(ConnectionDescriptor::parse("host:22 ", KEY), port);
    assert_eq!(ConnectionDescriptor::parse("a:b:22", KEY), port);
    assert_eq!(ConnectionDescriptor::parse("host:22:", KEY), port);
}

#[test]
fn descriptors_are_equal_by_their_fields() {
    let a = ConnectionDescriptor::new("h", 22, KEY);
    assert!(a.same_as(&ConnectionDescriptor::new("h", 22, KEY)));
    assert!(!a.same_as(&ConnectionDescriptor::new("h", 23, KEY)));
    assert!(!a.same_as(&ConnectionDescriptor::new("g", 22, KEY)));
    assert!(!a.same_as(&ConnectionDescriptor::new("h", 22, "/other")));
    assert_eq!(a.clone(), a);
    assert_ne!(a, ConnectionDescriptor::new("h", 23, KEY));
}
