use dut_fleet::attributes::Attributes;
use dut_fleet::descriptor::ConnectionDescriptor;
use dut_fleet::error::ConfigField;
use dut_fleet::error::DutError;
use dut_fleet::registry::Registry;
use dut_fleet::resolver::resolution;
use dut_fleet::resolver::DiscoveryResult;

const KEY: &str = "/keys/testing_rsa";

fn descriptor(host: &str, port: u16) -> ConnectionDescriptor {
    ConnectionDescriptor::new(host, port, KEY)
}

fn entry(identity: &str, host: &str, port: u16) -> (String, ConnectionDescriptor) {
    (identity.to_string(), descriptor(host, port))
}

#[test]
fn new_registry_is_uninitialized() {
    let registry = Registry::new();
    assert!(!registry.is_loaded());
    assert_eq!(registry.len(), 0);
    assert_eq!(registry.entries(), Err(DutError::StoreUninitialized));
    assert_eq!(registry.identities(), Err(DutError::StoreUninitialized));
}

#[test]
fn set_twice_keeps_one_entry() {
    let mut registry = Registry::new();
    registry.set("dut_a", descriptor("10.0.0.1", 22));
    let once = registry.entries().unwrap();
    registry.set("dut_a", descriptor("10.0.0.1", 22));
    let twice = registry.entries().unwrap();
    assert_eq!(once, twice);
    assert_eq!(twice, vec![entry("dut_a", "10.0.0.1", 22)]);
    assert_eq!(registry.len(), 1);
}

#[test]
fn two_identities_are_both_listed() {
    let mut registry = Registry::new();
    registry.set("dut_b", descriptor("10.0.0.2", 22));
    registry.set("dut_a", descriptor("10.0.0.1", 2222));
    assert_eq!(
        registry.entries().unwrap(),
        vec![entry("dut_a", "10.0.0.1", 2222), entry("dut_b", "10.0.0.2", 22)]
    );
}

#[test]
fn set_overwrites_the_last_write_wins() {
    let mut registry = Registry::new();
    registry.set("dut_a", descriptor("10.0.0.1", 22));
    registry.set("dut_b", descriptor("10.0.0.2", 22));
    registry.set("dut_a", descriptor("10.0.0.9", 2022));
    assert_eq!(
        registry.entries().unwrap(),
        vec![entry("dut_a", "10.0.0.9", 2022), entry("dut_b", "10.0.0.2", 22)]
    );
    assert_eq!(registry.get("dut_a"), Some(&descriptor("10.0.0.9", 2022)));
}

#[test]
fn entries_are_listed_in_ascending_order_of_identity() {
    let mut registry = Registry::new();
    for id in ["m", "z", "a", "ab", "B", "", "dut_10", "dut_2"] {
        registry.set(id, descriptor(id, 22));
    }
    assert_eq!(
        registry.identities().unwrap(),
        vec!["", "B", "a", "ab", "dut_10", "dut_2", "m", "z"]
    );
    let listed: Vec<String> = registry.entries().unwrap().into_iter().map(|e| e.0).collect();
    assert_eq!(listed, registry.identities().unwrap());
}

#[test]
fn remove_of_an_absent_identity_changes_nothing() {
    let mut registry = Registry::new();
    registry.set("dut_a", descriptor("10.0.0.1", 22));
    registry.set("dut_b", descriptor("10.0.0.2", 22));
    let before = registry.entries().unwrap();
    registry.remove("dut_c");
    registry.remove("");
    registry.remove("dut");
    assert_eq!(registry.entries().unwrap(), before);
}

#[test]
fn remove_on_an_uninitialized_registry_leaves_it_so() {
    let mut registry = Registry::new();
    registry.remove("dut_a");
    assert!(!registry.is_loaded());
    assert_eq!(registry.entries(), Err(DutError::StoreUninitialized));
}

#[test]
fn remove_takes_out_the_one_entry() {
    let mut registry = Registry::new();
    registry.set("dut_a", descriptor("10.0.0.1", 22));
    registry.set("dut_b", descriptor("10.0.0.2", 22));
    registry.set("dut_c", descriptor("10.0.0.3", 22));
    registry.remove("dut_b");
    assert_eq!(
        registry.entries().unwrap(),
        vec![entry("dut_a", "10.0.0.1", 22), entry("dut_c", "10.0.0.3", 22)]
    );
    assert_eq!(registry.get("dut_b"), None);
    registry.remove("dut_a");
    registry.remove("dut_c");
    assert_eq!(registry.entries().unwrap(), Vec::new());
    assert!(registry.is_loaded());
}

#[test]
fn clear_empties_whatever_was_there() {
    let mut registry = Registry::new();
    registry.set("dut_a", descriptor("10.0.0.1", 22));
    registry.set("dut_b", descriptor("10.0.0.2", 22));
    registry.clear();
    assert_eq!(registry.entries().unwrap(), Vec::new());
    assert_eq!(registry.len(), 0);
    registry.clear();
    assert_eq!(registry.entries().unwrap(), Vec::new());
}

#[test]
fn clear_initializes_an_uninitialized_registry() {
    let mut registry = Registry::new();
    registry.clear();
    assert!(registry.is_loaded());
    assert_eq!(registry.entries(), Ok(Vec::new()));
    assert_eq!(registry.identities(), Ok(Vec::new()));
}

#[test]
fn load_stores_in_order_and_is_initialized() {
    let registry = Registry::load(&vec![
        entry("dut_b", "10.0.0.2", 22),
        entry("dut_a", "10.0.0.1", 22),
        entry("dut_b", "10.0.0.3", 23),
    ]);
    assert!(registry.is_loaded());
    assert_eq!(
        registry.entries().unwrap(),
        vec![entry("dut_a", "10.0.0.1", 22), entry("dut_b", "10.0.0.3", 23)]
    );
    let empty = Registry::load(&Vec::new());
    assert!(empty.is_loaded());
    assert_eq!(empty.entries(), Ok(Vec::new()));
}

#[test]
fn load_of_a_listing_gives_the_same_listing() {
    let mut registry = Registry::new();
    registry.set("x", descriptor("10.1.1.1", 1));
    registry.set("y", descriptor("10.1.1.2", 2));
    let listing = registry.entries().unwrap();
    assert_eq!(Registry::load(&listing).entries().unwrap(), listing);
}

#[test]
fn lookup_names_the_unknown_identity() {
    let mut registry = Registry::new();
    registry.set("dut_a", descriptor("10.0.0.1", 22));
    assert_eq!(registry.lookup("dut_a"), Ok(descriptor("10.0.0.1", 22)));
    assert_eq!(registry.lookup("dut_x"), Err(DutError::UnknownIdentifier("dut_x".to_string())));
    assert_eq!(
        Registry::new().lookup("dut_a"),
        Err(DutError::UnknownIdentifier("dut_a".to_string()))
    );
}

#[test]
fn resolve_prefers_a_known_identity() {
    let mut registry = Registry::new();
    registry.set("kled_1", ConnectionDescriptor::new("10.0.0.1", 2201, "/stored/key"));
    registry.set("localhost:1", ConnectionDescriptor::new("10.0.0.2", 22, "/stored/key"));
    assert_eq!(
        registry.resolve("kled_1", KEY),
        Ok(ConnectionDescriptor::new("10.0.0.1", 2201, "/stored/key"))
    );
    assert_eq!(
        registry.resolve("localhost:1", KEY),
        Ok(ConnectionDescriptor::new("10.0.0.2", 22, "/stored/key"))
    );
    assert_eq!(registry.resolve("localhost:2", KEY), Ok(descriptor("localhost", 2)));
    assert_eq!(registry.resolve("kled_2", KEY), Ok(descriptor("kled_2", 22)));
}

#[test]
fn resolve_reports_a_malformed_target() {
    let registry = Registry::new();
    assert_eq!(registry.resolve("", KEY), Err(DutError::Configuration(ConfigField::Host)));
    assert_eq!(
        registry.resolve("host:port", KEY),
        Err(DutError::Configuration(ConfigField::Port))
    );
}

#[test]
fn add_then_list_gives_back_what_was_resolved() {
    let raw = "192.168.1.20:2222";
    let target = ConnectionDescriptor::parse(raw, KEY).unwrap();
    let names = vec!["dut_id".to_string(), "model".to_string()];
    let answers = vec![Some("kled_XYZ".to_string()), Some("kled".to_string())];
    let found = resolution(target, &names, &answers).unwrap();
    let mut registry = Registry::new();
    let identity = registry.add(&found).unwrap();
    assert_eq!(identity, "kled_XYZ");
    assert_eq!(Some(identity.as_str()), found.attributes.identity());
    assert_eq!(
        registry.entries().unwrap(),
        vec![(identity, found.descriptor.clone())]
    );
    assert_eq!(found.descriptor, descriptor("192.168.1.20", 2222));
}

#[test]
fn add_refuses_a_result_without_identity() {
    let mut attributes = Attributes::new();
    attributes.insert("model", "kled");
    let found = DiscoveryResult { descriptor: descriptor("10.0.0.1", 22), attributes };
    let mut registry = Registry::new();
    assert_eq!(registry.add(&found), Err(DutError::Resolution("dut_id".to_string())));
    assert!(!registry.is_loaded());
    registry.set("dut_a", descriptor("10.0.0.3", 22));
    assert_eq!(registry.add(&found), Err(DutError::Resolution("dut_id".to_string())));
    assert_eq!(registry.entries().unwrap(), vec![entry("dut_a", "10.0.0.3", 22)]);
}

#[test]
fn add_of_a_known_identity_updates_its_descriptor() {
    let mut attributes = Attributes::new();
    attributes.insert("dut_id", "dut_a");
    let found = DiscoveryResult { descriptor: descriptor("10.0.0.77", 22), attributes };
    let mut registry = Registry::new();
    registry.set("dut_a", descriptor("10.0.0.1", 22));
    assert_eq!(registry.add(&found), Ok("dut_a".to_string()));
    assert_eq!(registry.entries().unwrap(), vec![entry("dut_a", "10.0.0.77", 22)]);
}
