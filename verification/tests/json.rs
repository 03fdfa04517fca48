use dut_fleet::attributes::Attributes;
use dut_fleet::json::ascending_pairs;
use dut_fleet::json::render_object;
use dut_fleet::json::render_object_list;
use std::collections::BTreeMap;

fn pairs(items: &[(&str, &str)]) -> Vec<(String, String)> {
    items.iter().map(|(a, b)| (a.to_string(), b.to_string())).collect()
}

#[test]
fn pairs_are_put_in_ascending_order_of_their_names() {
    assert_eq!(
        ascending_pairs(&pairs(&[("model", "kled"), ("dut_id", "kled_1"), ("hwid", "K")])),
        pairs(&[("dut_id", "kled_1"), ("hwid", "K"), ("model", "kled")])
    );
    assert_eq!(ascending_pairs(&Vec::new()), Vec::new());
    assert_eq!(
        ascending_pairs(&pairs(&[("b", "1"), ("B", "2"), ("", "3"), ("ab", "4"), ("a", "5")])),
        pairs(&[("", "3"), ("B", "2"), ("a", "5"), ("ab", "4"), ("b", "1")])
    );
}

#[test]
fn of_two_pairs_with_one_name_the_later_is_kept() {
    assert_eq!(
        ascending_pairs(&pairs(&[("mac", "first"), ("hwid", "K"), ("mac", "second")])),
        pairs(&[("hwid", "K"), ("mac", "second")])
    );
    assert_eq!(
        render_object(&pairs(&[("mac", "first"), ("hwid", "K"), ("mac", "second")])),
        Ok("{\"hwid\":\"K\",\"mac\":\"second\"}".to_string())
    );
}

#[test]
fn ascending_pairs_agree_with_an_ordered_map() {
    let given = pairs(&[
        ("z", "1"), ("a", "2"), ("\u{e9}", "3"), ("a", "4"), ("Z", "5"), ("dut_10", "6"),
        ("dut_2", "7"), ("", "8"), ("\u{10000}", "9"), ("\u{ffff}", "10"),
    ]);
    let map: BTreeMap<String, String> = given.iter().cloned().collect();
    let expected: Vec<(String, String)> = map.into_iter().collect();
    assert_eq!(ascending_pairs(&given), expected);
}

#[test]
fn an_object_is_rendered_with_its_members_in_order() {
    assert_eq!(
        render_object(&pairs(&[("model", "kled"), ("dut_id", "kled_ABC")])),
        Ok("{\"dut_id\":\"kled_ABC\",\"model\":\"kled\"}".to_string())
    );
    assert_eq!(render_object(&Vec::new()), Ok("{}".to_string()));
}

#[test]
fn an_object_escapes_what_json_cannot_hold_as_it_is() {
    assert_eq!(
        render_object(&pairs(&[("release", "R120 \"dev\"\n"), ("path", "a\\b")])),
        Ok("{\"path\":\"a\\\\b\",\"release\":\"R120 \\\"dev\\\"\\n\"}".to_string())
    );
}

#[test]
fn the_order_of_setting_does_not_show_in_the_text() {
    let mut a = Attributes::new();
    a.insert("model", "kled");
    a.insert("dut_id", "kled_1");
    a.insert("serial", "S1");
    let mut b = Attributes::new();
    b.insert("serial", "S0");
    b.insert("dut_id", "kled_1");
    b.insert("model", "kled");
    b.insert("serial", "S1");
    assert_eq!(a.render(), b.render());
    assert_eq!(
        a.render(),
        Ok("{\"dut_id\":\"kled_1\",\"model\":\"kled\",\"serial\":\"S1\"}".to_string())
    );
}

#[test]
fn a_list_of_objects_is_rendered_indented_and_in_the_order_given() {
    let objects = vec![
        pairs(&[("model", "kled"), ("dut_id", "dut_2")]),
        Vec::new(),
        pairs(&[("dut_id", "dut_1")]),
    ];
    let expected = "[\n  {\n    \"dut_id\": \"dut_2\",\n    \"model\": \"kled\"\n  },\n  {},\n  {\n    \"dut_id\": \"dut_1\"\n  }\n]";
    assert_eq!(render_object_list(&objects), Ok(expected.to_string()));
    assert_eq!(render_object_list(&Vec::new()), Ok("[]".to_string()));
}
